//! The LCD schedule, STAT/LY, and the scanline renderer.
//!
//! Each line takes 456 cycles and a frame 154 lines, of which the last ten are
//! VBlank. A line is drawn whole as it finishes: background first, then up to
//! ten sprites over it.
use vstd::prelude::*;

verus! {

pub const WIDTH: usize = 160;

pub const HEIGHT: usize = 144;

pub const CYCLES_PER_LINE: u16 = 456;

pub const LINES_PER_FRAME: u8 = 154;

pub const VBLANK_LINE: u8 = 144;

pub struct Ppu {
    pub(crate) counter: u16,
    pub lcdc: u8,
    pub stat: u8,
    pub scy: u8,
    pub scx: u8,
    pub ly: u8,
    pub lyc: u8,
    pub bgp: u8,
    pub wy: u8,
    pub wx: u8,
    pub framebuffer: [u8; 23040],
    pub vram: [u8; 0x2000],
    pub(crate) bg_ids: [u8; 160],
    pub oam: [u8; 0xA0],
    pub obp0: u8,
    pub obp1: u8,
}

/// The 2-bit colour number of pixel `bit` (7 is the leftmost) of a tile row
/// stored as the two bytes `lo` and `hi`.
pub open spec fn tile_pixel(lo: u8, hi: u8, bit: u8) -> u8 {
    (((hi >> bit) & 1) * 2 + ((lo >> bit) & 1)) as u8
}

/// The shade a palette register gives colour number `id`.
pub open spec fn shade(palette: u8, id: u8) -> u8 {
    (palette >> (id * 2) as u8) & 3
}

/// A tile number read as a signed byte.
pub open spec fn signed_index(index: u8) -> int {
    if index < 128 {
        index as int
    } else {
        index - 256
    }
}

/// The PPU as plain values.
pub ghost struct PpuState {
    pub counter: u16,
    pub lcdc: u8,
    pub stat: u8,
    pub scy: u8,
    pub scx: u8,
    pub ly: u8,
    pub lyc: u8,
    pub bgp: u8,
    pub wy: u8,
    pub wx: u8,
    pub obp0: u8,
    pub obp1: u8,
    pub framebuffer: Seq<u8>,
    pub vram: Seq<u8>,
    pub bg_ids: Seq<u8>,
    pub oam: Seq<u8>,
}

impl PpuState {
    pub open spec fn wf(self) -> bool {
        &&& self.counter < CYCLES_PER_LINE
        &&& self.ly < LINES_PER_FRAME
        &&& self.sized()
    }

    /// Every memory has its hardware size.
    pub open spec fn sized(self) -> bool {
        &&& self.framebuffer.len() == 23040
        &&& self.vram.len() == 0x2000
        &&& self.bg_ids.len() == 160
        &&& self.oam.len() == 0xA0
    }

    /// The mode STAT reports: 1 in VBlank; otherwise 2 while OAM is searched,
    /// 3 while pixels are transferred, 0 in HBlank.
    pub open spec fn mode(self) -> u8 {
        if self.ly >= VBLANK_LINE {
            1
        } else if self.counter < 80 {
            2
        } else if self.counter < 252 {
            3
        } else {
            0
        }
    }

    /// STAT as read: bit 7 unused and 1, bits 6-3 as written, bit 2 the LY=LYC
    /// coincidence, bits 1-0 the mode.
    pub open spec fn stat_read(self) -> u8 {
        0x80 | (self.stat & 0x78) | (if self.ly == self.lyc { 4u8 } else { 0u8 }) | self.mode()
    }

    // ---- background and window -------------------------------------------
    /// Whether the window covers pixel `x` of `line`: it is enabled, and the
    /// pixel is at or below WY and at or right of WX - 7.
    pub open spec fn in_window(self, line: int, x: int) -> bool {
        self.lcdc & 0x20 != 0 && line >= self.wy && x + 7 >= self.wx
    }

    /// The tile map and the position in it that pixel `x` of `line` shows: the
    /// window's own map, counted from its top-left corner, where the window
    /// covers the pixel; otherwise the background map, scrolled by SCX and SCY
    /// and wrapping in both directions.
    pub open spec fn map_position(self, line: int, x: int) -> (int, int, int) {
        if self.in_window(line, x) {
            (if self.lcdc & 0x40 != 0 { 0x1C00 } else { 0x1800 }, x + 7 - self.wx, line - self.wy)
        } else {
            (
                if self.lcdc & 0x08 != 0 { 0x1C00 } else { 0x1800 },
                (x + self.scx) % 256,
                (line + self.scy) % 256,
            )
        }
    }

    /// Where the tile row for a background or window pixel starts in VRAM;
    /// LCDC picks the tile addressing mode.
    pub open spec fn bg_tile_row_addr(self, line: int, x: int) -> int {
        let (map_base, map_x, map_y) = self.map_position(line, x);
        let index = self.vram[map_base + (map_y / 8) * 32 + map_x / 8];
        let tile = if self.lcdc & 0x10 == 0 {
            0x1000 + signed_index(index) * 16
        } else {
            index * 16
        };
        tile + (map_y % 8) * 2
    }

    /// The colour number of the background or window at pixel `x` of `line`.
    pub open spec fn bg_id(self, line: int, x: int) -> u8 {
        let addr = self.bg_tile_row_addr(line, x);
        let map_x = self.map_position(line, x).1;
        tile_pixel(self.vram[addr], self.vram[addr + 1], (7 - map_x % 8) as u8)
    }

    pub open spec fn bg_shade(self, line: int, x: int) -> u8 {
        shade(self.bgp, self.bg_id(line, x))
    }

    // ---- sprites ----------------------------------------------------------
    pub open spec fn sprite_height(self) -> int {
        if self.lcdc & 0x04 != 0 {
            16
        } else {
            8
        }
    }

    /// The screen line of a sprite's top row: stored Y is offset by 16.
    pub open spec fn sprite_top(self, i: usize) -> int {
        self.oam[i * 4] - 16
    }

    /// The screen column of a sprite's left edge: stored X is offset by 8.
    pub open spec fn sprite_left(self, i: usize) -> int {
        self.oam[i * 4 + 1] - 8
    }

    pub open spec fn on_line(self, i: usize, line: int) -> bool {
        self.sprite_top(i) <= line < self.sprite_top(i) + self.sprite_height()
    }

    /// The sprites a line shows: the first ten, in OAM order, that overlap it,
    /// looking at the first `n` OAM entries.
    pub open spec fn selected_upto(self, line: int, n: nat) -> Seq<usize>
        decreases n,
    {
        if n == 0 {
            Seq::empty()
        } else {
            let s = self.selected_upto(line, (n - 1) as nat);
            if self.on_line((n - 1) as usize, line) && s.len() < 10 {
                s.push((n - 1) as usize)
            } else {
                s
            }
        }
    }

    pub open spec fn selected(self, line: int) -> Seq<usize> {
        self.selected_upto(line, 40)
    }

    /// Sprite priority: the smaller X wins, and on a tie the earlier OAM entry.
    pub open spec fn outranks(self, i: usize, j: usize) -> bool {
        self.oam[i * 4 + 1] < self.oam[j * 4 + 1] || (self.oam[i * 4 + 1] == self.oam[j * 4 + 1]
            && i < j)
    }

    /// The colour number of a sprite at screen column `sx` on `line`, with the
    /// Y flip, the X flip and the 8x16 tile pairing applied.
    pub open spec fn sprite_id(self, i: usize, line: int, sx: int) -> u8 {
        let attr = self.oam[i * 4 + 3];
        let tile: int = if self.sprite_height() == 16 {
            (self.oam[i * 4 + 2] & 0xFE) as int
        } else {
            self.oam[i * 4 + 2] as int
        };
        let row = line - self.sprite_top(i);
        let row = if attr & 0x40 != 0 { self.sprite_height() - 1 - row } else { row };
        let addr = tile * 16 + row * 2;
        let col = sx - self.sprite_left(i);
        let bit = if attr & 0x20 != 0 { col } else { 7 - col };
        tile_pixel(self.vram[addr], self.vram[addr + 1], bit as u8)
    }

    /// Whether a sprite puts a pixel at `sx`: it covers the column, the pixel
    /// is not transparent, and it is not behind a non-zero background pixel.
    pub open spec fn sprite_writes(self, i: usize, line: int, sx: int) -> bool {
        let col = sx - self.sprite_left(i);
        &&& 0 <= col < 8
        &&& self.sprite_id(i, line, sx) != 0
        &&& !(self.oam[i * 4 + 3] & 0x80 != 0 && self.bg_id(line, sx) != 0)
    }

    pub open spec fn sprite_shade(self, i: usize, line: int, sx: int) -> u8 {
        let palette = if self.oam[i * 4 + 3] & 0x10 != 0 { self.obp1 } else { self.obp0 };
        shade(palette, self.sprite_id(i, line, sx))
    }

    /// The sprite of `s` that shows at `sx`: of those that put a pixel there,
    /// the one that outranks the others.
    pub open spec fn winner(self, s: Seq<usize>, line: int, sx: int) -> Option<usize>
        decreases s.len(),
    {
        if s.len() == 0 {
            None
        } else {
            let best = self.winner(s.drop_last(), line, sx);
            let c = s.last();
            if self.sprite_writes(c, line, sx) && (best is None || self.outranks(c, best.unwrap())) {
                Some(c)
            } else {
                best
            }
        }
    }

    /// The shade that ends up at column `x` of `line`.
    pub open spec fn pixel(self, line: int, x: int) -> u8 {
        if self.lcdc & 0x02 != 0 {
            match self.winner(self.selected(line), line, x) {
                Some(i) => self.sprite_shade(i, line, x),
                None => self.bg_shade(line, x),
            }
        } else {
            self.bg_shade(line, x)
        }
    }

    /// The state after drawing `line`: its row of the framebuffer and the
    /// background colour numbers of the line.
    pub open spec fn rendered(self, line: int) -> PpuState {
        PpuState {
            framebuffer: Seq::new(
                23040,
                |k: int|
                    if line * 160 <= k < line * 160 + 160 {
                        self.pixel(line, k - line * 160)
                    } else {
                        self.framebuffer[k]
                    },
            ),
            bg_ids: Seq::new(160, |x: int| self.bg_id(line, x)),
            ..self
        }
    }

    // ---- schedule ---------------------------------------------------------
    /// One line's worth of cycles spent: LY moves on, the line that finished
    /// is drawn if it is visible, and the interrupt bits it raised: bit 0 on
    /// entering VBlank, bit 1 when LY reaches LYC with that STAT source on.
    pub open spec fn complete_line(self) -> (PpuState, u8) {
        let finished = self.ly;
        let next_ly = ((self.ly + 1) % 154) as u8;
        let drawn = if finished < VBLANK_LINE {
            self.rendered(finished as int)
        } else {
            self
        };
        let after = PpuState { counter: (self.counter - CYCLES_PER_LINE) as u16, ly: next_ly, ..drawn };
        let vblank: u8 = if next_ly == VBLANK_LINE { 1 } else { 0 };
        let lyc: u8 = if next_ly == self.lyc && self.stat & 0x40 != 0 { 2 } else { 0 };
        (after, vblank | lyc)
    }

    /// Completes lines while a whole line's worth of cycles is pending.
    pub open spec fn advance(self) -> (PpuState, u8)
        decreases self.counter,
    {
        if self.counter < CYCLES_PER_LINE {
            (self, 0)
        } else {
            let (next, irq) = self.complete_line();
            let (last, more) = next.advance();
            (last, irq | more)
        }
    }

    /// `cycles` more cycles, counted modulo 2^16 as the cycle counter holds them.
    pub open spec fn tick(self, cycles: u32) -> (PpuState, u8) {
        PpuState { counter: (self.counter + (cycles % 65536)) as u16, ..self }.advance()
    }
}

/// The view is the PPU's fields.
pub(crate) broadcast proof fn lemma_ppu_view(p: Ppu)
    ensures
        #[trigger] p@ == (PpuState {
            counter: p.counter,
            lcdc: p.lcdc,
            stat: p.stat,
            scy: p.scy,
            scx: p.scx,
            ly: p.ly,
            lyc: p.lyc,
            bgp: p.bgp,
            wy: p.wy,
            wx: p.wx,
            obp0: p.obp0,
            obp1: p.obp1,
            framebuffer: p.framebuffer@,
            vram: p.vram@,
            bg_ids: p.bg_ids@,
            oam: p.oam@,
        }),
        p.framebuffer@.len() == 23040,
        p.vram@.len() == 0x2000,
        p.bg_ids@.len() == 160,
        p.oam@.len() == 0xA0,
{
}

proof fn lemma_tile_pixel(lo: u8, hi: u8, bit: u8)
    requires
        bit < 8,
    ensures
        ((hi >> bit) & 1) << 1u8 | ((lo >> bit) & 1) == tile_pixel(lo, hi, bit),
        tile_pixel(lo, hi, bit) < 4,
{
    assert(((hi >> bit) & 1) << 1u8 | ((lo >> bit) & 1) == ((hi >> bit) & 1) * 2 + ((lo >> bit) & 1)
        && ((hi >> bit) & 1) * 2 + ((lo >> bit) & 1) < 4) by (bit_vector)
        requires
            bit < 8,
    ;
}

/// The state after the background pass over `line`: the row holds background
/// shades and `bg_ids` the background colour numbers.
pub open spec fn with_background(p: PpuState, line: int) -> PpuState {
    PpuState {
        framebuffer: Seq::new(
            23040,
            |k: int|
                if line * 160 <= k < line * 160 + 160 {
                    p.bg_shade(line, k - line * 160)
                } else {
                    p.framebuffer[k]
                },
        ),
        bg_ids: Seq::new(160, |x: int| p.bg_id(line, x)),
        ..p
    }
}

/// Which sprites a line shows depends only on OAM and the sprite size.
proof fn lemma_selected_frame(p: PpuState, q: PpuState, line: int, n: nat)
    requires
        p.oam == q.oam,
        p.lcdc == q.lcdc,
    ensures
        p.selected_upto(line, n) == q.selected_upto(line, n),
    decreases n,
{
    if n > 0 {
        lemma_selected_frame(p, q, line, (n - 1) as nat);
    }
}

/// Which sprite shows at a column depends only on OAM, VRAM and the
/// registers that place the background and the window and size the sprites.
proof fn lemma_winner_frame(p: PpuState, q: PpuState, s: Seq<usize>, line: int, sx: int)
    requires
        p.oam == q.oam,
        p.vram == q.vram,
        p.lcdc == q.lcdc,
        p.scx == q.scx,
        p.scy == q.scy,
        p.wx == q.wx,
        p.wy == q.wy,
    ensures
        p.winner(s, line, sx) == q.winner(s, line, sx),
    decreases s.len(),
{
    if s.len() > 0 {
        lemma_winner_frame(p, q, s.drop_last(), line, sx);
    }
}

proof fn lemma_row_index(line: int, x: int)
    requires
        0 <= line < 144,
        0 <= x < 160,
    ensures
        0 <= line * 160 + x < 23040,
        line * 160 <= line * 160 + x < line * 160 + 160,
{
    assert(line * 160 + x < 23040) by (nonlinear_arith)
        requires
            line < 144,
            x < 160,
    ;
    assert(line * 160 >= 0) by (nonlinear_arith)
        requires
            line >= 0,
    ;
}

proof fn lemma_or_assoc(a: u8, b: u8, c: u8)
    ensures
        (a | b) | c == a | (b | c),
        a | 0 == a,
        0 | c == c,
{
    assert((a | b) | c == a | (b | c) && a | 0 == a && 0 | c == c) by (bit_vector);
}

impl Ppu {
    pub closed spec fn view(&self) -> PpuState {
        PpuState {
            counter: self.counter,
            lcdc: self.lcdc,
            stat: self.stat,
            scy: self.scy,
            scx: self.scx,
            ly: self.ly,
            lyc: self.lyc,
            bgp: self.bgp,
            wy: self.wy,
            wx: self.wx,
            obp0: self.obp0,
            obp1: self.obp1,
            framebuffer: self.framebuffer@,
            vram: self.vram@,
            bg_ids: self.bg_ids@,
            oam: self.oam@,
        }
    }

    pub(crate) fn new() -> (p: Self)
        ensures
            p@.wf(),
            p@.counter == 0,
            p@.ly == 0,
            p@.lcdc == 0x91,
            p@.bgp == 0xFC,
            p@.stat == 0 && p@.scy == 0 && p@.scx == 0 && p@.lyc == 0,
            p@.wy == 0 && p@.wx == 0 && p@.obp0 == 0 && p@.obp1 == 0,
            p@.framebuffer == Seq::new(23040, |i| 0u8),
            p@.vram == Seq::new(0x2000, |i| 0u8),
            p@.bg_ids == Seq::new(160, |i| 0u8),
            p@.oam == Seq::new(0xA0, |i| 0u8),
    {
        let p = Ppu {
            counter: 0,
            lcdc: 0x91,
            stat: 0,
            scy: 0,
            scx: 0,
            ly: 0,
            lyc: 0,
            bgp: 0xFC,
            wy: 0,
            wx: 0,
            framebuffer: [0; 23040],
            vram: [0; 0x2000],
            bg_ids: [0; 160],
            oam: [0; 0xA0],
            obp0: 0,
            obp1: 0,
        };
        assert(p.framebuffer@ =~= Seq::new(23040, |i| 0u8));
        assert(p.vram@ =~= Seq::new(0x2000, |i| 0u8));
        assert(p.bg_ids@ =~= Seq::new(160, |i| 0u8));
        assert(p.oam@ =~= Seq::new(0xA0, |i| 0u8));
        p
    }

    /// STAT as the CPU reads it.
    pub fn stat(&self) -> (r: u8)
        ensures
            r == self@.stat_read(),
    {
        let mode: u8 = if self.ly >= VBLANK_LINE {
            1
        } else if self.counter < 80 {
            2
        } else if self.counter < 252 {
            3
        } else {
            0
        };
        let coincidence: u8 = if self.ly == self.lyc { 4 } else { 0 };
        0x80 | (self.stat & 0x78) | coincidence | mode
    }

    /// A CPU write to STAT: only the four interrupt-source bits are writable.
    pub fn set_stat(&mut self, value: u8)
        ensures
            final(self)@ == (PpuState { stat: value & 0x78, ..old(self)@ }),
    {
        self.stat = value & 0x78;
    }

    /// A CPU write to LCDC.
    pub fn set_lcdc(&mut self, value: u8)
        ensures
            final(self)@ == (PpuState { lcdc: value, ..old(self)@ }),
    {
        self.lcdc = value;
    }

    /// Advances the LCD schedule by `cycles`, drawing each visible line as it
    /// finishes. Returns the IF bits it raised: bit 0 for VBlank, bit 1 for
    /// the LY=LYC STAT source.
    pub fn tick(&mut self, cycles: u32) -> (irq: u8)
        requires
            old(self)@.wf(),
            old(self)@.counter + cycles % 65536 <= u16::MAX,
        ensures
            (final(self)@, irq) == old(self)@.tick(cycles),
            final(self)@.wf(),
    {
        proof {
            assert(cycles as u16 == cycles % 65536) by (bit_vector);
        }
        self.counter = self.counter + cycles as u16;
        let ghost start = self@;
        let mut irq: u8 = 0;
        proof {
            lemma_or_assoc(0, 0, self@.advance().1);
        }
        while self.counter >= CYCLES_PER_LINE
            invariant
                self.ly < LINES_PER_FRAME,
                self@.sized(),
                ({
                    let (last, more) = self@.advance();
                    (last, irq | more) == start.advance()
                }),
            decreases self.counter,
        {
            let ghost before = self@;
            let finished = self.ly;
            if finished < VBLANK_LINE {
                self.render_line(finished);
            }
            self.counter = self.counter - CYCLES_PER_LINE;
            self.ly = (self.ly + 1) % LINES_PER_FRAME;
            let mut raised: u8 = 0;
            if self.ly == VBLANK_LINE {
                raised = 1;
            }
            if self.ly == self.lyc && self.stat & 0x40 != 0 {
                raised = raised | 2;
            }
            proof {
                let (next, b) = before.complete_line();
                assert(self@ == next);
                assert(raised == b) by {
                    assert(0u8 | 2u8 == 2u8 && 1u8 | 2u8 == 3u8 && 1u8 | 0u8 == 1u8 && 0u8 | 0u8 == 0u8) by (bit_vector);
                }
                lemma_or_assoc(irq, raised, next.advance().1);
            }
            irq = irq | raised;
        }
        proof {
            lemma_or_assoc(irq, 0, 0);
        }
        irq
    }

    fn render_line(&mut self, line: u8)
        requires
            line < 144,
            old(self)@.sized(),
        ensures
            final(self)@ == old(self)@.rendered(line as int),
    {
        let ghost p0 = self@;
        self.render_background(line);
        if self.lcdc & 0x02 != 0 {
            // LCDC bit 1: sprites enabled
            self.render_sprites(line);
            proof {
                let b = with_background(p0, line as int);
                lemma_selected_frame(b, p0, line as int, 40);
                assert forall|x: int| 0 <= x < 160 implies b.winner(b.selected(line as int), line as int, x)
                    == p0.winner(p0.selected(line as int), line as int, x) by {
                    lemma_winner_frame(b, p0, b.selected(line as int), line as int, x);
                }
            }
        }
        assert(self@.framebuffer =~= p0.rendered(line as int).framebuffer);
        assert(self@.bg_ids =~= p0.rendered(line as int).bg_ids);
    }

    /// The background or window colour number at column `x` of `line`.
    fn bg_pixel(&self, line: u8, x: u8) -> (id: u8)
        requires
            self@.sized(),
            line < 144,
            x < 160,
        ensures
            id == self@.bg_id(line as int, x as int),
            id < 4,
    {
        let window = self.lcdc & 0x20 != 0 && line >= self.wy && x as u16 + 7 >= self.wx as u16;
        let (map_base, map_x, map_y): (usize, u8, u8) = if window {
            (
                if self.lcdc & 0x40 != 0 { 0x1C00 } else { 0x1800 },
                (x as u16 + 7 - self.wx as u16) as u8,
                line - self.wy,
            )
        } else {
            (
                if self.lcdc & 0x08 != 0 { 0x1C00 } else { 0x1800 },
                x.wrapping_add(self.scx),  // wraps in the 256x256 map
                line.wrapping_add(self.scy),
            )
        };
        let tile_row = (map_y / 8) as usize;
        let pixel_row = (map_y % 8) as usize;
        let tile_col = (map_x / 8) as usize;
        let pixel_col = (map_x % 8) as usize;
        proof {
            assert(tile_row * 32 + tile_col <= 31 * 32 + 31) by (nonlinear_arith)
                requires
                    tile_row < 32,
                    tile_col < 32,
            ;
        }
        let map_index = map_base + tile_row * 32 + tile_col;
        let index = self.vram[map_index];
        let tile: usize = if self.lcdc & 0x10 == 0 {
            if index < 128 {
                0x1000 + index as usize * 16
            } else {
                0x1000 - (256 - index as usize) * 16
            }
        } else {
            index as usize * 16
        };
        let row_addr = tile + pixel_row * 2;
        let lo = self.vram[row_addr];
        let hi = self.vram[row_addr + 1];
        let bit = (7 - pixel_col) as u8;
        proof {
            lemma_tile_pixel(lo, hi, bit);
            let p = self@;
            let (mb, mx, my) = p.map_position(line as int, x as int);
            assert(window == p.in_window(line as int, x as int));
            assert(map_base as int == mb && map_x as int == mx && map_y as int == my);
            assert(map_index as int == mb + (my / 8) * 32 + mx / 8);
            assert(row_addr as int == p.bg_tile_row_addr(line as int, x as int));
        }
        ((hi >> bit) & 1) << 1 | ((lo >> bit) & 1)
    }

    fn render_background(&mut self, line: u8)
        requires
            line < 144,
            old(self)@.sized(),
        ensures
            final(self)@ == with_background(old(self)@, line as int),
    {
        let ghost p0 = self@;
        let base = line as usize * 160;
        proof {
            lemma_row_index(line as int, 0);
            lemma_row_index(line as int, 159);
        }
        if self.lcdc & 0x01 == 0 {
            let mut x: usize = 0;
            while x < 160
                invariant
                    x <= 160,
                    base == line * 160,
                    base + 160 <= 23040,
                    p0.sized(),
                    self@ == (PpuState { framebuffer: self@.framebuffer, bg_ids: self@.bg_ids, ..p0 }),
                    self@.framebuffer.len() == 23040,
                    self@.bg_ids.len() == 160,
                    forall|k: int| 0 <= k < 23040 && !(base <= k < base + 160) ==> self@.framebuffer[k] == p0.framebuffer[k],
                decreases 160 - x,
            {
                self.framebuffer[base + x] = 0;
                self.bg_ids[x] = 0;
                x = x + 1;
            }
        }
        let ghost filled = self@.framebuffer;
        let mut x: u8 = 0;
        while x < 160
            invariant
                x <= 160,
                base == line * 160,
                base + 160 <= 23040,
                p0.sized(),
                line < 144,
                self@ == (PpuState { framebuffer: self@.framebuffer, bg_ids: self@.bg_ids, ..p0 }),
                self@.framebuffer.len() == 23040,
                self@.bg_ids.len() == 160,
                forall|k: int| 0 <= k < 23040 && !(base <= k < base + 160) ==> self@.framebuffer[k] == p0.framebuffer[k],
                forall|k: int| base <= k < base + x ==> self@.framebuffer[k] == p0.bg_shade(line as int, k - base),
                forall|j: int| 0 <= j < x ==> self@.bg_ids[j] == p0.bg_id(line as int, j),
            decreases 160 - x,
        {
            let id = self.bg_pixel(line, x);
            self.framebuffer[base + x as usize] = (self.bgp >> (id * 2)) & 3;
            self.bg_ids[x as usize] = id;
            x = x + 1;
        }
        assert(self@.framebuffer =~= with_background(p0, line as int).framebuffer);
        assert(self@.bg_ids =~= with_background(p0, line as int).bg_ids);
    }

    /// The first ten sprites in OAM order that overlap `line`.
    fn select_sprites(&self, line: u8) -> (chosen: Vec<usize>)
        requires
            self@.sized(),
        ensures
            chosen@ == self@.selected(line as int),
            chosen.len() <= 10,
            forall|k: int| 0 <= k < chosen.len() ==> chosen@[k] < 40 && self@.on_line(chosen@[k], line as int),
    {
        let height: i16 = if self.lcdc & 0x04 != 0 { 16 } else { 8 };
        let mut chosen: Vec<usize> = Vec::new();
        let mut i: usize = 0;
        while i < 40
            invariant
                i <= 40,
                self@.sized(),
                height == self@.sprite_height(),
                chosen@ == self@.selected_upto(line as int, i as nat),
                chosen.len() <= 10,
                forall|k: int| 0 <= k < chosen.len() ==> chosen@[k] < i && self@.on_line(chosen@[k], line as int),
            decreases 40 - i,
        {
            let top = self.oam[i * 4] as i16 - 16;  // stored Y is offset by 16
            if (line as i16) >= top && (line as i16) < top + height && chosen.len() < 10 {
                chosen.push(i);
            }
            i = i + 1;
        }
        chosen
    }

    /// The shade sprite `i` puts at column `sx` of `line`, if it puts one there.
    fn sprite_pixel(&self, i: usize, line: u8, sx: usize) -> (r: Option<u8>)
        requires
            self@.sized(),
            i < 40,
            line < 144,
            sx < 160,
            self@.on_line(i, line as int),
            forall|x: int| 0 <= x < 160 ==> self@.bg_ids[x] == self@.bg_id(line as int, x),
        ensures
            r == if self@.sprite_writes(i, line as int, sx as int) {
                Some(self@.sprite_shade(i, line as int, sx as int))
            } else {
                None::<u8>
            },
    {
        let height: usize = if self.lcdc & 0x04 != 0 { 16 } else { 8 };
        let oam_x = self.oam[i * 4 + 1] as usize;
        if sx + 8 < oam_x || sx + 8 >= oam_x + 8 {
            return None;
        }
        let attr = self.oam[i * 4 + 3];
        let mut tile = self.oam[i * 4 + 2];
        if height == 16 {
            tile &= 0xFE;  // 8x16 ignores the low bit
        }
        let mut row = line as usize + 16 - self.oam[i * 4] as usize;
        if attr & 0x40 != 0 {
            row = height - 1 - row;  // Y flip
        }
        let addr = tile as usize * 16 + row * 2;  // always 0x8000, unsigned
        let lo = self.vram[addr];
        let hi = self.vram[addr + 1];
        let col = sx + 8 - oam_x;
        let bit = if attr & 0x20 != 0 { col as u8 } else { (7 - col) as u8 };  // X flip
        proof {
            lemma_tile_pixel(lo, hi, bit);
        }
        let id = ((hi >> bit) & 1) << 1 | ((lo >> bit) & 1);
        if id == 0 {
            return None;  // transparent
        }
        if attr & 0x80 != 0 && self.bg_ids[sx] != 0 {
            return None;
        }
        let palette = if attr & 0x10 != 0 { self.obp1 } else { self.obp0 };
        Some((palette >> (id * 2)) & 3)
    }

    fn render_sprites(&mut self, line: u8)
        requires
            line < 144,
            old(self)@.sized(),
            forall|x: int| 0 <= x < 160 ==> old(self)@.bg_ids[x] == old(self)@.bg_id(line as int, x),
        ensures
            final(self)@ == (PpuState {
                framebuffer: Seq::new(
                    23040,
                    |k: int|
                        if line * 160 <= k < line * 160 + 160 {
                            match old(self)@.winner(old(self)@.selected(line as int), line as int, k - line * 160) {
                                Some(i) => old(self)@.sprite_shade(i, line as int, k - line * 160),
                                None => old(self)@.framebuffer[k],
                            }
                        } else {
                            old(self)@.framebuffer[k]
                        },
                ),
                ..old(self)@
            }),
    {
        let ghost p0 = self@;
        let chosen = self.select_sprites(line);
        // The shade each column takes from the sprite that outranks the rest.
        let mut shades: Vec<Option<u8>> = Vec::new();
        let mut sx: usize = 0;
        while sx < 160
            invariant
                sx <= 160,
                self@ == p0,
                p0.sized(),
                line < 144,
                chosen@ == p0.selected(line as int),
                forall|k: int| 0 <= k < chosen.len() ==> chosen@[k] < 40 && p0.on_line(chosen@[k], line as int),
                forall|x: int| 0 <= x < 160 ==> p0.bg_ids[x] == p0.bg_id(line as int, x),
                shades.len() == sx,
                forall|x: int| 0 <= x < sx ==> shades@[x] == match p0.winner(chosen@, line as int, x) {
                    Some(i) => Some(p0.sprite_shade(i, line as int, x)),
                    None => None::<u8>,
                },
            decreases 160 - sx,
        {
            let mut best: Option<usize> = None;
            let mut best_shade: u8 = 0;
            let mut k: usize = 0;
            while k < chosen.len()
                invariant
                    k <= chosen.len(),
                    self@ == p0,
                    p0.sized(),
                    line < 144,
                    sx < 160,
                    forall|j: int| 0 <= j < chosen.len() ==> chosen@[j] < 40 && p0.on_line(chosen@[j], line as int),
                    forall|x: int| 0 <= x < 160 ==> p0.bg_ids[x] == p0.bg_id(line as int, x),
                    best == p0.winner(chosen@.take(k as int), line as int, sx as int),
                    best matches Some(b) ==> best_shade == p0.sprite_shade(b, line as int, sx as int) && b < 40,
                decreases chosen.len() - k,
            {
                let i = chosen[k];
                let px = self.sprite_pixel(i, line, sx);
                proof {
                    assert(chosen@.take(k + 1).drop_last() =~= chosen@.take(k as int));
                }
                if let Some(s) = px {
                    let better = match best {
                        None => true,
                        Some(b) => self.oam[i * 4 + 1] < self.oam[b * 4 + 1] || (self.oam[i * 4 + 1]
                            == self.oam[b * 4 + 1] && i < b),
                    };
                    if better {
                        best = Some(i);
                        best_shade = s;
                    }
                }
                k = k + 1;
            }
            proof {
                assert(chosen@.take(chosen.len() as int) =~= chosen@);
            }
            let entry = match best {
                Some(_) => Some(best_shade),
                None => None,
            };
            shades.push(entry);
            sx = sx + 1;
        }
        let base = line as usize * 160;
        proof {
            lemma_row_index(line as int, 0);
            lemma_row_index(line as int, 159);
        }
        let mut x: usize = 0;
        while x < 160
            invariant
                x <= 160,
                base == line * 160,
                base + 160 <= 23040,
                shades.len() == 160,
                self@ == (PpuState { framebuffer: self@.framebuffer, ..p0 }),
                self@.framebuffer.len() == 23040,
                forall|k: int| 0 <= k < 23040 && !(base <= k < base + x) ==> self@.framebuffer[k] == p0.framebuffer[k],
                forall|k: int| base <= k < base + x ==> self@.framebuffer[k] == match shades@[k - base] {
                    Some(s) => s,
                    None => p0.framebuffer[k],
                },
            decreases 160 - x,
        {
            if let Some(s) = shades[x] {
                self.framebuffer[base + x] = s;
            }
            x = x + 1;
        }
        let ghost expected = Seq::new(
            23040,
            |k: int|
                if line * 160 <= k < line * 160 + 160 {
                    match p0.winner(p0.selected(line as int), line as int, k - line * 160) {
                        Some(i) => p0.sprite_shade(i, line as int, k - line * 160),
                        None => p0.framebuffer[k],
                    }
                } else {
                    p0.framebuffer[k]
                },
        );
        assert(self@.framebuffer =~= expected);
    }
}

// ---------------------------------------------------------------------------
// Laws
// ---------------------------------------------------------------------------
/// The position in the frame, in cycles: lines done times 456 plus the
/// cycles into the current line.
pub open spec fn frame_position(p: PpuState) -> int {
    p.ly * 456 + p.counter
}

/// The LCD schedule keeps time: after `cycles` more cycles, LY and the line
/// counter have moved on by exactly that many cycles, modulo one frame of
/// 154 lines of 456 cycles.
pub proof fn lemma_schedule_keeps_time(p: PpuState, cycles: u32)
    requires
        p.wf(),
        p.counter + cycles % 65536 <= u16::MAX,
    ensures
        p.tick(cycles).0.wf(),
        frame_position(p.tick(cycles).0) % 70224 == (frame_position(p) + cycles % 65536) % 70224,
{
    let q = PpuState { counter: (p.counter + (cycles % 65536)) as u16, ..p };
    lemma_advance_keeps_time(q);
}

proof fn lemma_advance_keeps_time(p: PpuState)
    requires
        p.ly < LINES_PER_FRAME,
        p.sized(),
    ensures
        p.advance().0.wf(),
        frame_position(p.advance().0) % 70224 == frame_position(p) % 70224,
    decreases p.counter,
{
    if p.counter >= CYCLES_PER_LINE {
        let next = p.complete_line().0;
        lemma_advance_keeps_time(next);
        let a = frame_position(p);
        if p.ly + 1 < 154 {
            assert(frame_position(next) == a);
        } else {
            assert(frame_position(next) == a - 70224);
            vstd::arithmetic::div_mod::lemma_mod_sub_multiples_vanish(a, 70224);
        }
    }
}

/// A run of ticks from `p`: the state after the last one, and how many of
/// them raised VBlank.
pub open spec fn run_ticks(p: PpuState, cs: Seq<u32>) -> (PpuState, nat)
    decreases cs.len(),
{
    if cs.len() == 0 {
        (p, 0)
    } else {
        let (q, n) = run_ticks(p, cs.drop_last());
        let (r, irq) = q.tick(cs.last());
        (r, n + if irq & 1 != 0 { 1nat } else { 0 })
    }
}

/// The cycles a run of ticks adds up to.
pub open spec fn total_cycles(cs: Seq<u32>) -> nat
    decreases cs.len(),
{
    if cs.len() == 0 {
        0
    } else {
        total_cycles(cs.drop_last()) + (cs.last() as nat)
    }
}

/// How many of the `m` lines completed after line `ly0` take LY to 144.
pub open spec fn vblank_lines(ly0: int, m: nat) -> nat
    decreases m,
{
    if m == 0 {
        0
    } else {
        vblank_lines(ly0, (m - 1) as nat) + if (ly0 + m) % 154 == 144 { 1nat } else { 0 }
    }
}

proof fn lemma_irq_bit0(v: u8, l: u8)
    requires
        v == 0 || v == 1,
        l == 0 || l == 2,
    ensures
        ((v | l) & 1 != 0) == (v == 1),
        ((v | l) | 0) == (v | l),
{
    assert(((v | l) & 1 != 0) == (v == 1) && ((v | l) | 0) == (v | l)) by (bit_vector)
        requires
            v == 0 || v == 1,
            l == 0 || l == 2,
    ;
}

/// One tick of at most a line's worth of cycles completes at most one line.
proof fn lemma_short_tick(p: PpuState, c: u32)
    requires
        p.wf(),
        c <= 456,
    ensures
        p.tick(c).0.wf(),
        p.tick(c).0.ly == (p.ly + (p.counter + c) / 456) % 154,
        p.tick(c).0.counter == (p.counter + c) % 456,
        (p.tick(c).1 & 1 != 0) == ((p.counter + c) / 456 == 1 && (p.ly + 1) % 154 == 144),
{
    let q = PpuState { counter: (p.counter + (c % 65536)) as u16, ..p };
    assert(c % 65536 == c);
    lemma_schedule_keeps_time(p, c);
    if q.counter >= CYCLES_PER_LINE {
        let (next, irq) = q.complete_line();
        assert(next.counter < CYCLES_PER_LINE);
        assert(next.advance() == (next, 0u8));
        let vb: u8 = if next.ly == VBLANK_LINE { 1 } else { 0 };
        let ly: u8 = if next.ly == q.lyc && q.stat & 0x40 != 0 { 2 } else { 0 };
        lemma_irq_bit0(vb, ly);
        assert(q.advance() == (next, irq | 0u8));
    } else {
        assert(q.advance() == (q, 0u8));
        assert(0u8 & 1 == 0) by (bit_vector);
    }
}

/// Frame pacing over a run: ticks of at most a line's worth of cycles each
/// move LY on by the lines their cycles complete, keep the rest in the line
/// counter, and raise VBlank exactly as often as a completed line lands on
/// line 144.
pub proof fn lemma_run_counts_vblanks(p: PpuState, cs: Seq<u32>)
    requires
        p.wf(),
        forall|i: int| 0 <= i < cs.len() ==> cs[i] <= 456,
    ensures
        ({
            let (q, n) = run_ticks(p, cs);
            let m = ((p.counter + total_cycles(cs)) / 456) as nat;
            &&& q.wf()
            &&& q.ly == (p.ly + m) % 154
            &&& q.counter == (p.counter + total_cycles(cs)) % 456
            &&& n == vblank_lines(p.ly as int, m)
        }),
    decreases cs.len(),
{
    if cs.len() > 0 {
        let init = cs.drop_last();
        lemma_run_counts_vblanks(p, init);
        let (q0, n0) = run_ticks(p, init);
        let c = cs.last();
        lemma_short_tick(q0, c);
        let a = p.counter + total_cycles(init);
        let m0 = a / 456;
        let r = a % 456;
        vstd::arithmetic::div_mod::lemma_fundamental_div_mod(a, 456);
        let lines = (r + c) / 456;
        assert((a + c) / 456 == m0 + lines && (a + c) % 456 == (r + c) % 456) by (nonlinear_arith)
            requires
                a == 456 * m0 + r,
                0 <= r < 456,
                0 <= c,
                lines == (r + c) / 456,
        ;
        assert(0 <= lines <= 1) by (nonlinear_arith)
            requires
                0 <= r < 456,
                0 <= c <= 456,
                lines == (r + c) / 456,
        ;
        vstd::arithmetic::div_mod::lemma_add_mod_noop(p.ly + m0, lines, 154);
        vstd::arithmetic::div_mod::lemma_mod_twice(lines as int, 154);
        vstd::arithmetic::div_mod::lemma_add_mod_noop(p.ly + m0, 1, 154);
        vstd::arithmetic::div_mod::lemma_small_mod(1, 154);
        assert(((p.ly + m0) % 154 + lines) % 154 == (p.ly + m0 + lines) % 154);
        assert(((p.ly + m0) % 154 + 1) % 154 == (p.ly + m0 + 1) % 154);
    }
}

/// The Y flip mirrors a sprite vertically: toggling bit 6 of its attributes
/// makes screen row `r` of the sprite show what row `height - 1 - r` showed,
/// pixel for pixel.
pub proof fn lemma_y_flip_mirrors(p: PpuState, i: usize, r: int, sx: int)
    requires
        p.sized(),
        i < 40,
        0 <= r < p.sprite_height(),
    ensures
        ({
            let a = p.oam[i * 4 + 3];
            let q = PpuState { oam: p.oam.update(i * 4 + 3, a ^ 0x40), ..p };
            q.sprite_id(i, p.sprite_top(i) + r, sx) == p.sprite_id(
                i,
                p.sprite_top(i) + p.sprite_height() - 1 - r,
                sx,
            )
        }),
{
    lemma_attr_toggles(p.oam[i * 4 + 3]);
}

/// The X flip mirrors a sprite horizontally: toggling bit 5 of its
/// attributes makes column `c` of the sprite show what column `7 - c` showed.
pub proof fn lemma_x_flip_mirrors(p: PpuState, i: usize, line: int, c: int)
    requires
        p.sized(),
        i < 40,
        0 <= c < 8,
    ensures
        ({
            let a = p.oam[i * 4 + 3];
            let q = PpuState { oam: p.oam.update(i * 4 + 3, a ^ 0x20), ..p };
            q.sprite_id(i, line, p.sprite_left(i) + c) == p.sprite_id(
                i,
                line,
                p.sprite_left(i) + 7 - c,
            )
        }),
{
    lemma_attr_toggles(p.oam[i * 4 + 3]);
}

/// Toggling one flip bit of a sprite's attributes inverts that bit and keeps
/// the other.
proof fn lemma_attr_toggles(a: u8)
    ensures
        ((a ^ 0x40) & 0x40 != 0) == (a & 0x40 == 0),
        (a ^ 0x40) & 0x20 == a & 0x20,
        ((a ^ 0x20) & 0x20 != 0) == (a & 0x20 == 0),
        (a ^ 0x20) & 0x40 == a & 0x40,
{
    assert(((a ^ 0x40) & 0x40 != 0) == (a & 0x40 == 0) && (a ^ 0x40) & 0x20 == a & 0x20 && ((a
        ^ 0x20) & 0x20 != 0) == (a & 0x20 == 0) && (a ^ 0x20) & 0x40 == a & 0x40) by (bit_vector);
}

/// VBlank is raised by the line that takes LY to 144, and only by it.
pub proof fn lemma_vblank_on_line_144(p: PpuState)
    requires
        p.counter >= CYCLES_PER_LINE,
        p.ly < LINES_PER_FRAME,
    ensures
        (p.complete_line().1 & 1 != 0) <==> p.ly == 143,
{
    let next_ly = ((p.ly + 1) % 154) as u8;
    let v: u8 = if next_ly == VBLANK_LINE { 1 } else { 0 };
    let l: u8 = if next_ly == p.lyc && p.stat & 0x40 != 0 { 2 } else { 0 };
    assert(((v | l) & 1 != 0) <==> v == 1) by (bit_vector)
        requires
            v == 0 || v == 1,
            l == 0 || l == 2,
    ;
}

/// The sprites a line shows are at most ten, each overlapping the line, in
/// OAM order; fewer than ten means every overlapping sprite is among them.
pub proof fn lemma_selection(p: PpuState, line: int, n: nat)
    requires
        n <= 40,
    ensures
        p.selected_upto(line, n).len() <= 10,
        forall|k: int|
            0 <= k < p.selected_upto(line, n).len() ==> #[trigger] p.selected_upto(line, n)[k] < n
                && p.on_line(p.selected_upto(line, n)[k], line),
        forall|a: int, b: int|
            0 <= a < b < p.selected_upto(line, n).len() ==> p.selected_upto(line, n)[a]
                < p.selected_upto(line, n)[b],
        p.selected_upto(line, n).len() < 10 ==> forall|i: usize|
            i < n && #[trigger] p.on_line(i, line) ==> p.selected_upto(line, n).contains(i),
    decreases n,
{
    if n > 0 {
        lemma_selection(p, line, (n - 1) as nat);
        let s = p.selected_upto(line, (n - 1) as nat);
        if p.on_line((n - 1) as usize, line) && s.len() < 10 {
            let t = s.push((n - 1) as usize);
            assert forall|i: usize| i < n && #[trigger] p.on_line(i, line) && t.len() < 10 implies t.contains(i) by {
                if i < n - 1 {
                    let k = choose|k: int| 0 <= k < s.len() && s[k] == i;
                    assert(t[k] == i);
                } else {
                    assert(t[t.len() - 1] == i);
                }
            }
        }
    }
}

/// Sprite priority: the sprite shown at a column is one that puts a pixel
/// there and outranks every other sprite of the line that does; when none
/// does, none is shown.
pub proof fn lemma_winner_outranks(p: PpuState, s: Seq<usize>, line: int, sx: int)
    requires
        s.no_duplicates(),
    ensures
        match p.winner(s, line, sx) {
            Some(i) => s.contains(i) && p.sprite_writes(i, line, sx) && forall|j: usize|
                #[trigger] s.contains(j) && j != i && p.sprite_writes(j, line, sx) ==> p.outranks(i, j),
            None => forall|j: usize| #[trigger] s.contains(j) ==> !p.sprite_writes(j, line, sx),
        },
    decreases s.len(),
{
    if s.len() > 0 {
        let r = s.drop_last();
        assert(r.no_duplicates());
        lemma_winner_outranks(p, r, line, sx);
        let c = s.last();
        assert forall|j: usize| #[trigger] s.contains(j) implies r.contains(j) || j == c by {
            let k = choose|k: int| 0 <= k < s.len() && s[k] == j;
            if k < s.len() - 1 {
                assert(r[k] == j);
            }
        }
        assert forall|j: usize| #[trigger] r.contains(j) implies s.contains(j) && j != c by {
            let k = choose|k: int| 0 <= k < r.len() && r[k] == j;
            assert(s[k] == j);
            assert(s[s.len() - 1] == c);
        }
        assert(s.contains(c)) by {
            assert(s[s.len() - 1] == c);
        }
    }
}

} // verus!
