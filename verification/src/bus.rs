//! Address decoding, I/O registers, DMA, the serial port.
use vstd::prelude::*;
use crate::cartridge::{Cartridge, CartState};
use crate::joypad::{Button, Joypad, JoypadState};
use crate::ppu::{Ppu, PpuState};
use crate::timer::{Timer, TimerState};

verus! {

broadcast use crate::ppu::lemma_ppu_view, crate::timer::lemma_timer_view;

/// Serial transfer data.
pub const SB: u16 = 0xFF01;

/// Serial transfer control.
pub const SC: u16 = 0xFF02;

pub const IO_BASE: u16 = 0xFF00;

/// `String::push`: the standard library documents it as appending the given
/// character to the end of the string.
pub assume_specification[ String::push ](s: &mut String, ch: char)
    ensures
        final(s)@ == old(s)@.push(ch),
;

/// The registers a DMG does not have: the colour-only ones, which read back
/// 0xFF so that a ROM can tell the two machines apart.
pub open spec fn is_cgb_register(addr: u16) -> bool {
    addr == 0xFF4D || addr == 0xFF4F || (0xFF51 <= addr <= 0xFF55) || (0xFF68 <= addr <= 0xFF6B)
        || addr == 0xFF70
}

/// The whole machine behind the CPU, as plain values.
pub ghost struct BusState {
    pub cart: CartState,
    pub wram: Seq<u8>,
    pub io: Seq<u8>,
    pub hram: Seq<u8>,
    pub ie: u8,
    pub iflag: u8,
    pub serial: Seq<char>,
    pub ly_fixed: bool,
    pub timer: TimerState,
    pub joypad: JoypadState,
    pub ppu: PpuState,
}

impl BusState {
    pub open spec fn wf(self) -> bool {
        &&& self.cart.wf()
        &&& self.ppu.wf()
        &&& self.wram.len() == 0x2000
        &&& self.io.len() == 0x80
        &&& self.hram.len() == 0x7F
    }

    /// What the CPU reads at `addr`.
    pub open spec fn read(self, addr: u16) -> u8 {
        if addr <= 0x7FFF || (0xA000 <= addr <= 0xBFFF) {
            self.cart.read(addr)
        } else if addr <= 0x9FFF {
            self.ppu.vram[addr - 0x8000]
        } else if 0xC000 <= addr <= 0xFDFF {
            // 0xE000-0xFDFF echoes work RAM.
            self.wram[addr as int % 0x2000]
        } else if 0xFE00 <= addr <= 0xFE9F {
            self.ppu.oam[addr - 0xFE00]
        } else if addr == 0xFF00 {
            self.joypad.read()
        } else if is_cgb_register(addr) {
            0xFF
        } else if addr == 0xFF0F {
            self.iflag | 0xE0
        } else if addr == 0xFF04 {
            self.timer.div()
        } else if addr == 0xFF05 {
            self.timer.tima
        } else if addr == 0xFF06 {
            self.timer.tma
        } else if addr == 0xFF07 {
            self.timer.tac | 0xF8
        } else if addr == 0xFF40 {
            self.ppu.lcdc
        } else if addr == 0xFF41 {
            self.ppu.stat_read()
        } else if addr == 0xFF42 {
            self.ppu.scy
        } else if addr == 0xFF43 {
            self.ppu.scx
        } else if addr == 0xFF44 {
            if self.ly_fixed {
                0x90
            } else {
                self.ppu.ly
            }
        } else if addr == 0xFF45 {
            self.ppu.lyc
        } else if addr == 0xFF47 {
            self.ppu.bgp
        } else if addr == 0xFF48 {
            self.ppu.obp0
        } else if addr == 0xFF49 {
            self.ppu.obp1
        } else if addr == 0xFF4A {
            self.ppu.wy
        } else if addr == 0xFF4B {
            self.ppu.wx
        } else if 0xFF00 <= addr <= 0xFF7F {
            self.io[addr - 0xFF00]
        } else if 0xFF80 <= addr <= 0xFFFE {
            self.hram[addr - 0xFF80]
        } else if addr == 0xFFFF {
            self.ie
        } else {
            // 0xFEA0-0xFEFF is unusable and reads as open bus.
            0xFF
        }
    }

    /// The 160 bytes an OAM DMA from page `page` copies, each as read before
    /// the transfer began.
    /// A read of `addr` finds its byte: only the ROM window can run past the
    /// end of a short image.
    pub open spec fn readable(self, addr: u16) -> bool {
        self.cart.readable(addr)
    }

    /// Both ROM banks currently mapped lie wholly in the image.
    pub open spec fn mapped(self) -> bool {
        self.cart.mapped()
    }

    /// Every byte an OAM DMA from `page` reads can be found.
    pub open spec fn dma_readable(self, page: u8) -> bool {
        forall|j: int| 0 <= j < 0xA0 ==> #[trigger] self.readable((page * 256 + j) as u16)
    }

    /// A write can be carried out: only a write to DMA reads memory, and it
    /// reads the whole source page.
    pub open spec fn writable(self, addr: u16, value: u8) -> bool {
        addr == 0xFF46 ==> self.dma_readable(value)
    }

    pub open spec fn dma_source(self, page: u8) -> Seq<u8> {
        Seq::new(0xA0, |i: int| self.read((page * 256 + i) as u16))
    }

    pub open spec fn with_ppu(self, ppu: PpuState) -> BusState {
        BusState { ppu, ..self }
    }

    pub open spec fn with_timer(self, timer: TimerState) -> BusState {
        BusState { timer, ..self }
    }

    /// The machine after the CPU writes `value` at `addr`.
    pub open spec fn write(self, addr: u16, value: u8) -> BusState {
        if addr <= 0x7FFF || (0xA000 <= addr <= 0xBFFF) {
            BusState { cart: self.cart.write(addr, value), ..self }
        } else if addr <= 0x9FFF {
            self.with_ppu(PpuState { vram: self.ppu.vram.update(addr - 0x8000, value), ..self.ppu })
        } else if 0xC000 <= addr <= 0xFDFF {
            BusState { wram: self.wram.update(addr as int % 0x2000, value), ..self }
        } else if 0xFE00 <= addr <= 0xFE9F {
            self.with_ppu(PpuState { oam: self.ppu.oam.update(addr - 0xFE00, value), ..self.ppu })
        } else if addr == SC {
            // Bit 7 starts a transfer of the byte in SB; other writes only
            // pick a clock source.
            BusState {
                io: self.io.update(SC - IO_BASE, value),
                serial: if value & 0x80 != 0 {
                    self.serial.push((self.io[SB - IO_BASE] as u32) as char)
                } else {
                    self.serial
                },
                ..self
            }
        } else if addr == 0xFF04 {
            self.with_timer(self.timer.reset_div())
        } else if addr == 0xFF05 {
            self.with_timer(TimerState { tima: value, ..self.timer })
        } else if addr == 0xFF06 {
            self.with_timer(TimerState { tma: value, ..self.timer })
        } else if addr == 0xFF07 {
            self.with_timer(TimerState { tac: value & 0x07, ..self.timer })
        } else if addr == 0xFF40 {
            self.with_ppu(PpuState { lcdc: value, ..self.ppu })
        } else if addr == 0xFF41 {
            self.with_ppu(PpuState { stat: value & 0x78, ..self.ppu })
        } else if addr == 0xFF42 {
            self.with_ppu(PpuState { scy: value, ..self.ppu })
        } else if addr == 0xFF43 {
            self.with_ppu(PpuState { scx: value, ..self.ppu })
        } else if addr == 0xFF44 {
            // LY is read-only; hardware ignores the write.
            self
        } else if addr == 0xFF45 {
            self.with_ppu(PpuState { lyc: value, ..self.ppu })
        } else if addr == 0xFF46 {
            self.with_ppu(PpuState { oam: self.dma_source(value), ..self.ppu })
        } else if addr == 0xFF47 {
            self.with_ppu(PpuState { bgp: value, ..self.ppu })
        } else if addr == 0xFF48 {
            self.with_ppu(PpuState { obp0: value, ..self.ppu })
        } else if addr == 0xFF49 {
            self.with_ppu(PpuState { obp1: value, ..self.ppu })
        } else if addr == 0xFF4A {
            self.with_ppu(PpuState { wy: value, ..self.ppu })
        } else if addr == 0xFF4B {
            self.with_ppu(PpuState { wx: value, ..self.ppu })
        } else if addr == 0xFF00 {
            BusState { joypad: self.joypad.write(value), ..self }
        } else if addr == 0xFF0F {
            BusState { iflag: value & 0x1F, ..self }
        } else if 0xFF00 <= addr <= 0xFF7F {
            BusState { io: self.io.update(addr - 0xFF00, value), ..self }
        } else if 0xFF80 <= addr <= 0xFFFE {
            BusState { hram: self.hram.update(addr - 0xFF80, value), ..self }
        } else if addr == 0xFFFF {
            BusState { ie: value, ..self }
        } else {
            // 0xFEA0-0xFEFF is unusable; hardware simply drops the write.
            self
        }
    }

    /// The interrupts both requested and enabled.
    pub open spec fn pending(self) -> u8 {
        self.ie & self.iflag & 0x1F
    }

    /// `cycles` cycles of the clocked hardware: the timer may request its
    /// interrupt (IF bit 2) and the PPU may request VBlank and STAT. The flag
    /// says whether VBlank was requested, the cue to present a frame.
    pub open spec fn tick(self, cycles: u32) -> (BusState, bool) {
        let (timer, fired) = self.timer.run(cycles as nat);
        let iflag = if fired { self.iflag | 0x04 } else { self.iflag };
        let (ppu, requested) = self.ppu.tick(cycles);
        (BusState { timer, ppu, iflag: iflag | requested, ..self }, requested & 0x01 != 0)
    }
}

proof fn lemma_interrupt_bits()
    ensures
        1u8 << 0u8 == 0x01,
        1u8 << 1u8 == 0x02,
        1u8 << 2u8 == 0x04,
        1u8 << 3u8 == 0x08,
        1u8 << 4u8 == 0x10,
{
    assert(1u8 << 0u8 == 0x01 && 1u8 << 1u8 == 0x02 && 1u8 << 2u8 == 0x04 && 1u8 << 3u8 == 0x08 && 1u8
        << 4u8 == 0x10) by (bit_vector);
}

proof fn lemma_echo_index(addr: u16)
    ensures
        (addr as usize & 0x1FFF) == addr as int % 0x2000,
        (addr as usize & 0x1FFF) < 0x2000,
{
    let a = addr as usize;
    assert((a & 0x1FFF) == a % 0x2000 && (a & 0x1FFF) < 0x2000) by (bit_vector);
}

pub struct Bus {
    cartridge: Cartridge,
    wram: [u8; 0x2000],
    io: [u8; 0x80],
    hram: [u8; 0x7F],
    ie: u8,
    iflag: u8,
    /// Everything the cartridge has sent over the serial port. Test ROMs report
    /// their results here.
    pub serial: String,
    /// gameboy-doctor needs LY pinned to 0x90 or every trace diverges against
    /// its reference logs. Real games poll for specific scanlines and hang on
    /// a constant, so the two modes are mutually exclusive.
    ly_fixed: bool,
    timer: Timer,
    joypad: Joypad,
    ppu: Ppu,
}

impl Bus {
    pub closed spec fn view(&self) -> BusState {
        BusState {
            cart: self.cartridge@,
            wram: self.wram@,
            io: self.io@,
            hram: self.hram@,
            ie: self.ie,
            iflag: self.iflag,
            serial: self.serial@,
            ly_fixed: self.ly_fixed,
            timer: self.timer@,
            joypad: self.joypad@,
            ppu: self.ppu@,
        }
    }

    pub fn new(cartridge: Cartridge) -> (bus: Bus)
        requires
            cartridge@.wf(),
        ensures
            bus@.wf(),
            bus@.cart == cartridge@,
            bus@.wram == Seq::new(0x2000, |i| 0u8),
            bus@.io == Seq::new(0x80, |i| 0u8),
            bus@.hram == Seq::new(0x7F, |i| 0u8),
            bus@.ie == 0 && bus@.iflag == 0,
            bus@.serial == Seq::<char>::empty(),
            !bus@.ly_fixed,
            bus@.timer == (TimerState { counter: 0, tima: 0, tma: 0, tac: 0 }),
            bus@.joypad == (JoypadState { select: 0x30, pressed: 0 }),
            bus@.ppu.wf() && bus@.ppu.ly == 0 && bus@.ppu.counter == 0,
    {
        let bus = Bus {
            cartridge,
            wram: [0; 0x2000],
            io: [0; 0x80],
            hram: [0; 0x7F],
            iflag: 0,
            ie: 0,
            serial: String::new(),
            ly_fixed: false,
            timer: Timer::new(),
            joypad: Joypad::new(),
            ppu: Ppu::new(),
        };
        assert(bus.wram@ =~= Seq::new(0x2000, |i| 0u8));
        assert(bus.io@ =~= Seq::new(0x80, |i| 0u8));
        assert(bus.hram@ =~= Seq::new(0x7F, |i| 0u8));
        bus
    }

    /// Pins LY to 0x90 for gameboy-doctor runs. Leave it off for real games,
    /// which poll for a specific scanline and would spin forever on a constant.
    pub fn set_ly_fixed(&mut self, fixed: bool)
        ensures
            final(self)@ == (BusState { ly_fixed: fixed, ..old(self)@ }),
    {
        self.ly_fixed = fixed;
    }

    pub fn framebuffer(&self) -> (fb: &[u8])
        ensures
            fb@ == self@.ppu.framebuffer,
    {
        self.ppu.framebuffer.as_slice()
    }

    pub fn read(&self, addr: u16) -> (v: u8)
        requires
            self@.wf(),
            self@.readable(addr),
        ensures
            v == self@.read(addr),
    {
        if addr <= 0x7FFF || (0xA000 <= addr && addr <= 0xBFFF) {
            self.cartridge.read(addr)
        } else if addr <= 0x9FFF {
            self.ppu.vram[(addr - 0x8000) as usize]
        } else if 0xC000 <= addr && addr <= 0xFDFF {
            proof {
                lemma_echo_index(addr);
            }
            self.wram[addr as usize & 0x1FFF]
        } else if 0xFE00 <= addr && addr <= 0xFE9F {
            self.ppu.oam[(addr - 0xFE00) as usize]
        } else {
            self.read_high(addr)
        }
    }

    /// Reads of 0xFEA0-0xFFFF: the unusable gap, I/O registers, HRAM and IE.
    fn read_high(&self, addr: u16) -> (v: u8)
        requires
            self@.wf(),
            addr >= 0xFEA0,
        ensures
            v == self@.read(addr),
    {
        match addr {
            0xFF00 => self.joypad.read(),
            // Colour-only registers. They do not exist on a DMG and read as
            // 0xFF, which is how a ROM tells the two machines apart. Reading
            // 0x00 instead tells it the hardware is there: Blargg's cpu_instrs
            // writes KEY1 and executes STOP to switch to double speed, and
            // lands on an instruction no DMG game ever runs.
            0xFF4D | 0xFF4F | 0xFF51..=0xFF55 | 0xFF68..=0xFF6B | 0xFF70 => 0xFF,
            0xFF0F => self.iflag | 0xE0,
            0xFF04 => self.timer.div(),
            0xFF05 => self.timer.tima,
            0xFF06 => self.timer.tma,
            0xFF07 => self.timer.tac | 0xF8,
            0xFF40 => self.ppu.lcdc,
            0xFF41 => self.ppu.stat(),
            0xFF42 => self.ppu.scy,
            0xFF43 => self.ppu.scx,
            0xFF44 => if self.ly_fixed {
                0x90
            } else {
                self.ppu.ly
            },
            0xFF45 => self.ppu.lyc,
            0xFF47 => self.ppu.bgp,
            0xFF48 => self.ppu.obp0,
            0xFF49 => self.ppu.obp1,
            0xFF4A => self.ppu.wy,
            0xFF4B => self.ppu.wx,
            0xFF00..=0xFF7F => self.io[(addr - IO_BASE) as usize],
            0xFF80..=0xFFFE => self.hram[(addr - 0xFF80) as usize],
            0xFFFF => self.ie,
            // 0xFEA0-0xFEFF is unusable and reads as open bus.
            _ => 0xFF,
        }
    }

    pub fn write(&mut self, addr: u16, value: u8)
        requires
            old(self)@.wf(),
            old(self)@.writable(addr, value),
        ensures
            final(self)@ == old(self)@.write(addr, value),
            final(self)@.wf(),
    {
        if addr <= 0x7FFF || (0xA000 <= addr && addr <= 0xBFFF) {
            self.cartridge.write(addr, value);
        } else if addr <= 0x9FFF {
            self.ppu.vram[(addr - 0x8000) as usize] = value;
        } else if 0xC000 <= addr && addr <= 0xFDFF {
            proof {
                lemma_echo_index(addr);
            }
            self.wram[addr as usize & 0x1FFF] = value;
        } else if 0xFE00 <= addr && addr <= 0xFE9F {
            self.ppu.oam[(addr - 0xFE00) as usize] = value;
        } else {
            self.write_high(addr, value);
        }
    }

    /// Writes of 0xFEA0-0xFFFF: the unusable gap, I/O registers, HRAM and IE.
    fn write_high(&mut self, addr: u16, value: u8)
        requires
            old(self)@.wf(),
            old(self)@.writable(addr, value),
            addr >= 0xFEA0,
        ensures
            final(self)@ == old(self)@.write(addr, value),
            final(self)@.wf(),
    {
        match addr {
            SC => {
                self.io[(SC - IO_BASE) as usize] = value;
                // Bit 7 starts a transfer. Other writes only pick a clock
                // source and must not emit anything.
                if value & 0x80 != 0 {
                    self.transfer_serial();
                }
            },
            0xFF04 => self.timer.reset_div(),
            0xFF05 => self.timer.tima = value,
            0xFF06 => self.timer.tma = value,
            0xFF07 => self.timer.tac = value & 0x07,
            0xFF40 => self.ppu.set_lcdc(value),
            0xFF41 => self.ppu.set_stat(value),
            0xFF42 => self.ppu.scy = value,
            0xFF43 => self.ppu.scx = value,
            0xFF44 => {},  // ignored on hardware
            0xFF45 => self.ppu.lyc = value,
            0xFF46 => self.dma(value),
            0xFF47 => self.ppu.bgp = value,
            0xFF48 => self.ppu.obp0 = value,
            0xFF49 => self.ppu.obp1 = value,
            0xFF4A => self.ppu.wy = value,
            0xFF4B => self.ppu.wx = value,
            0xFF00 => self.joypad.write(value),
            0xFF0F => self.iflag = value & 0x1F,
            0xFF00..=0xFF7F => self.io[(addr - IO_BASE) as usize] = value,
            0xFF80..=0xFFFE => self.hram[(addr - 0xFF80) as usize] = value,
            0xFFFF => self.ie = value,
            // 0xFEA0-0xFEFF is unusable; hardware simply drops the write.
            _ => {},
        }
    }

    /// OAM DMA: copies 160 bytes from page `page` into sprite memory.
    fn dma(&mut self, page: u8)
        requires
            old(self)@.wf(),
            old(self)@.dma_readable(page),
        ensures
            final(self)@ == old(self)@.with_ppu(
                PpuState { oam: old(self)@.dma_source(page), ..old(self)@.ppu },
            ),
    {
        let ghost start = self@;
        let base = (page as u16) << 8;
        proof {
            assert(base == page * 256) by (bit_vector)
                requires
                    base == (page as u16) << 8,
            ;
        }
        let mut i: u16 = 0;
        while i < 0xA0
            invariant
                i <= 0xA0,
                base == page * 256,
                start.wf(),
                start.dma_readable(page),
                self@ == start.with_ppu(PpuState { oam: self@.ppu.oam, ..start.ppu }),
                self@.ppu.oam.len() == 0xA0,
                forall|j: int| 0 <= j < i ==> self@.ppu.oam[j] == start.read((page * 256 + j) as u16),
                forall|j: int| i <= j < 0xA0 ==> self@.ppu.oam[j] == start.ppu.oam[j],
            decreases 0xA0 - i,
        {
            assert(start.readable((page * 256 + i) as u16));
            let byte = self.read(base + i);
            self.ppu.oam[i as usize] = byte;
            i = i + 1;
        }
        assert(self@.ppu.oam =~= start.dma_source(page));
    }

    /// Sends the byte sitting in SB: it joins everything sent so far.
    fn transfer_serial(&mut self)
        requires
            old(self)@.io.len() == 0x80,
        ensures
            final(self)@ == (BusState {
                serial: old(self)@.serial.push((old(self)@.io[SB - IO_BASE] as u32) as char),
                ..old(self)@
            }),
    {
        let byte = self.io[(SB - IO_BASE) as usize];
        self.serial.push(byte as char);
    }

    /// Advances the clocked hardware. Returns true when the PPU finished a
    /// frame, which is the frontend's cue to present one.
    pub fn tick(&mut self, cycles: u32) -> (frame: bool)
        requires
            old(self)@.wf(),
            old(self)@.ppu.counter + cycles % 65536 <= u16::MAX,
        ensures
            (final(self)@, frame) == old(self)@.tick(cycles),
            final(self)@.wf(),
    {
        proof {
            lemma_interrupt_bits();
        }
        if self.timer.tick(cycles) {
            self.request_interrupt(2);
        }
        // The PPU can raise VBlank and STAT, so it reports IF bits rather than
        // a single flag.
        let requested = self.ppu.tick(cycles);
        self.iflag |= requested;
        requested & 0x01 != 0
    }

    /// Whether a read of `addr` finds its byte.
    pub fn readable(&self, addr: u16) -> (ok: bool)
        requires
            self@.wf(),
        ensures
            ok == self@.readable(addr),
    {
        self.cartridge.readable(addr)
    }

    /// Whether both ROM banks currently mapped lie wholly in the image, so
    /// that the next instruction finds every byte it reads.
    pub fn rom_mapped(&self) -> (ok: bool)
        requires
            self@.wf(),
        ensures
            ok == self@.mapped(),
    {
        self.cartridge.mapped()
    }

    /// Read-only view of the cartridge, so the frontend can write a .sav.
    pub fn cartridge(&self) -> (c: &Cartridge)
        ensures
            c@ == self@.cart,
    {
        &self.cartridge
    }

    /// Read-only view of the PPU, for diagnostics.
    pub fn ppu(&self) -> (p: &Ppu)
        ensures
            p@ == self@.ppu,
    {
        &self.ppu
    }

    /// Read-only view of sprite memory, for diagnostics.
    pub fn oam(&self) -> (o: &[u8])
        ensures
            o@ == self@.ppu.oam,
    {
        self.ppu.oam.as_slice()
    }

    /// Presses or releases a button; a press that pulls a selected line low
    /// requests the joypad interrupt (IF bit 4).
    pub fn set_button(&mut self, button: Button, down: bool)
        ensures
            final(self)@.joypad == old(self)@.joypad.with_button(button, down),
            final(self)@.iflag == if old(self)@.joypad.pulls_line_low(final(self)@.joypad) {
                old(self)@.iflag | 0x10
            } else {
                old(self)@.iflag
            },
            final(self)@ == (BusState {
                joypad: final(self)@.joypad,
                iflag: final(self)@.iflag,
                ..old(self)@
            }),
    {
        proof {
            lemma_interrupt_bits();
        }
        if self.joypad.set(button, down) {
            self.request_interrupt(4);
        }
    }

    pub fn pending_interrupts(&self) -> (p: u8)
        ensures
            p == self@.pending(),
    {
        self.ie & self.iflag & 0x1F
    }

    pub fn request_interrupt(&mut self, bit: u8)
        requires
            bit < 8,
        ensures
            final(self)@ == (BusState { iflag: old(self)@.iflag | (1u8 << bit), ..old(self)@ }),
    {
        self.iflag |= 1 << bit;
    }

    pub fn clear_interrupt(&mut self, bit: u8)
        requires
            bit < 8,
        ensures
            final(self)@ == (BusState { iflag: old(self)@.iflag & !(1u8 << bit), ..old(self)@ }),
    {
        self.iflag &= !(1 << bit);
    }
}

// ---------------------------------------------------------------------------
// Laws
// ---------------------------------------------------------------------------
/// The addresses backed by plain storage on the bus: VRAM, work RAM and its
/// echo, OAM, HRAM and IE.
pub open spec fn is_storage(addr: u16) -> bool {
    ||| 0x8000 <= addr <= 0x9FFF
    ||| 0xC000 <= addr <= 0xFDFF
    ||| 0xFE00 <= addr <= 0xFE9F
    ||| 0xFF80 <= addr <= 0xFFFF
}

/// The storage cell behind an address: work RAM and its echo share cells.
pub open spec fn cell(addr: u16) -> int {
    if 0xC000 <= addr <= 0xFDFF {
        0xC000 + addr as int % 0x2000
    } else {
        addr as int
    }
}

/// Plain storage reads back what was written, and a write touches no other
/// storage cell: HRAM ends at 0xFFFE and IE at 0xFFFF is a cell of its own.
pub proof fn lemma_storage_round_trip(b: BusState, addr: u16, other: u16, value: u8)
    requires
        b.wf(),
        is_storage(addr),
        is_storage(other),
        cell(addr) != cell(other),
    ensures
        b.write(addr, value).read(addr) == value,
        b.write(addr, value).read(other) == b.read(other),
        b.write(addr, value).wf(),
{
}

/// 0xE000-0xFDFF echoes work RAM in both directions.
pub proof fn lemma_echo_mirrors_wram(b: BusState, k: u16, value: u8)
    requires
        b.wf(),
        k < 0x1E00,
    ensures
        b.write((0xC000 + k) as u16, value).read((0xE000 + k) as u16) == value,
        b.write((0xE000 + k) as u16, value).read((0xC000 + k) as u16) == value,
{
}

/// 0xFEA0-0xFEFF is unusable: it reads as open bus and drops writes.
pub proof fn lemma_unusable_region(b: BusState, addr: u16, value: u8)
    requires
        0xFEA0 <= addr <= 0xFEFF,
    ensures
        b.read(addr) == 0xFF,
        b.write(addr, value) == b,
{
}

/// The colour-only registers read 0xFF on a DMG.
pub proof fn lemma_cgb_registers_absent(b: BusState, addr: u16)
    requires
        is_cgb_register(addr),
    ensures
        b.read(addr) == 0xFF,
{
}

/// A write to SC with bit 7 set sends the byte in SB; without it nothing is
/// sent.
pub proof fn lemma_serial_transfer(b: BusState, value: u8)
    ensures
        b.write(SC, value).serial == if value & 0x80 != 0 {
            b.serial.push((b.io[SB - IO_BASE] as u32) as char)
        } else {
            b.serial
        },
        b.write(SB, value).serial == b.serial,
        b.io.len() == 0x80 ==> b.write(SB, value).io[SB - IO_BASE] == value,
{
}

/// IF has five bits; the top three always read as 1.
pub proof fn lemma_if_register(b: BusState, value: u8)
    ensures
        b.read(0xFF0F) & 0xE0 == 0xE0,
        b.write(0xFF0F, value).iflag == value & 0x1F,
        b.write(0xFF0F, value).read(0xFF0F) == (value & 0x1F) | 0xE0,
{
    let f = b.iflag;
    assert((f | 0xE0) & 0xE0 == 0xE0) by (bit_vector);
}

/// An OAM DMA leaves in sprite memory what the source page held before it.
pub proof fn lemma_dma_copies_page(b: BusState, page: u8, i: int)
    requires
        b.wf(),
        0 <= i < 0xA0,
    ensures
        b.write(0xFF46, page).read((0xFE00 + i) as u16) == b.read((page * 256 + i) as u16),
        b.write(0xFF46, page).wf(),
{
}

/// Interrupts are pending exactly when both requested in IF and enabled in IE.
pub proof fn lemma_pending_needs_enable(b: BusState, bit: u8)
    requires
        bit < 5,
    ensures
        (b.pending() & (1u8 << bit) != 0) <==> (b.ie & (1u8 << bit) != 0 && b.iflag & (1u8 << bit)
            != 0),
{
    let ie = b.ie;
    let f = b.iflag;
    assert((ie & f & 0x1F) & (1u8 << bit) != 0 <==> (ie & (1u8 << bit) != 0 && f & (1u8 << bit)
        != 0)) by (bit_vector)
        requires
            bit < 5,
    ;
}

} // verus!
