use gameboy::bus::Bus;
use gameboy::cartridge::{fake_rom, Cartridge};
use gameboy::ppu::{HEIGHT, WIDTH};

fn test_bus() -> Bus {
    Bus::new(Cartridge::from_bytes(fake_rom("TEST", 0x00, 0x00, 0x00)).unwrap())
}

#[test]
fn the_screen_is_160_by_144() {
    let bus = test_bus();
    assert_eq!(bus.framebuffer().len(), WIDTH * HEIGHT);
    assert_eq!((WIDTH, HEIGHT), (160, 144));
}

#[test]
fn a_finished_line_shows_the_background() {
    let mut bus = test_bus();
    // Tile 0, row 0: every pixel colour 1. BGP 0xFC maps colour 1 to shade 3.
    bus.write(0x8000, 0xFF);
    bus.write(0x8001, 0x00);
    bus.tick(455);
    assert!(bus.framebuffer().iter().all(|&s| s == 0), "nothing is drawn before the line ends");
    bus.tick(1);
    assert!(bus.framebuffer()[..160].iter().all(|&s| s == 3));
    assert!(bus.framebuffer()[160..].iter().all(|&s| s == 0));
}

#[test]
fn scrolling_wraps_in_the_map() {
    let mut bus = test_bus();
    // Tile 1 has a single dark pixel at its top-left corner; the map shows
    // it at map column 0 only.
    bus.write(0x8010, 0x80);
    bus.write(0x8011, 0x80);
    bus.write(0x9800, 0x01);
    bus.write(0xFF47, 0xE4);
    bus.write(0xFF43, 0xF8); // SCX = 248: map column 0 lands at screen x = 8
    bus.tick(456);
    let fb = bus.framebuffer();
    assert_eq!(fb[8], 3);
    assert_eq!(fb[0], 0);
    assert_eq!(fb[9], 0);
}

#[test]
fn signed_tile_addressing() {
    let mut bus = test_bus();
    bus.write(0xFF40, 0x81); // LCD on, BG on, tiles at 0x8800 signed
    bus.write(0xFF47, 0xE4);
    // Tile number 0 now lives at 0x9000.
    bus.write(0x9000, 0x00);
    bus.write(0x9001, 0xFF);
    bus.tick(456);
    assert!(bus.framebuffer()[..160].iter().all(|&s| s == 2));
}

/// Puts sprite `n` at screen (x, y) with the given tile and attributes.
fn sprite(bus: &mut Bus, n: u16, x: u8, y: u8, tile: u8, attr: u8) {
    bus.write(0xFE00 + n * 4, y + 16);
    bus.write(0xFE00 + n * 4 + 1, x + 8);
    bus.write(0xFE00 + n * 4 + 2, tile);
    bus.write(0xFE00 + n * 4 + 3, attr);
}

#[test]
fn sprites_draw_over_the_background() {
    let mut bus = test_bus();
    bus.write(0xFF40, 0x93); // LCD, BG and sprites on, unsigned tiles
    bus.write(0xFF47, 0x00);
    bus.write(0xFF48, 0xE4);
    // Tile 1 row 0: leftmost pixel colour 3, the rest transparent.
    bus.write(0x8010, 0x80);
    bus.write(0x8011, 0x80);
    sprite(&mut bus, 0, 4, 0, 1, 0x00);
    bus.tick(456);
    let fb = bus.framebuffer();
    assert_eq!(fb[4], 3);
    assert_eq!(fb[5], 0, "colour 0 is transparent");
}

#[test]
fn sprite_priority_goes_to_the_smaller_x_then_the_earlier_entry() {
    let mut bus = test_bus();
    bus.write(0xFF40, 0x93);
    bus.write(0xFF47, 0x00);
    bus.write(0xFF48, 0xE4);
    // Tile 1: every pixel of row 0 colour 1. Tile 2: colour 2.
    bus.write(0x8010, 0xFF);
    bus.write(0x8011, 0x00);
    bus.write(0x8020, 0x00);
    bus.write(0x8021, 0xFF);
    // Entries 0 and 1 at the same X: entry 0 wins.
    sprite(&mut bus, 1, 20, 0, 2, 0x00);
    sprite(&mut bus, 0, 20, 0, 1, 0x00);
    // Entry 2 at a smaller X overlaps entry 3 to its right: entry 2 wins.
    sprite(&mut bus, 3, 44, 0, 1, 0x00);
    sprite(&mut bus, 2, 40, 0, 2, 0x00);
    bus.tick(456);
    let fb = bus.framebuffer();
    assert_eq!(fb[20], 1);
    assert_eq!(fb[27], 1);
    assert_eq!(fb[44], 2, "the sprite further left is on top");
    assert_eq!(fb[48], 1, "only entry 3 covers x = 48");
}

#[test]
fn at_most_ten_sprites_per_line() {
    let mut bus = test_bus();
    bus.write(0xFF40, 0x93);
    bus.write(0xFF47, 0x00);
    bus.write(0xFF48, 0xE4);
    bus.write(0x8010, 0xFF);
    bus.write(0x8011, 0xFF);
    for n in 0..11u16 {
        sprite(&mut bus, n, (n * 8) as u8, 0, 1, 0x00);
    }
    bus.tick(456);
    let fb = bus.framebuffer();
    assert_eq!(fb[72], 3, "the tenth sprite is drawn");
    assert_eq!(fb[80], 0, "the eleventh is not");
}

#[test]
fn flipped_and_hidden_sprites() {
    let mut bus = test_bus();
    bus.write(0xFF40, 0x93);
    bus.write(0xFF47, 0xE4);
    bus.write(0xFF48, 0xE4);
    bus.write(0xFF49, 0x80);
    // Tile 1 row 0: leftmost pixel colour 3.
    bus.write(0x8010, 0x80);
    bus.write(0x8011, 0x80);
    // X flip moves the pixel to the right edge; OBP1 maps colour 3 to 2.
    sprite(&mut bus, 0, 0, 0, 1, 0x20 | 0x10);
    // Background tile 0 row 0 is colour 1 from x = 16 on; a sprite behind it
    // only shows over colour 0.
    bus.write(0x9802, 0x02);
    bus.write(0x8020, 0xFF);
    sprite(&mut bus, 1, 16, 0, 1, 0x80);
    bus.tick(456);
    let fb = bus.framebuffer();
    assert_eq!(fb[7], 2, "X flip, then OBP1: colour 3 is shade 2");
    assert_eq!(fb[0], 0, "background colour 0 under a transparent pixel");
    assert_eq!(fb[16], 1, "the sprite stays behind a non-zero background pixel");
}

#[test]
fn the_window_covers_the_background_from_wx_and_wy() {
    let mut bus = test_bus();
    bus.write(0xFF40, 0xF1); // LCD, BG and window on; window map at 0x9C00
    bus.write(0xFF47, 0xE4);
    bus.write(0x8010, 0xFF);
    bus.write(0x8011, 0xFF);
    bus.write(0x9C00, 0x01);
    bus.write(0xFF4A, 0); // WY
    bus.write(0xFF4B, 80 + 7); // WX: the window starts at x = 80
    bus.tick(456);
    let fb = bus.framebuffer();
    assert_eq!(fb[79], 0, "left of the window is background");
    assert_eq!(fb[80], 3, "the window's first tile");
    assert_eq!(fb[87], 3);
    assert_eq!(fb[88], 0, "the window's second tile is tile 0");

    // Above WY the window is not shown.
    let mut bus = test_bus();
    bus.write(0xFF40, 0xF1);
    bus.write(0xFF47, 0xE4);
    bus.write(0x8010, 0xFF);
    bus.write(0x8011, 0xFF);
    bus.write(0x9C00, 0x01);
    bus.write(0xFF4A, 1);
    bus.write(0xFF4B, 7);
    bus.tick(456);
    assert!(bus.framebuffer()[..160].iter().all(|&s| s == 0));
}

#[test]
fn ticks_raise_vblank_once_a_frame() {
    let mut bus = test_bus();
    let mut vblanks = 0;
    // Two frames and a bit, in uneven slices of at most one line each.
    let slices = [456u32, 200, 256, 100, 456, 1, 455];
    let mut total: u32 = 0;
    while total < 2 * 154 * 456 + 10 * 456 {
        for &c in &slices {
            if bus.tick(c) {
                vblanks += 1;
            }
            total += c;
        }
    }
    let lines = total / 456;
    assert_eq!(bus.ppu().ly as u32, lines % 154);
    let expected = (1..=lines).filter(|k| k % 154 == 144).count();
    assert_eq!(vblanks, expected);
    assert_eq!(expected, 2);
}
