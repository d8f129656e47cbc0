use gameboy::bus::{Bus, SB, SC};
use gameboy::cartridge::{fake_rom, Cartridge};
use gameboy::joypad::Button;

fn test_bus() -> Bus {
    Bus::new(Cartridge::from_bytes(fake_rom("TEST", 0x00, 0x00, 0x00)).unwrap())
}

#[test]
fn read_from_rom() {
    let bus = test_bus();
    assert_eq!(bus.read(0x0104), 0xCE);
}

#[test]
fn echo_mirrors_wram() {
    let mut bus = test_bus();
    bus.write(0xC000, 0x12);
    assert_eq!(bus.read(0xE000), 0x12);
}

#[test]
fn wram_mirrors_echo() {
    let mut bus = test_bus();
    bus.write(0xE000, 0x12);
    assert_eq!(bus.read(0xC000), 0x12);
}

#[test]
fn read_from_unusable() {
    let bus = test_bus();
    assert_eq!(bus.read(0xFEA0), 0xFF);
}

#[test]
fn storage_regions_round_trip() {
    let mut bus = test_bus();
    for addr in [0x8000u16, 0xC000, 0xFE00, 0xFF80, 0xFFFF] {
        bus.write(addr, 0x5A);
        assert_eq!(bus.read(addr), 0x5A, "round trip failed at {addr:#06X}");
    }
}

#[test]
fn hram_and_ie_do_not_overlap() {
    let mut bus = test_bus();

    // HRAM is 0xFF80..=0xFFFE -- 127 bytes, with IE sitting just past it.
    bus.write(0xFFFE, 0x11);
    assert_eq!(bus.read(0xFFFF), 0x00);

    bus.write(0xFFFF, 0x22);
    assert_eq!(bus.read(0xFFFE), 0x11);
}

#[test]
fn serial_transfer_emits_a_byte() {
    let mut bus = test_bus();
    bus.write(SB, b'P');
    bus.write(SC, 0x81);
    assert_eq!(bus.serial, "P");
}

#[test]
fn serial_ignores_writes_without_the_start_bit() {
    let mut bus = test_bus();
    bus.write(SB, b'P');
    bus.write(SC, 0x01); // picks a clock source, starts nothing
    assert!(bus.serial.is_empty());
}

#[test]
fn cartridge_ram_round_trips_through_the_bus() {
    // 0x03 = MBC1 + RAM + BATTERY, 0x02 = 8 KiB of cartridge RAM.
    let cart = Cartridge::from_bytes(fake_rom("SAVE", 0x03, 0x00, 0x02)).unwrap();
    let mut bus = Bus::new(cart);

    // Cartridge RAM is disabled out of reset.
    bus.write(0xA000, 0x42);
    assert_eq!(bus.read(0xA000), 0xFF);

    bus.write(0x0000, 0x0A); // MBC1 RAM enable
    bus.write(0xA000, 0x42);
    assert_eq!(bus.read(0xA000), 0x42);
}

#[test]
fn unusable_region_drops_writes() {
    let mut bus = test_bus();
    bus.write(0xFEA5, 0x12);
    assert_eq!(bus.read(0xFEA5), 0xFF);
}

#[test]
fn colour_registers_read_as_absent() {
    let mut bus = test_bus();
    for addr in [0xFF4Du16, 0xFF4F, 0xFF51, 0xFF55, 0xFF68, 0xFF6B, 0xFF70] {
        bus.write(addr, 0x00);
        assert_eq!(bus.read(addr), 0xFF, "{addr:#06X}");
    }
}

#[test]
fn the_interrupt_flag_register_has_five_bits() {
    let mut bus = test_bus();
    assert_eq!(bus.read(0xFF0F), 0xE0);
    bus.write(0xFF0F, 0xFF);
    assert_eq!(bus.read(0xFF0F), 0xFF);
    bus.write(0xFFFF, 0x05);
    assert_eq!(bus.pending_interrupts(), 0x05);
    bus.clear_interrupt(0);
    assert_eq!(bus.pending_interrupts(), 0x04);
    bus.request_interrupt(0);
    assert_eq!(bus.pending_interrupts(), 0x05);
}

#[test]
fn dma_copies_a_page_into_oam() {
    let mut bus = test_bus();
    for i in 0..0xA0u16 {
        bus.write(0xC100 + i, i as u8 ^ 0x5A);
    }
    bus.write(0xFF46, 0xC1);
    for i in 0..0xA0u16 {
        assert_eq!(bus.read(0xFE00 + i), i as u8 ^ 0x5A);
    }
    assert_eq!(bus.oam()[0x9F], 0x9F ^ 0x5A);
}

#[test]
fn timer_registers_through_the_bus() {
    let mut bus = test_bus();
    bus.write(0xFF07, 0xFD);
    assert_eq!(bus.read(0xFF07), 0xFD, "TAC keeps three bits and reads the rest as 1");
    bus.write(0xFF06, 0x33);
    assert_eq!(bus.read(0xFF06), 0x33);
    bus.write(0xFF05, 0xFF);
    bus.write(0xFFFF, 0x04);
    bus.tick(16);
    assert_eq!(bus.read(0xFF05), 0x33, "TIMA reloads from TMA");
    assert_eq!(bus.pending_interrupts(), 0x04, "the overflow requests the timer interrupt");
    for _ in 0..300 {
        bus.tick(4);
    }
    assert_eq!(bus.read(0xFF04), 4);
    bus.write(0xFF04, 0x99);
    assert_eq!(bus.read(0xFF04), 0, "any write clears DIV");
}

#[test]
fn pinned_ly_reads_0x90() {
    let mut bus = test_bus();
    assert_eq!(bus.read(0xFF44), 0);
    bus.set_ly_fixed(true);
    assert_eq!(bus.read(0xFF44), 0x90);
    bus.write(0xFF44, 0x12);
    bus.set_ly_fixed(false);
    assert_eq!(bus.read(0xFF44), 0, "LY ignores writes");
}

#[test]
fn a_button_press_requests_the_joypad_interrupt() {
    let mut bus = test_bus();
    bus.write(0xFFFF, 0x10);
    bus.write(0xFF00, 0x10); // action row
    bus.set_button(Button::Start, true);
    assert_eq!(bus.pending_interrupts(), 0x10);
    assert_eq!(bus.read(0xFF00) & 0x0F, 0x07);
}

#[test]
fn vblank_arrives_with_line_144() {
    let mut bus = test_bus();
    bus.write(0xFFFF, 0x01);
    for line in 0..143 {
        assert!(!bus.tick(456), "VBlank too early, at line {line}");
    }
    assert_eq!(bus.read(0xFF44), 143);
    assert!(bus.tick(456));
    assert_eq!(bus.read(0xFF44), 144);
    assert_eq!(bus.pending_interrupts(), 0x01);
    assert_eq!(bus.read(0xFF41) & 0x03, 1, "STAT reports VBlank mode");
    for _ in 0..10 {
        assert!(!bus.tick(456));
    }
    assert_eq!(bus.read(0xFF44), 0, "a frame is 154 lines");
}

#[test]
fn stat_reports_mode_and_coincidence() {
    let mut bus = test_bus();
    assert_eq!(bus.read(0xFF41), 0x86, "line start, LY = LYC = 0: OAM search with coincidence");
    bus.tick(100);
    assert_eq!(bus.read(0xFF41) & 0x03, 3);
    bus.tick(200);
    assert_eq!(bus.read(0xFF41) & 0x03, 0);
    bus.write(0xFF41, 0xFF);
    assert_eq!(bus.read(0xFF41) & 0x78, 0x78, "bits 3-6 are writable");
    bus.write(0xFF45, 5);
    bus.write(0xFFFF, 0x02);
    for _ in 0..5 {
        bus.tick(456);
    }
    assert_eq!(bus.pending_interrupts(), 0x02, "LY reaching LYC requests STAT");
}

#[test]
fn a_truncated_image_runs_until_it_maps_a_missing_bank() {
    let mut rom = gameboy::cartridge::fake_rom("SHORT", 0x01, 0x02, 0x00);
    rom.truncate(0x8000);
    let cart = gameboy::cartridge::Cartridge::from_bytes(rom).unwrap();
    assert!(!cart.is_consistent());
    let mut bus = Bus::new(cart);
    assert!(bus.rom_mapped());
    let first = bus.read(0x4000);
    bus.write(0xC000, 0x12);
    assert_eq!(bus.read(0xC000), 0x12);
    assert_eq!(bus.read(0x4000), first);

    // Bank 3 is declared by the header but not in the image.
    bus.write(0x2000, 0x03);
    assert!(!bus.rom_mapped());
    bus.write(0x2000, 0x01);
    assert!(bus.rom_mapped());
}
