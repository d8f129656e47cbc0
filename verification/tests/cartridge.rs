use gameboy::cartridge::{fake_rom, CartError, Cartridge, MbcKind, HEADER_CHECKSUM};

/// Recomputes the header checksum after a test edits the header.
fn fix_checksum(rom: &mut [u8]) {
    let mut sum: u8 = 0;
    for &byte in &rom[0x0134..=0x014C] {
        sum = sum.wrapping_sub(byte).wrapping_sub(1);
    }
    rom[HEADER_CHECKSUM] = sum;
}

#[test]
fn parses_a_plain_32k_cartridge() {
    let cart = Cartridge::from_bytes(fake_rom("TETRIS", 0x00, 0x00, 0x00)).unwrap();
    assert_eq!(cart.header.title, "TETRIS");
    assert_eq!(cart.header.mbc, MbcKind::RomOnly);
    assert_eq!(cart.header.rom_size(), 32 * 1024);
    assert_eq!(cart.header.ram_banks, 0);
    assert!(!cart.header.has_battery);
}

#[test]
fn rejects_a_corrupt_header() {
    let mut rom = fake_rom("TETRIS", 0x00, 0x00, 0x00);
    rom[HEADER_CHECKSUM] ^= 0xFF;
    assert!(matches!(
        Cartridge::from_bytes(rom),
        Err(CartError::BadChecksum { .. })
    ));
}

#[test]
fn mbc1_switches_rom_banks() {
    // 0x03 = MBC1 + RAM + BATTERY, 0x05 = 1 MiB (64 banks), 0x03 = 32 KiB RAM
    let mut cart = Cartridge::from_bytes(fake_rom("BANKS", 0x03, 0x05, 0x03)).unwrap();
    assert!(cart.header.has_battery);

    // Bank 1 is mapped at 0x4000 out of reset.
    assert_eq!(cart.read(0x4010), 1);

    cart.write(0x2000, 5);
    assert_eq!(cart.read(0x4010), 5);

    // Writing 0 to the 5-bit register selects bank 1, never bank 0.
    cart.write(0x2000, 0);
    assert_eq!(cart.read(0x4010), 1);

    // The 2-bit register supplies bits 5-6: bank2=1, bank1=2 -> bank 34.
    cart.write(0x2000, 2);
    cart.write(0x4000, 1);
    assert_eq!(cart.read(0x4010), 34);

    // Bank 0 stays at 0x0000 until advanced banking mode is switched on.
    assert_eq!(cart.read(0x0010), 0);
    cart.write(0x6000, 1);
    assert_eq!(cart.read(0x0010), 32);
}

#[test]
fn cart_ram_needs_enabling() {
    let mut cart = Cartridge::from_bytes(fake_rom("SAVE", 0x03, 0x00, 0x02)).unwrap();

    // Disabled out of reset: writes are dropped, reads are open bus.
    cart.write(0xA000, 0x42);
    assert_eq!(cart.read(0xA000), 0xFF);

    cart.write(0x0000, 0x0A);
    cart.write(0xA000, 0x42);
    assert_eq!(cart.read(0xA000), 0x42);
    assert_eq!(cart.ram()[0], 0x42);
}

#[test]
fn rejects_an_image_too_short_for_a_header() {
    assert!(matches!(
        Cartridge::from_bytes(vec![0u8; 0x100]),
        Err(CartError::TooShort(0x100))
    ));
}

#[test]
fn rejects_unsupported_codes() {
    // 0x05 is MBC2, which is not supported.
    assert!(matches!(
        Cartridge::from_bytes(fake_rom("MBC2", 0x05, 0x00, 0x00)),
        Err(CartError::UnknownCartType(0x05))
    ));
    assert!(matches!(
        Cartridge::from_bytes(fake_rom("RAM", 0x00, 0x00, 0x01)),
        Err(CartError::UnknownRamSize(0x01))
    ));
    let mut rom = fake_rom("ROM", 0x00, 0x00, 0x00);
    rom[0x0148] = 0x09;
    fix_checksum(&mut rom);
    assert!(matches!(
        Cartridge::from_bytes(rom),
        Err(CartError::UnknownRomSize(0x09))
    ));
}

#[test]
fn the_checksum_error_reports_both_values() {
    let mut rom = fake_rom("TETRIS", 0x00, 0x00, 0x00);
    let good = rom[HEADER_CHECKSUM];
    rom[HEADER_CHECKSUM] = good ^ 0xFF;
    match Cartridge::from_bytes(rom) {
        Err(CartError::BadChecksum { expected, found }) => {
            assert_eq!(expected, good ^ 0xFF);
            assert_eq!(found, good);
        }
        _ => panic!("a corrupt checksum must be refused"),
    }
}

#[test]
fn titles_are_decoded_and_trimmed() {
    let mut rom = fake_rom("POKEMON  ", 0x00, 0x00, 0x00);
    fix_checksum(&mut rom);
    let cart = Cartridge::from_bytes(rom).unwrap();
    assert_eq!(cart.header.title, "POKEMON");
    assert!(!cart.header.cgb);

    // A byte that is not UTF-8 becomes U+FFFD rather than being dropped.
    let mut rom = fake_rom("AB", 0x00, 0x00, 0x00);
    rom[0x0136] = 0xFF;
    fix_checksum(&mut rom);
    let cart = Cartridge::from_bytes(rom).unwrap();
    assert_eq!(cart.header.title, "AB\u{FFFD}");

    // On a CGB cartridge 0x0143 is the flag, not part of the title.
    let mut rom = fake_rom("ABCDEFGHIJKLMNOP", 0x00, 0x00, 0x00);
    rom[0x0143] = 0x80;
    fix_checksum(&mut rom);
    let cart = Cartridge::from_bytes(rom).unwrap();
    assert_eq!(cart.header.title, "ABCDEFGHIJKLMNO");
    assert!(cart.header.cgb);
}

#[test]
fn the_cartridge_type_byte_is_four_facts() {
    let cart = Cartridge::from_bytes(fake_rom("CLOCK", 0x10, 0x00, 0x03)).unwrap();
    assert_eq!(cart.header.mbc, MbcKind::Mbc3);
    assert!(cart.header.has_ram && cart.header.has_battery && cart.header.has_rtc);
    assert_eq!(cart.header.ram_banks, 4);
    assert_eq!(cart.header.ram_size(), 32 * 1024);
    assert_eq!(cart.ram().len(), 32 * 1024);

    let cart = Cartridge::from_bytes(fake_rom("RUMBLE", 0x1E, 0x08, 0x05)).unwrap();
    assert_eq!(cart.header.mbc, MbcKind::Mbc5);
    assert_eq!(cart.header.rom_banks, 512);
    assert_eq!(cart.header.ram_banks, 8);
}

#[test]
fn bank_numbers_wrap_around_the_real_size() {
    // MBC5 on a 16-bank cartridge: bank 40 is bank 8.
    let mut cart = Cartridge::from_bytes(fake_rom("WRAP", 0x19, 0x03, 0x00)).unwrap();
    cart.write(0x2000, 40);
    assert_eq!(cart.read(0x4010), 8);
}

#[test]
fn mbc3_selects_seven_bit_banks() {
    let mut cart = Cartridge::from_bytes(fake_rom("MBC3", 0x13, 0x06, 0x03)).unwrap();
    cart.write(0x2000, 0x7F);
    assert_eq!(cart.read(0x4010), 0x7F);
    cart.write(0x2000, 0x80); // the top bit is not part of the register: bank 0 -> 1
    assert_eq!(cart.read(0x4010), 1);

    cart.write(0x0000, 0x0A);
    cart.write(0x4000, 2);
    cart.write(0xA000, 0x99);
    cart.write(0x4000, 0);
    assert_eq!(cart.read(0xA000), 0x00, "bank 0 holds nothing yet");
    cart.write(0x4000, 2);
    assert_eq!(cart.read(0xA000), 0x99);
}

#[test]
fn mbc5_has_a_ninth_bank_bit_and_a_real_bank_zero() {
    let mut cart = Cartridge::from_bytes(fake_rom("MBC5", 0x1B, 0x08, 0x02)).unwrap();
    cart.write(0x2000, 0x00);
    assert_eq!(cart.read(0x4010), 0, "MBC5 can map bank 0 high");
    cart.write(0x2000, 0x05);
    cart.write(0x3000, 0x01);
    assert_eq!(cart.read(0x4010), (0x105 & 0xFF) as u8);

    // RAM enable on MBC5 wants exactly 0x0A.
    cart.write(0x0000, 0x1A);
    cart.write(0xA000, 0x42);
    assert_eq!(cart.read(0xA000), 0xFF);
    cart.write(0x0000, 0x0A);
    cart.write(0xA000, 0x42);
    assert_eq!(cart.read(0xA000), 0x42);
}

#[test]
fn load_ram_ignores_the_wrong_size() {
    let mut cart = Cartridge::from_bytes(fake_rom("SAVE", 0x03, 0x00, 0x02)).unwrap();
    cart.load_ram(&[1, 2, 3]);
    assert!(cart.ram().iter().all(|&b| b == 0));

    let save = vec![0x5Au8; 0x2000];
    cart.load_ram(&save);
    assert_eq!(cart.ram(), &save[..]);
}

#[test]
fn a_truncated_image_is_not_consistent() {
    let cart = Cartridge::from_bytes(fake_rom("FULL", 0x01, 0x02, 0x00)).unwrap();
    assert!(cart.is_consistent());

    let mut rom = fake_rom("FULL", 0x01, 0x02, 0x00);
    rom.truncate(0x8000);
    let cart = Cartridge::from_bytes(rom).unwrap();
    assert!(!cart.is_consistent());
}

#[test]
fn fake_rom_stamps_every_bank() {
    let rom = fake_rom("STAMP", 0x01, 0x02, 0x00);
    assert_eq!(rom.len(), 8 * 0x4000);
    for bank in 0..8 {
        assert_eq!(rom[bank * 0x4000 + 0x10], bank as u8);
    }
    assert_eq!(rom[0x0104], 0xCE);
    assert_eq!(&rom[0x0134..0x0139], b"STAMP");
}

#[test]
fn only_battery_backed_ram_keeps_a_save() {
    let battery = Cartridge::from_bytes(fake_rom("SAVE", 0x03, 0x00, 0x02)).unwrap();
    assert!(battery.keeps_save());
    let no_battery = Cartridge::from_bytes(fake_rom("NOSAVE", 0x02, 0x00, 0x02)).unwrap();
    assert!(!no_battery.keeps_save());
    let no_ram = Cartridge::from_bytes(fake_rom("NORAM", 0x03, 0x00, 0x00)).unwrap();
    assert!(!no_ram.keeps_save());
}

#[test]
fn report_lists_the_header() {
    let cart = Cartridge::from_bytes(fake_rom("TETRIS", 0x00, 0x00, 0x00)).unwrap();
    assert_eq!(
        cart.header.report(),
        "Title      : TETRIS\nController : no MBC\nROM        : 32 KiB (2 banks)\n\
         RAM        : none\nBattery    : no\nMode       : DMG"
    );

    let cart = Cartridge::from_bytes(fake_rom("CLOCK", 0x10, 0x01, 0x03)).unwrap();
    assert_eq!(
        cart.header.report(),
        "Title      : CLOCK\nController : MBC3\nROM        : 64 KiB (4 banks)\n\
         RAM        : 32 KiB (4 banks)\nBattery    : yes\nRTC        : yes\nMode       : DMG"
    );

    let cart = Cartridge::from_bytes(fake_rom("CLAIM", 0x03, 0x00, 0x00)).unwrap();
    assert!(cart
        .header
        .report()
        .contains("\nRAM        : none (the cartridge type claims some)\n"));
}

#[test]
fn decimal_has_no_leading_zeros() {
    assert_eq!(gameboy::cartridge::decimal(0), "0");
    assert_eq!(gameboy::cartridge::decimal(7), "7");
    assert_eq!(gameboy::cartridge::decimal(8192), "8192");
}
