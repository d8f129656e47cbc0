use gameboy::registers::Registers;

#[test]
fn post_boot_matches_the_state_the_boot_rom_leaves_behind() {
    let regs = Registers::post_boot();
    assert_eq!(regs.af(), 0x01B0);
    assert_eq!(regs.bc(), 0x0013);
    assert_eq!(regs.de(), 0x00D8);
    assert_eq!(regs.hl(), 0x014D);
    assert_eq!(regs.sp, 0xFFFE);
    assert_eq!(regs.pc, 0x0100);
}

#[test]
fn pairs_put_the_high_byte_in_the_first_register() {
    let mut regs = Registers::post_boot();

    regs.set_bc(0x1234);
    assert_eq!((regs.b, regs.c), (0x12, 0x34));

    regs.set_de(0x1234);
    assert_eq!((regs.d, regs.e), (0x12, 0x34));

    regs.set_hl(0x1234);
    assert_eq!((regs.h, regs.l), (0x12, 0x34));

    regs.set_af(0x1234);
    assert_eq!(regs.a, 0x12);
}

#[test]
fn pairs_round_trip() {
    let mut regs = Registers::post_boot();

    for value in [0x0000u16, 0x0001, 0x1234, 0xABCD, 0xFFFF] {
        regs.set_bc(value);
        assert_eq!(regs.bc(), value, "BC failed on {value:#06X}");

        regs.set_de(value);
        assert_eq!(regs.de(), value, "DE failed on {value:#06X}");

        regs.set_hl(value);
        assert_eq!(regs.hl(), value, "HL failed on {value:#06X}");
    }
}

#[test]
fn writing_a_pair_leaves_the_others_alone() {
    let mut regs = Registers::post_boot();
    regs.set_hl(0xFFFF);
    assert_eq!(regs.bc(), 0x0013);
    assert_eq!(regs.de(), 0x00D8);
    assert_eq!(regs.af(), 0x01B0);
}

#[test]
fn af_drops_the_flag_registers_low_nibble() {
    let mut regs = Registers::post_boot();

    // F has only four flip-flops, wired to bits 7-4. Bits 3-0 do not exist,
    // so they never store anything and always read back as zero.
    regs.set_af(0x123F);
    assert_eq!(regs.af(), 0x1230);
    assert_eq!(regs.f(), 0x30);

    // A itself is a full 8-bit register -- nothing is masked there.
    regs.set_af(0xFFFF);
    assert_eq!(regs.a, 0xFF);
    assert_eq!(regs.af(), 0xFFF0);
}

#[test]
fn each_flag_owns_exactly_one_bit() {
    let mut regs = Registers::post_boot();

    regs.set_af(0x0000); // clear every flag
    for (name, set, get) in [
        (
            "Z",
            Registers::set_flag_z as fn(&mut Registers, bool),
            Registers::flag_z as fn(&Registers) -> bool,
        ),
        ("N", Registers::set_flag_n, Registers::flag_n),
        ("H", Registers::set_flag_h, Registers::flag_h),
        ("C", Registers::set_flag_c, Registers::flag_c),
    ] {
        set(&mut regs, true);
        assert!(get(&regs), "{name} did not set");

        set(&mut regs, false);
        assert!(!get(&regs), "{name} did not clear");
        assert_eq!(regs.f(), 0x00, "{name} disturbed another flag");
    }
}

#[test]
fn setting_flags_never_touches_the_low_nibble() {
    let mut regs = Registers::post_boot();

    regs.set_flag_z(true);
    regs.set_flag_n(true);
    regs.set_flag_h(true);
    regs.set_flag_c(true);
    assert_eq!(regs.f(), 0xF0);

    regs.set_flag_z(false);
    regs.set_flag_h(false);
    assert_eq!(regs.f(), 0x50); // N and C only
}

#[test]
fn set_flags_writes_all_four_at_once() {
    let mut regs = Registers::post_boot();
    regs.set_flags(false, true, false, true);
    assert_eq!(regs.f(), 0x50);
    assert!(!regs.flag_z() && regs.flag_n() && !regs.flag_h() && regs.flag_c());
    regs.set_flags(true, false, true, false);
    assert_eq!(regs.f(), 0xA0);
}
