use gameboy::bus::Bus;
use gameboy::cartridge::{fake_rom, Cartridge};
use gameboy::cpu::Cpu;

const VBLANK: u8 = 0;
const TIMER: u8 = 2;

/// A bus over a blank 32 KiB cartridge. Address 0x0100, where post_boot
/// leaves PC, holds 0x00 -- so an undispatched step executes a NOP.
fn test_bus() -> Bus {
    Bus::new(Cartridge::from_bytes(fake_rom("TEST", 0x00, 0x00, 0x00)).unwrap())
}

/// A bus whose cartridge holds `code` at 0x0100, where execution starts.
fn bus_with_program(code: &[u8]) -> Bus {
    let mut rom = fake_rom("TEST", 0x00, 0x00, 0x00);
    rom[0x0100..0x0100 + code.len()].copy_from_slice(code);
    Bus::new(Cartridge::from_bytes(rom).unwrap())
}

/// A CPU with interrupts unmasked and `sources` already requested.
fn armed(bus: &mut Bus, sources: &[u8]) -> Cpu {
    let mut cpu = Cpu::new();
    cpu.ime = true;
    bus.write(0xFFFF, 0xFF); // IE: every source enabled
    for &bit in sources {
        bus.request_interrupt(bit);
    }
    cpu
}

#[test]
fn dispatch_vectors_to_the_right_handler() {
    let mut bus = test_bus();
    let mut cpu = armed(&mut bus, &[TIMER]);

    let cycles = cpu.step(&mut bus);

    assert_eq!(cpu.regs.pc, 0x0050, "the timer vector is 0x40 + 2 * 8");
    assert_eq!(cycles, 20);
}

#[test]
fn dispatch_acknowledges_the_source_and_masks_further_interrupts() {
    let mut bus = test_bus();
    let mut cpu = armed(&mut bus, &[TIMER]);

    cpu.step(&mut bus);

    assert!(!cpu.ime, "IME must be clear so the handler is not interrupted");
    assert_eq!(
        bus.pending_interrupts() & (1 << TIMER),
        0,
        "the serviced request must be cleared from IF, not left set"
    );
}

#[test]
fn dispatch_pushes_the_return_address() {
    let mut bus = test_bus();
    let mut cpu = armed(&mut bus, &[TIMER]);
    let before = cpu.regs.pc;

    cpu.step(&mut bus);

    assert_eq!(cpu.regs.sp, 0xFFFE - 2, "two bytes should be on the stack");
    assert_eq!(cpu.pop16(&mut bus), before, "RETI must come back to where we left");
}

#[test]
fn vblank_outranks_the_timer() {
    let mut bus = test_bus();
    let mut cpu = armed(&mut bus, &[VBLANK, TIMER]);

    cpu.step(&mut bus);

    assert_eq!(cpu.regs.pc, 0x0040, "the lowest set bit wins");
    assert_ne!(
        bus.pending_interrupts() & (1 << TIMER),
        0,
        "the timer request must stay pending for the next dispatch"
    );
}

#[test]
fn a_request_waits_while_ime_is_clear() {
    let mut bus = test_bus();
    let mut cpu = armed(&mut bus, &[TIMER]);
    cpu.ime = false; // DI, or inside another handler

    cpu.step(&mut bus);

    assert_eq!(cpu.regs.pc, 0x0101, "the NOP at 0x0100 should have run instead");
    assert_ne!(
        bus.pending_interrupts() & (1 << TIMER),
        0,
        "the request is deferred, not discarded"
    );
}

#[test]
fn ie_gates_dispatch() {
    let mut bus = test_bus();
    let mut cpu = armed(&mut bus, &[TIMER]);
    bus.write(0xFFFF, 0x00); // IE: nothing enabled

    cpu.step(&mut bus);

    assert_eq!(cpu.regs.pc, 0x0101, "a request with IE clear must not dispatch");
}

#[test]
fn will_execute_reports_whether_an_opcode_runs() {
    let mut bus = test_bus();
    let cpu = armed(&mut bus, &[TIMER]);

    // gameboy-doctor wants one trace line per executed opcode, and a
    // dispatch executes none.
    assert!(!cpu.will_execute(&bus));

    let mut bus = test_bus();
    let mut cpu = armed(&mut bus, &[]);
    assert!(cpu.will_execute(&bus));

    cpu.halted = true;
    assert!(!cpu.will_execute(&bus));
}

#[test]
fn a_halted_cpu_woken_with_ime_clear_executes() {
    // HALT with IME clear wakes on a request without dispatching it, and the
    // same step executes the next opcode.
    let mut bus = test_bus();
    let mut cpu = armed(&mut bus, &[TIMER]);
    cpu.ime = false;
    cpu.halted = true;
    assert!(cpu.will_execute(&bus));
}

#[test]
fn add_then_daa_gives_the_decimal_sum() {
    // LD A,0x15; ADD A,0x27; DAA
    let mut bus = bus_with_program(&[0x3E, 0x15, 0xC6, 0x27, 0x27]);
    let mut cpu = Cpu::new();
    assert_eq!(cpu.step(&mut bus), 8);
    assert_eq!(cpu.step(&mut bus), 8);
    assert_eq!(cpu.regs.a, 0x3C);
    assert_eq!(cpu.step(&mut bus), 4);
    assert_eq!(cpu.regs.a, 0x42);
    assert!(!cpu.regs.flag_c());

    // LD A,0x99; ADD A,0x01; DAA -> 00 with carry
    let mut bus = bus_with_program(&[0x3E, 0x99, 0xC6, 0x01, 0x27]);
    let mut cpu = Cpu::new();
    for _ in 0..3 {
        cpu.step(&mut bus);
    }
    assert_eq!(cpu.regs.a, 0x00);
    assert!(cpu.regs.flag_c() && cpu.regs.flag_z());
}

#[test]
fn arithmetic_flags() {
    // LD A,0x0F; ADD A,0x01 -> 0x10, H set
    let mut bus = bus_with_program(&[0x3E, 0x0F, 0xC6, 0x01, 0xD6, 0x11, 0xFE, 0xFF]);
    let mut cpu = Cpu::new();
    cpu.step(&mut bus);
    cpu.step(&mut bus);
    assert_eq!(cpu.regs.a, 0x10);
    assert_eq!(cpu.regs.f(), 0x20);
    // SUB 0x11 -> 0xFF, N, H and C set
    cpu.step(&mut bus);
    assert_eq!(cpu.regs.a, 0xFF);
    assert_eq!(cpu.regs.f(), 0x70);
    // CP 0xFF -> Z and N, A unchanged
    cpu.step(&mut bus);
    assert_eq!(cpu.regs.a, 0xFF);
    assert_eq!(cpu.regs.f(), 0xC0);
}

#[test]
fn push_and_pop_move_a_pair_through_the_stack() {
    // LD BC,0x1234; PUSH BC; POP DE
    let mut bus = bus_with_program(&[0x01, 0x34, 0x12, 0xC5, 0xD1]);
    let mut cpu = Cpu::new();
    assert_eq!(cpu.step(&mut bus), 12);
    assert_eq!(cpu.step(&mut bus), 16);
    assert_eq!(cpu.regs.sp, 0xFFFC);
    assert_eq!(bus.read(0xFFFD), 0x12);
    assert_eq!(bus.read(0xFFFC), 0x34);
    assert_eq!(cpu.step(&mut bus), 12);
    assert_eq!(cpu.regs.de(), 0x1234);
    assert_eq!(cpu.regs.sp, 0xFFFE);
}

#[test]
fn call_and_ret_come_back() {
    // CALL 0x0108; ... at 0x0108: RET
    let mut bus = bus_with_program(&[0xCD, 0x08, 0x01, 0x00, 0x00, 0x00, 0x00, 0x00, 0xC9]);
    let mut cpu = Cpu::new();
    assert_eq!(cpu.step(&mut bus), 24);
    assert_eq!(cpu.regs.pc, 0x0108);
    assert_eq!(cpu.step(&mut bus), 16);
    assert_eq!(cpu.regs.pc, 0x0103);
}

#[test]
fn relative_jumps_are_signed() {
    // JR -2 loops on itself.
    let mut bus = bus_with_program(&[0x18, 0xFE]);
    let mut cpu = Cpu::new();
    assert_eq!(cpu.step(&mut bus), 12);
    assert_eq!(cpu.regs.pc, 0x0100);
}

#[test]
fn the_halt_bug_reads_the_next_byte_twice() {
    // HALT; INC A
    let mut bus = bus_with_program(&[0x76, 0x3C]);
    let mut cpu = Cpu::new();
    bus.write(0xFFFF, 0x01);
    bus.request_interrupt(0);
    cpu.step(&mut bus); // HALT with IME clear and a request pending
    assert!(!cpu.halted);
    cpu.step(&mut bus);
    assert_eq!(cpu.regs.pc, 0x0101, "PC did not move past INC A");
    cpu.step(&mut bus);
    assert_eq!(cpu.regs.pc, 0x0102);
    assert_eq!(cpu.regs.a, 0x03, "INC A ran twice");
}

#[test]
fn halt_sleeps_until_a_request() {
    // EI; HALT
    let mut bus = bus_with_program(&[0xFB, 0x76]);
    let mut cpu = Cpu::new();
    bus.write(0xFFFF, 0x04);
    cpu.step(&mut bus);
    cpu.step(&mut bus);
    assert!(cpu.halted);
    assert_eq!(cpu.step(&mut bus), 4);
    assert_eq!(cpu.regs.pc, 0x0102);
    bus.request_interrupt(2);
    assert_eq!(cpu.step(&mut bus), 20);
    assert_eq!(cpu.regs.pc, 0x0050);
    assert!(!cpu.halted);
}

#[test]
fn cb_prefixed_instructions() {
    // LD A,0x81; SWAP A; RLC A; BIT 7,A; SET 0,A; RES 4,A
    let mut bus = bus_with_program(&[0x3E, 0x81, 0xCB, 0x37, 0xCB, 0x07, 0xCB, 0x7F, 0xCB, 0xC7, 0xCB, 0xA7]);
    let mut cpu = Cpu::new();
    cpu.step(&mut bus);
    assert_eq!(cpu.step(&mut bus), 8);
    assert_eq!(cpu.regs.a, 0x18);
    cpu.step(&mut bus);
    assert_eq!(cpu.regs.a, 0x30);
    assert!(!cpu.regs.flag_c());
    cpu.step(&mut bus);
    assert!(cpu.regs.flag_z() && cpu.regs.flag_h(), "bit 7 of 0x30 is clear");
    cpu.step(&mut bus);
    assert_eq!(cpu.regs.a, 0x31);
    cpu.step(&mut bus);
    assert_eq!(cpu.regs.a, 0x21);
}

#[test]
fn memory_through_hl() {
    // LD HL,0xC000; LD (HL),0x42; INC (HL); LD A,(HL+)
    let mut bus = bus_with_program(&[0x21, 0x00, 0xC0, 0x36, 0x42, 0x34, 0x2A]);
    let mut cpu = Cpu::new();
    cpu.step(&mut bus);
    assert_eq!(cpu.step(&mut bus), 12);
    assert_eq!(bus.read(0xC000), 0x42);
    assert_eq!(cpu.step(&mut bus), 12);
    assert_eq!(bus.read(0xC000), 0x43);
    cpu.step(&mut bus);
    assert_eq!(cpu.regs.a, 0x43);
    assert_eq!(cpu.regs.hl(), 0xC001);
}

#[test]
fn stack_pointer_offsets() {
    // LD SP,0xFFF8; ADD SP,-8 (0xF8); LD HL,SP+4
    let mut bus = bus_with_program(&[0x31, 0xF8, 0xFF, 0xE8, 0xF8, 0xF8, 0x04]);
    let mut cpu = Cpu::new();
    cpu.step(&mut bus);
    assert_eq!(cpu.step(&mut bus), 16);
    assert_eq!(cpu.regs.sp, 0xFFF0);
    assert_eq!(cpu.regs.f(), 0x30, "the low-byte additions carried out of bits 3 and 7");
    assert_eq!(cpu.step(&mut bus), 12);
    assert_eq!(cpu.regs.hl(), 0xFFF4);
}

#[test]
fn sub_then_daa_gives_the_decimal_difference() {
    // LD A,0x42; SUB 0x15; DAA -> 0x27, no borrow
    let mut bus = bus_with_program(&[0x3E, 0x42, 0xD6, 0x15, 0x27]);
    let mut cpu = Cpu::new();
    for _ in 0..3 {
        cpu.step(&mut bus);
    }
    assert_eq!(cpu.regs.a, 0x27);
    assert!(!cpu.regs.flag_c() && cpu.regs.flag_n() && !cpu.regs.flag_h());

    // LD A,0x15; SUB 0x42; DAA -> 0x73 with the borrow in C
    let mut bus = bus_with_program(&[0x3E, 0x15, 0xD6, 0x42, 0x27]);
    let mut cpu = Cpu::new();
    for _ in 0..3 {
        cpu.step(&mut bus);
    }
    assert_eq!(cpu.regs.a, 0x73);
    assert!(cpu.regs.flag_c() && cpu.regs.flag_n());
}

/// A 32 KiB cartridge cut down to its first bank: bank 1, mapped at
/// 0x4000-0x7FFF, is missing from the image.
fn short_bus() -> Bus {
    let mut rom = fake_rom("SHORT", 0x00, 0x00, 0x00);
    rom.truncate(0x4000);
    Bus::new(Cartridge::from_bytes(rom).unwrap())
}

#[test]
fn a_short_image_steps_where_it_reads_nothing_missing() {
    let mut bus = short_bus();
    assert!(!bus.rom_mapped());

    // Code in bank 0 runs.
    let mut cpu = Cpu::new();
    assert!(cpu.can_step(&bus));
    assert_eq!(cpu.step(&mut bus), 4);

    // So does code in work RAM.
    bus.write(0xC000, 0x00);
    cpu.regs.pc = 0xC000;
    assert!(cpu.can_step(&bus));
    cpu.step(&mut bus);
    assert_eq!(cpu.regs.pc, 0xC001);

    // An interrupt dispatch reads no ROM at all.
    let mut cpu = armed(&mut bus, &[TIMER]);
    cpu.regs.pc = 0x4000;
    assert!(cpu.can_step(&bus));
    assert_eq!(cpu.step(&mut bus), 20);
    assert_eq!(cpu.regs.pc, 0x0050);

    // An opcode in the missing bank cannot be fetched.
    let mut cpu = Cpu::new();
    cpu.regs.pc = 0x4000;
    assert!(!cpu.can_step(&bus));
}

#[test]
fn trace_line_is_gameboy_doctor_format() {
    let bus = bus_with_program(&[0x00, 0xC3, 0x50, 0x01]);
    let cpu = Cpu::new();
    assert_eq!(
        cpu.trace_line(&bus),
        "A:01 F:B0 B:00 C:13 D:00 E:D8 H:01 L:4D SP:FFFE PC:0100 PCMEM:00,C3,50,01\n"
    );
}
