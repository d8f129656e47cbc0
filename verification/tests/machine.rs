use gameboy::bus::Bus;
use gameboy::cartridge::{fake_rom, Cartridge};
use gameboy::cpu::Cpu;
use gameboy::machine::{step_once, StepError};

fn bus_with_program(code: &[u8]) -> Bus {
    let mut rom = fake_rom("TEST", 0x00, 0x00, 0x00);
    rom[0x0100..0x0100 + code.len()].copy_from_slice(code);
    Bus::new(Cartridge::from_bytes(rom).unwrap())
}

#[test]
fn stop_is_refused() {
    let mut bus = bus_with_program(&[0x10]);
    let mut cpu = Cpu::new();
    assert!(cpu.stops(&bus));
    assert_eq!(step_once(&mut cpu, &mut bus), Err(StepError::Stop { pc: 0x0100 }));
    assert_eq!(cpu.regs.pc, 0x0100, "a refused step changes nothing");
}

#[test]
fn missing_opcodes_are_refused() {
    for op in [0xD3u8, 0xDB, 0xDD, 0xE3, 0xE4, 0xEB, 0xEC, 0xED, 0xF4, 0xFC, 0xFD] {
        let mut bus = bus_with_program(&[op]);
        let mut cpu = Cpu::new();
        assert_eq!(
            step_once(&mut cpu, &mut bus),
            Err(StepError::Unsupported { opcode: op, pc: 0x0100 })
        );
    }
}

#[test]
fn vblank_comes_after_144_lines_of_cycles() {
    // JR -2: a 12-cycle loop on the spot.
    let mut bus = bus_with_program(&[0x18, 0xFE]);
    let mut cpu = Cpu::new();
    let mut steps = 0;
    while !step_once(&mut cpu, &mut bus).unwrap() {
        steps += 1;
    }
    assert_eq!((steps + 1) * 12, 144 * 456, "VBlank begins after 144 lines");
}

#[test]
fn serial_output_through_the_cpu() {
    // LD A,'P'; LDH (0x01),A; LD A,0x81; LDH (0x02),A
    let mut bus = bus_with_program(&[0x3E, b'P', 0xE0, 0x01, 0x3E, 0x81, 0xE0, 0x02]);
    let mut cpu = Cpu::new();
    for _ in 0..4 {
        step_once(&mut cpu, &mut bus).unwrap();
    }
    assert_eq!(bus.serial, "P");
}
