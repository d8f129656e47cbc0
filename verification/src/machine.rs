//! One step of the whole machine: an instruction, then the clock it consumed.
use vstd::prelude::*;
use crate::bus::{Bus, BusState};
use crate::cpu::{Cpu, CpuState};

verus! {

broadcast use crate::cpu::lemma_cpu_view, crate::registers::lemma_registers_view;

/// Why the machine cannot take a step: the next opcode is STOP, or an opcode
/// with no instruction.
#[derive(Debug, Clone, Copy, PartialEq, Eq, Structural)]
pub enum StepError {
    Stop { pc: u16 },
    Unsupported { opcode: u8, pc: u16 },
}

/// What a step of the machine does: `Err` when the processor would run into
/// STOP or a missing opcode, leaving everything as it was; otherwise one
/// processor step and then the clocked hardware advanced by its cycles, with
/// `Ok(true)` when that pushed the PPU into VBlank, meaning a frame is ready.
pub open spec fn machine_step(c: CpuState, b: BusState) -> (CpuState, BusState, Result<bool, StepError>) {
    if c.step_stops(b) {
        let op = c.next_opcode(b);
        let e = if op == 0x10 {
            StepError::Stop { pc: c.regs.pc }
        } else {
            StepError::Unsupported { opcode: op, pc: c.regs.pc }
        };
        (c, b, Err(e))
    } else {
        let (c2, b2, cycles) = c.step(b);
        let (b3, frame) = b2.tick(cycles);
        (c2, b3, Ok(frame))
    }
}

/// One instruction, plus the clock it consumed. Every byte the step reads
/// must be in the ROM image (`Cpu::can_step` says whether it is).
pub fn step_once(cpu: &mut Cpu, bus: &mut Bus) -> (r: Result<bool, StepError>)
    requires
        old(bus)@.wf(),
        old(cpu)@.step_ok(old(bus)@),
    ensures
        (final(cpu)@, final(bus)@, r) == machine_step(old(cpu)@, old(bus)@),
        final(bus)@.wf(),
{
    if cpu.stops(bus) {
        let pc = cpu.regs.pc;
        let op = bus.read(pc);
        if op == 0x10 {
            return Err(StepError::Stop { pc });
        } else {
            return Err(StepError::Unsupported { opcode: op, pc });
        }
    }
    let cycles = cpu.step(bus);
    Ok(bus.tick(cycles))
}

} // verus!
