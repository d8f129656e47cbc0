//! Instruction decode and execution, interrupt dispatch, the halt bug.
//!
//! Execution is instruction-stepped: `step` runs one whole instruction (or one
//! interrupt dispatch) and returns the cycles it took.
use vstd::prelude::*;
use crate::bus::{Bus, BusState, is_storage, cell, lemma_storage_round_trip};
use crate::registers::{RegFile, Registers, pair, high_byte, low_byte};
use crate::cartridge::push_str;

verus! {

broadcast use crate::registers::lemma_registers_view, crate::cartridge::lemma_mapped_readable;

/// The 8-bit operands of the encoding, by their 3-bit code.
#[derive(Clone, Copy, Debug, PartialEq, Eq, Structural)]
pub enum R8 {
    B,
    C,
    D,
    E,
    H,
    L,
    HlMem,
    A,
}

/// The 16-bit operands of the encoding.
#[derive(Clone, Copy, Debug, PartialEq, Eq, Structural)]
pub enum R16 {
    BC,
    DE,
    HL,
    SP,
    AF,
}

pub open spec fn r8_of(code: u8) -> R8 {
    if code == 0 {
        R8::B
    } else if code == 1 {
        R8::C
    } else if code == 2 {
        R8::D
    } else if code == 3 {
        R8::E
    } else if code == 4 {
        R8::H
    } else if code == 5 {
        R8::L
    } else if code == 6 {
        R8::HlMem
    } else {
        R8::A
    }
}

/// Register pairs as the 16-bit load, increment and ADD HL encodings number them.
pub open spec fn r16_sp_of(code: u8) -> R16 {
    if code == 0 {
        R16::BC
    } else if code == 1 {
        R16::DE
    } else if code == 2 {
        R16::HL
    } else {
        R16::SP
    }
}

/// Register pairs as PUSH and POP number them.
pub open spec fn r16_af_of(code: u8) -> R16 {
    if code == 0 {
        R16::BC
    } else if code == 1 {
        R16::DE
    } else if code == 2 {
        R16::HL
    } else {
        R16::AF
    }
}

/// The processor state as plain values.
pub ghost struct CpuState {
    pub regs: RegFile,
    pub ime: bool,
    pub halted: bool,
    pub halt_bug: bool,
}

/// The result of one instruction: the processor, the machine, and the cycles.
pub type Outcome = (CpuState, BusState, u32);

// ---------------------------------------------------------------------------
// Arithmetic
// ---------------------------------------------------------------------------
/// A byte read as a signed offset.
pub open spec fn sext(e: u8) -> int {
    if e < 128 {
        e as int
    } else {
        e - 256
    }
}

/// `v + d` on a 16-bit register, wrapping.
pub open spec fn add16(v: u16, d: int) -> u16 {
    ((v + d) % 65536) as u16
}

/// ADD and ADC: the sum in A; Z if it is zero, H the carry out of bit 3, C the
/// carry out of bit 7.
pub open spec fn add_a(r: RegFile, v: u8, carry_in: bool) -> RegFile {
    let ci: int = if carry_in { 1 } else { 0 };
    let sum = r.a + v + ci;
    RegFile { a: (sum % 256) as u8, ..r }.with_flags(
        sum % 256 == 0,
        false,
        r.a % 16 + v % 16 + ci > 15,
        sum > 255,
    )
}

/// The difference SUB, SBC and CP compute, in 8 bits.
pub open spec fn sub_result(r: RegFile, v: u8, carry_in: bool) -> u8 {
    let ci: int = if carry_in { 1 } else { 0 };
    ((r.a - v - ci) % 256) as u8
}

/// SUB, SBC and CP set N; H and C are the borrows out of bit 4 and bit 8.
pub open spec fn sub_flags(r: RegFile, v: u8, carry_in: bool) -> RegFile {
    let ci: int = if carry_in { 1 } else { 0 };
    r.with_flags(sub_result(r, v, carry_in) == 0, true, r.a % 16 < v % 16 + ci, r.a < v + ci)
}

/// The eight ALU operations on A, by their 3-bit code: ADD, ADC, SUB, SBC,
/// AND, XOR, OR, CP.
pub open spec fn alu(r: RegFile, op: u8, v: u8) -> RegFile {
    if op == 0 {
        add_a(r, v, false)
    } else if op == 1 {
        add_a(r, v, r.flag_c())
    } else if op == 2 {
        RegFile { a: sub_result(r, v, false), ..sub_flags(r, v, false) }
    } else if op == 3 {
        RegFile { a: sub_result(r, v, r.flag_c()), ..sub_flags(r, v, r.flag_c()) }
    } else if op == 4 {
        RegFile { a: r.a & v, ..r }.with_flags(r.a & v == 0, false, true, false)
    } else if op == 5 {
        RegFile { a: r.a ^ v, ..r }.with_flags(r.a ^ v == 0, false, false, false)
    } else if op == 6 {
        RegFile { a: r.a | v, ..r }.with_flags(r.a | v == 0, false, false, false)
    } else {
        sub_flags(r, v, false)
    }
}

/// DAA: corrects A after a BCD addition or subtraction, from N, H and C.
pub open spec fn daa(r: RegFile) -> RegFile {
    let n = r.flag_n();
    let h = r.flag_h();
    let c = r.flag_c();
    let low: int = if (!n && (h || r.a % 16 > 9)) || (n && h) { 6 } else { 0 };
    let high: int = if (!n && (c || r.a > 0x99)) || (n && c) { 0x60 } else { 0 };
    let a = if !n { (r.a + low + high) % 256 } else { (r.a - low - high) % 256 };
    let carry = if !n { c || r.a > 0x99 } else { c };
    RegFile { a: a as u8, ..r }.with_flags(a == 0, n, false, carry)
}

/// The CB-prefixed rotates and shifts, by their 3-bit code, with the flags they
/// set: RLC, RRC, RL, RR, SLA, SRA, SWAP, SRL. Returns the result and C.
pub open spec fn rotate(op: u8, v: u8, carry_in: bool) -> (u8, bool) {
    let ci: int = if carry_in { 1 } else { 0 };
    if op == 0 {
        (((v * 2) % 256 + v / 128) as u8, v >= 128)
    } else if op == 1 {
        ((v / 2 + (v % 2) * 128) as u8, v % 2 == 1)
    } else if op == 2 {
        (((v * 2) % 256 + ci) as u8, v >= 128)
    } else if op == 3 {
        ((v / 2 + ci * 128) as u8, v % 2 == 1)
    } else if op == 4 {
        (((v * 2) % 256) as u8, v >= 128)
    } else if op == 5 {
        ((v / 2 + (if v >= 128 { 128int } else { 0 })) as u8, v % 2 == 1)
    } else if op == 6 {
        (((v % 16) * 16 + v / 16) as u8, false)
    } else {
        ((v / 2) as u8, v % 2 == 1)
    }
}

// ---------------------------------------------------------------------------
// Operands
// ---------------------------------------------------------------------------
impl CpuState {
    pub open spec fn with_regs(self, regs: RegFile) -> CpuState {
        CpuState { regs, ..self }
    }

    pub open spec fn with_pc(self, pc: u16) -> CpuState {
        CpuState { regs: RegFile { pc, ..self.regs }, ..self }
    }

    pub open spec fn with_sp(self, sp: u16) -> CpuState {
        CpuState { regs: RegFile { sp, ..self.regs }, ..self }
    }

    /// Reads the byte at PC. PC moves on, except on the fetch right after the
    /// halt bug, which reads the same byte again.
    pub open spec fn fetch8(self, b: BusState) -> (CpuState, u8) {
        let v = b.read(self.regs.pc);
        if self.halt_bug {
            (CpuState { halt_bug: false, ..self }, v)
        } else {
            (self.with_pc(add16(self.regs.pc, 1)), v)
        }
    }

    /// Two fetches, low byte first.
    pub open spec fn fetch16(self, b: BusState) -> (CpuState, u16) {
        let (c1, lo) = self.fetch8(b);
        let (c2, hi) = c1.fetch8(b);
        (c2, pair(hi, lo))
    }

    pub open spec fn get_r8(self, b: BusState, r: R8) -> u8 {
        match r {
            R8::B => self.regs.b,
            R8::C => self.regs.c,
            R8::D => self.regs.d,
            R8::E => self.regs.e,
            R8::H => self.regs.h,
            R8::L => self.regs.l,
            R8::HlMem => b.read(self.regs.hl()),
            R8::A => self.regs.a,
        }
    }

    pub open spec fn set_r8(self, b: BusState, r: R8, v: u8) -> (CpuState, BusState) {
        let g = self.regs;
        match r {
            R8::B => (self.with_regs(RegFile { b: v, ..g }), b),
            R8::C => (self.with_regs(RegFile { c: v, ..g }), b),
            R8::D => (self.with_regs(RegFile { d: v, ..g }), b),
            R8::E => (self.with_regs(RegFile { e: v, ..g }), b),
            R8::H => (self.with_regs(RegFile { h: v, ..g }), b),
            R8::L => (self.with_regs(RegFile { l: v, ..g }), b),
            R8::HlMem => (self, b.write(g.hl(), v)),
            R8::A => (self.with_regs(RegFile { a: v, ..g }), b),
        }
    }

    pub open spec fn get_r16(self, r: R16) -> u16 {
        match r {
            R16::BC => self.regs.bc(),
            R16::DE => self.regs.de(),
            R16::HL => self.regs.hl(),
            R16::AF => self.regs.af(),
            R16::SP => self.regs.sp,
        }
    }

    pub open spec fn set_r16(self, r: R16, v: u16) -> CpuState {
        match r {
            R16::BC => self.with_regs(self.regs.with_bc(v)),
            R16::DE => self.with_regs(self.regs.with_de(v)),
            R16::HL => self.with_regs(self.regs.with_hl(v)),
            R16::AF => self.with_regs(self.regs.with_af(v)),
            R16::SP => self.with_sp(v),
        }
    }

    /// The four branch conditions: NZ, Z, NC, C.
    pub open spec fn condition(self, cc: u8) -> bool {
        if cc == 0 {
            !self.regs.flag_z()
        } else if cc == 1 {
            self.regs.flag_z()
        } else if cc == 2 {
            !self.regs.flag_c()
        } else {
            self.regs.flag_c()
        }
    }

    /// Pushes a 16-bit value: high byte at SP-1, low byte at SP-2.
    pub open spec fn push16(self, b: BusState, v: u16) -> (CpuState, BusState) {
        let sp1 = add16(self.regs.sp, -1);
        let sp2 = add16(sp1, -1);
        (self.with_sp(sp2), b.write(sp1, high_byte(v)).write(sp2, low_byte(v)))
    }

    /// Pops a 16-bit value: low byte at SP, high byte at SP+1.
    pub open spec fn pop16(self, b: BusState) -> (CpuState, u16) {
        let lo = b.read(self.regs.sp);
        let hi = b.read(add16(self.regs.sp, 1));
        (self.with_sp(add16(self.regs.sp, 2)), pair(hi, lo))
    }
}

// ---------------------------------------------------------------------------
// Instructions
// ---------------------------------------------------------------------------
impl CpuState {
    /// LD r8, r8 (LD (HL),(HL) is HALT and never gets here).
    pub open spec fn ld_r8_r8(self, b: BusState, y: u8, z: u8) -> Outcome {
        let v = self.get_r8(b, r8_of(z));
        let (c, b2) = self.set_r8(b, r8_of(y), v);
        (c, b2, if y == 6 || z == 6 { 8 } else { 4 })
    }

    /// LD (a16), SP.
    pub open spec fn ld_n16_sp(self, b: BusState) -> Outcome {
        let (c, addr) = self.fetch16(b);
        let sp = self.regs.sp;
        (c, b.write(addr, low_byte(sp)).write(add16(addr, 1), high_byte(sp)), 20)
    }

    /// JR e8.
    pub open spec fn jr(self, b: BusState) -> Outcome {
        let (c, e) = self.fetch8(b);
        (c.with_pc(add16(c.regs.pc, sext(e))), b, 12)
    }

    /// JR cc, e8: the offset is fetched whether or not the jump is taken.
    pub open spec fn jr_cc(self, b: BusState, y: u8) -> Outcome {
        let taken = self.condition((y - 4) as u8);
        let (c, e) = self.fetch8(b);
        if taken {
            (c.with_pc(add16(c.regs.pc, sext(e))), b, 12)
        } else {
            (c, b, 8)
        }
    }

    /// LD r16, n16.
    pub open spec fn ld_rp_n16(self, b: BusState, p: u8) -> Outcome {
        let (c, v) = self.fetch16(b);
        (c.set_r16(r16_sp_of(p), v), b, 12)
    }

    /// ADD HL, r16: Z is kept, H is the carry out of bit 11, C out of bit 15.
    pub open spec fn add_hl_rp(self, p: u8) -> (CpuState, u32) {
        let hl = self.regs.hl();
        let v = self.get_r16(r16_sp_of(p));
        let r = self.regs.with_flags(
            self.regs.flag_z(),
            false,
            hl % 4096 + v % 4096 > 4095,
            hl + v > 65535,
        ).with_hl(add16(hl, v as int));
        (self.with_regs(r), 8)
    }

    /// LD (BC),A / LD (DE),A / LD (HL+),A / LD (HL-),A, and the loads of A
    /// from the same places (q = 1).
    pub open spec fn ld_r16_a(self, b: BusState, p: u8, q: u8) -> Outcome {
        let addr = if p == 0 {
            self.regs.bc()
        } else if p == 1 {
            self.regs.de()
        } else {
            self.regs.hl()
        };
        let (c, b2) = if q == 0 {
            (self, b.write(addr, self.regs.a))
        } else {
            (self.with_regs(RegFile { a: b.read(addr), ..self.regs }), b)
        };
        let c = if p == 2 {
            c.with_regs(c.regs.with_hl(add16(addr, 1)))
        } else if p == 3 {
            c.with_regs(c.regs.with_hl(add16(addr, -1)))
        } else {
            c
        };
        (c, b2, 8)
    }

    /// INC r16 / DEC r16: no flags.
    pub open spec fn step_rp(self, p: u8, delta: int) -> (CpuState, u32) {
        let r = r16_sp_of(p);
        (self.set_r16(r, add16(self.get_r16(r), delta)), 8)
    }

    /// INC r8: C is kept, H is the carry out of bit 3.
    pub open spec fn inc_r8(self, b: BusState, y: u8) -> Outcome {
        let v = self.get_r8(b, r8_of(y));
        let res = ((v + 1) % 256) as u8;
        let (c, b2) = self.set_r8(b, r8_of(y), res);
        (
            c.with_regs(c.regs.with_flags(res == 0, false, v % 16 == 15, c.regs.flag_c())),
            b2,
            if y == 6 { 12 } else { 4 },
        )
    }

    /// DEC r8: C is kept, H is the borrow out of bit 4.
    pub open spec fn dec_r8(self, b: BusState, y: u8) -> Outcome {
        let v = self.get_r8(b, r8_of(y));
        let res = ((v - 1) % 256) as u8;
        let (c, b2) = self.set_r8(b, r8_of(y), res);
        (
            c.with_regs(c.regs.with_flags(res == 0, true, v % 16 == 0, c.regs.flag_c())),
            b2,
            if y == 6 { 12 } else { 4 },
        )
    }

    /// LD r8, n8.
    pub open spec fn ld_r8_n8(self, b: BusState, y: u8) -> Outcome {
        let (c, v) = self.fetch8(b);
        let (c2, b2) = c.set_r8(b, r8_of(y), v);
        (c2, b2, if y == 6 { 12 } else { 8 })
    }

    /// RLCA, RRCA, RLA, RRA: the CB rotates on A, with Z always cleared.
    pub open spec fn rotate_a(self, op: u8) -> (CpuState, u32) {
        let (res, carry) = rotate(op, self.regs.a, self.regs.flag_c());
        (self.with_regs(RegFile { a: res, ..self.regs }.with_flags(false, false, false, carry)), 4)
    }

    /// HALT: sleeps until an interrupt is pending. With IME clear and one
    /// already pending it does not sleep; the next fetch reads its byte twice.
    pub open spec fn halt(self, b: BusState) -> Outcome {
        if !self.ime && b.pending() != 0 {
            (CpuState { halt_bug: true, ..self }, b, 4)
        } else {
            (CpuState { halted: true, ..self }, b, 4)
        }
    }

    /// An ALU operation on A with a register or (HL).
    pub open spec fn alu_r8(self, b: BusState, y: u8, z: u8) -> Outcome {
        let v = self.get_r8(b, r8_of(z));
        (self.with_regs(alu(self.regs, y, v)), b, if z == 6 { 8 } else { 4 })
    }

    /// An ALU operation on A with an immediate byte.
    pub open spec fn alu_n8(self, b: BusState, y: u8) -> Outcome {
        let (c, v) = self.fetch8(b);
        (c.with_regs(alu(c.regs, y, v)), b, 8)
    }

    /// LDH (a8),A and LDH A,(a8).
    pub open spec fn ldh_n_a(self, b: BusState, y: u8) -> Outcome {
        let (c, n) = self.fetch8(b);
        let addr = (0xFF00 + n) as u16;
        if y == 4 {
            (c, b.write(addr, c.regs.a), 12)
        } else {
            (c.with_regs(RegFile { a: b.read(addr), ..c.regs }), b, 12)
        }
    }

    /// LD (C),A and LD A,(C): the high page addressed by C.
    pub open spec fn ld_a_c(self, b: BusState, y: u8) -> Outcome {
        let addr = (0xFF00 + self.regs.c) as u16;
        if y == 4 {
            (self, b.write(addr, self.regs.a), 8)
        } else {
            (self.with_regs(RegFile { a: b.read(addr), ..self.regs }), b, 8)
        }
    }

    /// LD (a16),A and LD A,(a16).
    pub open spec fn ld_n16_a(self, b: BusState, y: u8) -> Outcome {
        let (c, addr) = self.fetch16(b);
        if y == 5 {
            (c, b.write(addr, c.regs.a), 16)
        } else {
            (c.with_regs(RegFile { a: b.read(addr), ..c.regs }), b, 16)
        }
    }

    pub open spec fn pop_rp2(self, b: BusState, p: u8) -> Outcome {
        let (c, v) = self.pop16(b);
        (c.set_r16(r16_af_of(p), v), b, 12)
    }

    pub open spec fn push_rp2(self, b: BusState, p: u8) -> Outcome {
        let (c, b2) = self.push16(b, self.get_r16(r16_af_of(p)));
        (c, b2, 16)
    }

    pub open spec fn ret(self, b: BusState) -> Outcome {
        let (c, v) = self.pop16(b);
        (c.with_pc(v), b, 16)
    }

    pub open spec fn ret_cc(self, b: BusState, y: u8) -> Outcome {
        if self.condition(y) {
            let (c, v) = self.pop16(b);
            (c.with_pc(v), b, 20)
        } else {
            (self, b, 8)
        }
    }

    pub open spec fn call_n16(self, b: BusState) -> Outcome {
        let (c, addr) = self.fetch16(b);
        let (c2, b2) = c.push16(b, c.regs.pc);
        (c2.with_pc(addr), b2, 24)
    }

    /// CALL cc, a16: the address is fetched whether or not the call is taken.
    pub open spec fn call_cc(self, b: BusState, y: u8) -> Outcome {
        let (c, addr) = self.fetch16(b);
        if c.condition(y) {
            let (c2, b2) = c.push16(b, c.regs.pc);
            (c2.with_pc(addr), b2, 24)
        } else {
            (c, b, 12)
        }
    }

    /// JP cc, a16.
    pub open spec fn jp_cc(self, b: BusState, y: u8) -> Outcome {
        let taken = self.condition(y);
        let (c, addr) = self.fetch16(b);
        if taken {
            (c.with_pc(addr), b, 16)
        } else {
            (c, b, 12)
        }
    }

    /// RST: a call to one of the eight fixed vectors 0x00, 0x08, ..., 0x38.
    pub open spec fn rst(self, b: BusState, y: u8) -> Outcome {
        let (c, b2) = self.push16(b, self.regs.pc);
        (c.with_pc((y * 8) as u16), b2, 16)
    }

    /// CPL: A complemented; N and H set.
    pub open spec fn cpl(self) -> (CpuState, u32) {
        let r = self.regs;
        (self.with_regs(RegFile { a: (255 - r.a) as u8, ..r }.with_flags(r.flag_z(), true, true, r.flag_c())), 4)
    }

    /// SCF (complement = false) and CCF (complement = true).
    pub open spec fn carry_flag_op(self, complement: bool) -> (CpuState, u32) {
        let r = self.regs;
        (self.with_regs(r.with_flags(r.flag_z(), false, false, if complement { !r.flag_c() } else { true })), 4)
    }

    /// ADD SP, e8 (to SP) and LD HL, SP+e8 (to HL): Z and N cleared, H and C
    /// from the unsigned addition of the low nibble and the low byte.
    pub open spec fn sp_offset(self, b: BusState, to_hl: bool) -> Outcome {
        let (c, e) = self.fetch8(b);
        let sp = c.regs.sp;
        let sum = add16(sp, sext(e));
        let r = c.regs.with_flags(false, false, sp % 16 + e % 16 > 15, sp % 256 + e > 255);
        if to_hl {
            (c.with_regs(r.with_hl(sum)), b, 12)
        } else {
            (c.with_regs(RegFile { sp: sum, ..r }), b, 16)
        }
    }

    /// The CB-prefixed instructions: rotates and shifts, BIT, RES and SET.
    pub open spec fn cb(self, b: BusState) -> Outcome {
        let (c, op) = self.fetch8(b);
        let x = op / 64;
        let y = ((op / 8) % 8) as u8;
        let z = (op % 8) as u8;
        let v = c.get_r8(b, r8_of(z));
        let slow = z == 6;
        if x == 0 {
            let (res, carry) = rotate(y, v, c.regs.flag_c());
            let (c2, b2) = c.set_r8(b, r8_of(z), res);
            (c2.with_regs(c2.regs.with_flags(res == 0, false, false, carry)), b2, if slow { 16 } else { 8 })
        } else if x == 1 {
            (c.with_regs(c.regs.with_flags((v as int / pow2_8(y)) % 2 == 0, false, true, c.regs.flag_c())), b, if slow { 12 } else { 8 })
        } else if x == 2 {
            let (c2, b2) = c.set_r8(b, r8_of(z), v & !(1u8 << y));
            (c2, b2, if slow { 16 } else { 8 })
        } else {
            let (c2, b2) = c.set_r8(b, r8_of(z), v | (1u8 << y));
            (c2, b2, if slow { 16 } else { 8 })
        }
    }

    /// Whether the opcode has no instruction (or is STOP), which stops the
    /// emulator.
    pub open spec fn is_unsupported(op: u8) -> bool {
        op == 0x10 || op == 0xD3 || op == 0xDB || op == 0xDD || op == 0xE3 || op == 0xE4 || op
            == 0xEB || op == 0xEC || op == 0xED || op == 0xF4 || op == 0xFC || op == 0xFD
    }

    /// What opcode `op`, already fetched, does.
    #[verifier::opaque]
    pub open spec fn execute(self, b: BusState, op: u8) -> Outcome {
        let x = op / 64;
        let y = ((op / 8) % 8) as u8;
        let z = (op % 8) as u8;
        let p = y / 2;
        let q = y % 2;
        if x == 0 {
            if z == 0 {
                if y == 0 {
                    (self, b, 4)  // NOP
                } else if y == 1 {
                    self.ld_n16_sp(b)
                } else if y == 2 {
                    (self, b, 0)  // STOP: not supported
                } else if y == 3 {
                    self.jr(b)
                } else {
                    self.jr_cc(b, y)
                }
            } else if z == 1 {
                if q == 0 {
                    self.ld_rp_n16(b, p)
                } else {
                    let (c, n) = self.add_hl_rp(p);
                    (c, b, n)
                }
            } else if z == 2 {
                self.ld_r16_a(b, p, q)
            } else if z == 3 {
                let (c, n) = if q == 0 { self.step_rp(p, 1) } else { self.step_rp(p, -1) };
                (c, b, n)
            } else if z == 4 {
                self.inc_r8(b, y)
            } else if z == 5 {
                self.dec_r8(b, y)
            } else if z == 6 {
                self.ld_r8_n8(b, y)
            } else {
                let (c, n) = if y <= 3 {
                    self.rotate_a(y)
                } else if y == 4 {
                    (self.with_regs(daa(self.regs)), 4)
                } else if y == 5 {
                    self.cpl()
                } else if y == 6 {
                    self.carry_flag_op(false)
                } else {
                    self.carry_flag_op(true)
                };
                (c, b, n)
            }
        } else if x == 1 {
            if y == 6 && z == 6 {
                self.halt(b)
            } else {
                self.ld_r8_r8(b, y, z)
            }
        } else if x == 2 {
            self.alu_r8(b, y, z)
        } else {
            if y == 0 && z == 3 {
                let (c, addr) = self.fetch16(b);
                (c.with_pc(addr), b, 16)  // JP a16
            } else if y == 6 && z == 3 {
                (CpuState { ime: false, ..self }, b, 4)  // DI
            } else if z == 6 {
                self.alu_n8(b, y)
            } else if (y == 4 || y == 6) && z == 0 {
                self.ldh_n_a(b, y)
            } else if (y == 5 || y == 7) && z == 2 {
                self.ld_n16_a(b, y)
            } else if z == 1 && q == 0 {
                self.pop_rp2(b, p)
            } else if z == 1 && p == 0 {
                self.ret(b)
            } else if z == 1 && p == 1 {
                CpuState { ime: true, ..self }.ret(b)  // RETI
            } else if z == 1 && p == 2 {
                (self.with_pc(self.regs.hl()), b, 4)  // JP HL
            } else if z == 1 {
                (self.with_sp(self.regs.hl()), b, 8)  // LD SP, HL
            } else if z == 5 && q == 0 {
                self.push_rp2(b, p)
            } else if z == 5 && p == 0 {
                self.call_n16(b)
            } else if y <= 3 && z == 2 {
                self.jp_cc(b, y)
            } else if y <= 3 && z == 0 {
                self.ret_cc(b, y)
            } else if y <= 3 && z == 4 {
                self.call_cc(b, y)
            } else if z == 7 {
                self.rst(b, y)
            } else if (y == 4 || y == 6) && z == 2 {
                self.ld_a_c(b, y)
            } else if y == 7 && z == 3 {
                (CpuState { ime: true, ..self }, b, 4)  // EI
            } else if y == 1 && z == 3 {
                self.cb(b)
            } else if y == 5 && z == 0 {
                self.sp_offset(b, false)
            } else if y == 7 && z == 0 {
                self.sp_offset(b, true)
            } else {
                (self, b, 0)  // no instruction
            }
        }
    }

    /// The highest-priority pending interrupt: the lowest set bit.
    pub open spec fn lowest_bit(pending: u8) -> u8 {
        if pending & 1 != 0 {
            0
        } else if pending & 2 != 0 {
            1
        } else if pending & 4 != 0 {
            2
        } else if pending & 8 != 0 {
            3
        } else {
            4
        }
    }

    /// Whether the next step dispatches an interrupt rather than executing.
    pub open spec fn dispatches(self, b: BusState) -> bool {
        self.ime && b.pending() != 0
    }

    /// Whether the next step executes an opcode.
    pub open spec fn executes(self, b: BusState) -> bool {
        !self.dispatches(b) && !(self.halted && b.pending() == 0)
    }

    /// The opcode the next step would execute.
    pub open spec fn next_opcode(self, b: BusState) -> u8 {
        b.read(self.regs.pc)
    }

    /// (HL) can be read.
    pub open spec fn hl_ok(self, b: BusState) -> bool {
        &&& b.readable(self.regs.hl())
        &&& self.hl_writable(b)
    }

    /// A write to (HL) can be carried out: if it starts a DMA, every source
    /// page is there to copy.
    pub open spec fn hl_writable(self, b: BusState) -> bool {
        self.regs.hl() == 0xFF46 ==> b.mapped()
    }

    /// A push can be carried out: if it lands on the DMA register, every
    /// source page is there to copy.
    pub open spec fn push_ok(self, b: BusState) -> bool {
        b.mapped() || (add16(self.regs.sp, -1) != 0xFF46 && add16(self.regs.sp, -2) != 0xFF46)
    }

    /// Every address an instruction whose operands start at PC may touch can
    /// be touched: the operand bytes, (HL), (BC), (DE), the stack, and the
    /// 16-bit operand as an address can be read; and a write that may start a
    /// DMA (to one of those, to 0xFF00 plus the 8-bit operand or plus C) finds
    /// every source page there to copy.
    pub open spec fn operands_ok(self, b: BusState) -> bool {
        let pc = self.regs.pc;
        let sp = self.regs.sp;
        let nn = self.fetch16(b).1;
        let n = b.read(pc);
        &&& b.readable(pc)
        &&& b.readable(add16(pc, 1))
        &&& self.hl_ok(b)
        &&& b.readable(self.regs.bc())
        &&& b.readable(self.regs.de())
        &&& b.readable(sp)
        &&& b.readable(add16(sp, 1))
        &&& b.readable(nn)
        &&& self.push_ok(b)
        &&& (b.mapped() || (self.regs.bc() != 0xFF46 && self.regs.de() != 0xFF46 && nn != 0xFF46
            && add16(nn, 1) != 0xFF46 && 0xFF00 + n != 0xFF46 && 0xFF00 + self.regs.c != 0xFF46))
    }

    /// The next step finds every byte it reads: a dispatch only pushes, an
    /// idle HALT touches nothing, and otherwise the opcode and everything its
    /// instruction may touch must be there.
    pub open spec fn step_ok(self, b: BusState) -> bool {
        let pending = b.pending();
        if pending != 0 && self.ime {
            self.push_ok(b)
        } else {
            let c0 = if pending != 0 { CpuState { halted: false, ..self } } else { self };
            c0.halted || (b.readable(self.regs.pc) && c0.fetch8(b).0.operands_ok(b))
        }
    }

    /// Whether the next step would run into STOP or a missing opcode.
    pub open spec fn step_stops(self, b: BusState) -> bool {
        self.executes(b) && CpuState::is_unsupported(self.next_opcode(b))
    }

    /// One step: dispatch the highest-priority pending interrupt when IME is
    /// set; otherwise leave HALT if anything is pending, and run one
    /// instruction unless still halted.
    #[verifier::opaque]
    pub open spec fn step(self, b: BusState) -> Outcome {
        let pending = b.pending();
        if pending != 0 && self.ime {
            let bit = CpuState::lowest_bit(pending);
            let c1 = CpuState { halted: false, ime: false, ..self };
            let b1 = BusState { iflag: b.iflag & !(1u8 << bit), ..b };
            let (c2, b2) = c1.push16(b1, self.regs.pc);
            (c2.with_pc((0x40 + bit * 8) as u16), b2, 20)
        } else {
            let c0 = if pending != 0 { CpuState { halted: false, ..self } } else { self };
            if c0.halted {
                (c0, b, 4)
            } else {
                let (c1, op) = c0.fetch8(b);
                c1.execute(b, op)
            }
        }
    }
}

/// 2 to the power `n`, for a bit position.
pub open spec fn pow2_8(n: u8) -> int {
    if n == 0 {
        1
    } else if n == 1 {
        2
    } else if n == 2 {
        4
    } else if n == 3 {
        8
    } else if n == 4 {
        16
    } else if n == 5 {
        32
    } else if n == 6 {
        64
    } else {
        128
    }
}

// ---------------------------------------------------------------------------
// Bit-level facts the executable code relies on
// ---------------------------------------------------------------------------
proof fn lemma_decode(op: u8)
    ensures
        op >> 6u8 == op / 64,
        (op >> 3u8) & 7 == (op / 8) % 8,
        op & 7 == op % 8,
{
    assert(op >> 6u8 == op / 64 && (op >> 3u8) & 7 == (op / 8) % 8 && op & 7 == op % 8) by (bit_vector);
}

proof fn lemma_wrap16(v: u16, d: u16)
    ensures
        v.wrapping_add(d) == add16(v, d as int),
        v.wrapping_sub(d) == add16(v, -(d as int)),
{
}

proof fn lemma_sext(e: u8)
    ensures
        (e as i8) as u16 == if e < 128 { e as u16 } else { (e as u16 + 0xFF00) as u16 },
        (e as i8 as i16) as u16 == if e < 128 { e as u16 } else { (e as u16 + 0xFF00) as u16 },
{
    assert((e as i8) as u16 == (if e < 128 { e as u16 } else { (e as u16 + 0xFF00) as u16 }) && (e as i8
        as i16) as u16 == (if e < 128 { e as u16 } else { (e as u16 + 0xFF00) as u16 })) by (bit_vector);
}

proof fn lemma_add_sext(v: u16, e: u8)
    ensures
        v.wrapping_add((e as i8) as u16) == add16(v, sext(e)),
{
    lemma_sext(e);
    let w: u16 = if e < 128 { e as u16 } else { (e as u16 + 0xFF00) as u16 };
    if e >= 128 {
        assert((v as int + w) % 65536 == (v as int + e - 256) % 65536) by {
            vstd::arithmetic::div_mod::lemma_mod_add_multiples_vanish(v as int + e - 256, 65536);
        }
    }
}

proof fn lemma_nibble(v: u8)
    ensures
        v & 0x0F == v % 16,
        v & 0xF == v % 16,
{
    assert(v & 0x0F == v % 16) by (bit_vector);
}

proof fn lemma_nibble16(v: u16)
    ensures
        v & 0x0F == v % 16,
        v & 0xFF == v % 256,
        v & 0x0FFF == v % 4096,
{
    assert(v & 0x0F == v % 16 && v & 0xFF == v % 256 && v & 0x0FFF == v % 4096) by (bit_vector);
}

proof fn lemma_rotates(v: u8, ci: u8)
    requires
        ci <= 1,
    ensures
        (v << 1u8) | (v >> 7u8) == rotate(0, v, ci == 1).0,
        (v >> 1u8) | (v << 7u8) == rotate(1, v, ci == 1).0,
        (v << 1u8) | ci == rotate(2, v, ci == 1).0,
        (v >> 1u8) | (ci << 7u8) == rotate(3, v, ci == 1).0,
        v << 1u8 == rotate(4, v, ci == 1).0,
        (v >> 1u8) | (v & 0x80) == rotate(5, v, ci == 1).0,
        (v << 4u8) | (v >> 4u8) == rotate(6, v, ci == 1).0,
        v >> 1u8 == rotate(7, v, ci == 1).0,
        (v & 0x80 != 0) == (v >= 128),
        (v & 0x01 != 0) == (v % 2 == 1),
{
    assert((v << 1u8) | (v >> 7u8) == ((v * 2) % 256 + v / 128) as u8 && (v >> 1u8) | (v << 7u8) == (v
        / 2 + (v % 2) * 128) as u8 && (v << 1u8) | ci == ((v * 2) % 256 + ci) as u8 && (v >> 1u8) | (ci
        << 7u8) == (v / 2 + ci * 128) as u8 && v << 1u8 == ((v * 2) % 256) as u8 && (v >> 1u8) | (v
        & 0x80) == (v / 2 + (if v >= 128 { 128u8 } else { 0u8 })) as u8 && (v << 4u8) | (v >> 4u8) == ((v
        % 16) * 16 + v / 16) as u8 && v >> 1u8 == (v / 2) as u8 && (v & 0x80 != 0) == (v >= 128) && (v
        & 0x01 != 0) == (v % 2 == 1)) by (bit_vector)
        requires
            ci <= 1,
    ;
}

proof fn lemma_bit_test(v: u8, y: u8)
    requires
        y < 8,
    ensures
        (v & (1u8 << y) == 0) == ((v as int / pow2_8(y)) % 2 == 0),
{
    assert((v & (1u8 << 0u8) == 0) == ((v / 1) % 2 == 0) && (v & (1u8 << 1u8) == 0) == ((v / 2) % 2
        == 0) && (v & (1u8 << 2u8) == 0) == ((v / 4) % 2 == 0) && (v & (1u8 << 3u8) == 0) == ((v / 8)
        % 2 == 0) && (v & (1u8 << 4u8) == 0) == ((v / 16) % 2 == 0) && (v & (1u8 << 5u8) == 0) == ((v
        / 32) % 2 == 0) && (v & (1u8 << 6u8) == 0) == ((v / 64) % 2 == 0) && (v & (1u8 << 7u8) == 0)
        == ((v / 128) % 2 == 0)) by (bit_vector);
}

// ---------------------------------------------------------------------------
// The processor
// ---------------------------------------------------------------------------
#[derive(Debug, Clone, Copy)]
pub struct Cpu {
    pub regs: Registers,
    /// The interrupt master enable.
    pub ime: bool,
    /// Asleep in HALT until an interrupt is pending.
    pub halted: bool,
    /// HALT with IME clear and an interrupt already pending: the next fetch
    /// does not advance PC.
    pub(crate) halt_bug: bool,
}

/// The view is the processor's fields.
pub(crate) broadcast proof fn lemma_cpu_view(c: Cpu)
    ensures
        #[trigger] c@ == (CpuState { regs: c.regs@, ime: c.ime, halted: c.halted, halt_bug: c.halt_bug }),
{
}

impl R8 {
    fn from_code(code: u8) -> (r: R8)
        requires
            code < 8,
        ensures
            r == r8_of(code),
    {
        match code {
            0 => R8::B,
            1 => R8::C,
            2 => R8::D,
            3 => R8::E,
            4 => R8::H,
            5 => R8::L,
            6 => R8::HlMem,
            _ => R8::A,
        }
    }
}

impl R16 {
    fn from_code_sp(code: u8) -> (r: R16)
        requires
            code < 4,
        ensures
            r == r16_sp_of(code),
    {
        match code {
            0 => R16::BC,
            1 => R16::DE,
            2 => R16::HL,
            _ => R16::SP,
        }
    }

    fn from_code_af(code: u8) -> (r: R16)
        requires
            code < 4,
        ensures
            r == r16_af_of(code),
    {
        match code {
            0 => R16::BC,
            1 => R16::DE,
            2 => R16::HL,
            _ => R16::AF,
        }
    }
}

impl Cpu {
    pub closed spec fn view(&self) -> CpuState {
        CpuState { regs: self.regs@, ime: self.ime, halted: self.halted, halt_bug: self.halt_bug }
    }

    /// The processor as the boot ROM leaves it, interrupts disabled.
    pub fn new() -> (c: Cpu)
        ensures
            c@ == (CpuState { regs: c@.regs, ime: false, halted: false, halt_bug: false }),
            c@.regs == (RegFile {
                a: 0x01,
                f: 0xB0,
                b: 0x00,
                c: 0x13,
                d: 0x00,
                e: 0xD8,
                h: 0x01,
                l: 0x4D,
                pc: 0x0100,
                sp: 0xFFFE,
            }),
    {
        Cpu { regs: Registers::post_boot(), ime: false, halted: false, halt_bug: false }
    }

    /// Whether the next step executes an opcode: no interrupt about to be
    /// dispatched, and not idling in HALT. A halted processor with a request
    /// pending wakes and executes the next opcode in the same step.
    pub fn will_execute(&self, bus: &Bus) -> (r: bool)
        ensures
            r == self@.executes(bus@),
    {
        let pending = bus.pending_interrupts();
        !(self.ime && pending != 0) && !(self.halted && pending == 0)
    }

    /// Whether the next step finds every byte it reads and every DMA source it
    /// starts, which `step` asks of its caller.
    pub fn can_step(&self, bus: &Bus) -> (ok: bool)
        requires
            bus@.wf(),
        ensures
            ok == self@.step_ok(bus@),
    {
        let pending = bus.pending_interrupts();
        let mapped = bus.rom_mapped();
        let sp = self.regs.sp;
        proof {
            lemma_wrap16(sp, 1);
            lemma_wrap16(sp, 2);
        }
        let push_ok = mapped || (sp.wrapping_sub(1) != 0xFF46 && sp.wrapping_sub(2) != 0xFF46);
        if pending != 0 && self.ime {
            return push_ok;
        }
        if self.halted && pending == 0 {
            return true;
        }
        let pc = self.regs.pc;
        if !bus.readable(pc) {
            return false;
        }
        // Where the operands start: after the opcode, or on it again after
        // the halt bug.
        let opc = if self.halt_bug {
            pc
        } else {
            pc.wrapping_add(1)
        };
        let opc1 = opc.wrapping_add(1);
        proof {
            lemma_wrap16(pc, 1);
            lemma_wrap16(opc, 1);
            lemma_wrap16(sp, 1);
        }
        if !bus.readable(opc) || !bus.readable(opc1) {
            return false;
        }
        let n = bus.read(opc);
        let hi = bus.read(opc1);
        let nn = (n as u16) | ((hi as u16) << 8);
        proof {
            crate::registers::lemma_pair_bits(hi, n);
            lemma_wrap16(nn, 1);
        }
        let hl = self.regs.hl();
        let bc = self.regs.bc();
        let de = self.regs.de();
        let reads_ok = bus.readable(hl) && bus.readable(bc) && bus.readable(de) && bus.readable(sp)
            && bus.readable(sp.wrapping_add(1)) && bus.readable(nn);
        let dma_ok = mapped || (hl != 0xFF46 && bc != 0xFF46 && de != 0xFF46 && nn != 0xFF46
            && nn.wrapping_add(1) != 0xFF46 && (n as u16) + 0xFF00 != 0xFF46 && (self.regs.c as u16)
            + 0xFF00 != 0xFF46);
        reads_ok && push_ok && dma_ok
    }

    /// Whether the next step would run into STOP or a missing opcode, which
    /// `step` does not accept.
    pub fn stops(&self, bus: &Bus) -> (r: bool)
        requires
            bus@.wf(),
            self@.executes(bus@) ==> bus@.readable(self@.regs.pc),
        ensures
            r == self@.step_stops(bus@),
    {
        let pending = bus.pending_interrupts();
        if self.ime && pending != 0 {
            return false;
        }
        if self.halted && pending == 0 {
            return false;
        }
        let op = bus.read(self.regs.pc);
        op == 0x10 || op == 0xD3 || op == 0xDB || op == 0xDD || op == 0xE3 || op == 0xE4 || op
            == 0xEB || op == 0xEC || op == 0xED || op == 0xF4 || op == 0xFC || op == 0xFD
    }

    fn fetch8(&mut self, bus: &Bus) -> (value: u8)
        requires
            bus@.wf(),
            bus@.readable(old(self)@.regs.pc),
        ensures
            (final(self)@, value) == old(self)@.fetch8(bus@),
    {
        let value = bus.read(self.regs.pc);
        if self.halt_bug {
            self.halt_bug = false;
        } else {
            proof {
                lemma_wrap16(self.regs.pc, 1);
            }
            self.regs.pc = self.regs.pc.wrapping_add(1);
        }
        value
    }

    fn fetch16(&mut self, bus: &Bus) -> (value: u16)
        requires
            bus@.wf(),
            bus@.readable(old(self)@.regs.pc),
            bus@.readable(add16(old(self)@.regs.pc, 1)),
        ensures
            (final(self)@, value) == old(self)@.fetch16(bus@),
    {
        let lo8 = self.fetch8(bus);
        let hi8 = self.fetch8(bus);
        let lo = lo8 as u16;
        let hi = (hi8 as u16) << 8;
        proof {
            crate::registers::lemma_pair_bits(hi8, lo8);
        }
        lo | hi
    }

    fn get_r8(&self, r: R8, bus: &Bus) -> (v: u8)
        requires
            bus@.wf(),
            r == R8::HlMem ==> bus@.readable(self@.regs.hl()),
        ensures
            v == self@.get_r8(bus@, r),
    {
        match r {
            R8::B => self.regs.b,
            R8::C => self.regs.c,
            R8::D => self.regs.d,
            R8::E => self.regs.e,
            R8::H => self.regs.h,
            R8::L => self.regs.l,
            R8::HlMem => bus.read(self.regs.hl()),
            R8::A => self.regs.a,
        }
    }

    fn set_r8(&mut self, r: R8, bus: &mut Bus, value: u8)
        requires
            old(bus)@.wf(),
            r == R8::HlMem ==> old(self)@.hl_writable(old(bus)@),
        ensures
            (final(self)@, final(bus)@) == old(self)@.set_r8(old(bus)@, r, value),
            final(bus)@.wf(),
    {
        match r {
            R8::B => self.regs.b = value,
            R8::C => self.regs.c = value,
            R8::D => self.regs.d = value,
            R8::E => self.regs.e = value,
            R8::H => self.regs.h = value,
            R8::L => self.regs.l = value,
            R8::HlMem => bus.write(self.regs.hl(), value),
            R8::A => self.regs.a = value,
        }
    }

    fn set_r16(&mut self, r16: R16, value: u16)
        ensures
            final(self)@ == old(self)@.set_r16(r16, value),
    {
        match r16 {
            R16::BC => self.regs.set_bc(value),
            R16::DE => self.regs.set_de(value),
            R16::HL => self.regs.set_hl(value),
            R16::AF => self.regs.set_af(value),
            R16::SP => self.regs.sp = value,
        };
    }

    fn get_r16(&self, r16: R16) -> (v: u16)
        ensures
            v == self@.get_r16(r16),
    {
        match r16 {
            R16::BC => self.regs.bc(),
            R16::DE => self.regs.de(),
            R16::HL => self.regs.hl(),
            R16::AF => self.regs.af(),
            R16::SP => self.regs.sp,
        }
    }

    fn push16(&mut self, bus: &mut Bus, value: u16)
        requires
            old(bus)@.wf(),
            old(self)@.push_ok(old(bus)@),
        ensures
            (final(self)@, final(bus)@) == old(self)@.push16(old(bus)@, value),
            final(bus)@.wf(),
    {
        proof {
            lemma_wrap16(self.regs.sp, 1);
            crate::registers::lemma_split_bits(value);
        }
        self.regs.sp = self.regs.sp.wrapping_sub(1);
        bus.write(self.regs.sp, (value >> 8) as u8);
        proof {
            lemma_wrap16(self.regs.sp, 1);
        }
        self.regs.sp = self.regs.sp.wrapping_sub(1);
        bus.write(self.regs.sp, value as u8);
    }

    /// Pops a 16-bit value off the stack, low byte first.
    pub fn pop16(&mut self, bus: &Bus) -> (value: u16)
        requires
            bus@.wf(),
            bus@.readable(old(self)@.regs.sp),
            bus@.readable(add16(old(self)@.regs.sp, 1)),
        ensures
            (final(self)@, value) == old(self)@.pop16(bus@),
    {
        proof {
            lemma_wrap16(self.regs.sp, 1);
        }
        let lo = bus.read(self.regs.sp) as u16;
        self.regs.sp = self.regs.sp.wrapping_add(1);
        let hi = bus.read(self.regs.sp) as u16;
        proof {
            lemma_wrap16(self.regs.sp, 1);
            assert(add16(add16(old(self)@.regs.sp, 1), 1) == add16(old(self)@.regs.sp, 2));
        }
        self.regs.sp = self.regs.sp.wrapping_add(1);
        proof {
            crate::registers::lemma_pair_bits(hi as u8, lo as u8);
        }
        lo | (hi << 8)
    }
}

impl Cpu {
    fn ld_r8_r8(&mut self, bus: &mut Bus, y: u8, z: u8) -> (cycles: u32)
        requires
            old(bus)@.wf(),
            old(self)@.operands_ok(old(bus)@),
            y < 8,
            z < 8,
        ensures
            (final(self)@, final(bus)@, cycles) == old(self)@.ld_r8_r8(old(bus)@, y, z),
            final(bus)@.wf(),
    {
        let v = self.get_r8(R8::from_code(z), bus);
        self.set_r8(R8::from_code(y), bus, v);
        if y == 6 || z == 6 {
            8
        } else {
            4
        }
    }

    fn ld_n16_sp(&mut self, bus: &mut Bus) -> (cycles: u32)
        requires
            old(bus)@.wf(),
            old(self)@.operands_ok(old(bus)@),
        ensures
            (final(self)@, final(bus)@, cycles) == old(self)@.ld_n16_sp(old(bus)@),
            final(bus)@.wf(),
    {
        let addr = self.fetch16(bus);
        let sp = self.regs.sp;
        proof {
            lemma_wrap16(addr, 1);
            crate::registers::lemma_split_bits(sp);
        }
        bus.write(addr, (sp & 0xFF) as u8);
        bus.write(addr.wrapping_add(1), (sp >> 8) as u8);
        20
    }

    fn jr(&mut self, bus: &Bus) -> (cycles: u32)
        requires
            bus@.wf(),
            old(self)@.operands_ok(bus@),
        ensures
            (final(self)@, bus@, cycles) == old(self)@.jr(bus@),
    {
        let e = self.fetch8(bus);
        proof {
            lemma_add_sext(self.regs.pc, e);
        }
        let value = e as i8 as u16;
        self.regs.pc = self.regs.pc.wrapping_add(value);
        12
    }

    fn condition(&self, cc: u8) -> (r: bool)
        requires
            cc < 4,
        ensures
            r == self@.condition(cc),
    {
        match cc {
            0 => !self.regs.flag_z(),
            1 => self.regs.flag_z(),
            2 => !self.regs.flag_c(),
            _ => self.regs.flag_c(),
        }
    }

    fn jrcc(&mut self, bus: &Bus, y: u8) -> (cycles: u32)
        requires
            bus@.wf(),
            old(self)@.operands_ok(bus@),
            4 <= y < 8,
        ensures
            (final(self)@, bus@, cycles) == old(self)@.jr_cc(bus@, y),
    {
        let taken = self.condition(y - 4);
        let e = self.fetch8(bus);
        proof {
            lemma_add_sext(self.regs.pc, e);
        }
        let e = e as i8 as u16;
        if taken {
            self.regs.pc = self.regs.pc.wrapping_add(e);
            12
        } else {
            8
        }
    }

    fn ld_rp_n16(&mut self, bus: &Bus, p: u8) -> (cycles: u32)
        requires
            bus@.wf(),
            old(self)@.operands_ok(bus@),
            p < 4,
        ensures
            (final(self)@, bus@, cycles) == old(self)@.ld_rp_n16(bus@, p),
    {
        let value = self.fetch16(bus);
        self.set_r16(R16::from_code_sp(p), value);
        12
    }

    fn add_hl_rp(&mut self, p: u8) -> (cycles: u32)
        requires
            p < 4,
        ensures
            (final(self)@, cycles) == old(self)@.add_hl_rp(p),
    {
        let hl = self.regs.hl();
        let v = self.get_r16(R16::from_code_sp(p));
        let result = hl.wrapping_add(v);
        let carry = hl as u32 + v as u32 > 0xFFFF;
        proof {
            lemma_nibble16(hl);
            lemma_nibble16(v);
            lemma_wrap16(hl, v);
        }
        let half = (hl & 0x0FFF) + (v & 0x0FFF) > 0x0FFF;
        let z = self.regs.flag_z();
        self.regs.set_flags(z, false, half, carry);
        self.regs.set_hl(result);
        8
    }

    fn ld_r8_n8(&mut self, bus: &mut Bus, y: u8) -> (cycles: u32)
        requires
            old(bus)@.wf(),
            old(self)@.operands_ok(old(bus)@),
            y < 8,
        ensures
            (final(self)@, final(bus)@, cycles) == old(self)@.ld_r8_n8(old(bus)@, y),
            final(bus)@.wf(),
    {
        let value = self.fetch8(bus);
        self.set_r8(R8::from_code(y), bus, value);
        if y == 6 {
            12
        } else {
            8
        }
    }

    #[verifier::spinoff_prover]
    fn inc_r8(&mut self, bus: &mut Bus, y: u8) -> (cycles: u32)
        requires
            old(bus)@.wf(),
            old(self)@.operands_ok(old(bus)@),
            y < 8,
        ensures
            (final(self)@, final(bus)@, cycles) == old(self)@.inc_r8(old(bus)@, y),
            final(bus)@.wf(),
    {
        let r8 = R8::from_code(y);
        let v = self.get_r8(r8, bus);
        let res = v.wrapping_add(1);
        self.set_r8(r8, bus, res);
        proof {
            lemma_nibble(v);
        }
        let c = self.regs.flag_c();
        self.regs.set_flags(res == 0, false, (v & 0xF) == 0xF, c);
        if y == 6 {
            12
        } else {
            4
        }
    }

    #[verifier::spinoff_prover]
    fn dec_r8(&mut self, bus: &mut Bus, y: u8) -> (cycles: u32)
        requires
            old(bus)@.wf(),
            old(self)@.operands_ok(old(bus)@),
            y < 8,
        ensures
            (final(self)@, final(bus)@, cycles) == old(self)@.dec_r8(old(bus)@, y),
            final(bus)@.wf(),
    {
        let r8 = R8::from_code(y);
        let v = self.get_r8(r8, bus);
        let res = v.wrapping_sub(1);
        self.set_r8(r8, bus, res);
        proof {
            lemma_nibble(v);
        }
        let c = self.regs.flag_c();
        self.regs.set_flags(res == 0, true, (v & 0xF) == 0x0, c);
        if y == 6 {
            12
        } else {
            4
        }
    }

    fn inc_rp(&mut self, p: u8) -> (cycles: u32)
        requires
            p < 4,
        ensures
            (final(self)@, cycles) == old(self)@.step_rp(p, 1),
    {
        let r16 = R16::from_code_sp(p);
        let v = self.get_r16(r16);
        proof {
            lemma_wrap16(v, 1);
        }
        self.set_r16(r16, v.wrapping_add(1));
        8
    }

    fn dec_rp(&mut self, p: u8) -> (cycles: u32)
        requires
            p < 4,
        ensures
            (final(self)@, cycles) == old(self)@.step_rp(p, -1),
    {
        let r16 = R16::from_code_sp(p);
        let v = self.get_r16(r16);
        proof {
            lemma_wrap16(v, 1);
        }
        self.set_r16(r16, v.wrapping_sub(1));
        8
    }

    fn ld_r16_a(&mut self, bus: &mut Bus, p: u8, q: u8) -> (cycles: u32)
        requires
            old(bus)@.wf(),
            old(self)@.operands_ok(old(bus)@),
            p < 4,
            q < 2,
        ensures
            (final(self)@, final(bus)@, cycles) == old(self)@.ld_r16_a(old(bus)@, p, q),
            final(bus)@.wf(),
    {
        let addr = match p {
            0 => self.regs.bc(),
            1 => self.regs.de(),
            _ => self.regs.hl(),
        };
        if q == 0 {
            bus.write(addr, self.regs.a);
        } else {
            self.regs.a = bus.read(addr);
        }
        proof {
            lemma_wrap16(addr, 1);
        }
        match p {
            2 => self.regs.set_hl(addr.wrapping_add(1)),
            3 => self.regs.set_hl(addr.wrapping_sub(1)),
            _ => {},
        };
        8
    }

    fn ldh_n_a(&mut self, bus: &mut Bus, y: u8) -> (cycles: u32)
        requires
            old(bus)@.wf(),
            old(self)@.operands_ok(old(bus)@),
        ensures
            (final(self)@, final(bus)@, cycles) == old(self)@.ldh_n_a(old(bus)@, y),
            final(bus)@.wf(),
    {
        let addr = self.fetch8(bus) as u16 + 0xFF00;
        if y == 4 {
            bus.write(addr, self.regs.a);
        } else {
            self.regs.a = bus.read(addr);
        }
        12
    }

    fn ld_a_c(&mut self, bus: &mut Bus, y: u8) -> (cycles: u32)
        requires
            old(bus)@.wf(),
            old(self)@.operands_ok(old(bus)@),
        ensures
            (final(self)@, final(bus)@, cycles) == old(self)@.ld_a_c(old(bus)@, y),
            final(bus)@.wf(),
    {
        let addr = self.regs.c as u16 + 0xFF00;
        if y == 4 {
            bus.write(addr, self.regs.a);
        } else {
            self.regs.a = bus.read(addr);
        }
        8
    }

    fn ld_n16_a(&mut self, bus: &mut Bus, y: u8) -> (cycles: u32)
        requires
            old(bus)@.wf(),
            old(self)@.operands_ok(old(bus)@),
        ensures
            (final(self)@, final(bus)@, cycles) == old(self)@.ld_n16_a(old(bus)@, y),
            final(bus)@.wf(),
    {
        let addr = self.fetch16(bus);
        if y == 5 {
            bus.write(addr, self.regs.a);
        } else {
            self.regs.a = bus.read(addr);
        }
        16
    }

    fn pop_rp2(&mut self, bus: &Bus, p: u8) -> (cycles: u32)
        requires
            bus@.wf(),
            old(self)@.operands_ok(bus@),
            p < 4,
        ensures
            (final(self)@, bus@, cycles) == old(self)@.pop_rp2(bus@, p),
    {
        let v = self.pop16(bus);
        self.set_r16(R16::from_code_af(p), v);
        12
    }

    fn push_rp2(&mut self, bus: &mut Bus, p: u8) -> (cycles: u32)
        requires
            old(bus)@.wf(),
            old(self)@.operands_ok(old(bus)@),
            p < 4,
        ensures
            (final(self)@, final(bus)@, cycles) == old(self)@.push_rp2(old(bus)@, p),
            final(bus)@.wf(),
    {
        let v = self.get_r16(R16::from_code_af(p));
        self.push16(bus, v);
        16
    }

    fn ret(&mut self, bus: &Bus) -> (cycles: u32)
        requires
            bus@.wf(),
            old(self)@.operands_ok(bus@),
        ensures
            (final(self)@, bus@, cycles) == old(self)@.ret(bus@),
    {
        let value = self.pop16(bus);
        self.regs.pc = value;
        16
    }

    fn ret_cc(&mut self, bus: &Bus, y: u8) -> (cycles: u32)
        requires
            bus@.wf(),
            old(self)@.operands_ok(bus@),
            y < 4,
        ensures
            (final(self)@, bus@, cycles) == old(self)@.ret_cc(bus@, y),
    {
        let taken = self.condition(y);
        if taken {
            self.regs.pc = self.pop16(bus);
            20
        } else {
            8
        }
    }

    fn call_n16(&mut self, bus: &mut Bus) -> (cycles: u32)
        requires
            old(bus)@.wf(),
            old(self)@.operands_ok(old(bus)@),
        ensures
            (final(self)@, final(bus)@, cycles) == old(self)@.call_n16(old(bus)@),
            final(bus)@.wf(),
    {
        let addr = self.fetch16(bus);
        let pc = self.regs.pc;
        self.push16(bus, pc);
        self.regs.pc = addr;
        24
    }

    fn call_cc(&mut self, bus: &mut Bus, y: u8) -> (cycles: u32)
        requires
            old(bus)@.wf(),
            old(self)@.operands_ok(old(bus)@),
            y < 4,
        ensures
            (final(self)@, final(bus)@, cycles) == old(self)@.call_cc(old(bus)@, y),
            final(bus)@.wf(),
    {
        let addr = self.fetch16(bus);
        let taken = self.condition(y);
        if taken {
            let pc = self.regs.pc;
            self.push16(bus, pc);
            self.regs.pc = addr;
            24
        } else {
            12
        }
    }

    fn jp_cc(&mut self, bus: &Bus, y: u8) -> (cycles: u32)
        requires
            bus@.wf(),
            old(self)@.operands_ok(bus@),
            y < 4,
        ensures
            (final(self)@, bus@, cycles) == old(self)@.jp_cc(bus@, y),
    {
        let taken = self.condition(y);
        let addr = self.fetch16(bus);
        if taken {
            self.regs.pc = addr;
            16
        } else {
            12
        }
    }

    fn rst(&mut self, bus: &mut Bus, y: u8) -> (cycles: u32)
        requires
            old(bus)@.wf(),
            old(self)@.operands_ok(old(bus)@),
            y < 8,
        ensures
            (final(self)@, final(bus)@, cycles) == old(self)@.rst(old(bus)@, y),
            final(bus)@.wf(),
    {
        let pc = self.regs.pc;
        self.push16(bus, pc);
        self.regs.pc = (y * 8) as u16;
        16
    }

    fn rlca(&mut self) -> (cycles: u32)
        ensures
            (final(self)@, cycles) == old(self)@.rotate_a(0),
    {
        let v = self.regs.a;
        proof {
            lemma_rotates(v, 0);
        }
        self.regs.a = (v << 1) | (v >> 7);
        self.regs.set_flags(false, false, false, (v & 0x80) != 0);
        4
    }

    fn rrca(&mut self) -> (cycles: u32)
        ensures
            (final(self)@, cycles) == old(self)@.rotate_a(1),
    {
        let v = self.regs.a;
        proof {
            lemma_rotates(v, 0);
        }
        self.regs.a = (v >> 1) | (v << 7);
        self.regs.set_flags(false, false, false, (v & 0x01) != 0);
        4
    }

    fn rla(&mut self) -> (cycles: u32)
        ensures
            (final(self)@, cycles) == old(self)@.rotate_a(2),
    {
        let old_c: u8 = if self.regs.flag_c() { 1 } else { 0 };
        let old_a = self.regs.a;
        proof {
            lemma_rotates(old_a, old_c);
        }
        self.regs.a = (old_a << 1) | old_c;
        self.regs.set_flags(false, false, false, (old_a & 0x80) != 0);
        4
    }

    fn rra(&mut self) -> (cycles: u32)
        ensures
            (final(self)@, cycles) == old(self)@.rotate_a(3),
    {
        let old_c: u8 = if self.regs.flag_c() { 1 } else { 0 };
        let old_a = self.regs.a;
        proof {
            lemma_rotates(old_a, old_c);
        }
        self.regs.a = (old_a >> 1) | (old_c << 7);
        self.regs.set_flags(false, false, false, (old_a & 0x01) != 0);
        4
    }

    fn daa(&mut self) -> (cycles: u32)
        ensures
            final(self)@ == old(self)@.with_regs(daa(old(self)@.regs)),
            cycles == 4,
    {
        let n_flag = self.regs.flag_n();
        let h_flag = self.regs.flag_h();
        let mut c_flag = self.regs.flag_c();
        let mut adjustment: u8 = 0;
        proof {
            lemma_nibble(self.regs.a);
        }
        if !n_flag {
            if h_flag || (self.regs.a & 0x0F) > 0x09 {
                adjustment = adjustment | 0x06;
            }
            if c_flag || self.regs.a > 0x99 {
                adjustment = adjustment | 0x60;
                c_flag = true;
            }
        } else {
            if h_flag {
                adjustment = adjustment | 0x06;
            }
            if c_flag {
                adjustment = adjustment | 0x60;
            }
        }
        proof {
            assert(0u8 | 0x06u8 == 0x06 && 0u8 | 0x60u8 == 0x60 && 0x06u8 | 0x60u8 == 0x66) by (bit_vector);
        }
        if !n_flag {
            self.regs.a = self.regs.a.wrapping_add(adjustment);
        } else {
            self.regs.a = self.regs.a.wrapping_sub(adjustment);
        }
        let z_flag = self.regs.a == 0;
        self.regs.set_flags(z_flag, n_flag, false, c_flag);
        4
    }

    fn cpl(&mut self) -> (cycles: u32)
        ensures
            (final(self)@, cycles) == old(self)@.cpl(),
    {
        let a = self.regs.a;
        proof {
            assert(!a == (255 - a) as u8) by (bit_vector);
        }
        self.regs.a = !a;
        let z = self.regs.flag_z();
        let c = self.regs.flag_c();
        self.regs.set_flags(z, true, true, c);
        4
    }

    fn scf(&mut self) -> (cycles: u32)
        ensures
            (final(self)@, cycles) == old(self)@.carry_flag_op(false),
    {
        let z = self.regs.flag_z();
        self.regs.set_flags(z, false, false, true);
        4
    }

    fn ccf(&mut self) -> (cycles: u32)
        ensures
            (final(self)@, cycles) == old(self)@.carry_flag_op(true),
    {
        let z = self.regs.flag_z();
        let c = self.regs.flag_c();
        self.regs.set_flags(z, false, false, !c);
        4
    }

    fn halt(&mut self, bus: &Bus) -> (cycles: u32)
        ensures
            (final(self)@, bus@, cycles) == old(self)@.halt(bus@),
    {
        if !self.ime && bus.pending_interrupts() != 0 {
            self.halt_bug = true;
        } else {
            self.halted = true;
        }
        4
    }
}

impl Cpu {
    fn alu(&mut self, op: u8, value: u8)
        requires
            op < 8,
        ensures
            final(self)@ == old(self)@.with_regs(alu(old(self)@.regs, op, value)),
    {
        match op {
            0 => self.add(value),
            1 => self.adc(value),
            2 => self.sub(value),
            3 => self.sbc(value),
            4 => self.and(value),
            5 => self.xor(value),
            6 => self.or(value),
            _ => self.cp(value),
        }
    }

    /// The adder behind ADD and ADC. `carry_in` is the C flag for ADC and
    /// false for ADD -- the arithmetic is otherwise identical.
    fn add_with_carry(&mut self, value: u8, carry_in: bool)
        ensures
            final(self)@ == old(self)@.with_regs(add_a(old(self)@.regs, value, carry_in)),
    {
        let a = self.regs.a;
        let c: u8 = if carry_in { 1 } else { 0 };
        let result = a.wrapping_add(value).wrapping_add(c);
        proof {
            lemma_nibble(a);
            lemma_nibble(value);
        }
        // H is the carry out of bit 3: add the low nibbles and see if the
        // total needs a fifth bit. Max is 15 + 15 + 1 = 31, so no overflow.
        let half = (a & 0x0F) + (value & 0x0F) + c > 0x0F;
        // C is the carry out of bit 7. Widening to u16 keeps the sum that
        // does not fit in a u8, which is exactly what we are testing for.
        let full = a as u16 + value as u16 + c as u16 > 0xFF;
        self.regs.a = result;
        self.regs.set_flags(result == 0, false, half, full);
    }

    /// The subtractor behind SUB, SBC and CP. Returns the result and leaves A
    /// alone, so CP can set the flags and throw the difference away.
    fn sub_with_carry(&mut self, value: u8, carry_in: bool) -> (result: u8)
        ensures
            final(self)@ == old(self)@.with_regs(sub_flags(old(self)@.regs, value, carry_in)),
            result == sub_result(old(self)@.regs, value, carry_in),
    {
        let a = self.regs.a;
        let c: u8 = if carry_in { 1 } else { 0 };
        let result = a.wrapping_sub(value).wrapping_sub(c);
        proof {
            lemma_nibble(a);
            lemma_nibble(value);
        }
        // Borrowing is the mirror of carrying: H is set when the low nibble
        // we are taking away is bigger than the one we have.
        let half = (a & 0x0F) < (value & 0x0F) + c;
        let full = (a as u16) < value as u16 + c as u16;
        self.regs.set_flags(result == 0, true, half, full);
        result
    }

    fn add(&mut self, value: u8)
        ensures
            final(self)@ == old(self)@.with_regs(alu(old(self)@.regs, 0, value)),
    {
        self.add_with_carry(value, false);
    }

    fn adc(&mut self, value: u8)
        ensures
            final(self)@ == old(self)@.with_regs(alu(old(self)@.regs, 1, value)),
    {
        let c = self.regs.flag_c();
        self.add_with_carry(value, c);
    }

    fn sub(&mut self, value: u8)
        ensures
            final(self)@ == old(self)@.with_regs(alu(old(self)@.regs, 2, value)),
    {
        self.regs.a = self.sub_with_carry(value, false);
    }

    fn sbc(&mut self, value: u8)
        ensures
            final(self)@ == old(self)@.with_regs(alu(old(self)@.regs, 3, value)),
    {
        let c = self.regs.flag_c();
        self.regs.a = self.sub_with_carry(value, c);
    }

    fn and(&mut self, value: u8)
        ensures
            final(self)@ == old(self)@.with_regs(alu(old(self)@.regs, 4, value)),
    {
        self.regs.a = self.regs.a & value;
        // AND is the odd one out: it always sets H.
        let z = self.regs.a == 0;
        self.regs.set_flags(z, false, true, false);
    }

    fn xor(&mut self, value: u8)
        ensures
            final(self)@ == old(self)@.with_regs(alu(old(self)@.regs, 5, value)),
    {
        self.regs.a = self.regs.a ^ value;
        let z = self.regs.a == 0;
        self.regs.set_flags(z, false, false, false);
    }

    fn or(&mut self, value: u8)
        ensures
            final(self)@ == old(self)@.with_regs(alu(old(self)@.regs, 6, value)),
    {
        self.regs.a = self.regs.a | value;
        let z = self.regs.a == 0;
        self.regs.set_flags(z, false, false, false);
    }

    /// CP is SUB that keeps the flags and throws the difference away.
    fn cp(&mut self, value: u8)
        ensures
            final(self)@ == old(self)@.with_regs(alu(old(self)@.regs, 7, value)),
    {
        self.sub_with_carry(value, false);
    }

    fn cb(&mut self, bus: &mut Bus) -> (cycles: u32)
        requires
            old(bus)@.wf(),
            old(self)@.operands_ok(old(bus)@),
        ensures
            (final(self)@, final(bus)@, cycles) == old(self)@.cb(old(bus)@),
            final(bus)@.wf(),
    {
        let cb = self.fetch8(bus);
        proof {
            lemma_decode(cb);
        }
        let cx = cb >> 6;
        let cy = (cb >> 3) & 7;
        let cz = cb & 7;
        match cx {
            0 => self.rot(bus, cy, cz),
            1 => self.bit(bus, cy, cz),
            2 => self.res(bus, cy, cz),
            _ => self.set_bit(bus, cy, cz),
        }
    }

    fn rot(&mut self, bus: &mut Bus, y: u8, z: u8) -> (cycles: u32)
        requires
            old(bus)@.wf(),
            old(self)@.hl_ok(old(bus)@),
            y < 8,
            z < 8,
        ensures
            ({
                let c = old(self)@;
                let b = old(bus)@;
                let (res, carry) = rotate(y, c.get_r8(b, r8_of(z)), c.regs.flag_c());
                let (c2, b2) = c.set_r8(b, r8_of(z), res);
                (final(self)@, final(bus)@, cycles) == (c2.with_regs(c2.regs.with_flags(res == 0, false, false, carry)), b2, if z == 6 { 16u32 } else { 8u32 })
            }),
            final(bus)@.wf(),
    {
        let r8 = R8::from_code(z);
        let v = self.get_r8(r8, bus);
        let old_c: u8 = if self.regs.flag_c() { 1 } else { 0 };
        proof {
            lemma_rotates(v, old_c);
        }
        let (result, carry) = match y {
            0 => ((v << 1) | (v >> 7), v & 0x80 != 0),  // RLC
            1 => ((v >> 1) | (v << 7), v & 0x01 != 0),  // RRC
            2 => ((v << 1) | old_c, v & 0x80 != 0),  // RL
            3 => ((v >> 1) | (old_c << 7), v & 0x01 != 0),  // RR
            4 => (v << 1, v & 0x80 != 0),  // SLA
            5 => ((v >> 1) | (v & 0x80), v & 0x01 != 0),  // SRA
            6 => ((v << 4) | (v >> 4), false),  // SWAP
            _ => (v >> 1, v & 0x01 != 0),  // SRL
        };
        self.set_r8(r8, bus, result);
        self.regs.set_flags(result == 0, false, false, carry);
        if z == 6 {
            16
        } else {
            8
        }
    }

    fn bit(&mut self, bus: &Bus, y: u8, z: u8) -> (cycles: u32)
        requires
            bus@.wf(),
            old(self)@.hl_ok(bus@),
            y < 8,
            z < 8,
        ensures
            ({
                let c = old(self)@;
                let v = c.get_r8(bus@, r8_of(z));
                (final(self)@, cycles) == (c.with_regs(c.regs.with_flags((v as int / pow2_8(y)) % 2 == 0, false, true, c.regs.flag_c())), if z == 6 { 12u32 } else { 8u32 })
            }),
    {
        let r8 = self.get_r8(R8::from_code(z), bus);
        proof {
            lemma_bit_test(r8, y);
        }
        let z_flag = r8 & (1 << y) == 0;
        let c = self.regs.flag_c();
        self.regs.set_flags(z_flag, false, true, c);
        if z == 6 {
            12
        } else {
            8
        }
    }

    fn res(&mut self, bus: &mut Bus, y: u8, z: u8) -> (cycles: u32)
        requires
            old(bus)@.wf(),
            old(self)@.hl_ok(old(bus)@),
            y < 8,
            z < 8,
        ensures
            ({
                let c = old(self)@;
                let b = old(bus)@;
                let (c2, b2) = c.set_r8(b, r8_of(z), c.get_r8(b, r8_of(z)) & !(1u8 << y));
                (final(self)@, final(bus)@, cycles) == (c2, b2, if z == 6 { 16u32 } else { 8u32 })
            }),
            final(bus)@.wf(),
    {
        let r8 = R8::from_code(z);
        let value = self.get_r8(r8, bus);
        self.set_r8(r8, bus, value & !(1 << y));
        if z == 6 {
            16
        } else {
            8
        }
    }

    fn set_bit(&mut self, bus: &mut Bus, y: u8, z: u8) -> (cycles: u32)
        requires
            old(bus)@.wf(),
            old(self)@.hl_ok(old(bus)@),
            y < 8,
            z < 8,
        ensures
            ({
                let c = old(self)@;
                let b = old(bus)@;
                let (c2, b2) = c.set_r8(b, r8_of(z), c.get_r8(b, r8_of(z)) | (1u8 << y));
                (final(self)@, final(bus)@, cycles) == (c2, b2, if z == 6 { 16u32 } else { 8u32 })
            }),
            final(bus)@.wf(),
    {
        let r8 = R8::from_code(z);
        let value = self.get_r8(r8, bus);
        self.set_r8(r8, bus, value | (1 << y));
        if z == 6 {
            16
        } else {
            8
        }
    }

    fn ld_sp_hl(&mut self) -> (cycles: u32)
        ensures
            final(self)@ == old(self)@.with_sp(old(self)@.regs.hl()),
            cycles == 8,
    {
        self.regs.sp = self.regs.hl();
        8
    }

    fn jp_hl(&mut self) -> (cycles: u32)
        ensures
            final(self)@ == old(self)@.with_pc(old(self)@.regs.hl()),
            cycles == 4,
    {
        self.regs.pc = self.regs.hl();
        4
    }

    fn add_sp_e(&mut self, bus: &Bus) -> (cycles: u32)
        requires
            bus@.wf(),
            old(self)@.operands_ok(bus@),
        ensures
            (final(self)@, bus@, cycles) == old(self)@.sp_offset(bus@, false),
    {
        let e8 = self.fetch8(bus);
        let sp = self.regs.sp;
        proof {
            lemma_sext(e8);
            lemma_add_sext(sp, e8);
            lemma_nibble16(sp);
            let w = (e8 as i8 as i16) as u16;
            assert(w & 0x0F == e8 % 16 && w & 0xFF == e8 as u16) by (bit_vector)
                requires
                    w == if e8 < 128 { e8 as u16 } else { (e8 as u16 + 0xFF00) as u16 },
            ;
        }
        let e = e8 as i8 as i16 as u16;  // sign-extend
        self.regs.sp = sp.wrapping_add(e);
        self.regs.set_flags(
            false,
            false,
            (sp & 0x0F) + (e & 0x0F) > 0x0F,
            (sp & 0xFF) + (e & 0xFF) > 0xFF,
        );
        16
    }

    fn ld_hl_spe(&mut self, bus: &Bus) -> (cycles: u32)
        requires
            bus@.wf(),
            old(self)@.operands_ok(bus@),
        ensures
            (final(self)@, bus@, cycles) == old(self)@.sp_offset(bus@, true),
    {
        let e8 = self.fetch8(bus);
        let sp = self.regs.sp;
        proof {
            lemma_sext(e8);
            lemma_add_sext(sp, e8);
            lemma_nibble16(sp);
            let w = (e8 as i8 as i16) as u16;
            assert(w & 0x0F == e8 % 16 && w & 0xFF == e8 as u16) by (bit_vector)
                requires
                    w == if e8 < 128 { e8 as u16 } else { (e8 as u16 + 0xFF00) as u16 },
            ;
        }
        let e = e8 as i8 as i16 as u16;
        self.regs.set_hl(sp.wrapping_add(e));
        self.regs.set_flags(
            false,
            false,
            (sp & 0x0F) + (e & 0x0F) > 0x0F,
            (sp & 0xFF) + (e & 0xFF) > 0xFF,
        );
        12
    }
}

proof fn lemma_pq(y: u8)
    requires
        y < 8,
    ensures
        y >> 1u8 == y / 2,
        y & 1 == y % 2,
{
    assert(y >> 1u8 == y / 2 && y & 1 == y % 2) by (bit_vector);
}

impl Cpu {
    /// Runs the already-fetched opcode `op`.
    #[verifier::spinoff_prover]
    #[verifier::rlimit(60)]
    fn execute(&mut self, bus: &mut Bus, op: u8) -> (cycles: u32)
        requires
            old(bus)@.wf(),
            old(self)@.operands_ok(old(bus)@),
            !CpuState::is_unsupported(op),
        ensures
            (final(self)@, final(bus)@, cycles) == old(self)@.execute(old(bus)@, op),
            final(bus)@.wf(),
            cycles <= 24,
    {
        proof {
            reveal(CpuState::execute);
            lemma_decode(op);
            lemma_pq((op / 8 % 8) as u8);
        }
        let x = op >> 6;
        let y = (op >> 3) & 7;
        let z = op & 7;
        let p = y >> 1;
        let q = y & 1;
        match (x, y, z) {
            (0, 0, 0) => 4,  // NOP
            (0, 1, 0) => self.ld_n16_sp(bus),
            (0, 2, 0) => 0,  // STOP, which `step` never reaches
            (0, 3, 0) => self.jr(bus),  // JR
            (0, _, 1) if q == 0 => self.ld_rp_n16(bus, p),  // LD RP N16
            (0, _, 1) => self.add_hl_rp(p),  // ADD HL RP
            (0, _, 2) => self.ld_r16_a(bus, p, q),  // LD (BC/DE/HL+/HL-),A and LD A,(BC/DE/HL+/HL-)
            (0, _, 3) if q == 0 => self.inc_rp(p),  // INC RP
            (0, _, 3) => self.dec_rp(p),  // DEC RP
            (0, _, 4) => self.inc_r8(bus, y),  // INC R8
            (0, _, 5) => self.dec_r8(bus, y),  // DEC R8
            (0, _, 6) => self.ld_r8_n8(bus, y),  // LD R8 N8
            (0, _, 0) => self.jrcc(bus, y),  // JR CC
            (0, 0, 7) => self.rlca(),
            (0, 1, 7) => self.rrca(),
            (0, 2, 7) => self.rla(),
            (0, 3, 7) => self.rra(),
            (0, 4, 7) => self.daa(),
            (0, 5, 7) => self.cpl(),
            (0, 6, 7) => self.scf(),
            (0, _, 7) => self.ccf(),
            (1, 6, 6) => self.halt(bus),  // HALT
            (1, _, _) => self.ld_r8_r8(bus, y, z),  // LD r8,r8
            (2, _, _) => {
                // ALU[y] A, r[z]
                let v = self.get_r8(R8::from_code(z), bus);
                self.alu(y, v);
                if z == 6 {
                    8
                } else {
                    4
                }
            },
            (_, 0, 3) => {
                let addr = self.fetch16(bus);
                self.regs.pc = addr;
                16
            },
            (_, 6, 3) => {
                self.ime = false;
                4
            },  // DI
            (_, _, 6) => {
                let value = self.fetch8(bus);
                self.alu(y, value);
                8
            },
            (_, 4, 0) | (_, 6, 0) => self.ldh_n_a(bus, y),
            (_, 5, 2) | (_, 7, 2) => self.ld_n16_a(bus, y),
            (_, _, 1) if q == 0 => self.pop_rp2(bus, p),
            (_, _, 1) if p == 0 => self.ret(bus),
            (_, _, 1) if p == 1 => {
                self.ime = true;
                self.ret(bus)
            },
            (_, _, 1) if p == 2 => self.jp_hl(),
            (_, _, 1) => self.ld_sp_hl(),
            (_, _, 5) if q == 0 => self.push_rp2(bus, p),
            (_, _, 5) if p == 0 => self.call_n16(bus),
            (_, 0..=3, 2) => self.jp_cc(bus, y),
            (_, 0..=3, 0) => self.ret_cc(bus, y),
            (_, 0..=3, 4) => self.call_cc(bus, y),
            (_, _, 7) => self.rst(bus, y),
            (_, 4, 2) | (_, 6, 2) => self.ld_a_c(bus, y),
            (_, 7, 3) => {
                self.ime = true;
                4
            },
            (_, 1, 3) => self.cb(bus),
            (_, 5, 0) => self.add_sp_e(bus),
            (_, 7, 0) => self.ld_hl_spe(bus),
            _ => 0,  // no instruction, which `step` never reaches
        }
    }

    /// Runs one instruction, or dispatches one interrupt, and returns the
    /// cycles it took.
    pub fn step(&mut self, bus: &mut Bus) -> (cycles: u32)
        requires
            old(bus)@.wf(),
            old(self)@.step_ok(old(bus)@),
            !old(self)@.step_stops(old(bus)@),
        ensures
            (final(self)@, final(bus)@, cycles) == old(self)@.step(old(bus)@),
            final(bus)@.wf(),
            cycles <= 24,
    {
        proof {
            reveal(CpuState::step);
        }
        let pending = bus.pending_interrupts();
        if pending != 0 {
            self.halted = false;
            if self.ime {
                self.ime = false;
                let bit: u8 = if pending & 1 != 0 {
                    0
                } else if pending & 2 != 0 {
                    1
                } else if pending & 4 != 0 {
                    2
                } else if pending & 8 != 0 {
                    3
                } else {
                    4
                };
                bus.clear_interrupt(bit);
                let pc = self.regs.pc;
                self.push16(bus, pc);
                self.regs.pc = (0x40 + bit * 8) as u16;
                return 20;
            }
        }
        if self.halted {
            return 4;
        }
        let op = self.fetch8(bus);
        self.execute(bus, op)
    }
}

// ---------------------------------------------------------------------------
// Tracing
// ---------------------------------------------------------------------------
/// A hexadecimal digit, upper case.
pub open spec fn hex_digit(d: u8) -> char {
    if d < 10 {
        (((48 + d) as u8) as u32) as char
    } else {
        (((55 + d) as u8) as u32) as char
    }
}

/// A byte as two upper-case hexadecimal digits.
pub open spec fn hex2(v: u8) -> Seq<char> {
    seq![hex_digit(v / 16), hex_digit(v % 16)]
}

/// A 16-bit value as four upper-case hexadecimal digits.
pub open spec fn hex4(v: u16) -> Seq<char> {
    seq![
        hex_digit((v / 4096) as u8),
        hex_digit(((v / 256) % 16) as u8),
        hex_digit(((v / 16) % 16) as u8),
        hex_digit((v % 16) as u8),
    ]
}

/// One line of gameboy-doctor's trace format for the instruction about to
/// run: the registers, then the four bytes from PC on.
pub open spec fn trace_text(c: CpuState, b: BusState) -> Seq<char> {
    let r = c.regs;
    "A:"@ + hex2(r.a) + " F:"@ + hex2(r.f) + " B:"@ + hex2(r.b) + " C:"@ + hex2(r.c) + " D:"@
        + hex2(r.d) + " E:"@ + hex2(r.e) + " H:"@ + hex2(r.h) + " L:"@ + hex2(r.l) + " SP:"@
        + hex4(r.sp) + " PC:"@ + hex4(r.pc) + " PCMEM:"@ + hex2(b.read(r.pc)) + ","@ + hex2(
        b.read(add16(r.pc, 1)),
    ) + ","@ + hex2(b.read(add16(r.pc, 2))) + ","@ + hex2(b.read(add16(r.pc, 3))) + "\n"@
}

fn hex_char(d: u8) -> (ch: char)
    requires
        d < 16,
    ensures
        ch == hex_digit(d),
{
    if d < 10 {
        (48u8 + d) as char
    } else {
        (55u8 + d) as char
    }
}

fn push_hex2(s: &mut String, v: u8)
    ensures
        final(s)@ == old(s)@ + hex2(v),
{
    s.push(hex_char(v / 16));
    s.push(hex_char(v % 16));
    assert(final(s)@ =~= old(s)@ + hex2(v));
}

fn push_hex4(s: &mut String, v: u16)
    ensures
        final(s)@ == old(s)@ + hex4(v),
{
    s.push(hex_char((v / 4096) as u8));
    s.push(hex_char(((v / 256) % 16) as u8));
    s.push(hex_char(((v / 16) % 16) as u8));
    s.push(hex_char((v % 16) as u8));
    assert(final(s)@ =~= old(s)@ + hex4(v));
}

impl Cpu {
    /// The trace line, in gameboy-doctor's format, for the instruction about
    /// to run, newline included.
    pub fn trace_line(&self, bus: &Bus) -> (s: String)
        requires
            bus@.wf(),
            bus@.readable(self@.regs.pc),
            bus@.readable(add16(self@.regs.pc, 1)),
            bus@.readable(add16(self@.regs.pc, 2)),
            bus@.readable(add16(self@.regs.pc, 3)),
        ensures
            s@ == trace_text(self@, bus@),
    {
        let r = self.regs;
        let pc = r.pc;
        proof {
            lemma_wrap16(pc, 1);
            lemma_wrap16(pc, 2);
            lemma_wrap16(pc, 3);
        }
        let mut s = String::new();
        push_str(&mut s, "A:");
        push_hex2(&mut s, r.a);
        push_str(&mut s, " F:");
        push_hex2(&mut s, r.f());
        push_str(&mut s, " B:");
        push_hex2(&mut s, r.b);
        push_str(&mut s, " C:");
        push_hex2(&mut s, r.c);
        push_str(&mut s, " D:");
        push_hex2(&mut s, r.d);
        push_str(&mut s, " E:");
        push_hex2(&mut s, r.e);
        push_str(&mut s, " H:");
        push_hex2(&mut s, r.h);
        push_str(&mut s, " L:");
        push_hex2(&mut s, r.l);
        push_str(&mut s, " SP:");
        push_hex4(&mut s, r.sp);
        push_str(&mut s, " PC:");
        push_hex4(&mut s, pc);
        push_str(&mut s, " PCMEM:");
        push_hex2(&mut s, bus.read(pc));
        push_str(&mut s, ",");
        push_hex2(&mut s, bus.read(pc.wrapping_add(1)));
        push_str(&mut s, ",");
        push_hex2(&mut s, bus.read(pc.wrapping_add(2)));
        push_str(&mut s, ",");
        push_hex2(&mut s, bus.read(pc.wrapping_add(3)));
        push_str(&mut s, "\n");
        s
    }
}

// ---------------------------------------------------------------------------
// Laws
// ---------------------------------------------------------------------------
/// The two bytes below SP are plain RAM, where a push can be read back.
pub open spec fn stack_in_ram(sp: u16) -> bool {
    is_storage(add16(sp, -1)) && is_storage(add16(sp, -2)) && add16(sp, -1) != 0xFFFF
        && add16(sp, -2) != 0xFFFF
}

/// A pop after a push gives back the value pushed and SP as it was, when the
/// stack is in RAM.
pub proof fn lemma_push_pop(c: CpuState, b: BusState, v: u16)
    requires
        b.wf(),
        stack_in_ram(c.regs.sp),
    ensures
        ({
            let (c1, b1) = c.push16(b, v);
            let (c2, w) = c1.pop16(b1);
            w == v && c2.regs.sp == c.regs.sp && b1.wf()
        }),
{
    let sp1 = add16(c.regs.sp, -1);
    let sp2 = add16(sp1, -1);
    assert(sp2 == add16(c.regs.sp, -2));
    assert(cell(sp1) != cell(sp2)) by {
        if 0xC000 <= sp1 <= 0xFDFF && 0xC000 <= sp2 <= 0xFDFF {
            assert(sp2 as int == sp1 - 1);
        }
    }
    let b1 = b.write(sp1, high_byte(v));
    lemma_storage_round_trip(b, sp1, sp2, high_byte(v));
    lemma_storage_round_trip(b1, sp2, sp1, low_byte(v));
    assert(add16(sp2, 1) == sp1);
    assert(add16(sp2, 2) == c.regs.sp);
    assert(pair(high_byte(v), low_byte(v)) == v);
}

/// The highest-priority pending interrupt is the lowest set bit: it is set,
/// and every bit below it is clear.
pub proof fn lemma_lowest_bit(pending: u8)
    requires
        pending != 0,
        pending < 32,
    ensures
        CpuState::lowest_bit(pending) < 5,
        pending & (1u8 << CpuState::lowest_bit(pending)) != 0,
        forall|j: u8| j < CpuState::lowest_bit(pending) ==> pending & (1u8 << j) == 0,
{
    let k = CpuState::lowest_bit(pending);
    assert(pending & (1u8 << k) != 0 && (forall|j: u8| j < k ==> pending & (1u8 << j) == 0))
        by (bit_vector)
        requires
            pending != 0,
            pending < 32,
            k == if pending & 1 != 0 {
                0u8
            } else if pending & 2 != 0 {
                1u8
            } else if pending & 4 != 0 {
                2u8
            } else if pending & 8 != 0 {
                3u8
            } else {
                4u8
            },
    ;
}

/// Interrupt dispatch: with IME set and a request pending, a step jumps to
/// the vector 0x40 + 8 * bit of the highest-priority request, acknowledges
/// just that request in IF, masks further interrupts, wakes from HALT, takes
/// 20 cycles, and pushes the return address, which a pop gives back.
pub proof fn lemma_dispatch(c: CpuState, b: BusState)
    requires
        b.wf(),
        c.ime,
        b.pending() != 0,
        stack_in_ram(c.regs.sp),
    ensures
        ({
            let (c1, b1, cycles) = c.step(b);
            let bit = CpuState::lowest_bit(b.pending());
            &&& c1.regs.pc == 0x40 + 8 * bit
            &&& !c1.ime
            &&& !c1.halted
            &&& cycles == 20
            &&& b1.iflag == b.iflag & !(1u8 << bit)
            &&& c1.regs.sp == add16(c.regs.sp, -2)
            &&& c1.pop16(b1).1 == c.regs.pc
            &&& c1.pop16(b1).0.regs.sp == c.regs.sp
        }),
{
    reveal(CpuState::step);
    let bit = CpuState::lowest_bit(b.pending());
    let c0 = CpuState { halted: false, ime: false, ..c };
    let b0 = BusState { iflag: b.iflag & !(1u8 << bit), ..b };
    lemma_push_pop(c0, b0, c.regs.pc);
}

/// HALT with IME clear and an interrupt already pending does not sleep, and
/// the fetch after it reads the same byte without moving PC.
pub proof fn lemma_halt_bug(c: CpuState, b: BusState)
    requires
        !c.ime,
        b.pending() != 0,
        !c.halt_bug,
        !c.halted,
    ensures
        ({
            let (c1, b1, cycles) = c.halt(b);
            let (c2, op) = c1.fetch8(b1);
            &&& !c1.halted
            &&& c2.regs.pc == c.regs.pc
            &&& op == b.read(c.regs.pc)
            &&& c2.fetch8(b1).0.regs.pc == add16(c.regs.pc, 1)
        }),
{
}

/// A halted processor with nothing pending idles: 4 cycles, nothing changes.
pub proof fn lemma_halted_idles(c: CpuState, b: BusState)
    requires
        c.halted,
        b.pending() == 0,
    ensures
        c.step(b) == (c, b, 4u32),
{
    reveal(CpuState::step);
}

/// CP is SUB that keeps the flags and throws the difference away.
pub proof fn lemma_cp_is_sub_without_result(r: RegFile, v: u8)
    ensures
        alu(r, 7, v) == (RegFile { a: r.a, ..alu(r, 2, v) }),
{
}

/// A byte holding two decimal digits.
pub open spec fn is_bcd(x: u8) -> bool {
    x % 16 <= 9 && x / 16 <= 9
}

/// The number two decimal digits stand for.
pub open spec fn bcd_value(x: u8) -> int {
    (x / 16) * 10 + x % 16
}

/// A number below 100 as two decimal digits.
pub open spec fn to_bcd(n: int) -> u8 {
    ((n / 10) * 16 + n % 10) as u8
}

proof fn lemma_flag_bits(z: bool, n: bool, h: bool, c: bool, low: u8)
    ensures
        (crate::registers::flag_byte(z, n, h, c, low) & 0x80 != 0) == z,
        (crate::registers::flag_byte(z, n, h, c, low) & 0x40 != 0) == n,
        (crate::registers::flag_byte(z, n, h, c, low) & 0x20 != 0) == h,
        (crate::registers::flag_byte(z, n, h, c, low) & 0x10 != 0) == c,
{
    assert(((((if z { 0x80u8 } else { 0u8 }) | (if n { 0x40u8 } else { 0u8 }) | (if h { 0x20u8 }
    else { 0u8 }) | (if c { 0x10u8 } else { 0u8 }) | (low & 0x0F)) as u8) & 0x80 != 0) == z && (
    ((((if z { 0x80u8 } else { 0u8 }) | (if n { 0x40u8 } else { 0u8 }) | (if h { 0x20u8 } else {
        0u8
    }) | (if c { 0x10u8 } else { 0u8 }) | (low & 0x0F)) as u8) & 0x40 != 0) == n) && (((((if z {
        0x80u8
    } else { 0u8 }) | (if n { 0x40u8 } else { 0u8 }) | (if h { 0x20u8 } else { 0u8 }) | (if c {
        0x10u8
    } else { 0u8 }) | (low & 0x0F)) as u8) & 0x20 != 0) == h) && (((((if z { 0x80u8 } else { 0u8 })
        | (if n { 0x40u8 } else { 0u8 }) | (if h { 0x20u8 } else { 0u8 }) | (if c { 0x10u8 } else {
        0u8
    }) | (low & 0x0F)) as u8) & 0x10 != 0) == c)) by (bit_vector);
}

/// DAA after adding two BCD bytes leaves their decimal sum, modulo 100, in A
/// as BCD, with C set exactly when the decimal sum reached 100, N and H clear,
/// and Z set exactly when A is zero.
pub proof fn lemma_daa_after_add(r: RegFile, v: u8)
    requires
        is_bcd(r.a),
        is_bcd(v),
    ensures
        ({
            let r2 = daa(alu(r, 0, v));
            &&& r2.a == to_bcd((bcd_value(r.a) + bcd_value(v)) % 100)
            &&& r2.flag_c() == (bcd_value(r.a) + bcd_value(v) >= 100)
            &&& !r2.flag_n()
            &&& !r2.flag_h()
            &&& r2.flag_z() == (r2.a == 0)
        }),
{
    let a = r.a;
    let sum = a + v;
    let r1 = alu(r, 0, v);
    lemma_flag_bits(sum % 256 == 0, false, a % 16 + v % 16 > 15, sum > 255, r.f);
    let a1 = (sum % 256) as u8;
    let h = a % 16 + v % 16 > 15;
    let c = sum > 255;
    let low: int = if h || a1 % 16 > 9 { 6 } else { 0 };
    let high: int = if c || a1 > 0x99 { 0x60 } else { 0 };
    let res = (a1 + low + high) % 256;
    let carry = c || a1 > 0x99;
    lemma_flag_bits(res == 0, false, false, carry, r1.f);
    let ah = a / 16;
    let al = a % 16;
    let vh = v / 16;
    let vl = v % 16;
    assert(res == to_bcd((bcd_value(a) + bcd_value(v)) % 100) && carry == (bcd_value(a)
        + bcd_value(v) >= 100)) by (nonlinear_arith)
        requires
            a == ah * 16 + al,
            v == vh * 16 + vl,
            0 <= al <= 9,
            0 <= vl <= 9,
            0 <= ah <= 9,
            0 <= vh <= 9,
            sum == a + v,
            a1 == sum % 256,
            h == (al + vl > 15),
            c == (sum > 255),
            low == if h || a1 % 16 > 9 { 6int } else { 0 },
            high == if c || a1 > 0x99 { 0x60int } else { 0 },
            res == (a1 + low + high) % 256,
            carry == (c || a1 > 0x99),
    ;
}

/// DAA after subtracting one BCD byte from another leaves their decimal
/// difference, modulo 100, in A as BCD, with C set exactly when the subtraction
/// borrowed and N still set.
pub proof fn lemma_daa_after_sub(r: RegFile, v: u8)
    requires
        is_bcd(r.a),
        is_bcd(v),
    ensures
        ({
            let r2 = daa(alu(r, 2, v));
            &&& r2.a == to_bcd((bcd_value(r.a) + 100 - bcd_value(v)) % 100)
            &&& r2.flag_c() == (bcd_value(r.a) < bcd_value(v))
            &&& r2.flag_n()
            &&& !r2.flag_h()
            &&& r2.flag_z() == (r2.a == 0)
        }),
{
    let a = r.a;
    let r1 = alu(r, 2, v);
    let a1 = sub_result(r, v, false);
    let h = a % 16 < v % 16;
    let c = a < v;
    lemma_flag_bits(a1 == 0, true, h, c, r.f);
    let low: int = if h { 6 } else { 0 };
    let high: int = if c { 0x60 } else { 0 };
    let res = (a1 - low - high) % 256;
    lemma_flag_bits(res == 0, true, false, c, r1.f);
    let ah = a / 16;
    let al = a % 16;
    let vh = v / 16;
    let vl = v % 16;
    assert(res == to_bcd((bcd_value(a) + 100 - bcd_value(v)) % 100) && c == (bcd_value(a)
        < bcd_value(v))) by (nonlinear_arith)
        requires
            a == ah * 16 + al,
            v == vh * 16 + vl,
            0 <= al <= 9,
            0 <= vl <= 9,
            0 <= ah <= 9,
            0 <= vh <= 9,
            a1 == (a - v) % 256,
            h == (al < vl),
            c == (a < v),
            low == if h { 6int } else { 0 },
            high == if c { 0x60int } else { 0 },
            res == (a1 - low - high) % 256,
    ;
}

/// A step with nothing pending and no HALT fetches the opcode at PC and
/// executes it.
proof fn lemma_step_fetches(c: CpuState, b: BusState)
    requires
        b.pending() == 0,
        !c.halted,
        !c.halt_bug,
    ensures
        c.step(b) == c.with_pc(add16(c.regs.pc, 1)).execute(b, b.read(c.regs.pc)),
{
    reveal(CpuState::step);
}

#[verifier::spinoff_prover]
proof fn lemma_execute_add_n8(c: CpuState, b: BusState)
    ensures
        c.execute(b, 0xC6) == c.alu_n8(b, 0),
{
    reveal(CpuState::execute);
}

#[verifier::spinoff_prover]
proof fn lemma_execute_sub_n8(c: CpuState, b: BusState)
    ensures
        c.execute(b, 0xD6) == c.alu_n8(b, 2),
{
    reveal(CpuState::execute);
}

#[verifier::spinoff_prover]
proof fn lemma_execute_daa(c: CpuState, b: BusState)
    ensures
        c.execute(b, 0x27) == (c.with_regs(daa(c.regs)), b, 4u32),
{
    reveal(CpuState::execute);
}

/// The machine running `op v` (ADD A,n or SUB n) and then DAA from PC, with
/// no interrupt in the way: the two steps take 8 and 4 cycles, leave memory
/// alone, move PC past the three bytes, and leave in A what DAA makes of the
/// ALU result.
proof fn lemma_alu_then_daa_steps(c: CpuState, b: BusState, op: u8, v: u8)
    requires
        op == 0xC6 || op == 0xD6,
        b.pending() == 0,
        !c.halted,
        !c.halt_bug,
        b.read(c.regs.pc) == op,
        b.read(add16(c.regs.pc, 1)) == v,
        b.read(add16(c.regs.pc, 2)) == 0x27,
    ensures
        ({
            let (c1, b1, k1) = c.step(b);
            let (c2, b2, k2) = c1.step(b1);
            let y: u8 = if op == 0xC6 { 0 } else { 2 };
            &&& k1 == 8 && k2 == 4
            &&& b1 == b && b2 == b
            &&& c2.regs == (RegFile {
                pc: add16(c.regs.pc, 3),
                ..daa(alu(RegFile { pc: add16(c.regs.pc, 2), ..c.regs }, y, v))
            })
        }),
{
    let y: u8 = if op == 0xC6 { 0 } else { 2 };
    lemma_step_fetches(c, b);
    let c0 = c.with_pc(add16(c.regs.pc, 1));
    if op == 0xC6 {
        lemma_execute_add_n8(c0, b);
    } else {
        lemma_execute_sub_n8(c0, b);
    }
    assert(add16(add16(c.regs.pc, 1), 1) == add16(c.regs.pc, 2));
    assert(add16(add16(c.regs.pc, 2), 1) == add16(c.regs.pc, 3));
    let (c1, b1, k1) = c.step(b);
    assert(b1 == b && k1 == 8);
    assert(c1.regs == alu(RegFile { pc: add16(c.regs.pc, 2), ..c.regs }, y, v));
    lemma_step_fetches(c1, b1);
    lemma_execute_daa(c1.with_pc(add16(c.regs.pc, 3)), b1);
}

/// DAA as the machine runs it: ADD A,n and then DAA, on BCD bytes, leave
/// their decimal sum modulo 100 in A as BCD, C set exactly when it reached
/// 100, N and H clear, Z set exactly when A is zero; 8 and 4 cycles.
pub proof fn lemma_add_then_daa(c: CpuState, b: BusState, v: u8)
    requires
        b.pending() == 0,
        !c.halted,
        !c.halt_bug,
        b.read(c.regs.pc) == 0xC6,
        b.read(add16(c.regs.pc, 1)) == v,
        b.read(add16(c.regs.pc, 2)) == 0x27,
        is_bcd(c.regs.a),
        is_bcd(v),
    ensures
        ({
            let (c1, b1, k1) = c.step(b);
            let (c2, b2, k2) = c1.step(b1);
            &&& k1 == 8 && k2 == 4
            &&& c2.regs.a == to_bcd((bcd_value(c.regs.a) + bcd_value(v)) % 100)
            &&& c2.regs.flag_c() == (bcd_value(c.regs.a) + bcd_value(v) >= 100)
            &&& !c2.regs.flag_n() && !c2.regs.flag_h()
            &&& c2.regs.flag_z() == (c2.regs.a == 0)
        }),
{
    lemma_alu_then_daa_steps(c, b, 0xC6, v);
    lemma_daa_after_add(RegFile { pc: add16(c.regs.pc, 2), ..c.regs }, v);
}

/// DAA as the machine runs it: SUB n and then DAA, on BCD bytes, leave their
/// decimal difference modulo 100 in A as BCD, C set exactly when it borrowed,
/// N set, H clear, Z set exactly when A is zero; 8 and 4 cycles.
pub proof fn lemma_sub_then_daa(c: CpuState, b: BusState, v: u8)
    requires
        b.pending() == 0,
        !c.halted,
        !c.halt_bug,
        b.read(c.regs.pc) == 0xD6,
        b.read(add16(c.regs.pc, 1)) == v,
        b.read(add16(c.regs.pc, 2)) == 0x27,
        is_bcd(c.regs.a),
        is_bcd(v),
    ensures
        ({
            let (c1, b1, k1) = c.step(b);
            let (c2, b2, k2) = c1.step(b1);
            &&& k1 == 8 && k2 == 4
            &&& c2.regs.a == to_bcd((bcd_value(c.regs.a) + 100 - bcd_value(v)) % 100)
            &&& c2.regs.flag_c() == (bcd_value(c.regs.a) < bcd_value(v))
            &&& c2.regs.flag_n() && !c2.regs.flag_h()
            &&& c2.regs.flag_z() == (c2.regs.a == 0)
        }),
{
    lemma_alu_then_daa_steps(c, b, 0xD6, v);
    lemma_daa_after_sub(RegFile { pc: add16(c.regs.pc, 2), ..c.regs }, v);
}

/// ADD and ADC leave the low byte of the sum (with the carry in, for ADC) in
/// A and its ninth bit in C; N clear, Z exactly when A is zero.
pub proof fn lemma_add_arithmetic(r: RegFile, v: u8)
    ensures
        ({
            let ci: int = if r.flag_c() { 1 } else { 0 };
            let add = alu(r, 0, v);
            let adc = alu(r, 1, v);
            &&& add.a + (if add.flag_c() { 256int } else { 0 }) == r.a + v
            &&& adc.a + (if adc.flag_c() { 256int } else { 0 }) == r.a + v + ci
            &&& add.flag_z() == (add.a == 0) && adc.flag_z() == (adc.a == 0)
            &&& !add.flag_n() && !adc.flag_n()
        }),
{
    let ci: int = if r.flag_c() { 1 } else { 0 };
    let a = r.a;
    lemma_flag_bits((a + v) % 256 == 0, false, a % 16 + v % 16 > 15, a + v > 255, r.f);
    lemma_flag_bits((a + v + ci) % 256 == 0, false, a % 16 + v % 16 + ci > 15, a + v + ci > 255, r.f);
}

/// SUB and SBC leave the difference (less the carry in, for SBC) in A,
/// borrowing 256 exactly when C ends up set; N set, Z exactly when A is zero.
/// CP sets the flags as SUB does and keeps A.
pub proof fn lemma_sub_arithmetic(r: RegFile, v: u8)
    ensures
        ({
            let ci: int = if r.flag_c() { 1 } else { 0 };
            let sub = alu(r, 2, v);
            let sbc = alu(r, 3, v);
            let cp = alu(r, 7, v);
            &&& sub.a == r.a - v + (if sub.flag_c() { 256int } else { 0 })
            &&& sbc.a == r.a - v - ci + (if sbc.flag_c() { 256int } else { 0 })
            &&& sub.flag_z() == (sub.a == 0) && sbc.flag_z() == (sbc.a == 0)
            &&& sub.flag_n() && sbc.flag_n()
            &&& cp.a == r.a && cp.flag_n() && cp.flag_c() == (r.a < v) && cp.flag_z() == (r.a == v)
        }),
{
    let ci: int = if r.flag_c() { 1 } else { 0 };
    let a = r.a;
    lemma_flag_bits(sub_result(r, v, false) == 0, true, a % 16 < v % 16, a < v, r.f);
    lemma_flag_bits(sub_result(r, v, r.flag_c()) == 0, true, a % 16 < v % 16 + ci, a < v + ci, r.f);
    assert(sub_result(r, v, false) == 0 <==> a == v);
}

/// AND and XOR are the bitwise operations on A: Z exactly when the result is
/// zero, C clear, H set by AND only.
pub proof fn lemma_logic_ops(r: RegFile, v: u8)
    ensures
        alu(r, 4, v).a == r.a & v,
        alu(r, 4, v).flag_z() == (r.a & v == 0) && alu(r, 4, v).flag_h() && !alu(r, 4, v).flag_c(),
        alu(r, 5, v).a == r.a ^ v,
        alu(r, 5, v).flag_z() == (r.a ^ v == 0) && !alu(r, 5, v).flag_h() && !alu(r, 5, v).flag_c(),
{
    lemma_flag_bits(r.a & v == 0, false, true, false, r.f);
    lemma_flag_bits(r.a ^ v == 0, false, false, false, r.f);
}

/// INC and DEC on a register: INC leaves the register one more, modulo 256,
/// with Z exactly when it wrapped to zero, N clear and C kept; DEC leaves it
/// one less with N set and C kept; and DEC after INC gives the register back.
pub proof fn lemma_inc_dec(c: CpuState, b: BusState, y: u8)
    requires
        y < 8,
        y != 6,
    ensures
        ({
            let v = c.get_r8(b, r8_of(y));
            let (c1, b1, k1) = c.inc_r8(b, y);
            let (c2, b2, k2) = c1.dec_r8(b1, y);
            let w = c1.get_r8(b1, r8_of(y));
            &&& w as int == (v + 1) % 256
            &&& c1.regs.flag_z() == (w == 0) && !c1.regs.flag_n()
            &&& c1.regs.flag_c() == c.regs.flag_c()
            &&& c2.get_r8(b2, r8_of(y)) == v
            &&& c2.regs.flag_n() && c2.regs.flag_z() == (v == 0)
            &&& c2.regs.flag_c() == c.regs.flag_c()
            &&& b1 == b && b2 == b && k1 == 4 && k2 == 4
        }),
{
    let v = c.get_r8(b, r8_of(y));
    let res = ((v + 1) % 256) as u8;
    let (c1, b1, k1) = c.inc_r8(b, y);
    let (cs, bs) = c.set_r8(b, r8_of(y), res);
    lemma_flag_bits(res == 0, false, v % 16 == 15, cs.regs.flag_c(), cs.regs.f);
    assert(c1.get_r8(b1, r8_of(y)) == res);
    let res2 = ((res - 1) % 256) as u8;
    assert(res2 == v);
    let (cs2, bs2) = c1.set_r8(b1, r8_of(y), res2);
    lemma_flag_bits(res2 == 0, true, res % 16 == 0, cs2.regs.flag_c(), cs2.regs.f);
}

#[verifier::spinoff_prover]
proof fn lemma_execute_jr(c: CpuState, b: BusState)
    ensures
        c.execute(b, 0x18) == c.jr(b),
{
    reveal(CpuState::execute);
}

/// JR e (0x18) as the machine runs it, with nothing pending: PC lands `e`
/// bytes, read as a signed offset from -128 to 127, past the end of the
/// two-byte instruction, wrapping at 16 bits; nothing else changes; 12
/// cycles.
pub proof fn lemma_jr_step(c: CpuState, b: BusState)
    requires
        b.pending() == 0,
        !c.halted,
        !c.halt_bug,
        b.read(c.regs.pc) == 0x18,
    ensures
        ({
            let e = b.read(add16(c.regs.pc, 1));
            let (c1, b1, k) = c.step(b);
            let off: int = if e < 128 { e as int } else { e as int - 256 };
            &&& c1.regs.pc as int == (c.regs.pc + 2 + off) % 65536
            &&& -128 <= off <= 127
            &&& c1.regs == RegFile { pc: c1.regs.pc, ..c.regs }
            &&& b1 == b && k == 12
        }),
{
    lemma_step_fetches(c, b);
    let c0 = c.with_pc(add16(c.regs.pc, 1));
    lemma_execute_jr(c0, b);
    let e = b.read(add16(c.regs.pc, 1));
    let p2 = add16(add16(c.regs.pc, 1), 1);
    assert(p2 == add16(c.regs.pc, 2));
    vstd::arithmetic::div_mod::lemma_add_mod_noop(c.regs.pc + 2, sext(e), 65536);
    vstd::arithmetic::div_mod::lemma_mod_twice(c.regs.pc + 2, 65536);
    vstd::arithmetic::div_mod::lemma_add_mod_noop(c.regs.pc + 2, 0, 65536);
}

/// OR sets in A every bit that is set in A or in the operand, and no other:
/// Z exactly when the result is zero, N, H and C clear.
pub proof fn lemma_or_is_bitwise_or(r: RegFile, v: u8)
    ensures
        alu(r, 6, v).a == r.a | v,
        forall|k: u8|
            k < 8 ==> (#[trigger] ((alu(r, 6, v).a >> k) & 1) == 1) == ((r.a >> k) & 1 == 1 || (v
                >> k) & 1 == 1),
        alu(r, 6, v).flag_z() == (r.a | v == 0),
        !alu(r, 6, v).flag_n() && !alu(r, 6, v).flag_h() && !alu(r, 6, v).flag_c(),
{
    let a = r.a;
    lemma_flag_bits(a | v == 0, false, false, false, r.f);
    assert forall|k: u8| k < 8 implies (#[trigger] (((a | v) >> k) & 1) == 1) == ((a >> k) & 1 == 1
        || (v >> k) & 1 == 1) by {
        assert(k < 8 ==> (((a | v) >> k) & 1 == 1) == ((a >> k) & 1 == 1 || (v >> k) & 1 == 1))
            by (bit_vector);
    }
}

#[verifier::spinoff_prover]
proof fn lemma_execute_or_n8(c: CpuState, b: BusState)
    ensures
        c.execute(b, 0xF6) == c.alu_n8(b, 6),
{
    reveal(CpuState::execute);
}

#[verifier::spinoff_prover]
#[verifier::rlimit(50)]
proof fn lemma_execute_or_r8(c: CpuState, b: BusState, z: u8)
    requires
        z < 8,
    ensures
        c.execute(b, (0xB0 + z) as u8) == c.alu_r8(b, 6, z),
{
    reveal(CpuState::execute);
    let op = (0xB0 + z) as u8;
    assert(op / 64 == 2 && (op / 8) % 8 == 6 && op % 8 == z);
}

/// OR n (0xF6) as the machine runs it, with nothing pending: A becomes the
/// bitwise OR of A and the byte after the opcode, PC moves past both, memory
/// is untouched, 8 cycles.
pub proof fn lemma_or_n8_step(c: CpuState, b: BusState)
    requires
        b.pending() == 0,
        !c.halted,
        !c.halt_bug,
        b.read(c.regs.pc) == 0xF6,
    ensures
        ({
            let (c1, b1, k) = c.step(b);
            &&& c1.regs.a == c.regs.a | b.read(add16(c.regs.pc, 1))
            &&& c1.regs.flag_z() == (c1.regs.a == 0)
            &&& !c1.regs.flag_n() && !c1.regs.flag_h() && !c1.regs.flag_c()
            &&& c1.regs.pc == add16(c.regs.pc, 2)
            &&& b1 == b && k == 8
        }),
{
    lemma_step_fetches(c, b);
    let c0 = c.with_pc(add16(c.regs.pc, 1));
    lemma_execute_or_n8(c0, b);
    assert(add16(add16(c.regs.pc, 1), 1) == add16(c.regs.pc, 2));
    let v = b.read(add16(c.regs.pc, 1));
    lemma_or_is_bitwise_or(RegFile { pc: add16(c.regs.pc, 2), ..c.regs }, v);
}

/// OR r (0xB0-0xB7) as the machine runs it, with nothing pending: A becomes
/// the bitwise OR of A and register `z` (or the byte at HL), PC moves past the
/// opcode, memory is untouched; 8 cycles for (HL), else 4.
pub proof fn lemma_or_r8_step(c: CpuState, b: BusState, z: u8)
    requires
        z < 8,
        b.pending() == 0,
        !c.halted,
        !c.halt_bug,
        b.read(c.regs.pc) == 0xB0 + z,
    ensures
        ({
            let (c1, b1, k) = c.step(b);
            let v = c.get_r8(b, r8_of(z));
            &&& c1.regs.a == c.regs.a | v
            &&& c1.regs.flag_z() == (c1.regs.a == 0)
            &&& !c1.regs.flag_n() && !c1.regs.flag_h() && !c1.regs.flag_c()
            &&& c1.regs.pc == add16(c.regs.pc, 1)
            &&& b1 == b && k == (if z == 6 { 8u32 } else { 4u32 })
        }),
{
    lemma_step_fetches(c, b);
    let c0 = c.with_pc(add16(c.regs.pc, 1));
    lemma_execute_or_r8(c0, b, z);
    let v = c.get_r8(b, r8_of(z));
    assert(c0.get_r8(b, r8_of(z)) == v);
    lemma_or_is_bitwise_or(c0.regs, v);
}

broadcast proof fn lemma_flag_byte_low(z: bool, n: bool, h: bool, c: bool, low: u8)
    ensures
        #[trigger] crate::registers::flag_byte(z, n, h, c, low) & 0x0F == low & 0x0F,
{
    assert(((((if z { 0x80u8 } else { 0u8 }) | (if n { 0x40u8 } else { 0u8 }) | (if h { 0x20u8 }
    else { 0u8 }) | (if c { 0x10u8 } else { 0u8 }) | (low & 0x0F)) as u8) & 0x0F) == low & 0x0F)
        by (bit_vector);
}

broadcast proof fn lemma_af_low(v: u16)
    ensures
        #[trigger] (low_byte(v) & 0xF0) & 0x0F == 0,
{
    let x = low_byte(v);
    assert((x & 0xF0) & 0x0F == 0) by (bit_vector);
}

proof fn lemma_cb_keeps_low_nibble(c: CpuState, b: BusState)
    requires
        c.regs.low_nibble_clear(),
    ensures
        c.cb(b).0.regs.low_nibble_clear(),
{
    broadcast use lemma_flag_byte_low, lemma_af_low;

}

#[verifier::rlimit(50)]
proof fn lemma_low_opcodes_keep_low_nibble(c: CpuState, b: BusState, op: u8)
    requires
        c.regs.low_nibble_clear(),
        op < 64,
    ensures
        c.execute(b, op).0.regs.low_nibble_clear(),
{
    broadcast use lemma_flag_byte_low, lemma_af_low;

    reveal(CpuState::execute);
}

#[verifier::rlimit(50)]
proof fn lemma_middle_opcodes_keep_low_nibble(c: CpuState, b: BusState, op: u8)
    requires
        c.regs.low_nibble_clear(),
        64 <= op < 192,
    ensures
        c.execute(b, op).0.regs.low_nibble_clear(),
{
    broadcast use lemma_flag_byte_low, lemma_af_low;

    reveal(CpuState::execute);
}

#[verifier::rlimit(50)]
proof fn lemma_high_opcodes_keep_low_nibble(c: CpuState, b: BusState, op: u8)
    requires
        c.regs.low_nibble_clear(),
        op >= 192,
    ensures
        c.execute(b, op).0.regs.low_nibble_clear(),
{
    broadcast use lemma_flag_byte_low, lemma_af_low;

    reveal(CpuState::execute);
    lemma_cb_keeps_low_nibble(c, b);
}

/// No instruction and no interrupt dispatch ever stores anything in the low
/// nibble of F: a processor whose F has it clear keeps it clear.
pub proof fn lemma_step_keeps_low_nibble(c: CpuState, b: BusState)
    requires
        c.regs.low_nibble_clear(),
    ensures
        c.step(b).0.regs.low_nibble_clear(),
{
    reveal(CpuState::step);
    let pending = b.pending();
    if !(pending != 0 && c.ime) {
        let c0 = if pending != 0 { CpuState { halted: false, ..c } } else { c };
        if !c0.halted {
            let (c1, op) = c0.fetch8(b);
            if op < 64 {
                lemma_low_opcodes_keep_low_nibble(c1, b, op);
            } else if op < 192 {
                lemma_middle_opcodes_keep_low_nibble(c1, b, op);
            } else {
                lemma_high_opcodes_keep_low_nibble(c1, b, op);
            }
        }
    }
}

} // verus!
