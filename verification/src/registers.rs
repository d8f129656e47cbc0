//! The SM83 register file: eight 8-bit registers, the 16-bit pairs built from
//! them, the flag bits of F, and the two 16-bit pointers PC and SP.
use vstd::prelude::*;

verus! {

const FLAG_Z: u8 = 0x80;

const FLAG_N: u8 = 0x40;

const FLAG_H: u8 = 0x20;

const FLAG_C: u8 = 0x10;

/// The 16-bit value whose high byte is `hi` and low byte is `lo`.
pub open spec fn pair(hi: u8, lo: u8) -> u16 {
    (hi as int * 256 + lo as int) as u16
}

/// The high byte of a 16-bit value.
pub open spec fn high_byte(v: u16) -> u8 {
    (v / 256) as u8
}

/// The low byte of a 16-bit value.
pub open spec fn low_byte(v: u16) -> u8 {
    (v % 256) as u8
}

/// The flag byte holding Z, N, H and C in bits 7 to 4, over the given low
/// nibble.
pub open spec fn flag_byte(z: bool, n: bool, h: bool, c: bool, low: u8) -> u8 {
    ((if z { 0x80u8 } else { 0u8 }) | (if n { 0x40u8 } else { 0u8 }) | (if h { 0x20u8 } else {
        0u8
    }) | (if c { 0x10u8 } else { 0u8 }) | (low & 0x0F)) as u8
}

/// The mathematical register file: every register as a plain value.
pub ghost struct RegFile {
    pub a: u8,
    pub f: u8,
    pub b: u8,
    pub c: u8,
    pub d: u8,
    pub e: u8,
    pub h: u8,
    pub l: u8,
    pub pc: u16,
    pub sp: u16,
}

impl RegFile {
    pub open spec fn af(self) -> u16 {
        pair(self.a, self.f)
    }

    pub open spec fn bc(self) -> u16 {
        pair(self.b, self.c)
    }

    pub open spec fn de(self) -> u16 {
        pair(self.d, self.e)
    }

    pub open spec fn hl(self) -> u16 {
        pair(self.h, self.l)
    }

    pub open spec fn with_af(self, v: u16) -> RegFile {
        RegFile { a: high_byte(v), f: low_byte(v) & 0xF0, ..self }
    }

    pub open spec fn with_bc(self, v: u16) -> RegFile {
        RegFile { b: high_byte(v), c: low_byte(v), ..self }
    }

    pub open spec fn with_de(self, v: u16) -> RegFile {
        RegFile { d: high_byte(v), e: low_byte(v), ..self }
    }

    pub open spec fn with_hl(self, v: u16) -> RegFile {
        RegFile { h: high_byte(v), l: low_byte(v), ..self }
    }

    pub open spec fn flag_z(self) -> bool {
        self.f & 0x80 != 0
    }

    pub open spec fn flag_n(self) -> bool {
        self.f & 0x40 != 0
    }

    pub open spec fn flag_h(self) -> bool {
        self.f & 0x20 != 0
    }

    pub open spec fn flag_c(self) -> bool {
        self.f & 0x10 != 0
    }

    /// All four flags replaced; the low nibble of F is kept as it is.
    pub open spec fn with_flags(self, z: bool, n: bool, h: bool, c: bool) -> RegFile {
        RegFile { f: flag_byte(z, n, h, c, self.f), ..self }
    }

    /// One flag bit (`mask` is one of 0x80, 0x40, 0x20, 0x10) set or cleared.
    pub open spec fn with_flag(self, mask: u8, on: bool) -> RegFile {
        RegFile { f: if on { self.f | mask } else { self.f & !mask }, ..self }
    }

    /// F has no storage behind bits 3-0.
    pub open spec fn low_nibble_clear(self) -> bool {
        self.f & 0x0F == 0
    }
}

#[derive(Debug, Clone, Copy)]
pub struct Registers {
    pub a: u8,
    pub b: u8,
    pub c: u8,
    pub d: u8,
    pub e: u8,
    pub(crate) f: u8,
    pub h: u8,
    pub l: u8,
    pub pc: u16,
    pub sp: u16,
}

pub(crate) proof fn lemma_pair_bits(hi: u8, lo: u8)
    ensures
        (lo as u16 | ((hi as u16) << 8)) == pair(hi, lo),
{
    assert((lo as u16 | ((hi as u16) << 8)) == hi as u16 * 256 + lo as u16) by (bit_vector);
}

pub(crate) proof fn lemma_split_bits(v: u16)
    ensures
        (v >> 8) as u8 == high_byte(v),
        v as u8 == low_byte(v),
        (v & 0xFF) as u8 == low_byte(v),
{
    assert((v >> 8) as u8 == v / 256 && v as u8 == v % 256 && (v & 0xFF) as u8 == v % 256) by (bit_vector);
}

/// The view is the registers themselves, F included.
pub(crate) broadcast proof fn lemma_registers_view(r: Registers)
    ensures
        #[trigger] r@ == (RegFile {
            a: r.a,
            f: r.f,
            b: r.b,
            c: r.c,
            d: r.d,
            e: r.e,
            h: r.h,
            l: r.l,
            pc: r.pc,
            sp: r.sp,
        }),
{
}

impl Registers {
    pub closed spec fn view(&self) -> RegFile {
        RegFile {
            a: self.a,
            f: self.f,
            b: self.b,
            c: self.c,
            d: self.d,
            e: self.e,
            h: self.h,
            l: self.l,
            pc: self.pc,
            sp: self.sp,
        }
    }

    /// The state the DMG boot ROM leaves behind when it jumps to 0x0100.
    pub fn post_boot() -> (r: Registers)
        ensures
            r@ == (RegFile {
                a: 0x01,
                f: 0xB0,
                b: 0x00,
                c: 0x13,
                d: 0x00,
                e: 0xD8,
                h: 0x01,
                l: 0x4D,
                pc: 0x0100,
                sp: 0xFFFE,
            }),
            r@.low_nibble_clear(),
    {
        assert(0xB0u8 & 0x0F == 0) by (bit_vector);
        Registers {
            a: 0x01,
            f: 0xB0,
            b: 0x00,
            c: 0x13,
            d: 0x00,
            e: 0xD8,
            h: 0x01,
            l: 0x4D,
            sp: 0xFFFE,
            pc: 0x0100,
        }
    }

    pub fn bc(&self) -> (r: u16)
        ensures
            r == self@.bc(),
    {
        proof {
            lemma_pair_bits(self.b, self.c);
        }
        self.c as u16 | ((self.b as u16) << 8)
    }

    pub fn set_bc(&mut self, value: u16)
        ensures
            final(self)@ == old(self)@.with_bc(value),
    {
        proof {
            lemma_split_bits(value);
        }
        self.b = (value >> 8) as u8;
        self.c = value as u8
    }

    pub fn de(&self) -> (r: u16)
        ensures
            r == self@.de(),
    {
        proof {
            lemma_pair_bits(self.d, self.e);
        }
        self.e as u16 | ((self.d as u16) << 8)
    }

    pub fn set_de(&mut self, value: u16)
        ensures
            final(self)@ == old(self)@.with_de(value),
    {
        proof {
            lemma_split_bits(value);
        }
        self.d = (value >> 8) as u8;
        self.e = value as u8
    }

    pub fn af(&self) -> (r: u16)
        ensures
            r == self@.af(),
    {
        proof {
            lemma_pair_bits(self.a, self.f);
        }
        self.f as u16 | ((self.a as u16) << 8)
    }

    /// F keeps only the bits that exist, so the low nibble of `value` is lost.
    pub fn set_af(&mut self, value: u16)
        ensures
            final(self)@ == old(self)@.with_af(value),
            final(self)@.low_nibble_clear(),
    {
        proof {
            lemma_split_bits(value);
            let lo = value as u8;
            assert((lo & 0xF0) & 0x0F == 0) by (bit_vector);
        }
        self.a = (value >> 8) as u8;
        self.f = (value as u8) & 0xF0;
    }

    pub fn hl(&self) -> (r: u16)
        ensures
            r == self@.hl(),
    {
        proof {
            lemma_pair_bits(self.h, self.l);
        }
        self.l as u16 | ((self.h as u16) << 8)
    }

    pub fn set_hl(&mut self, value: u16)
        ensures
            final(self)@ == old(self)@.with_hl(value),
    {
        proof {
            lemma_split_bits(value);
        }
        self.h = (value >> 8) as u8;
        self.l = value as u8
    }

    pub fn f(&self) -> (r: u8)
        ensures
            r == self@.f,
    {
        self.f
    }

    pub fn set_flags(&mut self, z: bool, n: bool, h: bool, c: bool)
        ensures
            final(self)@ == old(self)@.with_flags(z, n, h, c),
            final(self)@.flag_z() == z,
            final(self)@.flag_n() == n,
            final(self)@.flag_h() == h,
            final(self)@.flag_c() == c,
            final(self)@.f & 0x0F == old(self)@.f & 0x0F,
    {
        let ghost f0 = self.f;
        self.set_flag_z(z);
        self.set_flag_n(n);
        self.set_flag_h(h);
        self.set_flag_c(c);
        let ghost f = self.f;
        assert(f == flag_byte(z, n, h, c, f0) && (f & 0x80 != 0) == z && (f & 0x40 != 0) == n && (
        f & 0x20 != 0) == h && (f & 0x10 != 0) == c && f & 0x0F == f0 & 0x0F) by (bit_vector)
            requires
                ({
                    let f1 = if z { f0 | 0x80 } else { f0 & !0x80u8 };
                    let f2 = if n { f1 | 0x40 } else { f1 & !0x40u8 };
                    let f3 = if h { f2 | 0x20 } else { f2 & !0x20u8 };
                    f == if c { f3 | 0x10 } else { f3 & !0x10u8 }
                }),
        ;
    }

    pub fn flag_z(&self) -> (r: bool)
        ensures
            r == self@.flag_z(),
    {
        self.f & FLAG_Z != 0
    }

    pub fn flag_n(&self) -> (r: bool)
        ensures
            r == self@.flag_n(),
    {
        self.f & FLAG_N != 0
    }

    pub fn flag_h(&self) -> (r: bool)
        ensures
            r == self@.flag_h(),
    {
        self.f & FLAG_H != 0
    }

    pub fn flag_c(&self) -> (r: bool)
        ensures
            r == self@.flag_c(),
    {
        self.f & FLAG_C != 0
    }

    pub fn set_flag_z(&mut self, on: bool)
        ensures
            final(self)@ == old(self)@.with_flag(0x80, on),
            final(self)@.flag_z() == on,
            final(self)@.flag_n() == old(self)@.flag_n(),
            final(self)@.flag_h() == old(self)@.flag_h(),
            final(self)@.flag_c() == old(self)@.flag_c(),
            final(self)@.f & 0x0F == old(self)@.f & 0x0F,
    {
        self.set_flag(FLAG_Z, on)
    }

    pub fn set_flag_n(&mut self, on: bool)
        ensures
            final(self)@ == old(self)@.with_flag(0x40, on),
            final(self)@.flag_z() == old(self)@.flag_z(),
            final(self)@.flag_n() == on,
            final(self)@.flag_h() == old(self)@.flag_h(),
            final(self)@.flag_c() == old(self)@.flag_c(),
            final(self)@.f & 0x0F == old(self)@.f & 0x0F,
    {
        self.set_flag(FLAG_N, on)
    }

    pub fn set_flag_h(&mut self, on: bool)
        ensures
            final(self)@ == old(self)@.with_flag(0x20, on),
            final(self)@.flag_z() == old(self)@.flag_z(),
            final(self)@.flag_n() == old(self)@.flag_n(),
            final(self)@.flag_h() == on,
            final(self)@.flag_c() == old(self)@.flag_c(),
            final(self)@.f & 0x0F == old(self)@.f & 0x0F,
    {
        self.set_flag(FLAG_H, on)
    }

    pub fn set_flag_c(&mut self, on: bool)
        ensures
            final(self)@ == old(self)@.with_flag(0x10, on),
            final(self)@.flag_z() == old(self)@.flag_z(),
            final(self)@.flag_n() == old(self)@.flag_n(),
            final(self)@.flag_h() == old(self)@.flag_h(),
            final(self)@.flag_c() == on,
            final(self)@.f & 0x0F == old(self)@.f & 0x0F,
    {
        self.set_flag(FLAG_C, on)
    }

    /// Sets or clears one flag bit, leaving the other three alone. Private, so
    /// the only bits anything can touch are the four that physically exist.
    fn set_flag(&mut self, mask: u8, on: bool)
        requires
            mask == 0x80 || mask == 0x40 || mask == 0x20 || mask == 0x10,
        ensures
            final(self)@ == old(self)@.with_flag(mask, on),
            (final(self)@.f & mask != 0) == on,
            forall|m: u8|
                (m == 0x80 || m == 0x40 || m == 0x20 || m == 0x10) && m != mask
                    ==> (final(self)@.f & m != 0) == (old(self)@.f & m != 0),
            final(self)@.f & 0x0F == old(self)@.f & 0x0F,
    {
        let ghost f0 = self.f;
        if on {
            self.f |= mask;
        } else {
            self.f &= !mask;
        }
        let ghost f = self.f;
        assert((f & mask != 0) == on && f & 0x0F == f0 & 0x0F && (forall|m: u8|
            (m == 0x80 || m == 0x40 || m == 0x20 || m == 0x10) && m != mask ==> (f & m != 0) == (f0
                & m != 0))) by (bit_vector)
            requires
                mask == 0x80 || mask == 0x40 || mask == 0x20 || mask == 0x10,
                f == if on { f0 | mask } else { f0 & !mask },
        ;
    }
}

/// Writing a register pair and reading it back gives the value written; AF
/// gives it back without the four bits F does not have.
pub proof fn lemma_pairs_round_trip(r: RegFile, v: u16)
    ensures
        r.with_bc(v).bc() == v,
        r.with_de(v).de() == v,
        r.with_hl(v).hl() == v,
        r.with_af(v).af() == v & 0xFFF0,
{
    let hi = high_byte(v);
    let lo = low_byte(v);
    assert(hi as int * 256 + lo as int == v);
    assert(((v % 256) as u8 & 0xF0) as int + (v / 256) as int * 256 == (v & 0xFFF0) as int)
        by (bit_vector);
}

/// Writing one register pair leaves the other three pairs as they were.
pub proof fn lemma_pairs_independent(r: RegFile, v: u16)
    ensures
        r.with_bc(v).de() == r.de() && r.with_bc(v).hl() == r.hl() && r.with_bc(v).af() == r.af(),
        r.with_de(v).bc() == r.bc() && r.with_de(v).hl() == r.hl() && r.with_de(v).af() == r.af(),
        r.with_hl(v).bc() == r.bc() && r.with_hl(v).de() == r.de() && r.with_hl(v).af() == r.af(),
        r.with_af(v).bc() == r.bc() && r.with_af(v).de() == r.de() && r.with_af(v).hl() == r.hl(),
{
}

/// Setting the flags never stores anything in the low nibble of F: from a
/// register file whose low nibble is clear, every flag write keeps it clear.
pub proof fn lemma_flag_writes_keep_low_nibble(r: RegFile, mask: u8, on: bool, z: bool, n: bool, h: bool, c: bool)
    requires
        r.low_nibble_clear(),
        mask == 0x80 || mask == 0x40 || mask == 0x20 || mask == 0x10,
    ensures
        r.with_flag(mask, on).low_nibble_clear(),
        r.with_flags(z, n, h, c).low_nibble_clear(),
{
    let f = r.f;
    assert((if on { f | mask } else { f & !mask }) & 0x0F == 0) by (bit_vector)
        requires
            f & 0x0F == 0,
            mask == 0x80 || mask == 0x40 || mask == 0x20 || mask == 0x10,
    ;
    assert(flag_byte(z, n, h, c, f) & 0x0F == 0) by (bit_vector)
        requires
            f & 0x0F == 0,
    ;
}

} // verus!
