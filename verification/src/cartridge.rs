//! Cartridge loading, header parsing, and memory bank controllers.
//!
//! The cartridge answers two windows of the CPU address space:
//!   0x0000-0x7FFF  ROM  (bank 0 + a switchable bank)
//!   0xA000-0xBFFF  RAM  (battery-backed on most carts)
//!
//! Writes into the ROM window are not memory writes: they are commands to the
//! bank controller chip on the cartridge board.
use vstd::prelude::*;
use vstd::utf8::{valid_utf8, decode_utf8};
use vstd::string::StringSliceAdditionalSpecFns;
use vstd::arithmetic::power2::{pow2, lemma2_to64};

verus! {

// Header field offsets, all within the first 0x150 bytes of every cartridge.
pub const TITLE_START: usize = 0x0134;

pub const TITLE_END_OLD: usize = 0x0143;  // inclusive; on CGB carts this byte is the CGB flag

pub const CGB_FLAG: usize = 0x0143;

pub const CART_TYPE: usize = 0x0147;

pub const ROM_SIZE_CODE: usize = 0x0148;

pub const RAM_SIZE_CODE: usize = 0x0149;

pub const HEADER_CHECKSUM: usize = 0x014D;

pub const ROM_BANK_SIZE: usize = 0x4000;  // 16 KiB

pub const RAM_BANK_SIZE: usize = 0x2000;  // 8 KiB

pub const HEADER_END: usize = 0x0150;

// ---------------------------------------------------------------------------
// Errors
// ---------------------------------------------------------------------------
#[derive(Debug, Clone, Copy, PartialEq, Eq, Structural)]
pub enum CartError {
    TooShort(usize),
    BadChecksum { expected: u8, found: u8 },
    UnknownCartType(u8),
    UnknownRomSize(u8),
    UnknownRamSize(u8),
}

// ---------------------------------------------------------------------------
// Header: immutable facts, decoded once at load
// ---------------------------------------------------------------------------
/// Which bank controller chip is on the board.
#[derive(Debug, Clone, Copy, PartialEq, Eq, Structural)]
pub enum MbcKind {
    RomOnly,
    Mbc1,
    Mbc3,
    Mbc5,
}

#[derive(Debug, Clone)]
pub struct Header {
    pub title: String,
    pub mbc: MbcKind,
    pub rom_banks: usize,
    pub ram_banks: usize,
    /// The cartridge type byte claims RAM exists. Carts occasionally disagree
    /// with the RAM size byte; `ram_banks` is what we actually allocate.
    pub has_ram: bool,
    pub has_battery: bool,
    pub has_rtc: bool,
    pub cgb: bool,
}

/// What a lossy UTF-8 decoding of `bytes` gives: the decoded characters, with
/// each invalid sequence replaced by U+FFFD.
pub uninterp spec fn utf8_lossy(bytes: Seq<u8>) -> Seq<char>;

/// `String::from_utf8_lossy`, made owned. The documentation of the standard
/// library says that valid UTF-8 comes back as exactly the text it encodes;
/// for other input the result is only named.
#[verifier::external_body]
fn decode_lossy(bytes: &Vec<u8>) -> (s: String)
    ensures
        s@ == utf8_lossy(bytes@),
        valid_utf8(bytes@) ==> s@ == decode_utf8(bytes@),
{
    String::from_utf8_lossy(bytes.as_slice()).into_owned()
}

/// `s` with every trailing NUL and space removed.
pub open spec fn trim_padding(s: Seq<char>) -> Seq<char>
    decreases s.len(),
{
    if s.len() > 0 && (s.last() == '\0' || s.last() == ' ') {
        trim_padding(s.drop_last())
    } else {
        s
    }
}

/// Whether the CGB flag byte marks a colour cartridge.
pub open spec fn is_cgb(rom: Seq<u8>) -> bool {
    rom[CGB_FLAG as int] == 0x80 || rom[CGB_FLAG as int] == 0xC0
}

/// The raw title bytes: 16 on old cartridges, 15 when 0x0143 is the CGB flag.
pub open spec fn title_bytes(rom: Seq<u8>) -> Seq<u8> {
    rom.subrange(TITLE_START as int, if is_cgb(rom) { 0x0143 } else { 0x0144 })
}

/// The title as decoded and trimmed of its padding.
pub open spec fn title_text(rom: Seq<u8>) -> Seq<char> {
    trim_padding(utf8_lossy(title_bytes(rom)))
}

/// Everything the cartridge-type byte encodes: the controller, and whether
/// there is RAM, a battery and a clock. `None` for unsupported types.
pub open spec fn cart_type_of(code: u8) -> Option<(MbcKind, bool, bool, bool)> {
    if code == 0x00 {
        Some((MbcKind::RomOnly, false, false, false))
    } else if code == 0x08 {
        Some((MbcKind::RomOnly, true, false, false))
    } else if code == 0x09 {
        Some((MbcKind::RomOnly, true, true, false))
    } else if code == 0x01 {
        Some((MbcKind::Mbc1, false, false, false))
    } else if code == 0x02 {
        Some((MbcKind::Mbc1, true, false, false))
    } else if code == 0x03 {
        Some((MbcKind::Mbc1, true, true, false))
    } else if code == 0x0F {
        Some((MbcKind::Mbc3, false, true, true))
    } else if code == 0x10 {
        Some((MbcKind::Mbc3, true, true, true))
    } else if code == 0x11 {
        Some((MbcKind::Mbc3, false, false, false))
    } else if code == 0x12 {
        Some((MbcKind::Mbc3, true, false, false))
    } else if code == 0x13 {
        Some((MbcKind::Mbc3, true, true, false))
    } else if code == 0x19 || code == 0x1C {
        Some((MbcKind::Mbc5, false, false, false))
    } else if code == 0x1A || code == 0x1D {
        Some((MbcKind::Mbc5, true, false, false))
    } else if code == 0x1B || code == 0x1E {
        Some((MbcKind::Mbc5, true, true, false))
    } else {
        None
    }
}

/// ROM banks for a ROM size code: 32 KiB doubling up to 8 MiB.
pub open spec fn rom_banks_of(code: u8) -> Option<usize> {
    if code <= 8 {
        Some((2 * pow2(code as nat)) as usize)
    } else {
        None
    }
}

/// RAM banks of 8 KiB for a RAM size code.
pub open spec fn ram_banks_of(code: u8) -> Option<usize> {
    if code == 0x00 {
        Some(0usize)
    } else if code == 0x02 {
        Some(1usize)
    } else if code == 0x03 {
        Some(4usize)
    } else if code == 0x04 {
        Some(16usize)
    } else if code == 0x05 {
        Some(8usize)
    } else {
        None
    }
}

/// The sum over 0x0134..=0x014C of each byte plus one.
pub open spec fn header_sum(rom: Seq<u8>, end: int) -> int
    decreases end - TITLE_START,
{
    if end <= TITLE_START {
        0
    } else {
        header_sum(rom, end - 1) + rom[end - 1] + 1
    }
}

/// The header checksum: zero minus every byte of 0x0134..=0x014C minus one
/// for each, in 8 bits.
pub open spec fn checksum_of(rom: Seq<u8>) -> u8 {
    ((0 - header_sum(rom, 0x014D)) % 256) as u8
}

/// Why a ROM image is refused, if it is.
pub open spec fn header_error(rom: Seq<u8>) -> Option<CartError> {
    if rom.len() < HEADER_END {
        Some(CartError::TooShort(rom.len() as usize))
    } else if rom[HEADER_CHECKSUM as int] != checksum_of(rom) {
        Some(
            CartError::BadChecksum { expected: rom[HEADER_CHECKSUM as int], found: checksum_of(rom) },
        )
    } else if cart_type_of(rom[CART_TYPE as int]) is None {
        Some(CartError::UnknownCartType(rom[CART_TYPE as int]))
    } else if rom_banks_of(rom[ROM_SIZE_CODE as int]) is None {
        Some(CartError::UnknownRomSize(rom[ROM_SIZE_CODE as int]))
    } else if ram_banks_of(rom[RAM_SIZE_CODE as int]) is None {
        Some(CartError::UnknownRamSize(rom[RAM_SIZE_CODE as int]))
    } else {
        None
    }
}

/// `h` is what the header of an accepted `rom` says.
pub open spec fn header_describes(h: Header, rom: Seq<u8>) -> bool {
    let (kind, ram, battery, rtc) = cart_type_of(rom[CART_TYPE as int]).unwrap();
    &&& h.title@ == title_text(rom)
    &&& h.mbc == kind
    &&& h.has_ram == ram
    &&& h.has_battery == battery
    &&& h.has_rtc == rtc
    &&& h.cgb == is_cgb(rom)
    &&& Some(h.rom_banks) == rom_banks_of(rom[ROM_SIZE_CODE as int])
    &&& Some(h.ram_banks) == ram_banks_of(rom[RAM_SIZE_CODE as int])
}

/// The decimal digit `d` as a character.
pub open spec fn digit_char(d: nat) -> char {
    (((48 + d % 10) as u8) as u32) as char
}

/// `n` written in decimal, without leading zeros.
pub open spec fn decimal_digits(n: nat) -> Seq<char>
    decreases n,
{
    if n < 10 {
        seq![digit_char(n)]
    } else {
        decimal_digits(n / 10).push(digit_char(n % 10))
    }
}

/// Appends the decimal digits of `n`.
fn push_decimal(s: &mut String, n: usize)
    ensures
        final(s)@ == old(s)@ + decimal_digits(n as nat),
    decreases n,
{
    if n >= 10 {
        push_decimal(s, n / 10);
    }
    let d: u8 = (n % 10) as u8;
    s.push((48u8 + d) as char);
    proof {
        assert(final(s)@ =~= old(s)@ + decimal_digits(n as nat)) by {
            if n >= 10 {
                assert(decimal_digits(n as nat) =~= decimal_digits((n / 10) as nat).push(
                    digit_char((n % 10) as nat),
                ));
            }
        }
    }
}

/// `n` in decimal.
pub fn decimal(n: usize) -> (s: String)
    ensures
        s@ == decimal_digits(n as nat),
{
    let mut s = String::new();
    push_decimal(&mut s, n);
    assert(s@ =~= decimal_digits(n as nat));
    s
}

/// Appends the characters of `t`.
pub(crate) fn push_str(s: &mut String, t: &str)
    ensures
        final(s)@ == old(s)@ + t@,
{
    let n = t.unicode_len();
    let mut i: usize = 0;
    while i < n
        invariant
            n == t@.len(),
            i <= n,
            s@ == old(s)@ + t@.subrange(0, i as int),
        decreases n - i,
    {
        s.push(t.get_char(i));
        i = i + 1;
        assert(s@ =~= old(s)@ + t@.subrange(0, i as int));
    }
    assert(t@.subrange(0, n as int) =~= t@);
}

/// The name a report gives the bank controller.
pub open spec fn mbc_name(k: MbcKind) -> Seq<char> {
    match k {
        MbcKind::RomOnly => "no MBC"@,
        MbcKind::Mbc1 => "MBC1"@,
        MbcKind::Mbc3 => "MBC3"@,
        MbcKind::Mbc5 => "MBC5"@,
    }
}

/// The RAM line of a header report. A header whose type byte claims RAM that
/// its size byte does not give says so.
pub open spec fn ram_line(h: Header) -> Seq<char> {
    if h.ram_banks == 0 {
        if h.has_ram {
            "RAM        : none (the cartridge type claims some)\n"@
        } else {
            "RAM        : none\n"@
        }
    } else {
        "RAM        : "@ + decimal_digits((h.ram_banks * RAM_BANK_SIZE / 1024) as nat) + " KiB ("@
            + decimal_digits(h.ram_banks as nat) + " banks)\n"@
    }
}

/// The ROM line of a header report.
pub open spec fn rom_line(h: Header) -> Seq<char> {
    "ROM        : "@ + decimal_digits((h.rom_banks * ROM_BANK_SIZE / 1024) as nat) + " KiB ("@
        + decimal_digits(h.rom_banks as nat) + " banks)\n"@
}

/// The header as a report prints it, one fact per line. The RTC line appears
/// only on a cartridge that has a clock; the last line has no newline.
pub open spec fn header_report(h: Header) -> Seq<char> {
    "Title      : "@ + h.title@ + "\n"@ + "Controller : "@ + mbc_name(h.mbc) + "\n"@ + rom_line(h)
        + ram_line(h) + "Battery    : "@ + (if h.has_battery { "yes"@ } else { "no"@ }) + "\n"@
        + (if h.has_rtc { "RTC        : yes\n"@ } else { Seq::<char>::empty() }) + "Mode       : "@
        + (if h.cgb { "CGB"@ } else { "DMG"@ })
}

impl Header {
    /// The header as a report of one fact per line.
    pub fn report(&self) -> (s: String)
        requires
            self.rom_banks * ROM_BANK_SIZE <= usize::MAX,
            self.ram_banks * RAM_BANK_SIZE <= usize::MAX,
        ensures
            s@ == header_report(*self),
    {
        let mut s = String::new();
        push_str(&mut s, "Title      : ");
        push_str(&mut s, self.title.as_str());
        push_str(&mut s, "\n");
        push_str(&mut s, "Controller : ");
        let name = match self.mbc {
            MbcKind::RomOnly => "no MBC",
            MbcKind::Mbc1 => "MBC1",
            MbcKind::Mbc3 => "MBC3",
            MbcKind::Mbc5 => "MBC5",
        };
        push_str(&mut s, name);
        push_str(&mut s, "\n");
        let ghost before_rom = s@;
        push_str(&mut s, "ROM        : ");
        push_decimal(&mut s, self.rom_size() / 1024);
        push_str(&mut s, " KiB (");
        push_decimal(&mut s, self.rom_banks);
        push_str(&mut s, " banks)\n");
        assert(s@ =~= before_rom + rom_line(*self));
        let ghost before_ram = s@;
        if self.ram_banks == 0 {
            if self.has_ram {
                push_str(&mut s, "RAM        : none (the cartridge type claims some)\n");
            } else {
                push_str(&mut s, "RAM        : none\n");
            }
        } else {
            push_str(&mut s, "RAM        : ");
            push_decimal(&mut s, self.ram_size() / 1024);
            push_str(&mut s, " KiB (");
            push_decimal(&mut s, self.ram_banks);
            push_str(&mut s, " banks)\n");
        }
        assert(s@ =~= before_ram + ram_line(*self));
        push_str(&mut s, "Battery    : ");
        push_str(
            &mut s,
            if self.has_battery {
                "yes"
            } else {
                "no"
            },
        );
        push_str(&mut s, "\n");
        let ghost before_rtc = s@;
        if self.has_rtc {
            push_str(&mut s, "RTC        : yes\n");
        }
        assert(s@ =~= before_rtc + (if self.has_rtc { "RTC        : yes\n"@ } else { Seq::<char>::empty() }));
        push_str(&mut s, "Mode       : ");
        push_str(
            &mut s,
            if self.cgb {
                "CGB"
            } else {
                "DMG"
            },
        );
        assert(s@ =~= header_report(*self));
        s
    }

    pub fn rom_size(&self) -> (r: usize)
        requires
            self.rom_banks * ROM_BANK_SIZE <= usize::MAX,
        ensures
            r == self.rom_banks * ROM_BANK_SIZE,
    {
        self.rom_banks * ROM_BANK_SIZE
    }

    pub fn ram_size(&self) -> (r: usize)
        requires
            self.ram_banks * RAM_BANK_SIZE <= usize::MAX,
        ensures
            r == self.ram_banks * RAM_BANK_SIZE,
    {
        self.ram_banks * RAM_BANK_SIZE
    }

    fn parse(rom: &Vec<u8>) -> (r: Result<Header, CartError>)
        ensures
            match r {
                Ok(h) => header_error(rom@) is None && header_describes(h, rom@),
                Err(e) => header_error(rom@) == Some(e),
            },
    {
        if rom.len() < HEADER_END {
            return Err(CartError::TooShort(rom.len()));
        }
        let expected = rom[HEADER_CHECKSUM];
        let found = header_checksum(rom);
        if expected != found {
            return Err(CartError::BadChecksum { expected, found });
        }
        // On CGB-era carts 0x0143 is the CGB flag and the title is one byte shorter.

        let cgb = rom[CGB_FLAG] == 0x80 || rom[CGB_FLAG] == 0xC0;
        let title_end = if cgb {
            TITLE_END_OLD - 1
        } else {
            TITLE_END_OLD
        };
        let mut raw: Vec<u8> = Vec::new();
        let mut i = TITLE_START;
        while i <= title_end
            invariant
                TITLE_START <= i <= title_end + 1,
                title_end < rom.len(),
                raw@ == rom@.subrange(TITLE_START as int, i as int),
            decreases title_end + 1 - i,
        {
            raw.push(rom[i]);
            i = i + 1;
        }
        let title = trim_title(decode_lossy(&raw));
        let ct = CartType::decode(rom[CART_TYPE])?;
        let rom_banks = decode_rom_banks(rom[ROM_SIZE_CODE])?;
        let ram_banks = decode_ram_banks(rom[RAM_SIZE_CODE])?;
        Ok(
            Header {
                title,
                mbc: ct.kind,
                rom_banks,
                ram_banks,
                has_ram: ct.ram,
                has_battery: ct.battery,
                has_rtc: ct.rtc,
                cgb,
            },
        )
    }
}

/// Drops the NUL and space padding from the end of a decoded title.
pub fn trim_title(s: String) -> (t: String)
    ensures
        t@ == trim_padding(s@),
{
    let text = s.as_str();
    let mut n = text.unicode_len();
    assert(text@.subrange(0, n as int) =~= text@);
    while n > 0 && (text.get_char(n - 1) == '\0' || text.get_char(n - 1) == ' ')
        invariant
            n <= text@.len(),
            trim_padding(text@) == trim_padding(text@.subrange(0, n as int)),
        decreases n,
    {
        proof {
            let sub = text@.subrange(0, n as int);
            assert(sub.drop_last() =~= text@.subrange(0, n - 1));
        }
        n = n - 1;
    }
    proof {
        let sub = text@.subrange(0, n as int);
        assert(trim_padding(sub) == sub);
    }
    text.substring_char(0, n).to_owned()
}

/// Everything the cartridge-type byte encodes. It is four facts, not one.
struct CartType {
    kind: MbcKind,
    ram: bool,
    battery: bool,
    rtc: bool,
}

impl CartType {
    fn decode(code: u8) -> (r: Result<CartType, CartError>)
        ensures
            match r {
                Ok(ct) => cart_type_of(code) == Some((ct.kind, ct.ram, ct.battery, ct.rtc)),
                Err(e) => cart_type_of(code) is None && e == CartError::UnknownCartType(code),
            },
    {
        let (kind, ram, battery, rtc) = match code {
            0x00 => (MbcKind::RomOnly, false, false, false),
            0x08 => (MbcKind::RomOnly, true, false, false),
            0x09 => (MbcKind::RomOnly, true, true, false),
            0x01 => (MbcKind::Mbc1, false, false, false),
            0x02 => (MbcKind::Mbc1, true, false, false),
            0x03 => (MbcKind::Mbc1, true, true, false),
            0x0F => (MbcKind::Mbc3, false, true, true),
            0x10 => (MbcKind::Mbc3, true, true, true),
            0x11 => (MbcKind::Mbc3, false, false, false),
            0x12 => (MbcKind::Mbc3, true, false, false),
            0x13 => (MbcKind::Mbc3, true, true, false),
            // 0x1C-0x1E additionally have a rumble motor, which we ignore.
            0x19 => (MbcKind::Mbc5, false, false, false),
            0x1A => (MbcKind::Mbc5, true, false, false),
            0x1B => (MbcKind::Mbc5, true, true, false),
            0x1C => (MbcKind::Mbc5, false, false, false),
            0x1D => (MbcKind::Mbc5, true, false, false),
            0x1E => (MbcKind::Mbc5, true, true, false),
            // MBC2, MMM01, HuC1 and friends exist but are not supported here.
            other => return Err(CartError::UnknownCartType(other)),
        };
        Ok(CartType { kind, ram, battery, rtc })
    }
}

fn decode_rom_banks(code: u8) -> (r: Result<usize, CartError>)
    ensures
        match r {
            Ok(n) => rom_banks_of(code) == Some(n) && 2 <= n <= 512,
            Err(e) => rom_banks_of(code) is None && e == CartError::UnknownRomSize(code),
        },
{
    if code <= 8 {
        proof {
            lemma2_to64();
        }
        let n: usize = match code {
            0 => 2,
            1 => 4,
            2 => 8,
            3 => 16,
            4 => 32,
            5 => 64,
            6 => 128,
            7 => 256,
            _ => 512,
        };
        Ok(n)
    } else {
        Err(CartError::UnknownRomSize(code))
    }
}

fn decode_ram_banks(code: u8) -> (r: Result<usize, CartError>)
    ensures
        match r {
            Ok(n) => ram_banks_of(code) == Some(n),
            Err(e) => ram_banks_of(code) is None && e == CartError::UnknownRamSize(code),
        },
{
    match code {
        0x00 => Ok(0),
        0x02 => Ok(1),  // 8 KiB
        0x03 => Ok(4),  // 32 KiB
        0x04 => Ok(16),  // 128 KiB
        0x05 => Ok(8),  // 64 KiB -- yes, out of order
        other => Err(CartError::UnknownRamSize(other)),
    }
}

/// Sum of 0x0134..=0x014C, each byte subtracted along with 1. Wraps at 8 bits.
fn header_checksum(rom: &Vec<u8>) -> (sum: u8)
    requires
        rom.len() >= 0x014D,
    ensures
        sum == checksum_of(rom@),
{
    let mut sum: u8 = 0;
    let mut i = TITLE_START;
    while i <= 0x014C
        invariant
            TITLE_START <= i <= 0x014D,
            rom.len() >= 0x014D,
            sum as int == (0 - header_sum(rom@, i as int)) % 256,
        decreases 0x014D - i,
    {
        let byte = rom[i];
        proof {
            let s = header_sum(rom@, i as int);
            assert(header_sum(rom@, i + 1) == s + byte + 1);
            vstd::arithmetic::div_mod::lemma_sub_mod_noop(0, s, 256);
            vstd::arithmetic::div_mod::lemma_sub_mod_noop(0 - s, byte + 1, 256);
            vstd::arithmetic::div_mod::lemma_sub_mod_noop(sum as int, byte + 1, 256);
            vstd::arithmetic::div_mod::lemma_mod_twice(0 - s, 256);
        }
        sum = sum.wrapping_sub(byte).wrapping_sub(1);
        i = i + 1;
    }
    sum
}

// ---------------------------------------------------------------------------
// MBC: the live register state of the controller chip
// ---------------------------------------------------------------------------
/// Runtime banking state. `MbcKind` says which chip is fitted; this says what
/// its registers currently hold.
#[derive(Debug, Clone, Copy)]
#[allow(inconsistent_fields)]
pub enum Mbc {
    RomOnly,
    /// MBC1 has a 5-bit register and a 2-bit register. The 2-bit one is either
    /// the top ROM bank bits or the RAM bank, depending on `mode`.
    Mbc1 { bank1: u8, bank2: u8, mode: bool, ram_enabled: bool },
    Mbc3 { rom_bank: u8, ram_bank: u8, ram_enabled: bool },
    Mbc5 { rom_bank: u16, ram_bank: u8, ram_enabled: bool },
}

impl Mbc {
    /// The registers out of reset: ROM bank 1 switched in, RAM disabled.
    pub open spec fn initial(kind: MbcKind) -> Mbc {
        match kind {
            MbcKind::RomOnly => Mbc::RomOnly,
            MbcKind::Mbc1 => Mbc::Mbc1 { bank1: 1, bank2: 0, mode: false, ram_enabled: false },
            MbcKind::Mbc3 => Mbc::Mbc3 { rom_bank: 1, ram_bank: 0, ram_enabled: false },
            MbcKind::Mbc5 => Mbc::Mbc5 { rom_bank: 1, ram_bank: 0, ram_enabled: false },
        }
    }

    /// Bank mapped at 0x0000-0x3FFF. Only MBC1 in advanced mode moves this.
    pub open spec fn low_bank(self) -> usize {
        match self {
            Mbc::Mbc1 { bank2, mode, .. } => if mode {
                (bank2 as usize) << 5usize
            } else {
                0
            },
            _ => 0,
        }
    }

    /// Bank mapped at 0x4000-0x7FFF.
    pub open spec fn high_bank(self) -> usize {
        match self {
            Mbc::RomOnly => 1,
            Mbc::Mbc1 { bank1, bank2, .. } => ((bank2 as usize) << 5usize) | (bank1 as usize),
            Mbc::Mbc3 { rom_bank, .. } => rom_bank as usize,
            Mbc::Mbc5 { rom_bank, .. } => rom_bank as usize,
        }
    }

    /// The RAM bank selected for 0xA000-0xBFFF.
    pub open spec fn ram_bank_number(self) -> usize {
        match self {
            Mbc::RomOnly => 0,
            Mbc::Mbc1 { bank2, mode, .. } => if mode {
                bank2 as usize
            } else {
                0
            },
            Mbc::Mbc3 { ram_bank, .. } => ram_bank as usize,
            Mbc::Mbc5 { ram_bank, .. } => ram_bank as usize,
        }
    }

    pub open spec fn ram_on(self) -> bool {
        match self {
            Mbc::RomOnly => true,
            Mbc::Mbc1 { ram_enabled, .. } => ram_enabled,
            Mbc::Mbc3 { ram_enabled, .. } => ram_enabled,
            Mbc::Mbc5 { ram_enabled, .. } => ram_enabled,
        }
    }

    /// The registers after the CPU writes `value` at `addr` in 0x0000-0x7FFF.
    pub open spec fn after_write(self, addr: u16, value: u8) -> Mbc {
        match self {
            Mbc::RomOnly => Mbc::RomOnly,
            Mbc::Mbc1 { bank1, bank2, mode, ram_enabled } => if addr <= 0x1FFF {
                Mbc::Mbc1 { ram_enabled: value & 0x0F == 0x0A, bank1, bank2, mode }
            } else if addr <= 0x3FFF {
                // A 5-bit register that can never hold 0: writing 0 selects 1.
                Mbc::Mbc1 {
                    bank1: if value & 0x1F == 0 {
                        1
                    } else {
                        value & 0x1F
                    },
                    bank2,
                    mode,
                    ram_enabled,
                }
            } else if addr <= 0x5FFF {
                Mbc::Mbc1 { bank2: value & 0x03, bank1, mode, ram_enabled }
            } else {
                Mbc::Mbc1 { mode: value & 0x01 == 1, bank1, bank2, ram_enabled }
            },
            Mbc::Mbc3 { rom_bank, ram_bank, ram_enabled } => if addr <= 0x1FFF {
                Mbc::Mbc3 { ram_enabled: value & 0x0F == 0x0A, rom_bank, ram_bank }
            } else if addr <= 0x3FFF {
                Mbc::Mbc3 {
                    rom_bank: if value & 0x7F == 0 {
                        1
                    } else {
                        value & 0x7F
                    },
                    ram_bank,
                    ram_enabled,
                }
            } else if addr <= 0x5FFF {
                Mbc::Mbc3 { ram_bank: value & 0x0F, rom_bank, ram_enabled }
            } else {
                self
            },
            Mbc::Mbc5 { rom_bank, ram_bank, ram_enabled } => if addr <= 0x1FFF {
                Mbc::Mbc5 { ram_enabled: value == 0x0A, rom_bank, ram_bank }
            } else if addr <= 0x2FFF {
                Mbc::Mbc5 { rom_bank: (rom_bank & 0x100) | value as u16, ram_bank, ram_enabled }
            } else if addr <= 0x3FFF {
                Mbc::Mbc5 {
                    rom_bank: (rom_bank & 0x0FF) | ((value as u16 & 1) << 8u16),
                    ram_bank,
                    ram_enabled,
                }
            } else if addr <= 0x5FFF {
                Mbc::Mbc5 { ram_bank: value & 0x0F, rom_bank, ram_enabled }
            } else {
                self
            },
        }
    }

    fn new(kind: MbcKind) -> (m: Mbc)
        ensures
            m == Mbc::initial(kind),
    {
        match kind {
            MbcKind::RomOnly => Mbc::RomOnly,
            MbcKind::Mbc1 => Mbc::Mbc1 { bank1: 1, bank2: 0, mode: false, ram_enabled: false },
            MbcKind::Mbc3 => Mbc::Mbc3 { rom_bank: 1, ram_bank: 0, ram_enabled: false },
            MbcKind::Mbc5 => Mbc::Mbc5 { rom_bank: 1, ram_bank: 0, ram_enabled: false },
        }
    }

    fn low_rom_bank(&self) -> (b: usize)
        ensures
            b == self.low_bank(),
    {
        match self {
            Mbc::Mbc1 { bank2, mode: true, .. } => (*bank2 as usize) << 5usize,
            _ => 0,
        }
    }

    fn high_rom_bank(&self) -> (b: usize)
        ensures
            b == self.high_bank(),
    {
        match self {
            Mbc::RomOnly => 1,
            Mbc::Mbc1 { bank1, bank2, .. } => ((*bank2 as usize) << 5usize) | (*bank1 as usize),
            Mbc::Mbc3 { rom_bank, .. } => *rom_bank as usize,
            Mbc::Mbc5 { rom_bank, .. } => *rom_bank as usize,
        }
    }

    fn ram_bank(&self) -> (b: usize)
        ensures
            b == self.ram_bank_number(),
    {
        match self {
            Mbc::RomOnly => 0,
            Mbc::Mbc1 { bank2, mode, .. } => {
                if *mode {
                    *bank2 as usize
                } else {
                    0
                }
            },
            Mbc::Mbc3 { ram_bank, .. } => *ram_bank as usize,
            Mbc::Mbc5 { ram_bank, .. } => *ram_bank as usize,
        }
    }

    fn ram_enabled(&self) -> (on: bool)
        ensures
            on == self.ram_on(),
    {
        match self {
            Mbc::RomOnly => true,
            Mbc::Mbc1 { ram_enabled, .. } => *ram_enabled,
            Mbc::Mbc3 { ram_enabled, .. } => *ram_enabled,
            Mbc::Mbc5 { ram_enabled, .. } => *ram_enabled,
        }
    }

    /// Handle a write into the 0x0000-0x7FFF command range.
    fn control_write(&mut self, addr: u16, value: u8)
        requires
            addr <= 0x7FFF,
        ensures
            *final(self) == old(self).after_write(addr, value),
    {
        match *self {
            Mbc::RomOnly => {},
            Mbc::Mbc1 { bank1, bank2, mode, ram_enabled } => {
                *self = if addr <= 0x1FFF {
                    Mbc::Mbc1 { ram_enabled: value & 0x0F == 0x0A, bank1, bank2, mode }
                } else if addr <= 0x3FFF {
                    Mbc::Mbc1 {
                        bank1: if value & 0x1F == 0 {
                            1
                        } else {
                            value & 0x1F
                        },
                        bank2,
                        mode,
                        ram_enabled,
                    }
                } else if addr <= 0x5FFF {
                    Mbc::Mbc1 { bank2: value & 0x03, bank1, mode, ram_enabled }
                } else {
                    Mbc::Mbc1 { mode: value & 0x01 == 1, bank1, bank2, ram_enabled }
                };
            },
            Mbc::Mbc3 { rom_bank, ram_bank, ram_enabled } => {
                if addr <= 0x1FFF {
                    *self = Mbc::Mbc3 { ram_enabled: value & 0x0F == 0x0A, rom_bank, ram_bank };
                } else if addr <= 0x3FFF {
                    *self = Mbc::Mbc3 {
                        rom_bank: if value & 0x7F == 0 {
                            1
                        } else {
                            value & 0x7F
                        },
                        ram_bank,
                        ram_enabled,
                    };
                } else if addr <= 0x5FFF {
                    // 0x08-0x0C select the real-time clock registers instead of RAM.
                    // Not implemented: those reads will fall through to cart RAM.
                    *self = Mbc::Mbc3 { ram_bank: value & 0x0F, rom_bank, ram_enabled };
                }
                // 0x6000-0x7FFF latches the clock, which does not tick here.
            },
            Mbc::Mbc5 { rom_bank, ram_bank, ram_enabled } => {
                if addr <= 0x1FFF {
                    *self = Mbc::Mbc5 { ram_enabled: value == 0x0A, rom_bank, ram_bank };
                } else if addr <= 0x2FFF {
                    // MBC5 splits the 9-bit bank number across two ranges, and
                    // unlike MBC1 it can genuinely select bank 0.
                    *self = Mbc::Mbc5 {
                        rom_bank: (rom_bank & 0x100) | value as u16,
                        ram_bank,
                        ram_enabled,
                    };
                } else if addr <= 0x3FFF {
                    *self = Mbc::Mbc5 {
                        rom_bank: (rom_bank & 0x0FF) | ((value as u16 & 1) << 8u16),
                        ram_bank,
                        ram_enabled,
                    };
                } else if addr <= 0x5FFF {
                    *self = Mbc::Mbc5 { ram_bank: value & 0x0F, rom_bank, ram_enabled };
                }
            },
        }
    }
}

// ---------------------------------------------------------------------------
// Cartridge
// ---------------------------------------------------------------------------
/// A cartridge as plain values.
pub ghost struct CartState {
    pub header: Header,
    pub rom: Seq<u8>,
    pub ram: Seq<u8>,
    pub mbc: Mbc,
}

proof fn lemma_and_le(x: usize, m: usize)
    ensures
        x & m <= m,
{
    assert(x & m <= m) by (bit_vector);
}

impl CartState {
    /// The header declares at least one ROM bank, and the RAM is the size the
    /// header declares. The image itself may be shorter than the header says.
    pub open spec fn wf(self) -> bool {
        &&& self.header.rom_banks >= 1
        &&& self.ram.len() == self.header.ram_banks * RAM_BANK_SIZE
    }

    /// The image covers every bank the header declares.
    pub open spec fn complete(self) -> bool {
        &&& self.wf()
        &&& self.rom.len() >= self.header.rom_banks * ROM_BANK_SIZE
    }

    /// The ROM bank that `addr` reads through, for an address of the ROM
    /// window.
    pub open spec fn bank_of(self, addr: u16) -> usize {
        if addr <= 0x3FFF {
            self.mbc.low_bank()
        } else {
            self.mbc.high_bank()
        }
    }

    /// Where within its bank `addr` of the ROM window lies.
    pub open spec fn bank_offset(addr: u16) -> int {
        if addr <= 0x3FFF {
            addr as int
        } else {
            addr - 0x4000
        }
    }

    /// A read of `addr` finds its byte: it is outside the ROM window, or the
    /// image holds the byte the selected bank maps there.
    pub open spec fn readable(self, addr: u16) -> bool {
        addr > 0x7FFF || self.rom_index(self.bank_of(addr), CartState::bank_offset(addr))
            < self.rom.len()
    }

    /// Both ROM banks currently mapped lie wholly in the image, so every read
    /// finds its byte.
    pub open spec fn mapped(self) -> bool {
        &&& self.rom_index(self.mbc.low_bank(), 0x3FFF) < self.rom.len()
        &&& self.rom_index(self.mbc.high_bank(), 0x3FFF) < self.rom.len()
    }

    /// Where in the image `offset` of `bank` lives: bank numbers wrap around
    /// the cartridge's real size.
    pub open spec fn rom_index(self, bank: usize, offset: int) -> int {
        (bank & ((self.header.rom_banks - 1) as usize)) * ROM_BANK_SIZE + offset
    }

    /// Where in cartridge RAM `addr` lives, or `None` when RAM is absent or
    /// disabled.
    pub open spec fn ram_index(self, addr: u16) -> Option<int> {
        if self.ram.len() == 0 || !self.mbc.ram_on() {
            None
        } else {
            Some(
                (self.mbc.ram_bank_number() & ((self.header.ram_banks - 1) as usize)) * RAM_BANK_SIZE
                    + (addr - 0xA000),
            )
        }
    }

    pub open spec fn read(self, addr: u16) -> u8 {
        if addr <= 0x3FFF {
            self.rom[self.rom_index(self.mbc.low_bank(), addr as int)]
        } else if addr <= 0x7FFF {
            self.rom[self.rom_index(self.mbc.high_bank(), addr - 0x4000)]
        } else if 0xA000 <= addr <= 0xBFFF {
            match self.ram_index(addr) {
                Some(i) => self.ram[i],
                None => 0xFF,  // disabled or absent RAM reads as open bus
            }
        } else {
            0xFF
        }
    }

    pub open spec fn write(self, addr: u16, value: u8) -> CartState {
        if addr <= 0x7FFF {
            CartState { mbc: self.mbc.after_write(addr, value), ..self }
        } else if 0xA000 <= addr <= 0xBFFF {
            match self.ram_index(addr) {
                Some(i) => CartState { ram: self.ram.update(i, value), ..self },
                None => self,
            }
        } else {
            self
        }
    }
}

pub struct Cartridge {
    pub header: Header,
    rom: Vec<u8>,
    ram: Vec<u8>,
    mbc: Mbc,
}

impl Cartridge {
    pub closed spec fn view(&self) -> CartState {
        CartState { header: self.header, rom: self.rom@, ram: self.ram@, mbc: self.mbc }
    }

    /// Accepts a ROM image whose header parses, with cartridge RAM zeroed and
    /// the controller out of reset.
    pub fn from_bytes(rom: Vec<u8>) -> (r: Result<Cartridge, CartError>)
        ensures
            match r {
                Ok(c) => {
                    &&& header_error(rom@) is None
                    &&& header_describes(c@.header, rom@)
                    &&& c@.rom == rom@
                    &&& c@.ram == Seq::new((c@.header.ram_banks * RAM_BANK_SIZE) as nat, |i| 0u8)
                    &&& c@.mbc == Mbc::initial(c@.header.mbc)
                },
                Err(e) => header_error(rom@) == Some(e),
            },
    {
        let header = Header::parse(&rom)?;
        let mbc = Mbc::new(header.mbc);
        let ram = vec![0u8; header.ram_size()];
        assert(ram@ =~= Seq::new((header.ram_banks * RAM_BANK_SIZE) as nat, |i| 0u8));
        Ok(Cartridge { header, rom, ram, mbc })
    }

    /// Whether the image covers every ROM bank its header declares and the RAM
    /// matches the declared size: the cartridges whose every bank can be read.
    pub fn is_consistent(&self) -> (ok: bool)
        ensures
            ok == self@.complete(),
    {
        let banks = self.header.rom_banks;
        let ok_rom = banks >= 1 && banks <= self.rom.len() / ROM_BANK_SIZE;
        let ok_ram = self.ram.len() % RAM_BANK_SIZE == 0 && self.ram.len() / RAM_BANK_SIZE
            == self.header.ram_banks;
        proof {
            let n = self.rom.len() as int;
            let r = self.ram.len() as int;
            vstd::arithmetic::div_mod::lemma_fundamental_div_mod(n, 0x4000);
            vstd::arithmetic::div_mod::lemma_fundamental_div_mod(r, 0x2000);
            assert((banks <= n / 0x4000) <==> (banks * 0x4000 <= n)) by (nonlinear_arith)
                requires
                    n == 0x4000 * (n / 0x4000) + n % 0x4000,
                    0 <= n % 0x4000 < 0x4000,
            ;
            let rb = self.header.ram_banks as int;
            assert((r % 0x2000 == 0 && r / 0x2000 == rb) <==> (r == rb * 0x2000)) by (nonlinear_arith)
                requires
                    r == 0x2000 * (r / 0x2000) + r % 0x2000,
                    0 <= r % 0x2000 < 0x2000,
                    r >= 0,
                    rb >= 0,
            ;
        }
        ok_rom && ok_ram
    }

    pub fn read(&self, addr: u16) -> (v: u8)
        requires
            self@.wf(),
            self@.readable(addr),
        ensures
            v == self@.read(addr),
    {
        if addr <= 0x3FFF {
            self.rom_byte(self.mbc.low_rom_bank(), addr as usize)
        } else if addr <= 0x7FFF {
            self.rom_byte(self.mbc.high_rom_bank(), addr as usize - ROM_BANK_SIZE)
        } else if 0xA000 <= addr && addr <= 0xBFFF {
            match self.ram_index(addr) {
                Some(i) => self.ram[i],
                None => 0xFF,  // disabled or absent RAM reads as open bus
            }
        } else {
            0xFF
        }
    }

    pub fn write(&mut self, addr: u16, value: u8)
        requires
            old(self)@.wf(),
        ensures
            final(self)@ == old(self)@.write(addr, value),
            final(self)@.wf(),
    {
        if addr <= 0x7FFF {
            self.mbc.control_write(addr, value);
        } else if 0xA000 <= addr && addr <= 0xBFFF {
            if let Some(i) = self.ram_index(addr) {
                self.ram.set(i, value);
            }
        }
    }

    /// Cartridge RAM, for writing a .sav file.
    pub fn ram(&self) -> (r: &[u8])
        ensures
            r@ == self@.ram,
    {
        self.ram.as_slice()
    }

    /// Restore cartridge RAM from a .sav file. Wrong-sized data is ignored.
    pub fn load_ram(&mut self, data: &[u8])
        ensures
            final(self)@ == (CartState {
                ram: if data@.len() == old(self)@.ram.len() {
                    data@
                } else {
                    old(self)@.ram
                },
                ..old(self)@
            }),
    {
        if data.len() == self.ram.len() {
            let mut i: usize = 0;
            while i < data.len()
                invariant
                    i <= data.len() == self.ram.len(),
                    self.header == old(self).header,
                    self.rom == old(self).rom,
                    self.mbc == old(self).mbc,
                    forall|j: int| 0 <= j < i ==> self.ram@[j] == data@[j],
                decreases data.len() - i,
            {
                self.ram.set(i, data[i]);
                i = i + 1;
            }
            assert(self.ram@ =~= data@);
        }
    }

    /// Whether this cartridge keeps a save file: only battery-backed RAM
    /// outlives a power cycle, and a cartridge with no RAM has nothing to keep.
    pub fn keeps_save(&self) -> (b: bool)
        ensures
            b == (self@.header.has_battery && self@.ram.len() > 0),
    {
        self.header.has_battery && self.ram.len() > 0
    }

    /// Bank numbers wrap around the cartridge's real size, so a game selecting
    /// bank 40 on a 16-bank cart reads bank 8 rather than panicking.
    fn rom_byte(&self, bank: usize, offset: usize) -> (v: u8)
        requires
            self@.wf(),
            offset < ROM_BANK_SIZE,
            self@.rom_index(bank, offset as int) < self@.rom.len(),
        ensures
            v == self@.rom[self@.rom_index(bank, offset as int)],
    {
        let masked = bank & (self.header.rom_banks - 1);
        proof {
            assert(masked == bank & ((self@.header.rom_banks - 1) as usize));
            assert(masked * ROM_BANK_SIZE + offset == self@.rom_index(bank, offset as int));
            assert(self@.rom.len() == self.rom.len());
        }
        self.rom[masked * ROM_BANK_SIZE + offset]
    }

    /// Whether a read of `addr` finds its byte in the image.
    pub fn readable(&self, addr: u16) -> (ok: bool)
        requires
            self@.wf(),
        ensures
            ok == self@.readable(addr),
    {
        if addr > 0x7FFF {
            return true;
        }
        let bank = if addr <= 0x3FFF {
            self.mbc.low_rom_bank()
        } else {
            self.mbc.high_rom_bank()
        };
        let offset: usize = if addr <= 0x3FFF {
            addr as usize
        } else {
            addr as usize - ROM_BANK_SIZE
        };
        let masked = bank & (self.header.rom_banks - 1);
        proof {
            assert(masked == bank & ((self@.header.rom_banks - 1) as usize));
            assert(self@.rom.len() == self.rom.len());
        }
        match masked.checked_mul(ROM_BANK_SIZE) {
            Some(base) => match base.checked_add(offset) {
                Some(i) => i < self.rom.len(),
                None => false,
            },
            None => false,
        }
    }

    /// Whether both ROM banks currently mapped lie wholly in the image.
    pub fn mapped(&self) -> (ok: bool)
        requires
            self@.wf(),
        ensures
            ok == self@.mapped(),
    {
        let mask = self.header.rom_banks - 1;
        let full = self.rom.len() / ROM_BANK_SIZE;
        let low = self.mbc.low_rom_bank() & mask;
        let high = self.mbc.high_rom_bank() & mask;
        proof {
            let n = self.rom.len() as int;
            vstd::arithmetic::div_mod::lemma_fundamental_div_mod(n, 0x4000);
            let lo = low as int;
            let hi = high as int;
            assert((lo < n / 0x4000) <==> (lo * 0x4000 + 0x3FFF < n)) by (nonlinear_arith)
                requires
                    n == 0x4000 * (n / 0x4000) + n % 0x4000,
                    0 <= n % 0x4000 < 0x4000,
                    0 <= lo,
            ;
            assert((hi < n / 0x4000) <==> (hi * 0x4000 + 0x3FFF < n)) by (nonlinear_arith)
                requires
                    n == 0x4000 * (n / 0x4000) + n % 0x4000,
                    0 <= n % 0x4000 < 0x4000,
                    0 <= hi,
            ;
        }
        low < full && high < full
    }

    fn ram_index(&self, addr: u16) -> (r: Option<usize>)
        requires
            self@.wf(),
            0xA000 <= addr <= 0xBFFF,
        ensures
            r matches Some(i) ==> i < self@.ram.len(),
            r is Some <==> self@.ram_index(addr) is Some,
            r matches Some(i) ==> self@.ram_index(addr) == Some(i as int),
    {
        if self.ram.len() == 0 || !self.mbc.ram_enabled() {
            return None;
        }
        let bank = self.mbc.ram_bank() & (self.header.ram_banks - 1);
        proof {
            lemma_and_le(self.mbc.ram_bank_number(), (self.header.ram_banks - 1) as usize);
            let rb = self.header.ram_banks as int;
            assert(bank * RAM_BANK_SIZE + (addr - 0xA000) < rb * RAM_BANK_SIZE) by (nonlinear_arith)
                requires
                    bank <= rb - 1,
                    addr - 0xA000 < RAM_BANK_SIZE,
            ;
        }
        Some(bank * RAM_BANK_SIZE + (addr as usize - 0xA000))
    }
}

// ---------------------------------------------------------------------------
// Building images
// ---------------------------------------------------------------------------
/// Every cartridge carries this identical 48-byte bitmap at 0x0104-0x0133: it
/// is the "Nintendo" logo the boot ROM scrolls down the screen, and the boot
/// ROM refuses to start a cartridge whose copy does not match byte for byte.
pub const NINTENDO_LOGO: [u8; 48] = [
    0xCE, 0xED, 0x66, 0x66, 0xCC, 0x0D, 0x00, 0x0B, 0x03, 0x73, 0x00, 0x83, 0x00, 0x0C, 0x00, 0x0D,
    0x00, 0x08, 0x11, 0x1F, 0x88, 0x89, 0x00, 0x0E, 0xDC, 0xCC, 0x6E, 0xE6, 0xDD, 0xDD, 0xD9, 0x99,
    0xBB, 0xBB, 0x67, 0x63, 0x6E, 0x0E, 0xEC, 0xCC, 0xDD, 0xDC, 0x99, 0x9F, 0xBB, 0xB9, 0x33, 0x3E,
];

/// What `fake_rom` builds: an image of the declared size, zero but for the
/// logo, the title (its first 16 bytes), the three codes, a correct header
/// checksum, and each bank's number stamped at offset 0x10 of the bank.
pub open spec fn is_fake_rom(rom: Seq<u8>, title: Seq<u8>, cart_type: u8, rom_code: u8, ram_code: u8) -> bool {
    &&& is_fake_rom_header(rom, title, cart_type, rom_code, ram_code)
    &&& forall|b: int| 0 <= b < rom_banks_of(rom_code).unwrap() ==> #[trigger] bank_stamp(rom, b) == b as u8
    &&& forall|j: int| 0 <= j < rom.len() && !(0x104 <= j < 0x14E) && j % 0x4000 != 0x10 ==> rom[j] == 0
}

/// The size and the header part of what `fake_rom` builds.
pub open spec fn is_fake_rom_header(rom: Seq<u8>, title: Seq<u8>, cart_type: u8, rom_code: u8, ram_code: u8) -> bool {
    let banks = rom_banks_of(rom_code).unwrap();
    let n = if title.len() < 16 { title.len() as int } else { 16int };
    &&& rom.len() == banks * ROM_BANK_SIZE
    &&& forall|i: int| 0 <= i < 48 ==> rom[0x104 + i] == NINTENDO_LOGO@[i]
    &&& forall|i: int| 0 <= i < n ==> rom[TITLE_START + i] == title[i]
    &&& forall|j: int| TITLE_START + n <= j < TITLE_START + 16 ==> rom[j] == 0
    &&& forall|i: int| 0x144 <= i < 0x147 ==> rom[i] == 0
    &&& rom[CART_TYPE as int] == cart_type
    &&& rom[ROM_SIZE_CODE as int] == rom_code
    &&& rom[RAM_SIZE_CODE as int] == ram_code
    &&& forall|i: int| 0x14A <= i < 0x14D ==> rom[i] == 0
    &&& rom[HEADER_CHECKSUM as int] == checksum_of(rom)
}

/// The byte at offset 0x10 of bank `b`, where `fake_rom` writes the bank number.
pub open spec fn bank_stamp(rom: Seq<u8>, b: int) -> u8 {
    rom[b * ROM_BANK_SIZE + 0x10]
}

/// The checksum only reads 0x0134..=0x014C.
proof fn lemma_header_sum_frame(a: Seq<u8>, b: Seq<u8>, end: int)
    requires
        end <= 0x014D,
        a.len() >= 0x014D,
        b.len() >= 0x014D,
        forall|i: int| TITLE_START <= i < 0x014D ==> a[i] == b[i],
    ensures
        header_sum(a, end) == header_sum(b, end),
    decreases end - TITLE_START,
{
    if end > TITLE_START {
        lemma_header_sum_frame(a, b, end - 1);
    }
}

/// Builds a syntactically valid cartridge image with a correct checksum, so
/// cartridges can be made without a ROM file on disk.
pub fn fake_rom(title: &str, cart_type: u8, rom_code: u8, ram_code: u8) -> (rom: Vec<u8>)
    requires
        rom_code <= 8,
    ensures
        is_fake_rom(rom@, title.spec_bytes(), cart_type, rom_code, ram_code),
{
    let banks = match decode_rom_banks(rom_code) {
        Ok(n) => n,
        Err(_) => 2,
    };
    let mut rom = vec![0u8; banks * ROM_BANK_SIZE];
    let mut i: usize = 0;
    while i < 48
        invariant
            i <= 48,
            rom.len() == banks * ROM_BANK_SIZE,
            2 <= banks <= 512,
            forall|j: int| 0 <= j < 0x104 + i ==> j < 0x104 ==> rom@[j] == 0,
            forall|j: int| 0 <= j < i ==> rom@[0x104 + j] == NINTENDO_LOGO@[j],
            forall|j: int| 0x104 + i <= j < rom.len() ==> rom@[j] == 0,
        decreases 48 - i,
    {
        rom.set(0x104 + i, NINTENDO_LOGO[i]);
        i = i + 1;
    }
    let bytes = title.as_bytes();
    let n = if bytes.len() < 16 { bytes.len() } else { 16 };
    let mut i: usize = 0;
    while i < n
        invariant
            i <= n <= 16,
            n <= bytes@.len(),
            bytes@ == title.spec_bytes(),
            rom.len() == banks * ROM_BANK_SIZE,
            2 <= banks <= 512,
            forall|j: int| 0 <= j < 48 ==> rom@[0x104 + j] == NINTENDO_LOGO@[j],
            forall|j: int| 0 <= j < i ==> rom@[TITLE_START + j] == bytes@[j],
            forall|j: int| TITLE_START + i <= j < rom.len() ==> rom@[j] == 0,
            forall|j: int| 0 <= j < 0x104 ==> rom@[j] == 0,
        decreases n - i,
    {
        rom.set(TITLE_START + i, bytes[i]);
        i = i + 1;
    }
    rom.set(CART_TYPE, cart_type);
    rom.set(ROM_SIZE_CODE, rom_code);
    rom.set(RAM_SIZE_CODE, ram_code);
    let sum = header_checksum(&rom);
    let ghost pre = rom@;
    rom.set(HEADER_CHECKSUM, sum);
    let ghost header_done = rom@;
    proof {
        lemma_header_sum_frame(header_done, pre, 0x014D);
        assert(is_fake_rom_header(header_done, title.spec_bytes(), cart_type, rom_code, ram_code));
    }
    proof {
        assert(forall|j: int| 0 <= j < rom@.len() && !(0x104 <= j < 0x14E) ==> rom@[j] == 0);
    }
    // Stamp each bank with its own number so bank switching is observable.
    let mut bank: usize = 0;
    while bank < banks
        invariant
            bank <= banks <= 512,
            2 <= banks,
            rom.len() == banks * ROM_BANK_SIZE,
            forall|j: int| 0 <= j < 0x14E ==> (j != 0x10 || bank == 0) ==> rom@[j] == header_done[j],
            forall|b: int| 0 <= b < bank ==> #[trigger] bank_stamp(rom@, b) == b as u8,
            forall|j: int| 0 <= j < rom.len() && !(0x104 <= j < 0x14E) && j % 0x4000 != 0x10 ==> rom@[j] == 0,
        decreases banks - bank,
    {
        proof {
            assert(bank * ROM_BANK_SIZE + 0x10 < banks * ROM_BANK_SIZE) by (nonlinear_arith)
                requires
                    bank < banks,
            ;
            assert(bank >= 1 ==> bank * ROM_BANK_SIZE + 0x10 >= 0x14E) by (nonlinear_arith);
            assert((bank * ROM_BANK_SIZE + 0x10) % 0x4000 == 0x10) by {
                vstd::arithmetic::div_mod::lemma_mod_multiples_vanish(bank as int, 0x10, 0x4000);
            }
        }
        let ghost before = rom@;
        rom.set(bank * ROM_BANK_SIZE + 0x10, bank as u8);
        assert forall|b: int| 0 <= b < bank + 1 implies #[trigger] bank_stamp(rom@, b) == b as u8 by {
            if b < bank {
                assert(b * ROM_BANK_SIZE < bank * ROM_BANK_SIZE) by (nonlinear_arith)
                    requires
                        b < bank,
                ;
                assert(bank_stamp(before, b) == b as u8);
            }
        }
        bank = bank + 1;
    }
    proof {
        assert(forall|j: int| 0x100 <= j < 0x14E ==> rom@[j] == header_done[j]);
        lemma_header_sum_frame(rom@, header_done, 0x014D);
        let banks_n = rom_banks_of(rom_code).unwrap();
        assert(rom@.len() == banks_n * ROM_BANK_SIZE);
        assert(forall|i: int| 0 <= i < 48 ==> rom@[0x104 + i] == NINTENDO_LOGO@[i]);
        assert(rom@[HEADER_CHECKSUM as int] == checksum_of(rom@));
        let tb = title.spec_bytes();
        let n = if tb.len() < 16 { tb.len() as int } else { 16int };
        assert(forall|i: int| 0 <= i < n ==> rom@[TITLE_START + i] == tb[i]);
        assert forall|j: int| TITLE_START + n <= j < TITLE_START + 16 implies rom@[j] == 0 by {
            assert(rom@[j] == header_done[j]);
        }
        assert forall|j: int| 0x144 <= j < 0x147 implies rom@[j] == 0 by {
            assert(rom@[j] == header_done[j]);
        }
        assert forall|j: int| 0x14A <= j < 0x14D implies rom@[j] == 0 by {
            assert(rom@[j] == header_done[j]);
        }
        assert(rom@[CART_TYPE as int] == cart_type);
        assert(rom@[ROM_SIZE_CODE as int] == rom_code);
        assert(rom@[RAM_SIZE_CODE as int] == ram_code);
        assert(is_fake_rom_header(rom@, title.spec_bytes(), cart_type, rom_code, ram_code));
    }
    rom
}

// ---------------------------------------------------------------------------
// Laws
// ---------------------------------------------------------------------------
/// A built image with a supported cartridge type and RAM size code passes
/// every header check, and the cartridge made from it is consistent.
pub proof fn lemma_fake_rom_is_accepted(rom: Seq<u8>, title: Seq<u8>, cart_type: u8, rom_code: u8, ram_code: u8)
    requires
        rom_code <= 8,
        is_fake_rom(rom, title, cart_type, rom_code, ram_code),
        cart_type_of(cart_type) is Some,
        ram_banks_of(ram_code) is Some,
    ensures
        header_error(rom) is None,
        forall|h: Header|
            header_describes(h, rom) ==> (CartState {
                header: h,
                rom: rom,
                ram: Seq::new((h.ram_banks * RAM_BANK_SIZE) as nat, |i| 0u8),
                mbc: Mbc::initial(h.mbc),
            }).complete(),
{
    lemma2_to64();
}

/// While both mapped ROM banks lie in the image, every read finds its byte.
pub broadcast proof fn lemma_mapped_readable(c: CartState, addr: u16)
    requires
        c.mapped(),
    ensures
        #[trigger] c.readable(addr),
{
}

/// An image that covers every declared bank has whatever bank the controller
/// selects: every read finds its byte.
pub proof fn lemma_complete_is_mapped(c: CartState)
    requires
        c.complete(),
    ensures
        c.mapped(),
        forall|addr: u16| #[trigger] c.readable(addr),
{
    let rb = c.header.rom_banks;
    let lo = c.mbc.low_bank() & ((rb - 1) as usize);
    let hi = c.mbc.high_bank() & ((rb - 1) as usize);
    lemma_and_le(c.mbc.low_bank(), (rb - 1) as usize);
    lemma_and_le(c.mbc.high_bank(), (rb - 1) as usize);
    assert(lo * ROM_BANK_SIZE + 0x3FFF < rb * ROM_BANK_SIZE) by (nonlinear_arith)
        requires
            lo <= rb - 1,
    ;
    assert(hi * ROM_BANK_SIZE + 0x3FFF < rb * ROM_BANK_SIZE) by (nonlinear_arith)
        requires
            hi <= rb - 1,
    ;
    assert forall|addr: u16| #[trigger] c.readable(addr) by {
        lemma_mapped_readable(c, addr);
    }
}

/// The cartridge-type byte as the hardware documentation tables it. The
/// supported codes are 0x00-0x03, 0x08-0x09, 0x0F-0x13 and 0x19-0x1E; codes
/// 0x00, 0x08 and 0x09 have no controller, 0x01-0x03 MBC1, 0x0F-0x13 MBC3 and
/// 0x19-0x1E MBC5; RAM is on 0x02, 0x03, 0x08, 0x09, 0x10, 0x12, 0x13, 0x1A,
/// 0x1B, 0x1D and 0x1E; a battery on 0x03, 0x09, 0x0F, 0x10, 0x13, 0x1B and
/// 0x1E; a clock on 0x0F and 0x10.
pub proof fn lemma_cart_type_table(code: u8)
    ensures
        (cart_type_of(code) is Some) == ((code <= 0x03) || code == 0x08 || code == 0x09 || (0x0F
            <= code <= 0x13) || (0x19 <= code <= 0x1E)),
        cart_type_of(code) matches Some((kind, ram, battery, rtc)) ==> {
            &&& (kind == MbcKind::RomOnly) == (code == 0x00 || code == 0x08 || code == 0x09)
            &&& (kind == MbcKind::Mbc1) == (0x01 <= code <= 0x03)
            &&& (kind == MbcKind::Mbc3) == (0x0F <= code <= 0x13)
            &&& (kind == MbcKind::Mbc5) == (0x19 <= code <= 0x1E)
            &&& ram == (code == 0x02 || code == 0x03 || code == 0x08 || code == 0x09 || code == 0x10
                || code == 0x12 || code == 0x13 || code == 0x1A || code == 0x1B || code == 0x1D
                || code == 0x1E)
            &&& battery == (code == 0x03 || code == 0x09 || code == 0x0F || code == 0x10 || code
                == 0x13 || code == 0x1B || code == 0x1E)
            &&& rtc == (code == 0x0F || code == 0x10)
        },
{
}

/// What a parsed header says of battery, RAM and clock is what the type
/// byte's table entry says: a header describing an image with type 0x13, say,
/// has a battery, so its RAM is saved.
pub proof fn lemma_header_battery(h: Header, rom: Seq<u8>)
    requires
        header_error(rom) is None,
        header_describes(h, rom),
    ensures
        ({
            let code = rom[CART_TYPE as int];
            &&& h.has_battery == (code == 0x03 || code == 0x09 || code == 0x0F || code == 0x10
                || code == 0x13 || code == 0x1B || code == 0x1E)
            &&& h.has_rtc == (code == 0x0F || code == 0x10)
            &&& h.has_ram == (code == 0x02 || code == 0x03 || code == 0x08 || code == 0x09 || code
                == 0x10 || code == 0x12 || code == 0x13 || code == 0x1A || code == 0x1B || code
                == 0x1D || code == 0x1E)
        }),
{
    lemma_cart_type_table(rom[CART_TYPE as int]);
}

/// The low bits of a bank register, and masking a bank number below 16 with
/// a power-of-two bank count less one, are remainders.
proof fn lemma_bank_bits(n: u8, x: usize, rb: usize)
    requires
        x < 16,
        rb == 1 || rb == 4 || rb == 8 || rb == 16,
    ensures
        x & ((rb - 1) as usize) == x % rb,
        n & 0x0F == n % 16,
        n & 0x03 == n % 4,
        n & 0x01 == n % 2,
        0x0Au8 & 0x0F == 0x0A,
        0x01u8 & 0x01 == 1,
{
    assert(x & ((rb - 1) as usize) == x % rb && n & 0x0F == n % 16 && n & 0x03 == n % 4 && n & 0x01
        == n % 2 && 0x0Au8 & 0x0F == 0x0A && 0x01u8 & 0x01 == 1) by (bit_vector)
        requires
            x < 16,
            rb == 1 || rb == 4 || rb == 8 || rb == 16,
    ;
}

proof fn lemma_rom_bank_bits(n: u8, m: u8, r: u16, lo: u8, hi: u8)
    ensures
        n & 0x1F == n % 32,
        n & 0x7F == n % 128,
        m & 0x03 == m % 4,
        (((m & 0x03) as usize) << 5usize) | ((if n & 0x1F == 0 { 1 } else { n & 0x1F }) as usize)
            == (m % 4) as usize * 32 + (if n % 32 == 0 { 1 } else { n % 32 }) as usize,
        (((r & 0x100) | lo as u16) & 0x0FF) | ((hi as u16 & 1) << 8u16) == (hi % 2) as u16 * 256
            + lo as u16,
{
    assert(n & 0x1F == n % 32 && n & 0x7F == n % 128 && m & 0x03 == m % 4 && (((m & 0x03) as usize)
        << 5usize) | ((if n & 0x1F == 0 { 1 } else { n & 0x1F }) as usize) == (m % 4) as usize * 32
        + (if n % 32 == 0 { 1 } else { n % 32 }) as usize && (((r & 0x100) | lo as u16) & 0x0FF) | ((
    hi as u16 & 1) << 8u16) == (hi % 2) as u16 * 256 + lo as u16) by (bit_vector);
}

/// ROM banking: the bank switched in at 0x4000-0x7FFF is, on MBC1, the 2-bit
/// register (written at 0x4000-0x5FFF) times 32 plus the 5-bit one (written
/// at 0x2000-0x3FFF, where 0 means 1); on MBC3 the 7-bit number written at
/// 0x2000-0x3FFF (0 meaning 1); on MBC5 the low byte written at 0x2000-0x2FFF
/// plus 256 times bit 0 of the byte written at 0x3000-0x3FFF. A read there
/// returns byte `k` of that bank of the image, as wrapped by the bank count.
pub proof fn lemma_rom_banking(c: CartState, s1: u16, s2: u16, n: u8, m: u8, k: int)
    requires
        c.wf(),
        0 <= k < 0x4000,
    ensures
        (c.mbc is Mbc1 && 0x2000 <= s1 <= 0x3FFF && 0x4000 <= s2 <= 0x5FFF) ==> {
            let c1 = c.write(s1, n).write(s2, m);
            let bank = ((m % 4) * 32 + (if n % 32 == 0 { 1 } else { n % 32 })) as usize;
            &&& c1.mbc.high_bank() == bank
            &&& c1.read((0x4000 + k) as u16) == c.rom[c.rom_index(bank, k)]
        },
        (c.mbc is Mbc3 && 0x2000 <= s1 <= 0x3FFF) ==> {
            let c1 = c.write(s1, n);
            let bank = (if n % 128 == 0 { 1 } else { n % 128 }) as usize;
            &&& c1.mbc.high_bank() == bank
            &&& c1.read((0x4000 + k) as u16) == c.rom[c.rom_index(bank, k)]
        },
        (c.mbc is Mbc5 && 0x2000 <= s1 <= 0x2FFF && 0x3000 <= s2 <= 0x3FFF) ==> {
            let c1 = c.write(s1, n).write(s2, m);
            let bank = ((m % 2) * 256 + n) as usize;
            &&& c1.mbc.high_bank() == bank
            &&& c1.read((0x4000 + k) as u16) == c.rom[c.rom_index(bank, k)]
        },
{
    let r: u16 = match c.mbc {
        Mbc::Mbc5 { rom_bank, .. } => rom_bank,
        _ => 0,
    };
    lemma_rom_bank_bits(n, m, r, n, m);
}

/// RAM banking on MBC3 and MBC5: once RAM is enabled (0x0A written to
/// 0x0000-0x1FFF) and `n` written to 0x4000-0x5FFF, an access to 0xA000 + k
/// reaches cartridge RAM at bank (n mod 16) mod the bank count, offset k: a
/// byte written there is stored at that index and reads back.
pub proof fn lemma_mbc_ram_banking(c: CartState, sel: u16, n: u8, k: u16, v: u8)
    requires
        c.wf(),
        c.mbc is Mbc3 || c.mbc is Mbc5,
        c.header.ram_banks == 1 || c.header.ram_banks == 4 || c.header.ram_banks == 8
            || c.header.ram_banks == 16,
        0x4000 <= sel <= 0x5FFF,
        k < 0x2000,
    ensures
        ({
            let c1 = c.write(0x0000, 0x0A).write(sel, n);
            let i = ((n % 16) as int % c.header.ram_banks as int) * 0x2000 + k;
            let addr = (0xA000 + k) as u16;
            &&& c1.ram_index(addr) == Some(i)
            &&& 0 <= i < c1.ram.len()
            &&& c1.write(addr, v).ram == c.ram.update(i, v)
            &&& c1.write(addr, v).read(addr) == v
        }),
{
    let rb = c.header.ram_banks;
    let x = (n % 16) as usize;
    assert(n % 16 < 16);
    lemma_bank_bits(n, x, rb);
    let i = ((n % 16) as int % rb as int) * 0x2000 + k;
    assert(0 <= i < rb * 0x2000) by (nonlinear_arith)
        requires
            i == ((n % 16) as int % rb as int) * 0x2000 + k,
            k < 0x2000,
            rb >= 1,
    ;
    let c1 = c.write(0x0000, 0x0A).write(sel, n);
    assert(c1.ram == c.ram && c1.header == c.header);
    assert(c1.mbc.ram_on());
    assert(c1.mbc.ram_bank_number() == x);
    lemma_ram_round_trip(c1, (0xA000 + k) as u16, v);
}

/// RAM banking on MBC1: once RAM is enabled, mode 1 selected (1 written to
/// 0x6000-0x7FFF) and `n` written to 0x4000-0x5FFF, an access to 0xA000 + k
/// reaches cartridge RAM at bank (n mod 4) mod the bank count, offset k.
pub proof fn lemma_mbc1_ram_banking(c: CartState, sel: u16, n: u8, k: u16, v: u8)
    requires
        c.wf(),
        c.mbc is Mbc1,
        c.header.ram_banks == 1 || c.header.ram_banks == 4 || c.header.ram_banks == 8
            || c.header.ram_banks == 16,
        0x4000 <= sel <= 0x5FFF,
        k < 0x2000,
    ensures
        ({
            let c1 = c.write(0x0000, 0x0A).write(0x6000, 0x01).write(sel, n);
            let i = ((n % 4) as int % c.header.ram_banks as int) * 0x2000 + k;
            let addr = (0xA000 + k) as u16;
            &&& c1.ram_index(addr) == Some(i)
            &&& c1.write(addr, v).ram == c.ram.update(i, v)
            &&& c1.write(addr, v).read(addr) == v
        }),
{
    let rb = c.header.ram_banks;
    let x = (n % 4) as usize;
    lemma_bank_bits(n, x, rb);
    let i = ((n % 4) as int % rb as int) * 0x2000 + k;
    assert(0 <= i < rb * 0x2000) by (nonlinear_arith)
        requires
            i == ((n % 4) as int % rb as int) * 0x2000 + k,
            k < 0x2000,
            rb >= 1,
    ;
    let c1 = c.write(0x0000, 0x0A).write(0x6000, 0x01).write(sel, n);
    assert(c1.ram == c.ram && c1.header == c.header);
    assert(c1.mbc.ram_on());
    assert(c1.mbc.ram_bank_number() == x);
    lemma_ram_round_trip(c1, (0xA000 + k) as u16, v);
}

/// Cartridge RAM that is present and enabled reads back what was written.
pub proof fn lemma_ram_round_trip(c: CartState, addr: u16, value: u8)
    requires
        c.wf(),
        0xA000 <= addr <= 0xBFFF,
        c.ram_index(addr) is Some,
    ensures
        c.write(addr, value).read(addr) == value,
        c.write(addr, value).wf(),
{
    let rb = c.header.ram_banks as int;
    let bank = c.mbc.ram_bank_number() & ((c.header.ram_banks - 1) as usize);
    lemma_and_le(c.mbc.ram_bank_number(), (c.header.ram_banks - 1) as usize);
    assert(bank * RAM_BANK_SIZE + (addr - 0xA000) < rb * RAM_BANK_SIZE) by (nonlinear_arith)
        requires
            bank <= rb - 1,
            addr - 0xA000 < RAM_BANK_SIZE,
    ;
}

/// Disabled or absent cartridge RAM ignores writes and reads as 0xFF.
pub proof fn lemma_closed_ram_is_open_bus(c: CartState, addr: u16, value: u8)
    requires
        0xA000 <= addr <= 0xBFFF,
        c.ram_index(addr) is None,
    ensures
        c.write(addr, value) == c,
        c.read(addr) == 0xFF,
{
}

/// A write into the ROM window is a command to the controller: ROM, RAM and
/// header keep their contents.
pub proof fn lemma_rom_window_is_read_only(c: CartState, addr: u16, value: u8)
    requires
        addr <= 0x7FFF,
    ensures
        c.write(addr, value).rom == c.rom,
        c.write(addr, value).ram == c.ram,
        c.write(addr, value).header == c.header,
{
}

/// The MBC1 5-bit bank register can never hold 0: a write of 0 selects bank 1,
/// and any other write selects its low five bits.
pub proof fn lemma_mbc1_never_selects_bank_zero(m: Mbc, addr: u16, value: u8)
    requires
        m is Mbc1,
        0x2000 <= addr <= 0x3FFF,
    ensures
        m.after_write(addr, value) matches Mbc::Mbc1 { bank1, .. } && bank1 != 0 && bank1 == (if value
            & 0x1F == 0 { 1 } else { value & 0x1F }),
{
}

/// For every ROM size a header can declare, masking a bank number with the
/// bank count minus one is the same as taking it modulo the bank count.
pub proof fn lemma_bank_wrap_is_modulo(code: u8, bank: usize)
    requires
        code <= 8,
    ensures
        bank & ((rom_banks_of(code).unwrap() - 1) as usize) == bank % rom_banks_of(code).unwrap(),
{
    lemma2_to64();
    assert(bank & 1 == bank % 2 && bank & 3 == bank % 4 && bank & 7 == bank % 8 && bank & 15 == bank
        % 16 && bank & 31 == bank % 32 && bank & 63 == bank % 64 && bank & 127 == bank % 128 && bank
        & 255 == bank % 256 && bank & 511 == bank % 512) by (bit_vector);
}

} // verus!
