//! The joypad is one register at 0xFF00, and everything about it is
//! active-low: the CPU writes a 0 to pick a row of buttons, and reads a 0 back
//! for each button in that row that is held down.
use vstd::prelude::*;

verus! {

pub struct Joypad {
    /// Bits 4-5 exactly as the CPU wrote them. 0 selects that row.
    select: u8,
    /// One bit per button, 1 = held. Low nibble is the d-pad, high nibble the
    /// action buttons -- the same order each row reports them in.
    pressed: u8,
}

#[derive(Clone, Copy, Debug, PartialEq, Eq, Structural)]
pub enum Button {
    Right,
    Left,
    Up,
    Down,
    A,
    B,
    Select,
    Start,
}

/// The bit a button owns in the held-buttons byte: the d-pad in the low
/// nibble, the action buttons in the high one, each in the order its row
/// reports them.
pub open spec fn button_mask(b: Button) -> u8 {
    match b {
        Button::Right => 0x01,
        Button::Left => 0x02,
        Button::Up => 0x04,
        Button::Down => 0x08,
        Button::A => 0x10,
        Button::B => 0x20,
        Button::Select => 0x40,
        Button::Start => 0x80,
    }
}

impl Button {
    fn mask(self) -> (m: u8)
        ensures
            m == button_mask(self),
    {
        match self {
            Button::Right => 0x01,
            Button::Left => 0x02,
            Button::Up => 0x04,
            Button::Down => 0x08,
            Button::A => 0x10,
            Button::B => 0x20,
            Button::Select => 0x40,
            Button::Start => 0x80,
        }
    }
}

/// The joypad as plain values.
pub ghost struct JoypadState {
    pub select: u8,
    pub pressed: u8,
}

impl JoypadState {
    /// Only the two row-select bits are ever stored.
    pub open spec fn wf(self) -> bool {
        self.select & 0xCF == 0
    }

    /// The column lines pulled low by the d-pad row, when it is selected.
    pub open spec fn dpad_lines(self) -> u8 {
        if self.select & 0x10 == 0 {
            self.pressed & 0x0F
        } else {
            0
        }
    }

    /// The column lines pulled low by the action row, when it is selected.
    pub open spec fn action_lines(self) -> u8 {
        if self.select & 0x20 == 0 {
            self.pressed >> 4
        } else {
            0
        }
    }

    /// P1 as the CPU reads it: bits 7-6 always 1, bits 5-4 the selection,
    /// bits 3-0 low for every line a held button in a selected row pulls low.
    pub open spec fn read(self) -> u8 {
        0xC0 | self.select | (0x0F & !(self.dpad_lines() | self.action_lines()))
    }

    pub open spec fn with_button(self, b: Button, down: bool) -> JoypadState {
        JoypadState {
            pressed: if down {
                self.pressed | button_mask(b)
            } else {
                self.pressed & !button_mask(b)
            },
            ..self
        }
    }

    pub open spec fn write(self, value: u8) -> JoypadState {
        JoypadState { select: value & 0x30, ..self }
    }

    /// Whether a change of buttons pulled a line of P1 from high to low,
    /// which is what raises the joypad interrupt.
    pub open spec fn pulls_line_low(self, next: JoypadState) -> bool {
        self.read() & !next.read() & 0x0F != 0
    }
}

impl Joypad {
    pub closed spec fn view(&self) -> JoypadState {
        JoypadState { select: self.select, pressed: self.pressed }
    }

    pub fn new() -> (j: Self)
        ensures
            j@ == (JoypadState { select: 0x30, pressed: 0x00 }),
            j@.wf(),
    {
        // Out of reset nothing is selected and nothing is held.
        assert(0x30u8 & 0xCF == 0) by (bit_vector);
        Joypad { select: 0x30, pressed: 0x00 }
    }

    /// Presses or releases a button. Returns true when that pulled one of the
    /// selected lines low, the edge that requests the joypad interrupt.
    pub fn set(&mut self, button: Button, down: bool) -> (irq: bool)
        ensures
            final(self)@ == old(self)@.with_button(button, down),
            irq == old(self)@.pulls_line_low(final(self)@),
    {
        let before = self.read();
        if down {
            self.pressed |= button.mask();
        } else {
            self.pressed &= !button.mask();
        }
        let after = self.read();
        before & !after & 0x0F != 0
    }

    /// Only bits 4-5 are writable; the rest belong to the hardware.
    pub fn write(&mut self, value: u8)
        ensures
            final(self)@ == old(self)@.write(value),
            final(self)@.wf(),
    {
        assert((value & 0x30) & 0xCF == 0) by (bit_vector);
        self.select = value & 0x30;
    }

    pub fn read(&self) -> (r: u8)
        ensures
            r == self@.read(),
            r & 0xC0 == 0xC0,
            self@.wf() ==> r & 0x30 == self@.select,
    {
        let mut buttons: u8 = 0x0F;  // all released

        if self.select & 0x10 == 0 {
            buttons &= !(self.pressed & 0x0F);  // d-pad row
        }
        if self.select & 0x20 == 0 {
            buttons &= !(self.pressed >> 4);  // action row
        }
        // Bits 6-7 are unimplemented and always read as 1. Getting this wrong
        // -- returning 0x00 -- reads as every button held, and games race
        // through their menus.
        let r = 0xC0 | self.select | buttons;
        proof {
            let s = self.select;
            let p = self.pressed;
            let d: u8 = if s & 0x10 == 0 { p & 0x0F } else { 0 };
            let a: u8 = if s & 0x20 == 0 { p >> 4 } else { 0 };
            assert(r == 0xC0 | s | (0x0F & !(d | a)) && r & 0xC0 == 0xC0 && (s & 0xCF == 0 ==> r
                & 0x30 == s)) by (bit_vector)
                requires
                    d == if s & 0x10 == 0 { p & 0x0F } else { 0 },
                    a == if s & 0x20 == 0 { p >> 4 } else { 0 },
                    buttons == if s & 0x20 == 0 {
                        (if s & 0x10 == 0 { 0x0F & !(p & 0x0F) } else { 0x0Fu8 }) & !(p >> 4)
                    } else {
                        if s & 0x10 == 0 { 0x0F & !(p & 0x0F) } else { 0x0Fu8 }
                    },
                    r == 0xC0 | s | buttons,
            ;
        }
        r
    }
}

/// Each row reports only its own buttons: with one row selected the low
/// nibble is the complement of that row's held buttons; with both it is the
/// AND of the two; with neither, everything reads released.
pub proof fn lemma_rows(j: JoypadState)
    ensures
        j.select == 0x20 ==> j.read() & 0x0F == 0x0F & !(j.pressed & 0x0F),
        j.select == 0x10 ==> j.read() & 0x0F == 0x0F & !(j.pressed >> 4),
        j.select == 0x00 ==> j.read() & 0x0F == (0x0F & !(j.pressed & 0x0F)) & (0x0F & !(j.pressed
            >> 4)),
        j.select == 0x30 ==> j.read() & 0x0F == 0x0F,
{
    let p = j.pressed;
    assert(0x20u8 & 0x10 == 0 && 0x20u8 & 0x20 != 0 && 0x10u8 & 0x10 != 0 && 0x10u8 & 0x20 == 0 && 0u8
        & 0x10 == 0 && 0u8 & 0x20 == 0 && 0x30u8 & 0x10 != 0 && 0x30u8 & 0x20 != 0 && (0xC0u8 | 0x20u8
        | (0x0F & !((p & 0x0F) | 0))) & 0x0F == 0x0F & !(p & 0x0F) && (0xC0u8 | 0x10u8 | (0x0F & !(0
        | (p >> 4)))) & 0x0F == 0x0F & !(p >> 4) && (0xC0u8 | 0x00u8 | (0x0F & !((p & 0x0F) | (p >> 4))))
        & 0x0F == (0x0F & !(p & 0x0F)) & (0x0F & !(p >> 4)) && (0xC0u8 | 0x30u8 | (0x0F & !(0u8 | 0u8)))
        & 0x0F == 0x0F) by (bit_vector);
}

/// The hardware lines: with the d-pad row selected, holding Right, Left, Up
/// or Down pulls bit 0, 1, 2 or 3 of P1 low and leaves every other bit as it
/// was; with the action row selected, A, B, Select and Start do the same on
/// bits 0 to 3. This holds whatever else is held.
pub proof fn lemma_button_lines(j: JoypadState)
    ensures
        ({
            let d = j.write(0x20);
            let a = j.write(0x10);
            &&& d.with_button(Button::Right, true).read() & 0x01 == 0
            &&& d.with_button(Button::Right, true).read() | 0x01 == d.read() | 0x01
            &&& d.with_button(Button::Left, true).read() & 0x02 == 0
            &&& d.with_button(Button::Left, true).read() | 0x02 == d.read() | 0x02
            &&& d.with_button(Button::Up, true).read() & 0x04 == 0
            &&& d.with_button(Button::Up, true).read() | 0x04 == d.read() | 0x04
            &&& d.with_button(Button::Down, true).read() & 0x08 == 0
            &&& d.with_button(Button::Down, true).read() | 0x08 == d.read() | 0x08
            &&& a.with_button(Button::A, true).read() & 0x01 == 0
            &&& a.with_button(Button::A, true).read() | 0x01 == a.read() | 0x01
            &&& a.with_button(Button::B, true).read() & 0x02 == 0
            &&& a.with_button(Button::B, true).read() | 0x02 == a.read() | 0x02
            &&& a.with_button(Button::Select, true).read() & 0x04 == 0
            &&& a.with_button(Button::Select, true).read() | 0x04 == a.read() | 0x04
            &&& a.with_button(Button::Start, true).read() & 0x08 == 0
            &&& a.with_button(Button::Start, true).read() | 0x08 == a.read() | 0x08
        }),
{
    let p = j.pressed;
    lemma_line(p, 0x01, 0x01);
    lemma_line(p, 0x02, 0x02);
    lemma_line(p, 0x04, 0x04);
    lemma_line(p, 0x08, 0x08);
    lemma_line(p, 0x10, 0x01);
    lemma_line(p, 0x20, 0x02);
    lemma_line(p, 0x40, 0x04);
    lemma_line(p, 0x80, 0x08);
}

/// Holding the button whose held-bit is `m` pulls line `bit` of P1 low, with
/// its row selected, and no other line.
proof fn lemma_line(p: u8, m: u8, bit: u8)
    requires
        (m == 0x01 && bit == 0x01) || (m == 0x02 && bit == 0x02) || (m == 0x04 && bit == 0x04) || (m
            == 0x08 && bit == 0x08) || (m == 0x10 && bit == 0x01) || (m == 0x20 && bit == 0x02) || (m
            == 0x40 && bit == 0x04) || (m == 0x80 && bit == 0x08),
    ensures
        0x20u8 & 0x30 == 0x20 && 0x10u8 & 0x30 == 0x10 && 0x20u8 & 0x10 == 0 && 0x20u8 & 0x20 != 0
            && 0x10u8 & 0x10 != 0 && 0x10u8 & 0x20 == 0,
        m < 0x10 ==> (0xC0u8 | 0x20u8 | (0x0F & !(((p | m) & 0x0F) | 0))) & bit == 0,
        m < 0x10 ==> (0xC0u8 | 0x20u8 | (0x0F & !(((p | m) & 0x0F) | 0))) | bit == (0xC0u8 | 0x20u8
            | (0x0F & !((p & 0x0F) | 0))) | bit,
        m >= 0x10 ==> (0xC0u8 | 0x10u8 | (0x0F & !(0 | ((p | m) >> 4)))) & bit == 0,
        m >= 0x10 ==> (0xC0u8 | 0x10u8 | (0x0F & !(0 | ((p | m) >> 4)))) | bit == (0xC0u8 | 0x10u8
            | (0x0F & !(0 | (p >> 4)))) | bit,
{
    assert(0x20u8 & 0x30 == 0x20 && 0x10u8 & 0x30 == 0x10 && 0x20u8 & 0x10 == 0 && 0x20u8 & 0x20
        != 0 && 0x10u8 & 0x10 != 0 && 0x10u8 & 0x20 == 0 && (m < 0x10 ==> (0xC0u8 | 0x20u8 | (0x0F
        & !(((p | m) & 0x0F) | 0))) & bit == 0) && (m < 0x10 ==> (0xC0u8 | 0x20u8 | (0x0F & !(((p
        | m) & 0x0F) | 0))) | bit == (0xC0u8 | 0x20u8 | (0x0F & !((p & 0x0F) | 0))) | bit) && (m
        >= 0x10 ==> (0xC0u8 | 0x10u8 | (0x0F & !(0 | ((p | m) >> 4)))) & bit == 0) && (m >= 0x10
        ==> (0xC0u8 | 0x10u8 | (0x0F & !(0 | ((p | m) >> 4)))) | bit == (0xC0u8 | 0x10u8 | (0x0F
        & !(0 | (p >> 4)))) | bit)) by (bit_vector)
        requires
            (m == 0x01 && bit == 0x01) || (m == 0x02 && bit == 0x02) || (m == 0x04 && bit == 0x04)
                || (m == 0x08 && bit == 0x08) || (m == 0x10 && bit == 0x01) || (m == 0x20 && bit
                == 0x02) || (m == 0x40 && bit == 0x04) || (m == 0x80 && bit == 0x08),
    ;
}

/// Pressing a button and releasing it again restores the joypad exactly.
pub proof fn lemma_press_release(j: JoypadState, b: Button)
    requires
        j.pressed & button_mask(b) == 0,
    ensures
        j.with_button(b, true).with_button(b, false) == j,
{
    let p = j.pressed;
    let m = button_mask(b);
    assert((p | m) & !m == p) by (bit_vector)
        requires
            p & m == 0,
    ;
}

} // verus!
