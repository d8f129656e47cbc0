use gameboy::joypad::{Button, Joypad};

/// Selects a row the way a game does: write 0 to that row's bit.
const DPAD: u8 = 0x20; // bit 4 clear -> d-pad selected
const ACTION: u8 = 0x10; // bit 5 clear -> action buttons selected

#[test]
fn nothing_held_reads_all_ones() {
    let mut pad = Joypad::new();
    pad.write(DPAD);
    assert_eq!(pad.read(), 0xEF, "a released button must read as 1, not 0");
}

#[test]
fn a_held_button_reads_as_zero() {
    let mut pad = Joypad::new();
    pad.write(DPAD);
    pad.set(Button::Right, true);
    assert_eq!(pad.read() & 0x01, 0);

    pad.set(Button::Right, false);
    assert_eq!(pad.read() & 0x01, 0x01);
}

#[test]
fn each_row_reports_only_its_own_buttons() {
    let mut pad = Joypad::new();
    pad.set(Button::Right, true); // d-pad bit 0
    pad.set(Button::B, true); // action bit 1

    pad.write(DPAD);
    assert_eq!(pad.read() & 0x0F, 0x0E, "only Right should read low");

    pad.write(ACTION);
    assert_eq!(pad.read() & 0x0F, 0x0D, "only B should read low");
}

#[test]
fn selecting_both_rows_ands_them_together() {
    let mut pad = Joypad::new();
    pad.set(Button::Right, true); // d-pad bit 0
    pad.set(Button::B, true); // action bit 1

    pad.write(0x00); // both rows selected at once
    assert_eq!(pad.read() & 0x0F, 0x0C, "both buttons should read low");
}

#[test]
fn the_top_two_bits_are_always_set() {
    let mut pad = Joypad::new();
    for select in [0x00, 0x10, 0x20, 0x30] {
        pad.write(select);
        assert_eq!(pad.read() & 0xC0, 0xC0);
        assert_eq!(pad.read() & 0x30, select, "the selection must read back");
    }
}

#[test]
fn a_press_on_a_selected_row_reports_the_edge() {
    let mut pad = Joypad::new();
    pad.write(DPAD);
    assert!(pad.set(Button::Down, true), "pressing Down pulls a selected line low");
    assert!(!pad.set(Button::Down, true), "holding it is no new edge");
    assert!(!pad.set(Button::Down, false), "a release is no falling edge");
    assert!(!pad.set(Button::Start, true), "the action row is not selected");
}

#[test]
fn nothing_selected_reads_released() {
    let mut pad = Joypad::new();
    pad.set(Button::A, true);
    pad.set(Button::Left, true);
    pad.write(0x30);
    assert_eq!(pad.read(), 0xFF);
}
