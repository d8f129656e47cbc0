//! A DMG Game Boy: CPU, bus, cartridge mappers, PPU, timer and joypad.
pub mod registers;
pub mod timer;
pub mod joypad;
pub mod cartridge;
pub mod ppu;
pub mod bus;
pub mod cpu;
pub mod machine;
