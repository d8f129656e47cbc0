# gameboy

A DMG (first-generation, monochrome Game Boy) emulator whose core is verified with
Verus: the CPU, the bus, the cartridge mappers, the PPU, the timer and the
joypad each state in `requires`/`ensures` what they do, over plain-value
models of the machine, and the proofs are checked.

| Path | |
| --- | --- |
| `src/registers.rs` | The register file, the 16-bit pairs, the flag bits |
| `src/timer.rs` | DIV, TIMA, TMA and TAC, cycle by cycle |
| `src/joypad.rs` | The button matrix behind `P1` |
| `src/cartridge.rs` | Header parsing and its report, and the MBC banking logic |
| `src/ppu.rs` | The LCD schedule, STAT/LY, and the scanline renderer |
| `src/bus.rs` | Address decoding, I/O registers, DMA, the serial port |
| `src/cpu.rs` | Instruction decode and execution, interrupt dispatch, the halt bug |
| `src/machine.rs` | One step of the whole machine |
| `app/main.rs` | Argument handling, the window, the frame loop, tracing |
| `tests/` | Scenarios on concrete values |

Each module carries the laws it keeps as proof functions: pairs round-trip,
the timer counts whole periods, RAM reads back what was written, sprites
obey the priority rule, the LCD schedule keeps time modulo a frame, an
interrupt dispatch pushes a return address that a pop gives back, DAA after
a BCD addition or subtraction gives the decimal result, VBlank comes once a
frame over any run of ticks, and no instruction stores anything in the low
nibble of F.

A ROM image shorter than its header declares still runs: reads and writes
need only the byte they touch, and a step needs only the bytes its
instruction may read (the opcode and operands, (HL), (BC), (DE), the stack
and a 16-bit operand address); `Cpu::can_step` says whether it has them. The
frontend's trace line is built by `Cpu::trace_line`.

Run with `cargo run --release -- path/to/rom.gb` from the frontend; the
environment switches `GB_TRACE`, `GB_STEPS`, `GB_ASCII` and `GB_DOCTOR`
behave as their names suggest: a trace file, a headless run of so many
instructions, a text dump of the last frame, and LY pinned to 0x90.
