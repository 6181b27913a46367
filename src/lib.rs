//! A CHIP-8 interpreter core: memory, registers, call stack, timers and a
//! one-bit display, driven one instruction at a time by a host.
pub mod display;
pub mod input;
pub mod machine;
pub mod return_stack;
pub mod semantics;

pub use display::{convert_display_buffer, draw_chip8};
pub use input::get_chip8_keys;
pub use machine::{Chip8, Chip8Error, Registers, SCREEN_HEIGHT, SCREEN_WIDTH};
pub use return_stack::{ReturnStack, StackError};
