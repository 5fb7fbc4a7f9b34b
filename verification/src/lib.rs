//! A CHIP-8 virtual machine: instruction codec, processor state, memory,
//! display and keypad, with every operation specified and machine-checked.

pub mod cpu;
pub mod display;
pub mod emulator;
pub mod input;
pub mod mem;
