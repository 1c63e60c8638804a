//! A minimal text-mode display driver: a logical cursor over a fixed-size
//! character grid, with primitives to write characters, strings and numbers
//! in hexadecimal.

pub mod cursor;
pub mod terminal;
pub mod vga;
