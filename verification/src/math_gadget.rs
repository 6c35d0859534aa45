//! Gadgets on 256-bit words.

pub mod abs_word;
