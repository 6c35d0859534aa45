//! The Keccak-f[1600] permutation as arithmetic on digits.
//!
//! A 64-bit lane is held as a string of digits in a radix wider than 2, so
//! that the exclusive or of several bits is the parity of a sum of digits
//! that cannot carry, and the nonlinear step of a round is a weighted sum
//! read off a small table. Base 13 holds the eleven summands of theta; base
//! 9 holds the weighted sum of xi together with a round constant or an
//! absorbed lane.
//!
//! - [`plain`] is the permutation on 64-bit words, bit by bit.
//! - [`arith_helpers`] holds the lanes and their encodings, [`scalar`] the
//!   numbers that their digits spell and the relations between them.
//! - [`keccak_arith`] says what each step does to the digits, and
//!   [`correctness`] proves that this is the bitwise step.
//! - [`permutation`] is the engine: lookup tables, the five transformers,
//!   the round controller and the mixing gate, which either finalizes or
//!   absorbs the next block of a sponge.
//! - [`math_gadget`] and [`mock`] hold a gadget on 256-bit words and
//!   fixtures.

pub mod arith_helpers;
pub mod bits;
pub mod common;
pub mod correctness;
pub mod error;
pub mod keccak_arith;
pub mod math_gadget;
pub mod mock;
pub mod permutation;
pub mod plain;
pub mod scalar;
