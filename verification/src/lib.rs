//! Simple pseudo-random number generators with `O(log n)` jump-ahead.
//!
//! Every generator here advances by a simple per-step rule, and every
//! rule is either an affine map modulo some integer or a linear map over
//! GF(2).  Two engines therefore make bulk state-advance possible for
//! any of them:
//!
//! * [`bitcolumnmatrix`] — a GF(2) bit-matrix algebra that represents,
//!   composes and exponentiates linear bit-transformations, for the
//!   shift-register generators;
//! * [`maths`] — an overflow-safe modular-arithmetic toolkit
//!   (multiply-mod, exponent-mod, geometric series, canonical
//!   remainder), for the congruential and multiply-with-carry
//!   generators.
//!
//! The generator types ([`Cong`], [`SHR3`], [`MWC1`], [`MWC2`],
//! [`MWC64`], [`KISS`], [`KISS2`], [`LFSR88`], [`LFSR113`]) supply their
//! coefficients to these engines; each offers `new`, `next_u32`,
//! `next_u64` and `jumpahead`, and each `jumpahead` contract gives the
//! closed form of the state after `n` steps.  Seeding replaces the few
//! degenerate state values before stepping, so any seed is acceptable.

use vstd::prelude::*;

pub mod bitcolumnmatrix;
pub mod maths;

mod cong;
mod kiss;
mod lfsr;
mod mwc;
mod shr3;

pub use cong::Cong;
pub use kiss::KISS;
pub use kiss::KISS2;
pub use lfsr::LFSR113;
pub use lfsr::LFSR88;
pub use mwc::MWC1;
pub use mwc::MWC2;
pub use mwc::MWC64;
pub use shr3::SHR3;

verus! {

/// Advance a generator's internal state by `n` steps (`n` may be
/// negative: the distance is reduced modulo the cycle length of each
/// state component) without materializing the intermediate outputs.
///
/// This trait only names the shared capability; it carries no contract
/// because each generator's closed form is different.  The verified
/// contracts live on the inherent `jumpahead` method of each generator,
/// which every call through a concrete type resolves to.
pub trait RngJumpAhead {
    fn jumpahead(&mut self, n: i64);
}

} // verus!
