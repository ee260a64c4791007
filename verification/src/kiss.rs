//! KISS — "Keep It Simple Stupid" combination generators.
//!
//! `KISS` combines MWC2, Cong and SHR3; `KISS2` combines MWC64, Cong and
//! SHR3.  A step advances every component, and a jump advances every
//! component by the same distance, so both inherit `O(log n)` jump-ahead
//! from their parts.

use crate::cong::{cong_iter, cong_next, Cong};
use crate::maths;
use crate::mwc::{
    mwc2_current, mwc2_next_state, mwc32_sanitised, mwc64_next_state, mwc64_sanitised, MWC2, MWC64,
};
use crate::shr3::{shr3_iter, shr3_next, shr3_sanitised, SHR3};
use vstd::arithmetic::power::pow;
use vstd::prelude::*;

verus! {

/// KISS — MWC2, Cong and SHR3 combined; period about `2^123`.
#[derive(Debug, Clone, PartialEq, Eq, Structural)]
pub struct KISS {
    pub mwc: MWC2,
    pub cong: Cong,
    pub shr3: SHR3,
}

/// The state of KISS after one step of every component.
pub open spec fn kiss_next_state(s: KISS) -> KISS {
    (KISS {
        mwc: mwc2_next_state(s.mwc),
        cong: (Cong { cong: cong_next(s.cong.cong) }),
        shr3: (SHR3 { shr3: shr3_next(shr3_sanitised(s.shr3.shr3)) }),
    })
}

/// The output word of KISS: `(mwc ⊕ cong) + shr3`, with wrapping.
pub open spec fn kiss_current(s: KISS) -> u32 {
    (((mwc2_current(s.mwc) ^ s.cong.cong) + s.shr3.shr3) % 0x1_0000_0000) as u32
}

impl KISS {
    pub fn new(seed1: u32, seed2: u32, seed3: u32, seed4: u32) -> (r: KISS)
        ensures
            r.mwc.upper == seed1,
            r.mwc.lower == seed2,
            r.cong.cong == seed3,
            r.shr3.shr3 == seed4,
    {
        KISS { mwc: MWC2::new(seed1, seed2), cong: Cong::new(seed3), shr3: SHR3::new(seed4) }
    }

    /// The output word for the current state.
    pub fn current(&self) -> (r: u32)
        ensures
            r == kiss_current(*self),
    {
        let combined = self.mwc.current() ^ self.cong.cong;
        let r = combined.wrapping_add(self.shr3.shr3);
        proof {
            maths::lemma_wadd_u32(combined, self.shr3.shr3);
        }
        r
    }

    /// Advance every component one step and combine.
    pub fn next_u32(&mut self) -> (r: u32)
        ensures
            *final(self) == kiss_next_state(*old(self)),
            r == kiss_current(*final(self)),
    {
        self.mwc.next_u32();
        self.cong.next_u32();
        self.shr3.next_u32();

        self.current()
    }

    /// Two steps, low word drawn first.
    pub fn next_u64(&mut self) -> (r: u64)
        ensures
            *final(self) == kiss_next_state(kiss_next_state(*old(self))),
            r == kiss_current(kiss_next_state(*old(self))) + kiss_current(*final(self))
                * 0x1_0000_0000,
    {
        let x = self.next_u32();
        let y = self.next_u32();
        proof {
            maths::lemma_u32_pair_u64(x, y);
        }
        (x as u64) | ((y as u64) << 32u64)
    }

    /// Advance every component by `n` steps, each reducing `n` modulo
    /// its own cycle structure.
    pub fn jumpahead(&mut self, n: i64)
        ensures
            final(self).mwc.upper as int == (pow(36969, ((n as int) % 0x48347FFFint) as nat)
                * mwc32_sanitised(old(self).mwc.upper, 0x9068FFFFu32)) % 0x9068FFFFint,
            final(self).mwc.lower as int == (pow(18000, ((n as int) % 0x2327FFFFint) as nat)
                * mwc32_sanitised(old(self).mwc.lower, 0x464FFFFFu32)) % 0x464FFFFFint,
            final(self).cong.cong == cong_iter(
                old(self).cong.cong,
                ((n as int) % 0x1_0000_0000) as nat,
            ),
            final(self).shr3.shr3 == shr3_iter(
                shr3_sanitised(old(self).shr3.shr3),
                ((n as int) % 0xFFFF_FFFF) as nat,
            ),
    {
        self.mwc.jumpahead(n);
        self.cong.jumpahead(n);
        self.shr3.jumpahead(n);
    }
}

/// KISS2 — MWC64, Cong and SHR3 combined; period about `2^123`.
#[derive(Debug, Clone, PartialEq, Eq, Structural)]
pub struct KISS2 {
    pub mwc: MWC64,
    pub cong: Cong,
    pub shr3: SHR3,
}

/// The state of KISS2 after one step of every component.
pub open spec fn kiss2_next_state(s: KISS2) -> KISS2 {
    (KISS2 {
        mwc: mwc64_next_state(s.mwc),
        cong: (Cong { cong: cong_next(s.cong.cong) }),
        shr3: (SHR3 { shr3: shr3_next(shr3_sanitised(s.shr3.shr3)) }),
    })
}

/// The output word of KISS2: `mwc + cong + shr3`, with wrapping.
pub open spec fn kiss2_current(s: KISS2) -> u32 {
    (((s.mwc.mwc as u32) + s.cong.cong + s.shr3.shr3) % 0x1_0000_0000) as u32
}

impl KISS2 {
    pub fn new(seed1: u32, seed2: u32, seed3: u32, seed4: u32) -> (r: KISS2)
        ensures
            r.mwc.mwc == ((seed1 as u64) << 32u64) ^ (seed2 as u64),
            r.cong.cong == seed3,
            r.shr3.shr3 == seed4,
    {
        KISS2 { mwc: MWC64::new(seed1, seed2), cong: Cong::new(seed3), shr3: SHR3::new(seed4) }
    }

    /// The output word for the current state.
    pub fn current(&self) -> (r: u32)
        ensures
            r == kiss2_current(*self),
    {
        let low = self.mwc.current();
        let partial = low.wrapping_add(self.cong.cong);
        let r = partial.wrapping_add(self.shr3.shr3);
        proof {
            maths::lemma_wadd_u32(low, self.cong.cong);
            maths::lemma_wadd_u32(partial, self.shr3.shr3);
            vstd::arithmetic::div_mod::lemma_add_mod_noop(
                low as int + self.cong.cong as int,
                self.shr3.shr3 as int,
                0x1_0000_0000,
            );
            vstd::arithmetic::div_mod::lemma_mod_twice(
                low as int + self.cong.cong as int,
                0x1_0000_0000,
            );
            vstd::arithmetic::div_mod::lemma_mod_twice(self.shr3.shr3 as int, 0x1_0000_0000);
        }
        r
    }

    /// Advance every component one step and combine.
    pub fn next_u32(&mut self) -> (r: u32)
        ensures
            *final(self) == kiss2_next_state(*old(self)),
            r == kiss2_current(*final(self)),
    {
        self.mwc.next_u32();
        self.cong.next_u32();
        self.shr3.next_u32();

        self.current()
    }

    /// Two steps, low word drawn first.
    pub fn next_u64(&mut self) -> (r: u64)
        ensures
            *final(self) == kiss2_next_state(kiss2_next_state(*old(self))),
            r == kiss2_current(kiss2_next_state(*old(self))) + kiss2_current(*final(self))
                * 0x1_0000_0000,
    {
        let x = self.next_u32();
        let y = self.next_u32();
        proof {
            maths::lemma_u32_pair_u64(x, y);
        }
        (x as u64) | ((y as u64) << 32u64)
    }

    /// Advance every component by `n` steps, each reducing `n` modulo
    /// its own cycle structure.
    pub fn jumpahead(&mut self, n: i64)
        ensures
            final(self).mwc.mwc as int == (pow(
                698769069,
                ((n as int) % 0x14D32F567FFFFFFFint) as nat,
            ) * mwc64_sanitised(old(self).mwc.mwc, 0x29A65EACFFFFFFFFu64)) % 0x29A65EACFFFFFFFFint,
            final(self).cong.cong == cong_iter(
                old(self).cong.cong,
                ((n as int) % 0x1_0000_0000) as nat,
            ),
            final(self).shr3.shr3 == shr3_iter(
                shr3_sanitised(old(self).shr3.shr3),
                ((n as int) % 0xFFFF_FFFF) as nat,
            ),
    {
        self.mwc.jumpahead(n);
        self.cong.jumpahead(n);
        self.shr3.jumpahead(n);
    }
}

impl crate::RngJumpAhead for KISS {
    fn jumpahead(&mut self, n: i64) {
        self.jumpahead(n);
    }
}

impl crate::RngJumpAhead for KISS2 {
    fn jumpahead(&mut self, n: i64) {
        self.jumpahead(n);
    }
}

} // verus!
