//! An integer percentage in `0..=100`.

use vstd::prelude::*;

verus! {

/// A percentage that is known to lie in `0..=100`.
#[derive(Debug, Clone, Copy, PartialEq, Eq)]
pub struct Percent(u8);

impl Percent {
    #[verifier::type_invariant]
    spec fn in_range(self) -> bool {
        self.0 <= 100
    }

    /// The number of percent.
    pub closed spec fn value(self) -> int {
        self.0 as int
    }

    /// Accepts `pct` exactly when it is at most 100.
    pub fn new(pct: u8) -> (res: Option<Percent>)
        ensures
            res is Some <==> pct <= 100,
            res matches Some(p) ==> p.value() == pct,
    {
        if pct <= 100 {
            Some(Percent(pct))
        } else {
            None
        }
    }

    /// The number of percent, at most 100.
    pub fn get(&self) -> (pct: u8)
        ensures
            pct == self.value(),
            pct <= 100,
    {
        proof {
            use_type_invariant(self);
        }
        self.0
    }
}

} // verus!
