//! `Timeout`: a duration in whole milliseconds.
use vstd::prelude::*;

use crate::period::{Period, NANOS_PER_SEC};

verus! {

/// A timeout in milliseconds.
#[derive(Clone, Copy, Debug, PartialEq, Eq, Structural, Hash)]
pub struct Timeout(usize);

impl View for Timeout {
    /// The milliseconds.
    type V = nat;

    closed spec fn view(&self) -> nat {
        self.0 as nat
    }
}

/// The milliseconds of a period of `secs` seconds and `nanos` nanoseconds, or `usize::MAX` where
/// the seconds reach `usize::MAX / 1000`.
pub open spec fn period_millis(secs: nat, nanos: nat) -> nat {
    if secs >= usize::MAX / 1000 {
        usize::MAX as nat
    } else {
        secs * 1000 + nanos / 1_000_000
    }
}

/// The timeout a new `Timeout` has by default, in milliseconds.
pub const DEFAULT_TIMEOUT_MS: usize = 60_000;

impl Timeout {
    /// A timeout of `timeout_ms` milliseconds.
    pub fn new(timeout_ms: usize) -> (r: Timeout)
        ensures
            r@ == timeout_ms,
    {
        Timeout(timeout_ms)
    }

    /// The milliseconds.
    pub fn millis(&self) -> (r: usize)
        ensures
            r == self@,
    {
        self.0
    }

    /// The milliseconds of `p`, saturating at `usize::MAX` rather than failing.
    pub fn from_period(p: Period) -> (r: Timeout)
        ensures
            r@ == period_millis(p@.0, p@.1),
    {
        let secs = p.as_secs();
        let nanos = p.subsec_nanos();
        if secs as u128 >= (usize::MAX / 1000) as u128 {
            Timeout(usize::MAX)
        } else {
            let s = secs as usize;
            let ms = (nanos as u64 / 1_000_000) as usize;
            assert(ms < 1000) by {
                assert(nanos < NANOS_PER_SEC);
            }
            assert(s * 1000 + 999 <= usize::MAX) by (nonlinear_arith)
                requires
                    s < usize::MAX / 1000,
            ;
            Timeout(s * 1000 + ms)
        }
    }
}

impl Default for Timeout {
    fn default() -> (r: Timeout)
        ensures
            r@ == DEFAULT_TIMEOUT_MS,
    {
        Timeout(DEFAULT_TIMEOUT_MS)
    }
}

impl From<usize> for Timeout {
    fn from(millis: usize) -> (r: Timeout)
        ensures
            r@ == millis,
    {
        Timeout(millis)
    }
}

impl vstd::std_specs::convert::FromSpecImpl<usize> for Timeout {
    open spec fn obeys_from_spec() -> bool {
        true
    }

    closed spec fn from_spec(millis: usize) -> Timeout {
        Timeout(millis)
    }
}

impl From<Period> for Timeout {
    /// The milliseconds of `p`, saturating at `usize::MAX` rather than failing.
    fn from(p: Period) -> (r: Timeout)
        ensures
            r@ == period_millis(p@.0, p@.1),
    {
        Timeout::from_period(p)
    }
}

impl vstd::std_specs::convert::FromSpecImpl<Period> for Timeout {
    open spec fn obeys_from_spec() -> bool {
        true
    }

    closed spec fn from_spec(p: Period) -> Timeout {
        Timeout(period_millis(p@.0, p@.1) as usize)
    }
}

} // verus!
