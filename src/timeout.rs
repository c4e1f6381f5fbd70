use vstd::prelude::*;

verus! {

/// The largest timeout: `i64::MAX` nanoseconds.
pub const MAX_TIMEOUT_NANOS: u64 = 0x7fff_ffff_ffff_ffff;

/// How long a call may run: no limit, or a positive number of nanoseconds
/// no larger than `MAX_TIMEOUT_NANOS`.
#[derive(Clone, Copy, Debug, PartialEq, Eq, Structural)]
pub enum Timeout {
    Unlimited,
    /// Nanoseconds.
    Duration(u64),
}

impl Timeout {
    pub open spec fn wf(self) -> bool {
        match self {
            Timeout::Unlimited => true,
            Timeout::Duration(d) => 0 < d && d <= MAX_TIMEOUT_NANOS,
        }
    }

    /// The length in nanoseconds, zero for no limit.
    pub open spec fn spec_nanos(self) -> int {
        match self {
            Timeout::Unlimited => 0,
            Timeout::Duration(d) => d as int,
        }
    }

    /// A timeout of `nanos` nanoseconds, longer ones cut to the largest,
    /// zero meaning no limit.
    pub fn from_duration_nanos(nanos: u64) -> (r: Timeout)
        ensures
            r.wf(),
            nanos == 0 ==> r == Timeout::Unlimited,
            nanos != 0 ==> r == Timeout::Duration(if nanos > MAX_TIMEOUT_NANOS { MAX_TIMEOUT_NANOS } else { nanos }),
    {
        if nanos == 0 {
            Timeout::Unlimited
        } else if nanos > MAX_TIMEOUT_NANOS {
            Timeout::Duration(MAX_TIMEOUT_NANOS)
        } else {
            Timeout::Duration(nanos)
        }
    }

    /// The timeout of a request's `timeout_nano` field: zero or a negative
    /// value means no limit.
    pub fn from_nanos(nanos: i64) -> (r: Timeout)
        ensures
            r.wf(),
            nanos <= 0 ==> r == Timeout::Unlimited,
            nanos > 0 ==> r == Timeout::Duration(nanos as u64),
    {
        if nanos <= 0 {
            Timeout::Unlimited
        } else {
            Timeout::from_duration_nanos(nanos as u64)
        }
    }

    /// The value of a request's `timeout_nano` field for this timeout.
    pub fn as_nanos(&self) -> (r: i64)
        ensures
            r == (if self.spec_nanos() > MAX_TIMEOUT_NANOS { MAX_TIMEOUT_NANOS as int } else { self.spec_nanos() }),
    {
        match self {
            Timeout::Unlimited => 0,
            Timeout::Duration(d) => if *d > MAX_TIMEOUT_NANOS {
                MAX_TIMEOUT_NANOS as i64
            } else {
                *d as i64
            },
        }
    }
}

impl Default for Timeout {
    fn default() -> (r: Timeout)
        ensures
            r == Timeout::Unlimited,
    {
        Timeout::Unlimited
    }
}

/// A timeout sent in a request is read back as the same timeout.
pub proof fn lemma_timeout_round_trip(t: Timeout)
    requires
        t.wf(),
    ensures
        ({
            let n = if t.spec_nanos() > MAX_TIMEOUT_NANOS { MAX_TIMEOUT_NANOS as int } else { t.spec_nanos() };
            &&& n <= 0 ==> t == Timeout::Unlimited
            &&& n > 0 ==> t == Timeout::Duration(n as u64)
        }),
{
}

} // verus!
