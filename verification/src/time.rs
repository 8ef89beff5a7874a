//! Instants and waits, counted in whole nanoseconds.

use vstd::prelude::*;

verus! {

/// Nanoseconds in one second.
pub const NANOS_PER_SEC: u32 = 1_000_000_000;

/// Seconds from the Unix epoch to the first instant the calendar can name
/// (midnight of January 1st, 262144 BCE).
pub const MIN_SECS: i64 = -8_334_601_228_800;

/// Seconds from the Unix epoch to the last second the calendar can name
/// (the end of December 31st, 262142 CE).
pub const MAX_SECS: i64 = 8_210_266_876_799;

/// Whether `secs` and `nanos` name an instant of the calendar.
pub open spec fn in_calendar(secs: int, nanos: int) -> bool {
    &&& MIN_SECS <= secs <= MAX_SECS
    &&& 0 <= nanos < NANOS_PER_SEC
}

/// An instant in UTC: whole seconds since the Unix epoch and the nanoseconds
/// into that second.
#[derive(Clone, Copy, Debug, PartialEq, Eq, PartialOrd, Ord)]
pub struct Timestamp {
    pub(crate) secs: i64,
    pub(crate) nanos: u32,
}

impl View for Timestamp {
    type V = int;

    /// Nanoseconds since the Unix epoch.
    closed spec fn view(&self) -> int {
        self.secs * NANOS_PER_SEC + self.nanos
    }
}

impl Timestamp {
    #[verifier::type_invariant]
    spec fn in_range(self) -> bool {
        in_calendar(self.secs as int, self.nanos as int)
    }

    /// The instant `nanos` nanoseconds after the second `secs`, where the
    /// calendar has such an instant.
    pub fn new(secs: i64, nanos: u32) -> (r: Option<Timestamp>)
        ensures
            r is Some <==> in_calendar(secs as int, nanos as int),
            r matches Some(t) ==> t@ == secs * NANOS_PER_SEC + nanos,
    {
        if MIN_SECS <= secs && secs <= MAX_SECS && nanos < NANOS_PER_SEC {
            Some(Timestamp { secs, nanos })
        } else {
            None
        }
    }

    /// Whole seconds since the Unix epoch, rounded down.
    pub fn secs(&self) -> (r: i64)
        ensures
            r == self@ / (NANOS_PER_SEC as int),
            MIN_SECS <= r <= MAX_SECS,
    {
        proof {
            use_type_invariant(self);
        }
        self.secs
    }

    /// Nanoseconds into the second.
    pub fn nanos(&self) -> (r: u32)
        ensures
            r == self@ % (NANOS_PER_SEC as int),
    {
        proof {
            use_type_invariant(self);
        }
        self.nanos
    }

    /// Whether `self` is no later than `other`.
    pub fn le(&self, other: &Timestamp) -> (r: bool)
        ensures
            r == (self@ <= other@),
    {
        proof {
            use_type_invariant(self);
            use_type_invariant(other);
        }
        self.secs < other.secs || (self.secs == other.secs && self.nanos <= other.nanos)
    }

    /// Whether `self` is earlier than `other`.
    pub fn lt(&self, other: &Timestamp) -> (r: bool)
        ensures
            r == (self@ < other@),
    {
        proof {
            use_type_invariant(self);
            use_type_invariant(other);
        }
        self.secs < other.secs || (self.secs == other.secs && self.nanos < other.nanos)
    }
}

/// A stretch of time that is not negative: whole seconds and the nanoseconds
/// beyond them.
#[derive(Clone, Copy, Debug, PartialEq, Eq, Structural)]
pub struct Wait {
    pub secs: u64,
    pub nanos: u32,
}

impl View for Wait {
    type V = int;

    /// The length of the wait in nanoseconds.
    open spec fn view(&self) -> int {
        self.secs * NANOS_PER_SEC + self.nanos
    }
}

impl Wait {
    /// Whether the nanoseconds stay below one second.
    pub open spec fn wf(&self) -> bool {
        self.nanos < NANOS_PER_SEC
    }
}

impl Timestamp {
    /// How long `now` has to wait for `self`: `None` when `self` has come
    /// already, the exact distance otherwise.
    pub fn until(&self, now: &Timestamp) -> (r: Option<Wait>)
        ensures
            r is Some <==> self@ > now@,
            r matches Some(w) ==> w.wf() && w@ == self@ - now@,
    {
        proof {
            use_type_invariant(self);
            use_type_invariant(now);
        }
        if self.le(now) {
            None
        } else if self.nanos >= now.nanos {
            Some(Wait { secs: (self.secs - now.secs) as u64, nanos: self.nanos - now.nanos })
        } else {
            Some(
                Wait {
                    secs: (self.secs - now.secs - 1) as u64,
                    nanos: NANOS_PER_SEC - now.nanos + self.nanos,
                },
            )
        }
    }
}

} // verus!
