//! Spans of time.

use vstd::prelude::*;

verus! {

/// How many nanoseconds make a second.
pub const NANOS_PER_SEC: u32 = 1_000_000_000;

/// A span of time: whole seconds and the nanoseconds beyond them.
#[derive(Debug, Clone, Copy, PartialEq, Eq)]
pub struct Span {
    pub(crate) secs: u64,
    pub(crate) nanos: u32,
}

impl View for Span {
    type V = nat;

    /// The length of the span in nanoseconds.
    closed spec fn view(&self) -> nat {
        self.secs as nat * 1_000_000_000 + self.nanos as nat
    }
}

/// The whole milliseconds of a span of so many nanoseconds.
pub open spec fn millis(nanos: nat) -> nat {
    nanos / 1_000_000
}

/// The text that `std::time::Duration` writes for debugging, of a span of so
/// many nanoseconds.
pub uninterp spec fn span_text(nanos: nat) -> Seq<char>;

/// The text of a span: the `Debug` form of `std::time::Duration`.
///
/// The text depends on the length of the span alone and is called
/// [`span_text`] of it; the unit that it picks and the digits that it writes
/// are not stated.
#[verifier::external_body]
fn duration_text(secs: u64, nanos: u32) -> (r: String)
    requires
        nanos < NANOS_PER_SEC,
    ensures
        r@ == span_text(secs as nat * 1_000_000_000 + nanos as nat),
{
    format!("{:?}", std::time::Duration::new(secs, nanos))
}

impl Span {
    #[verifier::type_invariant]
    spec fn in_range(self) -> bool {
        self.nanos < NANOS_PER_SEC
    }

    /// The span of so many seconds and nanoseconds; nothing where the
    /// nanoseconds would make another second.
    pub fn new(secs: u64, nanos: u32) -> (r: Option<Span>)
        ensures
            match r {
                Some(span) => nanos < NANOS_PER_SEC && span@ == secs as nat * 1_000_000_000
                    + nanos as nat,
                None => nanos >= NANOS_PER_SEC,
            },
    {
        if nanos < NANOS_PER_SEC {
            Some(Span { secs, nanos })
        } else {
            None
        }
    }

    /// The span of so many milliseconds.
    pub fn from_millis(ms: u64) -> (r: Span)
        ensures
            r@ == ms as nat * 1_000_000,
    {
        let secs: u64 = ms / 1000;
        let nanos: u32 = (ms % 1000) as u32 * 1_000_000;
        Span { secs, nanos }
    }

    /// The whole seconds of the span.
    pub fn as_secs(&self) -> (r: u64)
        ensures
            r as nat == self@ / 1_000_000_000,
    {
        proof {
            use_type_invariant(self);
        }
        self.secs
    }

    /// The nanoseconds of the span beyond its whole seconds.
    pub fn subsec_nanos(&self) -> (r: u32)
        ensures
            r as nat == self@ % 1_000_000_000,
    {
        proof {
            use_type_invariant(self);
        }
        self.nanos
    }

    /// The whole milliseconds of the span.
    pub fn as_millis(&self) -> (r: u128)
        ensures
            r as nat == millis(self@),
    {
        proof {
            use_type_invariant(self);
        }
        self.secs as u128 * 1000 + (self.nanos / 1_000_000) as u128
    }

    /// The text of the span.
    pub fn text(&self) -> (r: String)
        ensures
            r@ == span_text(self@),
    {
        proof {
            use_type_invariant(self);
        }
        duration_text(self.secs, self.nanos)
    }

    /// Whether this span is at least as long as the other.
    pub fn reaches(&self, other: Span) -> (r: bool)
        ensures
            r == (self@ >= other@),
    {
        proof {
            use_type_invariant(self);
            use_type_invariant(&other);
        }
        self.secs > other.secs || (self.secs == other.secs && self.nanos >= other.nanos)
    }
}

/// What is left of `timeout` once `elapsed` has passed; nothing at the
/// deadline or after it.
pub fn time_left(timeout: Span, elapsed: Span) -> (r: Option<Span>)
    ensures
        match r {
            Some(left) => elapsed@ < timeout@ && left@ == timeout@ - elapsed@,
            None => elapsed@ >= timeout@,
        },
{
    if elapsed.reaches(timeout) {
        return None;
    }
    proof {
        use_type_invariant(&timeout);
        use_type_invariant(&elapsed);
    }
    if timeout.nanos >= elapsed.nanos {
        Some(Span { secs: timeout.secs - elapsed.secs, nanos: timeout.nanos - elapsed.nanos })
    } else {
        Some(
            Span {
                secs: timeout.secs - elapsed.secs - 1,
                nanos: timeout.nanos + (NANOS_PER_SEC - elapsed.nanos),
            },
        )
    }
}

} // verus!
