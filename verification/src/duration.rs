//! Spans of time, counted in nanoseconds.
use vstd::prelude::*;

verus! {

/// The longest span: as many seconds as an `u64` counts, and the nanoseconds short of
/// another.
pub const MAX_NANOS: u128 = 18446744073709551615_999999999;

/// A span of time.
#[derive(Debug, Clone, Copy, PartialEq, Eq)]
pub struct Duration {
    nanos: u128,
}

impl View for Duration {
    type V = nat;

    closed spec fn view(&self) -> nat {
        self.nanos as nat
    }
}

/// The shorter of two spans.
pub open spec fn shorter(a: nat, b: nat) -> nat {
    if b < a {
        b
    } else {
        a
    }
}

/// A span of seconds and nanoseconds as Rust's `{:?}` prints it.
pub uninterp spec fn span_text(secs: u64, nanos: u32) -> Seq<char>;

/// Calls the `Debug` of `std::time::Duration`. The contract names what it prints. The
/// nanoseconds are short of a second, so `Duration::new` carries nothing over.
#[verifier::external_body]
fn print_span(secs: u64, nanos: u32) -> (r: String)
    requires
        nanos < 1_000_000_000,
    ensures
        r@ == span_text(secs, nanos),
{
    format!("{:?}", std::time::Duration::new(secs, nanos))
}

/// A span as text, such as `30s`.
pub open spec fn spelled(nanos: nat) -> Seq<char> {
    span_text((nanos / 1_000_000_000) as u64, (nanos % 1_000_000_000) as u32)
}

impl Duration {
    #[verifier::type_invariant]
    spec fn bounded(self) -> bool {
        self.nanos <= MAX_NANOS
    }

    /// A span of whole seconds.
    pub fn from_secs(secs: u64) -> (r: Duration)
        ensures
            r@ == secs * 1_000_000_000,
    {
        Duration { nanos: secs as u128 * 1_000_000_000 }
    }

    /// A span of whole milliseconds.
    pub fn from_millis(millis: u64) -> (r: Duration)
        ensures
            r@ == millis * 1_000_000,
    {
        Duration { nanos: millis as u128 * 1_000_000 }
    }

    /// The span in nanoseconds.
    pub fn as_nanos(&self) -> (r: u128)
        ensures
            r == self@,
            r <= MAX_NANOS,
    {
        proof {
            use_type_invariant(self);
        }
        self.nanos
    }

    /// The span taken `factor` times, or the longest span where that is longer.
    pub fn saturating_mul(self, factor: u32) -> (r: Duration)
        ensures
            r@ == shorter(self@ * factor as nat, MAX_NANOS as nat),
    {
        proof {
            use_type_invariant(&self);
        }
        assert(self.nanos * factor <= MAX_NANOS * 0xffff_ffff) by (nonlinear_arith)
            requires
                self.nanos <= MAX_NANOS,
                factor <= 0xffff_ffff,
        ;
        let product: u128 = self.nanos * factor as u128;
        if product > MAX_NANOS {
            Duration { nanos: MAX_NANOS }
        } else {
            Duration { nanos: product }
        }
    }

    /// What is left of the span when another is taken off; nothing where that is longer.
    pub fn saturating_sub(self, other: Duration) -> (r: Duration)
        ensures
            r@ == if other@ < self@ {
                (self@ - other@) as nat
            } else {
                0
            },
    {
        proof {
            use_type_invariant(&self);
        }
        if other.nanos < self.nanos {
            Duration { nanos: self.nanos - other.nanos }
        } else {
            Duration { nanos: 0 }
        }
    }

    /// The span as text.
    pub fn debug_text(&self) -> (r: String)
        ensures
            r@ == spelled(self@),
    {
        proof {
            use_type_invariant(self);
        }
        print_span((self.nanos / 1_000_000_000) as u64, (self.nanos % 1_000_000_000) as u32)
    }

    /// The shorter of two spans.
    pub fn min(self, other: Duration) -> (r: Duration)
        ensures
            r@ == shorter(self@, other@),
    {
        if other.nanos < self.nanos {
            other
        } else {
            self
        }
    }
}

} // verus!
