//! Time on the local monotonic clock, in nanoseconds. Every function that needs the time is
//! handed it, so that all decisions can be replayed.
use vstd::prelude::*;

verus! {

/// One millisecond, in nanoseconds.
pub const MILLISECOND: u64 = 1_000_000;

/// One second, in nanoseconds.
pub const SECOND: u64 = 1_000_000_000;

/// A point on the local monotonic clock: nanoseconds since the clock's origin.
#[derive(Clone, Copy, Debug, PartialEq, Eq, Structural)]
pub struct Moment {
    pub nanos: u64,
}

impl Moment {
    /// The moment `delay` nanoseconds after this one. The clock's last moment is never passed.
    pub open spec fn after(self, delay: u64) -> Moment {
        Moment {
            nanos: if self.nanos + delay <= u64::MAX {
                (self.nanos + delay) as u64
            } else {
                u64::MAX
            },
        }
    }

    /// Nanoseconds from `earlier` to this moment; zero when `earlier` is not earlier.
    pub open spec fn elapsed_since(self, earlier: Moment) -> nat {
        if self.nanos >= earlier.nanos {
            (self.nanos - earlier.nanos) as nat
        } else {
            0
        }
    }

    /// The moment `delay` nanoseconds after this one. The clock's last moment is never passed.
    pub fn plus(self, delay: u64) -> (res: Moment)
        ensures
            res == self.after(delay),
    {
        Moment { nanos: self.nanos.saturating_add(delay) }
    }

    /// Nanoseconds from `earlier` to this moment; zero when `earlier` is not earlier.
    pub fn since(self, earlier: Moment) -> (res: u64)
        ensures
            res == self.elapsed_since(earlier),
    {
        if self.nanos >= earlier.nanos {
            self.nanos - earlier.nanos
        } else {
            0
        }
    }
}

/// The number of 64 bits nearest to `n`.
pub open spec fn clamp_i64(n: int) -> int {
    if n < i64::MIN {
        i64::MIN as int
    } else if n > i64::MAX {
        i64::MAX as int
    } else {
        n
    }
}

/// A media timestamp in nanoseconds, rounded down: `ticks` of a clock that ticks `rate` times a
/// second.
pub fn media_nanos(ticks: i64, rate: u32) -> (res: i64)
    requires
        rate > 0,
    ensures
        res == clamp_i64(ticks * SECOND / (rate as int)),
        i64::MIN < res < i64::MAX ==> res * rate <= ticks * 1_000_000_000 < (res + 1) * rate,
{
    proof {
        let n = ticks * SECOND;
        let d = rate as int;
        vstd::arithmetic::div_mod::lemma_fundamental_div_mod(n, d);
        assert(d * (n / d) == (n / d) * d && (n / d + 1) * d == (n / d) * d + d)
            by (nonlinear_arith);
    }
    let r: u128 = rate as u128;
    if ticks >= 0 {
        let n: u128 = (ticks as u128) * 1_000_000_000;
        let whole: u128 = n / r;
        if whole > i64::MAX as u128 {
            i64::MAX
        } else {
            whole as i64
        }
    } else {
        let size: u64 = if ticks == i64::MIN {
            0x8000_0000_0000_0000
        } else {
            (-ticks) as u64
        };
        let n: u128 = (size as u128) * 1_000_000_000;
        let whole: u128 = (n + (r - 1)) / r;
        proof {
            let a = n as int;
            let b = rate as int;
            let up = (a + (b - 1)) / b;
            assert((-a) / b == -up) by (nonlinear_arith)
                requires
                    b > 0,
                    a >= 0,
                    up == (a + (b - 1)) / b,
            ;
        }
        if whole > i64::MAX as u128 {
            i64::MIN
        } else {
            -(whole as i64)
        }
    }
}

/// A moment lies as long after another one as was added to it, and no time passes backwards.
pub proof fn lemma_time_passes_as_added(at: Moment, delay: u64)
    ensures
        at.nanos + delay <= u64::MAX ==> at.after(delay).nanos == at.nanos + delay && at.after(
            delay,
        ).elapsed_since(at) == delay,
        at.nanos + delay > u64::MAX ==> at.after(delay).nanos == u64::MAX,
        at.after(delay).nanos >= at.nanos,
        at.elapsed_since(at.after(delay)) == 0,
{
}

}
