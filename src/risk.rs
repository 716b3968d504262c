use vstd::prelude::*;

verus! {

/// Seconds in one day: the unit in which durations are given.
pub const SECONDS_PER_DAY: u64 = 86400;

/// Integer division truncating toward zero, as Rust's `/` does on signed values.
pub open spec fn trunc_div(x: int, d: int) -> int {
    if x == 0 {
        0
    } else if x > 0 && d > 0 {
        x / d
    } else if x < 0 && d < 0 {
        (-x) / (-d)
    } else if x < 0 {
        -((-x) / d)
    } else {
        -(x / (-d))
    }
}

/// The signed loss of `current` against `initial`, in whole percent, truncated toward zero.
/// A gain gives a negative percent; no capital at risk (`initial == 0`) gives zero.
pub open spec fn drawdown_of(initial: int, current: int) -> int {
    if initial == 0 {
        0
    } else {
        trunc_div((initial - current) * 100, initial)
    }
}

/// The scaled loss `(initial - current) * 100` is representable in `i128`.
pub open spec fn drawdown_fits(initial: int, current: int) -> bool {
    initial == 0 || (i128::MIN <= (initial - current) * 100 <= i128::MAX)
}

/// The loss exceeds the limit strictly: a drawdown equal to the limit is compliant.
pub open spec fn loss_violated(initial: int, current: int, max_loss_percent: int) -> bool {
    initial != 0 && drawdown_of(initial, current) > max_loss_percent
}

/// A deadline counts as passed from the exact expiry instant on.
pub open spec fn duration_violated(now: int, expires_at: int) -> bool {
    now >= expires_at
}

pub open spec fn abs(x: int) -> int {
    if x >= 0 { x } else { -x }
}

pub(crate) proof fn lemma_trunc_div_bounded(x: int, d: int)
    requires
        d != 0,
    ensures
        abs(trunc_div(x, d)) <= abs(x),
        trunc_div(x, d) == 0 || (trunc_div(x, d) > 0) == ((x > 0) == (d > 0)),
{
    if x > 0 && d > 0 {
        assert(x / d <= x && x / d >= 0) by (nonlinear_arith) requires x > 0, d > 0;
    } else if x < 0 && d < 0 {
        assert((-x) / (-d) <= -x && (-x) / (-d) >= 0) by (nonlinear_arith) requires -x > 0, -d > 0;
    } else if x < 0 {
        assert((-x) / d <= -x && (-x) / d >= 0) by (nonlinear_arith) requires -x > 0, d > 0;
    } else if x > 0 {
        assert(x / (-d) <= x && x / (-d) >= 0) by (nonlinear_arith) requires x > 0, -d > 0;
    }
}

/// Whether the commitment has reached its expiry at time `now` (inclusive).
pub fn is_duration_violated(now: u64, expires_at: u64) -> (r: bool)
    ensures
        r == duration_violated(now as int, expires_at as int),
        now == expires_at ==> r,
{
    now >= expires_at
}

} // verus!
