//! Rounding of timestamps to a fixed interval.

use vstd::prelude::*;
use vstd::arithmetic::div_mod::{
    lemma_fundamental_div_mod, lemma_fundamental_div_mod_converse, lemma_mod_bound,
    lemma_mod_multiples_basic,
};

use crate::activity::{ts_in_range, TS_BOUND};
use crate::Error;

verus! {

/// The rounding of `t` to the nearest multiple of `interval`, measured from
/// the absolute epoch. Ties round forward (round-half-up).
pub open spec fn round_spec(t: int, interval: int) -> int
    recommends
        interval > 0,
{
    let rem = t % interval;
    if 2 * rem >= interval {
        t - rem + interval
    } else {
        t - rem
    }
}

/// A rounded timestamp is a multiple of the interval.
proof fn lemma_round_is_multiple(t: int, interval: int)
    requires
        interval > 0,
    ensures
        round_spec(t, interval) % interval == 0,
{
    lemma_fundamental_div_mod(t, interval);
    let q = t / interval;
    let rem = t % interval;
    if 2 * rem >= interval {
        assert(t - rem + interval == (q + 1) * interval) by (nonlinear_arith)
            requires
                t == interval * q + rem,
        ;
        lemma_mod_multiples_basic(q + 1, interval);
    } else {
        assert(t - rem == q * interval) by (nonlinear_arith)
            requires
                t == interval * q + rem,
        ;
        lemma_mod_multiples_basic(q, interval);
    }
}

/// Rounding to a fixed positive interval is idempotent: a second rounding
/// leaves the timestamp unchanged.
pub proof fn lemma_round_idempotent(t: int, interval: int)
    requires
        interval > 0,
    ensures
        round_spec(round_spec(t, interval), interval) == round_spec(t, interval),
{
    lemma_round_is_multiple(t, interval);
}

/// Rounds a timestamp to the nearest multiple of `interval` seconds from the
/// epoch, ties rounding forward; a non-positive interval is rejected.
pub fn round_datetime(t: i64, interval: i64) -> (r: Result<i64, Error>)
    requires
        ts_in_range(t as int),
        interval <= TS_BOUND,
    ensures
        match r {
            Ok(v) => interval > 0 && v == round_spec(t as int, interval as int),
            Err(e) => interval <= 0 && e == Error::InvalidInterval,
        },
{
    if interval <= 0 {
        return Err(Error::InvalidInterval);
    }
    let rem: i64 = if t >= 0 {
        t % interval
    } else {
        let u = -t;
        let ru = u % interval;
        if ru == 0 {
            0
        } else {
            interval - ru
        }
    };
    proof {
        if t < 0 {
            let ti = t as int;
            let d = interval as int;
            let ui = -ti;
            lemma_fundamental_div_mod(ui, d);
            lemma_mod_bound(ui, d);
            let qu = ui / d;
            let ru = ui % d;
            if ru == 0 {
                assert(ti == (-qu) * d + 0) by (nonlinear_arith)
                    requires
                        ui == d * qu + ru,
                        ru == 0,
                        ti == -ui,
                ;
                lemma_fundamental_div_mod_converse(ti, d, -qu, 0);
            } else {
                assert(ti == (-qu - 1) * d + (d - ru)) by (nonlinear_arith)
                    requires
                        ui == d * qu + ru,
                        ti == -ui,
                ;
                lemma_fundamental_div_mod_converse(ti, d, -qu - 1, d - ru);
            }
        }
    }
    assert(rem == (t as int) % (interval as int));
    if rem >= interval - rem {
        Ok(t - rem + interval)
    } else {
        Ok(t - rem)
    }
}

} // verus!
