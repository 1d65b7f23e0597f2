//! Histogram axis ticks.

use vstd::prelude::*;
use crate::text::{dec_seq, strs, usize_string};

verus! {

/// The step between integer ticks: the maximum spread over the gaps
/// between ticks, at least one.
pub open spec fn tick_step(max_int: nat, tick_count: nat) -> nat {
    let s = max_int / ((tick_count - 1) as nat);
    if s >= 1 {
        s
    } else {
        1
    }
}

/// The top tick: the first multiple of the step at or above the maximum.
pub open spec fn nice_max(max_int: nat, tick_count: nat) -> nat {
    let step = tick_step(max_int, tick_count) as int;
    (((max_int + step - 1) / step) * step) as nat
}

/// Integer tick labels from the top tick down to zero, one step apart.
pub open spec fn integer_ticks_spec(max_int: nat, tick_count: nat) -> Seq<Seq<char>> {
    let step = tick_step(max_int, tick_count);
    let top = nice_max(max_int, tick_count);
    Seq::new(top / step + 1, |i: int| dec_seq((top - i * step) as nat))
}

/// Integer tick labels for small counts.
pub fn compute_integer_ticks(max_int: usize, tick_count: usize) -> (r: Vec<String>)
    requires
        tick_count >= 2,
        nice_max(max_int as nat, tick_count as nat) <= usize::MAX,
    ensures
        strs(r@) == integer_ticks_spec(max_int as nat, tick_count as nat),
{
    let q = max_int / (tick_count - 1);
    let step: usize = if q >= 1 { q } else { 1 };
    assert(step == tick_step(max_int as nat, tick_count as nat));
    let ghost top = nice_max(max_int as nat, tick_count as nat);
    let ghost k: int = (max_int as int + step as int - 1) / (step as int);
    assert(top == k * step);
    assert(k * step <= usize::MAX);
    let ups: usize = if max_int % step == 0 {
        max_int / step
    } else {
        assert(max_int / step < max_int) by (nonlinear_arith)
            requires
                step >= 2,
                max_int >= 1,
        ;
        max_int / step + 1
    };
    assert(ups == k) by (nonlinear_arith)
        requires
            step >= 1,
            k == (max_int as int + step as int - 1) / (step as int),
            ups as int == max_int as int / step as int + if max_int as int % step as int == 0 { 0int } else { 1int },
    ;
    let nice: usize = ups * step;
    assert(k <= nice) by (nonlinear_arith)
        requires
            step >= 1,
            k >= 0,
            nice == k * step,
    ;
    assert(nice / step == k) by (nonlinear_arith)
        requires
            step >= 1,
            nice == k * step,
    ;
    let mut ticks: Vec<String> = Vec::new();
    let mut v: usize = nice;
    let mut i: usize = 0;
    loop
        invariant_except_break
            step >= 1,
            step == tick_step(max_int as nat, tick_count as nat),
            nice == nice_max(max_int as nat, tick_count as nat),
            nice == k * step,
            k <= nice,
            i <= k,
            v == nice - i * step,
            strs(ticks@) =~= integer_ticks_spec(max_int as nat, tick_count as nat).take(i as int),
            integer_ticks_spec(max_int as nat, tick_count as nat).len() == k + 1,
        ensures
            strs(ticks@) =~= integer_ticks_spec(max_int as nat, tick_count as nat),
        decreases k - i,
    {
        let ghost prev = strs(ticks@);
        let t = usize_string(v);
        ticks.push(t);
        assert(strs(ticks@) =~= prev.push(t@));
        assert(integer_ticks_spec(max_int as nat, tick_count as nat)[i as int] == t@);
        if v == 0 {
            assert(i == k) by (nonlinear_arith)
                requires
                    step >= 1,
                    i <= k,
                    0 == k * step - i * step,
            ;
            assert(integer_ticks_spec(max_int as nat, tick_count as nat).take(i + 1)
                =~= integer_ticks_spec(max_int as nat, tick_count as nat));
            break;
        }
        assert(i < k) by (nonlinear_arith)
            requires
                step >= 1,
                i <= k,
                v == k * step - i * step,
                v != 0,
        ;
        assert(v >= step) by (nonlinear_arith)
            requires
                step >= 1,
                i < k,
                v == k * step - i * step,
        ;
        v = v - step;
        i = i + 1;
        assert(v == nice - i * step) by (nonlinear_arith)
            requires
                v == nice - (i - 1) * step - step,
        ;
    }
    ticks
}


/// The ticks run from a top at or above the maximum down to `0`.
pub proof fn law_ticks_cover_the_range(max_int: nat, tick_count: nat)
    requires
        tick_count >= 2,
    ensures
        nice_max(max_int, tick_count) >= max_int,
        integer_ticks_spec(max_int, tick_count)[0] == dec_seq(nice_max(max_int, tick_count)),
        integer_ticks_spec(max_int, tick_count).last() == dec_seq(0),
{
    let step = tick_step(max_int, tick_count) as int;
    let top = nice_max(max_int, tick_count) as int;
    let q = (max_int + step - 1) / step;
    assert(q * step >= max_int) by (nonlinear_arith)
        requires
            step >= 1,
            max_int >= 0,
            q == (max_int + step - 1) / step,
    ;
    assert(q >= 0) by (nonlinear_arith)
        requires
            step >= 1,
            max_int >= 0,
            q == (max_int + step - 1) / step,
    ;
    assert(top == q * step);
    assert(top / step == q) by (nonlinear_arith)
        requires
            step >= 1,
            q >= 0,
            top == q * step,
    ;
    assert(top - q * step == 0);
}

} // verus!
