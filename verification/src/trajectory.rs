//! Thinning a trajectory: which of `total` recorded steps to keep when only `max` fit.

use crate::binary32::{
    law_full_ratio_reaches_the_end, law_small_ratio_rounds_half_up, lemma_zero_ratio, single_ratio,
    single_ratio_rounded,
};
use crate::ordered::{insert_sorted, lists_exactly, strictly_increasing};
use vstd::prelude::*;

verus! {

/// Where the `i`-th of `max` evenly spread picks falls among `total` entries. The spread is
/// computed in single precision, so far out it follows that format's rounding.
pub open spec fn trajectory_position(i: nat, total: nat, max: nat) -> int {
    vstd::math::min(
        single_ratio_rounded(i, (total - 1) as nat, (max - 1) as nat) as int,
        total - 1,
    )
}

/// Whether index `x` is kept when `total` entries are thinned to at most `max`: all of them where
/// they fit, the last one where only one fits, evenly spread positions otherwise.
pub open spec fn is_trajectory_index(x: usize, total: nat, max: nat) -> bool {
    if total == 0 || max == 0 {
        false
    } else if max >= total {
        x < total
    } else if max == 1 {
        x == total - 1
    } else {
        exists|i: nat| i < max && x == #[trigger] trajectory_position(i, total, max)
    }
}

/// Whether single precision is exact for all positions, or none is computed.
pub open spec fn spreads_exactly(total: nat, max: nat) -> bool {
    max <= 1 || max >= total || (max - 1) * (total - 1) < 0x80_0000
}

/// Where single precision is exact, later picks fall on later positions.
proof fn lemma_positions_increase(i: nat, j: nat, total: nat, max: nat)
    requires
        1 < max < total,
        i < j < max,
        spreads_exactly(total, max),
    ensures
        trajectory_position(i, total, max) < trajectory_position(j, total, max),
{
    let last = (total - 1) as nat;
    let denom = (max - 1) as nat;
    assert(last < 0x80_0000 && i * last <= denom * last && j * last <= denom * last)
        by (nonlinear_arith)
        requires
            denom * last < 0x80_0000,
            denom >= 1,
            0 <= i <= denom,
            0 <= j <= denom,
            last >= 0,
    ;
    law_spread_rounds_to_nearest(i, total, max);
    law_spread_rounds_to_nearest(j, total, max);
    let a = 2 * i * last + denom;
    let b = 2 * j * last + denom;
    assert(b >= a + 2 * denom) by (nonlinear_arith)
        requires
            a == 2 * i * last + denom,
            b == 2 * j * last + denom,
            j >= i + 1,
            last >= denom,
            denom >= 1,
    ;
    vstd::arithmetic::div_mod::lemma_div_is_ordered(
        (a + 2 * denom) as int,
        b as int,
        (2 * denom) as int,
    );
    vstd::arithmetic::div_mod::lemma_div_plus_one(a as int, (2 * denom) as int);
}

/// The indices kept when `total` entries are thinned to at most `max`, in increasing order. Where
/// single precision is exact, exactly `max` of them are kept, or all where there are fewer.
pub fn select_trajectory_indices(total: usize, max: usize) -> (result: Vec<usize>)
    ensures
        lists_exactly(result@, |x: usize| is_trajectory_index(x, total as nat, max as nat)),
        forall|k: int| 0 <= k < result@.len() ==> (#[trigger] result@[k]) < total,
        result@.len() <= max,
        spreads_exactly(total as nat, max as nat) ==> result@.len() == vstd::math::min(
            total as int,
            max as int,
        ),
{
    let mut out: Vec<usize> = Vec::new();
    if total == 0 || max == 0 {
        return out;
    }
    if max >= total {
        let mut i: usize = 0;
        while i < total
            invariant
                i <= total,
                out@ == Seq::new(i as nat, |k: int| k as usize),
            decreases total - i,
        {
            out.push(i);
            i += 1;
            assert(out@ =~= Seq::new(i as nat, |k: int| k as usize));
        }
        assert forall|x: usize| #[trigger] out@.contains(x) <==> x < total by {
            if x < total {
                assert(out@[x as int] == x);
            }
        }
        return out;
    }
    if max == 1 {
        out.push(total - 1);
        assert(out@[0] == total - 1);
        return out;
    }
    let mut i: usize = 0;
    while i < max
        invariant
            i <= max,
            1 < max < total,
            strictly_increasing(out@),
            out@.len() <= i,
            spreads_exactly(total as nat, max as nat) ==> out@.len() == i,
            forall|x: usize| #[trigger]
                out@.contains(x) <==> exists|k: nat|
                    k < i && x == #[trigger] trajectory_position(k, total as nat, max as nat),
        decreases max - i,
    {
        let ghost before = out@;
        let position: usize = single_ratio(i, total - 1, max - 1, total - 1);
        proof {
            if spreads_exactly(total as nat, max as nat) && out@.contains(position) {
                let k = choose|k: nat|
                    k < i && position == #[trigger] trajectory_position(
                        k,
                        total as nat,
                        max as nat,
                    );
                lemma_positions_increase(k, i as nat, total as nat, max as nat);
            }
        }
        insert_sorted(&mut out, position);
        assert(position == trajectory_position(i as nat, total as nat, max as nat));
        i += 1;
        assert forall|x: usize| #[trigger] out@.contains(x) implies exists|k: nat|
            k < i && x == #[trigger] trajectory_position(k, total as nat, max as nat) by {
            if before.contains(x) {
                let k = choose|k: nat|
                    k < i - 1 && x == #[trigger] trajectory_position(k, total as nat, max as nat);
                assert(x == trajectory_position(k, total as nat, max as nat));
            } else {
                assert(x == trajectory_position((i - 1) as nat, total as nat, max as nat));
            }
        }
        assert forall|x: usize|
            (exists|k: nat|
                k < i && x == #[trigger] trajectory_position(
                    k,
                    total as nat,
                    max as nat,
                )) implies #[trigger] out@.contains(x) by {
            let k = choose|k: nat|
                k < i && x == #[trigger] trajectory_position(k, total as nat, max as nat);
            if k < i - 1 {
                assert(before.contains(x));
            }
        }
    }
    assert forall|k: int| 0 <= k < out@.len() implies (#[trigger] out@[k]) < total by {
        assert(out@.contains(out@[k]));
    }
    out
}

/// Within single precision's exact range the picks are the evenly spread positions, rounded to the
/// nearest index with halves upward.
pub proof fn law_spread_rounds_to_nearest(i: nat, total: nat, max: nat)
    requires
        1 < max <= total,
        i < max,
        i * (total - 1) < 0x80_0000,
        total <= 0x80_0000,
    ensures
        trajectory_position(i, total, max) == (2 * i * (total - 1) + (max - 1)) / (2 * (max - 1)),
{
    let last = (total - 1) as nat;
    let denom = (max - 1) as nat;
    law_small_ratio_rounds_half_up(i, last, denom);
    assert((2 * i * last + denom) / (2 * denom) <= last) by (nonlinear_arith)
        requires
            i <= denom,
            denom > 0,
            last >= 0,
    ;
}

/// The first and the last entry are kept where at least two fit. The first one is kept however many
/// there are, the last one as long as single precision tells it apart from halves.
pub proof fn law_spread_keeps_both_ends(total: nat, max: nat)
    requires
        1 < max < total <= usize::MAX,
    ensures
        is_trajectory_index(0, total, max),
        total <= 0x80_0001 ==> is_trajectory_index((total - 1) as usize, total, max),
{
    let last = (total - 1) as nat;
    let denom = (max - 1) as nat;
    lemma_zero_ratio(last, denom);
    assert(trajectory_position(0, total, max) == 0);
    if total <= 0x80_0001 {
        law_full_ratio_reaches_the_end(last, denom);
        assert(trajectory_position(denom, total, max) == last);
    }
}

} // verus!
