//! Rollout supervision: which recurrent steps of a rollout carry a distillation loss.

use crate::ordered::{insert_sorted, is_sorted_set_of, lists_exactly, strictly_increasing};
use crate::scalar::Single;
use crate::trajectory::{is_trajectory_index, select_trajectory_indices, spreads_exactly};
use rand::rngs::StdRng;
use rand::seq::SliceRandom;
use rand::Rng;
use vstd::prelude::*;

verus! {

/// How many recurrent steps a rollout may take, and how many of them carry gradients.
#[derive(Clone, Copy, Debug, PartialEq, Eq, Structural)]
pub struct VisionRollout {
    pub min_steps: usize,
    pub max_steps: usize,
    pub backprop_steps: usize,
}

/// How the supervised steps of one training batch are chosen.
#[derive(Clone, Copy, Debug)]
pub struct RolloutSupervisionSamplingConfig<'a> {
    pub frames: usize,
    pub stride: usize,
    pub groups: usize,
    pub explicit_steps: &'a [usize],
    pub explicit_groups: &'a [Vec<usize>],
    pub include_step1: bool,
    pub sampling_power: Single,
}

/// `n`, but at least one.
pub open spec fn at_least_one(n: int) -> int {
    if n < 1 {
        1
    } else {
        n
    }
}

/// `n`, but at least one.
pub fn max_one(n: usize) -> (r: usize)
    ensures
        r == at_least_one(n as int),
{
    if n < 1 {
        1
    } else {
        n
    }
}

/// Whether `step` is a candidate for supervision: the final step, the first one if asked for, and
/// every `stride`-th step after it.
pub open spec fn is_rollout_candidate(
    step: int,
    total_steps: int,
    stride: int,
    include_step1: bool,
) -> bool {
    &&& 1 <= step <= total_steps
    &&& step == total_steps || (include_step1 && step == 1) || (step > 1 && (step - 1)
        % at_least_one(stride) == 0)
}

/// The candidates among the steps `1..=n`, in increasing order.
pub open spec fn rollout_candidates(
    n: nat,
    total_steps: int,
    stride: int,
    include_step1: bool,
) -> Seq<usize>
    decreases n,
{
    if n == 0 {
        Seq::empty()
    } else {
        let earlier = rollout_candidates((n - 1) as nat, total_steps, stride, include_step1);
        if is_rollout_candidate(n as int, total_steps, stride, include_step1) {
            earlier.push(n as usize)
        } else {
            earlier
        }
    }
}

/// Whether `step` is supervised: the final step always, and the candidates, thinned to `frames` of
/// them where there are more.
pub open spec fn is_supervised_step(
    step: usize,
    total_steps: usize,
    frames: usize,
    stride: usize,
    include_step1: bool,
) -> bool {
    let candidates = rollout_candidates(
        total_steps as nat,
        total_steps as int,
        stride as int,
        include_step1,
    );
    let limit = at_least_one(frames as int) as nat;
    &&& total_steps > 0
    &&& step == total_steps || if candidates.len() <= limit {
        candidates.contains(step)
    } else {
        exists|k: usize|
            k < candidates.len() && #[trigger] is_trajectory_index(k, candidates.len(), limit)
                && step == candidates[k as int]
    }
}

/// `steps` lists the supervised steps of a rollout of `total_steps`.
pub open spec fn is_supervision_listing(
    steps: Seq<usize>,
    total_steps: usize,
    frames: usize,
    stride: usize,
    include_step1: bool,
) -> bool {
    lists_exactly(
        steps,
        |x: usize| is_supervised_step(x, total_steps, frames, stride, include_step1),
    )
}

proof fn lemma_candidates(n: nat, total_steps: int, stride: int, include_step1: bool)
    requires
        n <= total_steps <= usize::MAX,
    ensures
        ({
            let s = rollout_candidates(n, total_steps, stride, include_step1);
            &&& s.len() <= n
            &&& strictly_increasing(s)
            &&& forall|x: usize| #[trigger]
                s.contains(x) <==> (x <= n && is_rollout_candidate(
                    x as int,
                    total_steps,
                    stride,
                    include_step1,
                ))
        }),
    decreases n,
{
    if n > 0 {
        let m = (n - 1) as nat;
        lemma_candidates(m, total_steps, stride, include_step1);
        let earlier = rollout_candidates(m, total_steps, stride, include_step1);
        let s = rollout_candidates(n, total_steps, stride, include_step1);
        if is_rollout_candidate(n as int, total_steps, stride, include_step1) {
            assert forall|i: int, j: int| 0 <= i < j < s.len() implies s[i] < s[j] by {
                assert(earlier.contains(earlier[i]));
            }
            assert forall|x: usize| #[trigger] s.contains(x) <==> (x <= n && is_rollout_candidate(
                x as int,
                total_steps,
                stride,
                include_step1,
            )) by {
                if earlier.contains(x) {
                    let k = choose|k: int| 0 <= k < earlier.len() && earlier[k] == x;
                    assert(s[k] == x);
                }
                if x == n {
                    assert(s[earlier.len() as int] == x);
                }
                if s.contains(x) {
                    let k = choose|k: int| 0 <= k < s.len() && s[k] == x;
                    if k < earlier.len() {
                        assert(earlier[k] == x);
                    }
                }
            }
        }
    }
}

/// Thinning keeps the last candidate, which is the final step.
proof fn lemma_last_is_kept(
    candidates: Seq<usize>,
    indices: Seq<usize>,
    total_steps: usize,
    limit: nat,
)
    requires
        strictly_increasing(candidates),
        candidates.contains(total_steps),
        forall|k: int| 0 <= k < candidates.len() ==> (#[trigger] candidates[k]) <= total_steps,
        lists_exactly(indices, |x: usize| is_trajectory_index(x, candidates.len(), limit)),
        1 <= limit < candidates.len() <= usize::MAX,
        spreads_exactly(candidates.len(), limit),
    ensures
        exists|j: int|
            0 <= j < indices.len() && candidates[(#[trigger] indices[j]) as int] == total_steps,
{
    let n = candidates.len();
    let last = (n - 1) as usize;
    let k = choose|k: int| 0 <= k < n && candidates[k] == total_steps;
    if k < n - 1 {
        assert(candidates[k] < candidates[n - 1]);
    }
    if limit > 1 {
        assert(n - 1 < 0x80_0000) by (nonlinear_arith)
            requires
                (limit - 1) * (n - 1) < 0x80_0000,
                limit >= 2,
                n >= 1,
        ;
        crate::trajectory::law_spread_keeps_both_ends(n, limit);
    }
    assert(is_trajectory_index(last, n, limit));
    assert(indices.contains(last));
    let j = choose|j: int| 0 <= j < indices.len() && indices[j] == last;
    assert(candidates[indices[j] as int] == total_steps);
}

/// The supervised steps of a rollout of `total_steps`, in increasing order. Where single precision is
/// exact they are as many as there are candidates, or as frames if those are fewer.
pub fn rollout_supervision_steps(
    total_steps: usize,
    frames: usize,
    stride: usize,
    include_step1: bool,
) -> (result: Vec<usize>)
    ensures
        is_supervision_listing(result@, total_steps, frames, stride, include_step1),
        result@.len() <= at_least_one(frames as int) + 1,
        ({
            let candidates = rollout_candidates(
                total_steps as nat,
                total_steps as int,
                stride as int,
                include_step1,
            ).len();
            let limit = at_least_one(frames as int);
            spreads_exactly(candidates, limit as nat) ==> result@.len() == vstd::math::min(
                candidates as int,
                limit,
            )
        }),
{
    let mut steps: Vec<usize> = Vec::new();
    if total_steps == 0 {
        return steps;
    }
    let spacing: usize = max_one(stride);
    let limit: usize = max_one(frames);
    let mut candidates: Vec<usize> = Vec::new();
    let mut step: usize = 0;
    while step < total_steps
        invariant
            step <= total_steps,
            spacing == at_least_one(stride as int),
            candidates@ == rollout_candidates(
                step as nat,
                total_steps as int,
                stride as int,
                include_step1,
            ),
        decreases total_steps - step,
    {
        step += 1;
        if step == total_steps || (include_step1 && step == 1) || (step > 1 && (step - 1) % spacing
            == 0) {
            candidates.push(step);
        }
    }
    proof {
        lemma_candidates(total_steps as nat, total_steps as int, stride as int, include_step1);
    }
    assert(candidates@.contains(total_steps));
    if candidates.len() <= limit {
        insert_sorted(&mut candidates, total_steps);
        return candidates;
    }
    let ghost exact = spreads_exactly(candidates@.len(), limit as nat);
    let indices = select_trajectory_indices(candidates.len(), limit);
    let mut i: usize = 0;
    while i < indices.len()
        invariant
            i <= indices@.len(),
            indices@.len() <= limit,
            forall|k: int| 0 <= k < indices@.len() ==> (#[trigger] indices@[k])
                < candidates@.len(),
            strictly_increasing(steps@),
            steps@.len() == i,
            strictly_increasing(candidates@),
            strictly_increasing(indices@),
            forall|x: usize| #[trigger]
                steps@.contains(x) <==> exists|k: int|
                    0 <= k < i && x == candidates@[(#[trigger] indices@[k]) as int],
        decreases indices@.len() - i,
    {
        let ghost before = steps@;
        let picked: usize = candidates[indices[i]];
        proof {
            if steps@.contains(picked) {
                let k = choose|k: int|
                    0 <= k < i && picked == candidates@[(#[trigger] indices@[k]) as int];
                assert(indices@[k] < indices@[i as int]);
                assert(candidates@[indices@[k] as int] < candidates@[indices@[i as int] as int]);
            }
        }
        insert_sorted(&mut steps, picked);
        i += 1;
        assert forall|x: usize| #[trigger] steps@.contains(x) implies exists|k: int|
            0 <= k < i && x == candidates@[(#[trigger] indices@[k]) as int] by {
            if before.contains(x) {
                let k = choose|k: int|
                    0 <= k < i - 1 && x == candidates@[(#[trigger] indices@[k]) as int];
                assert(x == candidates@[indices@[k] as int]);
            } else {
                assert(x == candidates@[indices@[i - 1] as int]);
            }
        }
        assert forall|x: usize|
            (exists|k: int| 0 <= k < i && x == candidates@[(#[trigger] indices@[k]) as int])
            implies #[trigger] steps@.contains(x) by {
            let k = choose|k: int| 0 <= k < i && x == candidates@[(#[trigger] indices@[k]) as int];
            if k < i - 1 {
                assert(before.contains(x));
            }
        }
    }
    let ghost picked_steps = steps@;
    proof {
        if exact {
            assert forall|k: int| 0 <= k < candidates@.len() implies (#[trigger] candidates@[k])
                <= total_steps by {
                assert(candidates@.contains(candidates@[k]));
            }
            lemma_last_is_kept(candidates@, indices@, total_steps, limit as nat);
            let j = choose|j: int|
                0 <= j < indices@.len() && candidates@[(#[trigger] indices@[j]) as int]
                    == total_steps;
            assert(picked_steps.contains(candidates@[indices@[j] as int]));
        }
    }
    insert_sorted(&mut steps, total_steps);
    assert forall|x: usize| #[trigger] steps@.contains(x) <==> is_supervised_step(
        x,
        total_steps,
        frames,
        stride,
        include_step1,
    ) by {
        if picked_steps.contains(x) {
            let k = choose|k: int|
                0 <= k < indices@.len() && x == candidates@[(#[trigger] indices@[k]) as int];
            assert(indices@.contains(indices@[k]));
            assert(is_trajectory_index(indices@[k], candidates@.len(), limit as nat));
        }
        if exists|k: usize|
            k < candidates@.len() && #[trigger] is_trajectory_index(
                k,
                candidates@.len(),
                limit as nat,
            ) && x == candidates@[k as int] {
            let k = choose|k: usize|
                k < candidates@.len() && #[trigger] is_trajectory_index(
                    k,
                    candidates@.len(),
                    limit as nat,
                ) && x == candidates@[k as int];
            assert(indices@.contains(k));
            let j = choose|j: int| 0 <= j < indices@.len() && indices@[j] == k;
            assert(x == candidates@[indices@[j] as int]);
        }
    }
    steps
}

/// Supervised steps lie in the rollout, and a rollout that runs at all is supervised at its end.
pub proof fn law_supervision_covers_the_final_step(
    total_steps: usize,
    frames: usize,
    stride: usize,
    include_step1: bool,
)
    requires
        total_steps > 0,
    ensures
        is_supervised_step(total_steps, total_steps, frames, stride, include_step1),
        forall|x: usize| #[trigger]
            is_supervised_step(x, total_steps, frames, stride, include_step1) ==> 1 <= x
                <= total_steps,
{
    lemma_candidates(total_steps as nat, total_steps as int, stride as int, include_step1);
    let candidates = rollout_candidates(
        total_steps as nat,
        total_steps as int,
        stride as int,
        include_step1,
    );
    assert forall|x: usize| #[trigger]
        is_supervised_step(x, total_steps, frames, stride, include_step1) implies 1 <= x
        <= total_steps by {
        if x != total_steps && !candidates.contains(x) {
            let limit = at_least_one(frames as int) as nat;
            let k = choose|k: usize|
                k < candidates.len() && #[trigger] is_trajectory_index(k, candidates.len(), limit)
                    && x == candidates[k as int];
            assert(candidates.contains(candidates[k as int]));
        }
    }
}

/// With room for a single frame only the final step is supervised, whatever the stride.
pub proof fn law_single_frame_supervises_only_the_end(
    x: usize,
    total_steps: usize,
    frames: usize,
    stride: usize,
    include_step1: bool,
)
    requires
        total_steps > 0,
        frames <= 1,
    ensures
        is_supervised_step(x, total_steps, frames, stride, include_step1) <==> x == total_steps,
{
    lemma_candidates(total_steps as nat, total_steps as int, stride as int, include_step1);
    let candidates = rollout_candidates(
        total_steps as nat,
        total_steps as int,
        stride as int,
        include_step1,
    );
    assert(candidates.contains(total_steps));
    let last = choose|k: int| 0 <= k < candidates.len() && candidates[k] == total_steps;
    if candidates.len() <= 1 {
        assert forall|y: usize| candidates.contains(y) implies y == total_steps by {
            let k = choose|k: int| 0 <= k < candidates.len() && candidates[k] == y;
            assert(k == last);
        }
    } else {
        let k = (candidates.len() - 1) as int;
        assert(candidates.contains(candidates[k]));
        if last < k {
            assert(candidates[last] < candidates[k]);
        }
    }
}

/// Whether `step` is kept of an explicit list: the listed steps that lie in the rollout, or the
/// final step where none does.
pub open spec fn is_explicit_step(step: usize, total_steps: usize, steps: Seq<usize>) -> bool {
    &&& total_steps > 0
    &&& if exists|k: int| 0 <= k < steps.len() && 0 < (#[trigger] steps[k]) <= total_steps {
        0 < step <= total_steps && steps.contains(step)
    } else {
        step == total_steps
    }
}

/// `kept` lists what remains of the explicit `steps` in a rollout of `total_steps`.
pub open spec fn is_explicit_listing(kept: Seq<usize>, total_steps: usize, steps: Seq<usize>) -> bool {
    lists_exactly(kept, |x: usize| is_explicit_step(x, total_steps, steps))
}

/// An explicit list of supervised steps, clipped to the rollout, in increasing order.
pub fn rollout_supervision_explicit_steps(total_steps: usize, steps: &[usize]) -> (result: Vec<
    usize,
>)
    ensures
        is_explicit_listing(result@, total_steps, steps@),
        total_steps > 0 ==> result@.len() > 0,
{
    let mut filtered: Vec<usize> = Vec::new();
    if total_steps == 0 {
        return filtered;
    }
    let mut i: usize = 0;
    while i < steps.len()
        invariant
            i <= steps@.len(),
            strictly_increasing(filtered@),
            forall|x: usize| #[trigger]
                filtered@.contains(x) <==> (0 < x <= total_steps && steps@.take(
                    i as int,
                ).contains(x)),
        decreases steps@.len() - i,
    {
        let ghost prior = steps@.take(i as int);
        let ghost before = filtered@;
        let step: usize = steps[i];
        if step > 0 && step <= total_steps {
            insert_sorted(&mut filtered, step);
        }
        i += 1;
        proof {
            let now = steps@.take(i as int);
            assert(now =~= prior.push(step));
            assert forall|x: usize| #[trigger]
                filtered@.contains(x) <==> (0 < x <= total_steps && now.contains(x)) by {
                if prior.contains(x) {
                    let k = choose|k: int| 0 <= k < prior.len() && prior[k] == x;
                    assert(now[k] == x);
                }
                if x == step {
                    assert(now[i as int - 1] == x);
                }
                if now.contains(x) {
                    let k = choose|k: int| 0 <= k < now.len() && now[k] == x;
                    if k < i - 1 {
                        assert(prior[k] == x);
                    }
                }
                assert(before.contains(x) <==> (0 < x <= total_steps && prior.contains(x)));
            }
        }
    }
    assert(steps@.take(i as int) =~= steps@);
    if filtered.len() == 0 {
        assert forall|k: int| 0 <= k < steps@.len() implies !(0 < (#[trigger] steps@[k])
            <= total_steps) by {
            assert(steps@.contains(steps@[k]));
            assert(!filtered@.contains(steps@[k]));
        }
        filtered.push(total_steps);
        assert(filtered@[0] == total_steps);
    } else {
        proof {
            let x = filtered@[0];
            assert(filtered@.contains(x));
            let k = choose|k: int| 0 <= k < steps@.len() && steps@[k] == x;
            assert(0 < steps@[k] <= total_steps);
        }
    }
    filtered
}

/// Clipping a list that came out of clipping changes nothing.
pub proof fn law_explicit_steps_are_stable(total_steps: usize, steps: Seq<usize>, kept: Seq<usize>)
    requires
        is_explicit_listing(kept, total_steps, steps),
    ensures
        is_explicit_listing(kept, total_steps, kept),
{
    if total_steps > 0 {
        assert forall|x: usize| #[trigger] kept.contains(x) <==> is_explicit_step(
            x,
            total_steps,
            kept,
        ) by {
            if exists|k: int| 0 <= k < steps.len() && 0 < (#[trigger] steps[k]) <= total_steps {
                let k = choose|k: int| 0 <= k < steps.len() && 0 < (#[trigger] steps[k])
                    <= total_steps;
                assert(steps.contains(steps[k]));
                assert(kept.contains(steps[k]));
                let j = choose|j: int| 0 <= j < kept.len() && kept[j] == steps[k];
                assert(0 < kept[j] <= total_steps);
            } else {
                assert(kept.contains(total_steps));
                let j = choose|j: int| 0 <= j < kept.len() && kept[j] == total_steps;
                assert(0 < kept[j] <= total_steps);
            }
            if kept.contains(x) {
                assert(is_explicit_step(x, total_steps, steps));
            }
        }
    } else {
        assert forall|x: usize| #[trigger] kept.contains(x) <==> is_explicit_step(
            x,
            total_steps,
            kept,
        ) by {
            assert(!is_explicit_step(x, total_steps, steps));
        }
    }
}

/// The pseudo-random generator of `rand` that seeds and drives a run.
#[verifier::external_type_specification]
#[verifier::external_body]
pub struct ExStdRng(StdRng);

/// `rand::Rng::gen_range` on an inclusive range: some value of the range. It panics on an empty
/// range, which the precondition rules out.
#[verifier::external_body]
pub(crate) fn draw_inclusive(rng: &mut StdRng, low: usize, high: usize) -> (r: usize)
    requires
        low <= high,
    ensures
        low <= r <= high,
{
    rng.gen_range(low..=high)
}

/// `rand::seq::SliceRandom::choose`: a copy of one of the groups, and nothing where there is none.
#[verifier::external_body]
fn choose_group(rng: &mut StdRng, groups: &Vec<Vec<usize>>) -> (chosen: Option<Vec<usize>>)
    ensures
        match chosen {
            Some(group) => exists|k: int|
                0 <= k < groups@.len() && group@ == (#[trigger] groups@[k])@,
            None => groups@.len() == 0,
        },
{
    groups.choose(rng).cloned()
}

/// Whether weighted sampling ends at `r`: at the first step whose weight uses up the draw, or at
/// the last one where the draw outlasts them all. `spent[k]` says that the draw is used up once
/// the weights of the steps `min_steps..=min_steps + k` are taken off it.
pub open spec fn is_weighted_step(rollout: VisionRollout, spent: Seq<bool>, r: int) -> bool {
    let span = rollout.max_steps - rollout.min_steps;
    ||| exists|k: int|
        0 <= k < spent.len() && k <= span && (#[trigger] spent[k]) && r == rollout.min_steps + k
            && forall|j: int| 0 <= j < k ==> !#[trigger] spent[j]
    ||| r == at_least_one(rollout.max_steps as int) && forall|j: int|
        0 <= j < spent.len() && j <= span ==> !#[trigger] spent[j]
}

/// Picks the step at which a weighted draw is used up.
pub fn weighted_rollout_step(rollout: &VisionRollout, spent: &[bool]) -> (r: usize)
    requires
        rollout.min_steps < rollout.max_steps,
    ensures
        is_weighted_step(*rollout, spent@, r as int),
{
    let span: usize = rollout.max_steps - rollout.min_steps;
    let mut k: usize = 0;
    while k < spent.len() && k <= span
        invariant
            k <= spent@.len(),
            k <= span + 1,
            span == rollout.max_steps - rollout.min_steps,
            forall|j: int| 0 <= j < k ==> !#[trigger] spent@[j],
        decreases spent@.len() - k,
    {
        if spent[k] {
            return rollout.min_steps + k;
        }
        k += 1;
    }
    max_one(rollout.max_steps)
}

/// Whether a sampled rollout may have `r` steps.
pub open spec fn is_sampled_step_count(
    rollout: VisionRollout,
    sampling_power: Single,
    spent: Seq<bool>,
    r: int,
) -> bool {
    if rollout.min_steps >= rollout.max_steps {
        r == at_least_one(rollout.max_steps as int)
    } else if sampling_power.le(Single::zero()) {
        rollout.min_steps <= r <= rollout.max_steps
    } else {
        is_weighted_step(rollout, spent, r)
    }
}

/// Whether a rollout's length is drawn from the generator: there is a choice, and the power does not
/// ask for a weighted draw.
pub open spec fn draws_uniformly(rollout: VisionRollout, sampling_power: Single) -> bool {
    rollout.min_steps < rollout.max_steps && sampling_power.le(Single::zero())
}

/// How many steps the next rollout takes: uniform over the range, or by a weighted draw where the
/// power is positive. Only the uniform draw uses the generator; the outcome of a weighted one is
/// given.
pub fn sample_rollout_steps(
    rollout: &VisionRollout,
    sampling_power: Single,
    spent: &[bool],
    rng: &mut StdRng,
) -> (r: usize)
    ensures
        is_sampled_step_count(*rollout, sampling_power, spent@, r as int),
        !draws_uniformly(*rollout, sampling_power) ==> *final(rng) == *old(rng),
{
    if rollout.min_steps >= rollout.max_steps {
        return max_one(rollout.max_steps);
    }
    if sampling_power.is_at_most_zero() {
        return draw_inclusive(rng, rollout.min_steps, rollout.max_steps);
    }
    weighted_rollout_step(rollout, spent)
}

/// The weighted draws of group `k`; none where none was made.
pub open spec fn spent_of(spent: Seq<Vec<bool>>, k: int) -> Seq<bool> {
    if 0 <= k < spent.len() {
        spent[k]@
    } else {
        Seq::empty()
    }
}

/// Whether `group` can be the `k`-th supervision group of a batch.
pub open spec fn is_supervision_group(
    rollout: VisionRollout,
    config: RolloutSupervisionSamplingConfig,
    spent: Seq<Vec<bool>>,
    k: int,
    group: Seq<usize>,
) -> bool {
    let horizon = at_least_one(rollout.max_steps as int) as usize;
    if config.explicit_groups@.len() > 0 {
        exists|g: int|
            0 <= g < config.explicit_groups@.len() && #[trigger] is_explicit_listing(
                group,
                horizon,
                config.explicit_groups@[g]@,
            )
    } else if config.explicit_steps@.len() > 0 {
        is_explicit_listing(group, horizon, config.explicit_steps@)
    } else {
        exists|steps: usize| #[trigger]
            is_sampled_step_count(
                rollout,
                config.sampling_power,
                spent_of(spent, k),
                steps as int,
            ) && is_supervision_listing(
                group,
                steps,
                config.frames,
                config.stride,
                config.include_step1,
            )
    }
}

/// The supervision groups of one batch: explicit groups are drawn from, explicit steps repeated,
/// and otherwise each group supervises a rollout of sampled length. `spent` holds, group by group,
/// the outcome of the weighted draws (see [`is_weighted_step`]).
pub fn sample_rollout_supervision_groups(
    rollout: &VisionRollout,
    config: &RolloutSupervisionSamplingConfig<'_>,
    spent: &Vec<Vec<bool>>,
    rng: &mut StdRng,
) -> (result: Vec<Vec<usize>>)
    ensures
        result@.len() == at_least_one(config.groups as int),
        forall|k: int|
            0 <= k < result@.len() ==> is_supervision_group(
                *rollout,
                *config,
                spent@,
                k,
                (#[trigger] result@[k])@,
            ),
        config.explicit_groups@.len() == 0 && (config.explicit_steps@.len() > 0
            || !draws_uniformly(*rollout, config.sampling_power)) ==> *final(rng) == *old(rng),
{
    let count: usize = max_one(config.groups);
    let horizon: usize = max_one(rollout.max_steps);
    let mut groups: Vec<Vec<usize>> = Vec::new();
    let mut normalized: Vec<Vec<usize>> = Vec::new();
    let mut g: usize = 0;
    while g < config.explicit_groups.len()
        invariant
            g <= config.explicit_groups@.len(),
            normalized@.len() == g,
            horizon == at_least_one(rollout.max_steps as int),
            forall|j: int|
                0 <= j < g ==> is_explicit_listing(
                    (#[trigger] normalized@[j])@,
                    horizon,
                    config.explicit_groups@[j]@,
                ),
        decreases config.explicit_groups@.len() - g,
    {
        let steps = rollout_supervision_explicit_steps(
            horizon,
            config.explicit_groups[g].as_slice(),
        );
        normalized.push(steps);
        g += 1;
    }
    let mut k: usize = 0;
    while k < count
        invariant
            k <= count,
            groups@.len() == k,
            horizon == at_least_one(rollout.max_steps as int),
            normalized@.len() == config.explicit_groups@.len(),
            forall|j: int|
                0 <= j < normalized@.len() ==> is_explicit_listing(
                    (#[trigger] normalized@[j])@,
                    horizon,
                    config.explicit_groups@[j]@,
                ),
            forall|j: int|
                0 <= j < k ==> is_supervision_group(
                    *rollout,
                    *config,
                    spent@,
                    j,
                    (#[trigger] groups@[j])@,
                ),
            config.explicit_groups@.len() == 0 && (config.explicit_steps@.len() > 0
                || !draws_uniformly(*rollout, config.sampling_power)) ==> *rng == *old(rng),
        decreases count - k,
    {
        let group: Vec<usize> = if config.explicit_groups.len() > 0 {
            match choose_group(rng, &normalized) {
                Some(group) => {
                    proof {
                        let j = choose|j: int|
                            0 <= j < normalized@.len() && group@ == (#[trigger] normalized@[j])@;
                        assert(is_explicit_listing(
                            group@,
                            at_least_one(rollout.max_steps as int) as usize,
                            config.explicit_groups@[j]@,
                        ));
                    }
                    group
                },
                None => Vec::new(),
            }
        } else if config.explicit_steps.len() > 0 {
            rollout_supervision_explicit_steps(horizon, config.explicit_steps)
        } else {
            let none: Vec<bool> = Vec::new();
            let draws: &[bool] = if k < spent.len() {
                spent[k].as_slice()
            } else {
                none.as_slice()
            };
            assert(draws@ =~= spent_of(spent@, k as int));
            let steps: usize = sample_rollout_steps(rollout, config.sampling_power, draws, rng);
            assert(is_sampled_step_count(
                *rollout,
                config.sampling_power,
                spent_of(spent@, k as int),
                steps as int,
            ));
            rollout_supervision_steps(steps, config.frames, config.stride, config.include_step1)
        };
        assert(is_supervision_group(*rollout, *config, spent@, k as int, group@));
        groups.push(group);
        k += 1;
    }
    groups
}

/// Whether `step` occurs in one of the groups.
pub open spec fn in_some_group(groups: Seq<Vec<usize>>, step: usize) -> bool {
    exists|g: int| 0 <= g < groups.len() && (#[trigger] groups[g])@.contains(step)
}

/// The steps of all groups, in increasing order, each once: what has to be evaluated.
pub fn merge_rollout_supervision_groups(groups: &[Vec<usize>]) -> (result: Vec<usize>)
    ensures
        lists_exactly(result@, |x: usize| in_some_group(groups@, x)),
{
    let mut steps: Vec<usize> = Vec::new();
    let mut g: usize = 0;
    while g < groups.len()
        invariant
            g <= groups@.len(),
            strictly_increasing(steps@),
            forall|x: usize| #[trigger]
                steps@.contains(x) <==> in_some_group(groups@.take(g as int), x),
        decreases groups@.len() - g,
    {
        let ghost earlier = groups@.take(g as int);
        let ghost before = steps@;
        merge_into(&mut steps, groups[g].as_slice());
        g += 1;
        proof {
            let now = groups@.take(g as int);
            assert forall|x: usize| #[trigger] steps@.contains(x) <==> in_some_group(now, x) by {
                if in_some_group(earlier, x) {
                    let j = choose|j: int|
                        0 <= j < earlier.len() && (#[trigger] earlier[j])@.contains(x);
                    assert(now[j]@.contains(x));
                }
                if groups@[g - 1]@.contains(x) {
                    assert(now[g - 1]@.contains(x));
                }
                if in_some_group(now, x) {
                    let j = choose|j: int| 0 <= j < now.len() && (#[trigger] now[j])@.contains(x);
                    if j < g - 1 {
                        assert(earlier[j]@.contains(x));
                    }
                }
                assert(before.contains(x) <==> in_some_group(earlier, x));
            }
        }
    }
    assert(groups@.take(g as int) =~= groups@);
    steps
}

/// Inserts each of `more` into the strictly increasing `steps`.
fn merge_into(steps: &mut Vec<usize>, more: &[usize])
    requires
        strictly_increasing(old(steps)@),
    ensures
        strictly_increasing(final(steps)@),
        forall|x: usize| #[trigger]
            final(steps)@.contains(x) <==> (old(steps)@.contains(x) || more@.contains(x)),
{
    let mut i: usize = 0;
    while i < more.len()
        invariant
            i <= more@.len(),
            strictly_increasing(steps@),
            forall|x: usize| #[trigger]
                steps@.contains(x) <==> (old(steps)@.contains(x) || more@.take(
                    i as int,
                ).contains(x)),
        decreases more@.len() - i,
    {
        let ghost prior = more@.take(i as int);
        let ghost before = steps@;
        let value: usize = more[i];
        insert_sorted(steps, value);
        i += 1;
        proof {
            let now = more@.take(i as int);
            assert(now =~= prior.push(value));
            assert forall|x: usize| #[trigger]
                steps@.contains(x) <==> (old(steps)@.contains(x) || now.contains(x)) by {
                if prior.contains(x) {
                    let k = choose|k: int| 0 <= k < prior.len() && prior[k] == x;
                    assert(now[k] == x);
                }
                if x == value {
                    assert(now[i as int - 1] == x);
                }
                if now.contains(x) {
                    let k = choose|k: int| 0 <= k < now.len() && now[k] == x;
                    if k < i - 1 {
                        assert(prior[k] == x);
                    }
                }
                assert(before.contains(x) <==> (old(steps)@.contains(x) || prior.contains(x)));
            }
        }
    }
    assert(more@.take(i as int) =~= more@);
}

/// The steps to evaluate for metrics: the supervised ones, the metric horizons and the last step.
pub fn merge_rollout_steps(primary: &[usize], metric_caps: &[usize], final_step: usize) -> (result:
    Vec<usize>)
    ensures
        lists_exactly(
            result@,
            |x: usize|
                primary@.contains(x) || metric_caps@.contains(x) || x == at_least_one(
                    final_step as int,
                ),
        ),
{
    let mut steps: Vec<usize> = Vec::new();
    merge_into(&mut steps, primary);
    merge_into(&mut steps, metric_caps);
    insert_sorted(&mut steps, max_one(final_step));
    steps
}

/// The position of the first entry equal to `step`; `None` where there is none.
pub open spec fn first_position(steps: Seq<usize>, step: usize) -> Option<int>
    decreases steps.len(),
{
    if steps.len() == 0 {
        None
    } else if steps[0] == step {
        Some(0)
    } else {
        match first_position(steps.skip(1), step) {
            Some(k) => Some(k + 1),
            None => None,
        }
    }
}

proof fn lemma_first_position(steps: Seq<usize>, step: usize)
    ensures
        match first_position(steps, step) {
            Some(k) => 0 <= k < steps.len() && steps[k] == step && forall|j: int|
                0 <= j < k ==> steps[j] != step,
            None => !steps.contains(step),
        },
    decreases steps.len(),
{
    if steps.len() > 0 && steps[0] != step {
        let rest = steps.skip(1);
        lemma_first_position(rest, step);
        match first_position(rest, step) {
            Some(k) => {
                assert forall|j: int| 0 <= j < k + 1 implies steps[j] != step by {
                    if j > 0 {
                        assert(rest[j - 1] == steps[j]);
                    }
                }
            },
            None => {
                if steps.contains(step) {
                    let j = choose|j: int| 0 <= j < steps.len() && steps[j] == step;
                    assert(rest[j - 1] == step);
                }
            },
        }
    }
}

/// Where `step` first stands in `steps`.
pub fn position_of_step(steps: &[usize], step: usize) -> (r: Option<usize>)
    ensures
        match r {
            Some(k) => first_position(steps@, step) == Some(k as int) && k < steps@.len()
                && steps@[k as int] == step,
            None => first_position(steps@, step) is None && !steps@.contains(step),
        },
{
    proof {
        lemma_first_position(steps@, step);
    }
    let mut k: usize = 0;
    while k < steps.len()
        invariant
            k <= steps@.len(),
            forall|j: int| 0 <= j < k ==> steps@[j] != step,
        decreases steps@.len() - k,
    {
        if steps[k] == step {
            proof {
                lemma_first_position(steps@, step);
            }
            return Some(k);
        }
        k += 1;
    }
    None
}

/// For each metric horizon the evaluated step that reports it; `None` leaves the metric at zero.
pub fn rollout_metric_slots(horizons: &[usize], evaluated: &[usize]) -> (result: Vec<Option<usize>>)
    ensures
        result@.len() == horizons@.len(),
        forall|i: int|
            0 <= i < horizons@.len() ==> match #[trigger] result@[i] {
                Some(k) => first_position(evaluated@, horizons@[i]) == Some(k as int),
                None => !evaluated@.contains(horizons@[i]),
            },
{
    let mut slots: Vec<Option<usize>> = Vec::new();
    let mut i: usize = 0;
    while i < horizons.len()
        invariant
            i <= horizons@.len(),
            slots@.len() == i,
            forall|j: int|
                0 <= j < i ==> match #[trigger] slots@[j] {
                    Some(k) => first_position(evaluated@, horizons@[j]) == Some(k as int),
                    None => !evaluated@.contains(horizons@[j]),
                },
        decreases horizons@.len() - i,
    {
        slots.push(position_of_step(evaluated, horizons[i]));
        i += 1;
    }
    slots
}

/// For each supervised step the evaluated entry that holds its terms.
pub fn supervised_term_positions(supervised: &[usize], evaluated: &[usize]) -> (result: Vec<usize>)
    requires
        forall|i: int|
            0 <= i < supervised@.len() ==> evaluated@.contains(#[trigger] supervised@[i]),
    ensures
        result@.len() == supervised@.len(),
        forall|i: int|
            0 <= i < supervised@.len() ==> first_position(evaluated@, supervised@[i]) == Some(
                (#[trigger] result@[i]) as int,
            ),
{
    let mut positions: Vec<usize> = Vec::new();
    let mut i: usize = 0;
    while i < supervised.len()
        invariant
            i <= supervised@.len(),
            positions@.len() == i,
            forall|j: int|
                0 <= j < supervised@.len() ==> evaluated@.contains(#[trigger] supervised@[j]),
            forall|j: int|
                0 <= j < i ==> first_position(evaluated@, supervised@[j]) == Some(
                    (#[trigger] positions@[j]) as int,
                ),
        decreases supervised@.len() - i,
    {
        assert(evaluated@.contains(supervised@[i as int]));
        let position: usize = match position_of_step(evaluated, supervised[i]) {
            Some(k) => k,
            None => 0,
        };
        positions.push(position);
        i += 1;
    }
    positions
}

/// The pairs of evaluated entries that the improvement penalty compares: each supervised step with
/// the one before it. A group of fewer than two steps has none.
pub fn improvement_pairs(positions: &[usize]) -> (result: Vec<(usize, usize)>)
    ensures
        result@.len() == (if positions@.len() < 2 {
            0
        } else {
            positions@.len() - 1
        }),
        forall|i: int|
            0 <= i < result@.len() ==> #[trigger] result@[i] == (
                positions@[i],
                positions@[i + 1],
            ),
{
    let mut pairs: Vec<(usize, usize)> = Vec::new();
    let mut i: usize = 1;
    while i < positions.len()
        invariant
            1 <= i,
            i <= positions@.len() || i == 1,
            pairs@.len() == i - 1,
            forall|j: int|
                0 <= j < pairs@.len() ==> #[trigger] pairs@[j] == (
                    positions@[j],
                    positions@[j + 1],
                ),
        decreases positions@.len() - i,
    {
        pairs.push((positions[i - 1], positions[i]));
        i += 1;
    }
    pairs
}

/// Which evaluated entries one supervision group weighs, and which pairs it compares.
#[derive(Debug)]
pub struct GroupTermPlan {
    pub steps: Vec<usize>,
    pub positions: Vec<usize>,
    pub pairs: Vec<(usize, usize)>,
}

/// What the terms of one training batch are made of: the steps to evaluate, and group by group the
/// entries that enter the loss.
#[derive(Debug)]
pub struct TrainTermsPlan {
    pub evaluated: Vec<usize>,
    pub groups: Vec<GroupTermPlan>,
}

/// Whether `plan` weighs exactly the steps of `group` among `evaluated`, and compares its
/// neighbours where `penalised`.
pub open spec fn is_group_term_plan(
    plan: GroupTermPlan,
    group: Seq<usize>,
    evaluated: Seq<usize>,
    penalised: bool,
) -> bool {
    &&& plan.steps@ == group
    &&& plan.positions@.len() == group.len()
    &&& forall|i: int|
        0 <= i < group.len() ==> first_position(evaluated, group[i]) == Some(
            (#[trigger] plan.positions@[i]) as int,
        )
    &&& plan.pairs@.len() == (if penalised && group.len() >= 2 {
        group.len() - 1
    } else {
        0
    })
    &&& forall|i: int|
        0 <= i < plan.pairs@.len() ==> #[trigger] plan.pairs@[i] == (
            plan.positions@[i],
            plan.positions@[i + 1],
        )
}

/// Plans the loss of one batch from its supervision groups. Every step of every group is among the
/// evaluated ones, so each term that the loss asks for exists.
pub fn plan_train_terms(groups: &[Vec<usize>], improvement_weight: Single) -> (plan: TrainTermsPlan)
    ensures
        lists_exactly(plan.evaluated@, |x: usize| in_some_group(groups@, x)),
        plan.groups@.len() == groups@.len(),
        forall|g: int|
            0 <= g < groups@.len() ==> is_group_term_plan(
                #[trigger] plan.groups@[g],
                groups@[g]@,
                plan.evaluated@,
                Single::zero().lt(improvement_weight),
            ),
{
    let evaluated = merge_rollout_supervision_groups(groups);
    let penalised: bool = improvement_weight.is_positive();
    let mut plans: Vec<GroupTermPlan> = Vec::new();
    let mut g: usize = 0;
    while g < groups.len()
        invariant
            g <= groups@.len(),
            plans@.len() == g,
            lists_exactly(evaluated@, |x: usize| in_some_group(groups@, x)),
            forall|j: int|
                0 <= j < g ==> is_group_term_plan(
                    #[trigger] plans@[j],
                    groups@[j]@,
                    evaluated@,
                    penalised,
                ),
        decreases groups@.len() - g,
    {
        assert forall|i: int| 0 <= i < groups@[g as int]@.len() implies evaluated@.contains(
            #[trigger] groups@[g as int]@[i],
        ) by {
            assert(groups@[g as int]@.contains(groups@[g as int]@[i]));
            assert(in_some_group(groups@, groups@[g as int]@[i]));
        }
        let group: &Vec<usize> = &groups[g];
        let positions = supervised_term_positions(group.as_slice(), evaluated.as_slice());
        let pairs = if penalised {
            improvement_pairs(positions.as_slice())
        } else {
            Vec::new()
        };
        plans.push(GroupTermPlan { steps: copy_steps(group.as_slice()), positions, pairs });
        g += 1;
    }
    TrainTermsPlan { evaluated, groups: plans }
}

/// A copy of `steps`.
pub(crate) fn copy_steps(steps: &[usize]) -> (r: Vec<usize>)
    ensures
        r@ == steps@,
{
    let mut out: Vec<usize> = Vec::new();
    let mut i: usize = 0;
    while i < steps.len()
        invariant
            i <= steps@.len(),
            out@ == steps@.take(i as int),
        decreases steps@.len() - i,
    {
        out.push(steps[i]);
        i += 1;
        assert(out@ =~= steps@.take(i as int));
    }
    assert(out@ =~= steps@);
    out
}

/// Merging does not depend on the order of the groups, and merging a merged list changes nothing.
pub proof fn law_merge_depends_on_values_alone(
    groups: Seq<Vec<usize>>,
    others: Seq<Vec<usize>>,
    a: Seq<usize>,
    b: Seq<usize>,
)
    requires
        lists_exactly(a, |x: usize| in_some_group(groups, x)),
        lists_exactly(b, |x: usize| in_some_group(others, x)),
        forall|x: usize| in_some_group(groups, x) <==> in_some_group(others, x),
    ensures
        a == b,
        is_sorted_set_of(a, a),
{
    assert forall|x: usize| a.contains(x) <==> b.contains(x) by {
        assert(in_some_group(groups, x) <==> in_some_group(others, x));
    }
    crate::ordered::law_listing_is_unique(a, b);
}

/// What is raised to one is the least number that is not below it and not below one.
pub proof fn law_at_least_one_is_the_least(n: int, m: int)
    ensures
        at_least_one(n) <= m <==> n <= m && 1 <= m,
{
}

/// A step is a candidate exactly where it is the last one, or comes a whole number of strides after
/// the first one; the first itself counts only where it is asked for. A stride of zero is one of one.
pub proof fn law_candidates_are_a_stride_apart(
    step: int,
    total_steps: int,
    stride: usize,
    apart: int,
    include_step1: bool,
)
    requires
        1 <= step <= total_steps,
        stride == 0 ==> apart == 1,
        stride >= 1 ==> apart == stride,
    ensures
        is_rollout_candidate(step, total_steps, stride as int, include_step1) <==> {
            ||| step == total_steps
            ||| step == 1 && include_step1
            ||| exists|m: int| m >= 1 && #[trigger] (m * apart) + 1 == step
        },
{
    vstd::arithmetic::div_mod::lemma_fundamental_div_mod(step - 1, apart);
    vstd::arithmetic::mul::lemma_mul_is_commutative(apart, (step - 1) / apart);
    if step > 1 && (step - 1) % apart == 0 {
        let m = (step - 1) / apart;
        assert(m >= 1) by (nonlinear_arith)
            requires
                m * apart == step - 1,
                step > 1,
                apart >= 1,
        ;
        assert(m * apart + 1 == step);
    }
    assert forall|m: int| m >= 1 && #[trigger] (m * apart) + 1 == step implies (step - 1) % apart
        == 0 && step > 1 by {
        vstd::arithmetic::div_mod::lemma_fundamental_div_mod_converse(step - 1, apart, m, 0);
        assert(m * apart >= 1) by (nonlinear_arith)
            requires
                m >= 1,
                apart >= 1,
        ;
    }
}

/// The candidates are listed in order, each once, and no other step is.
pub proof fn law_candidates_are_listed_in_order(
    n: nat,
    total_steps: int,
    stride: int,
    include_step1: bool,
)
    requires
        n <= usize::MAX,
    ensures
        lists_exactly(
            rollout_candidates(n, total_steps, stride, include_step1),
            |x: usize| x <= n && is_rollout_candidate(x as int, total_steps, stride, include_step1),
        ),
    decreases n,
{
    let listed = rollout_candidates(n, total_steps, stride, include_step1);
    if n > 0 {
        let m = (n - 1) as nat;
        law_candidates_are_listed_in_order(m, total_steps, stride, include_step1);
        let earlier = rollout_candidates(m, total_steps, stride, include_step1);
        assert forall|x: usize| #[trigger] listed.contains(x) <==> (x <= n && is_rollout_candidate(
            x as int,
            total_steps,
            stride,
            include_step1,
        )) by {
            assert(earlier.contains(x) <==> (x <= m && is_rollout_candidate(
                x as int,
                total_steps,
                stride,
                include_step1,
            )));
            if is_rollout_candidate(n as int, total_steps, stride, include_step1) {
                if earlier.contains(x) {
                    let i = earlier.index_of(x);
                    assert(listed[i] == x);
                }
                if x == n {
                    assert(listed[listed.len() - 1] == x);
                }
                if listed.contains(x) {
                    let i = listed.index_of(x);
                    if i < earlier.len() {
                        assert(earlier[i] == x);
                    }
                }
            }
        }
        assert forall|i: int, j: int| 0 <= i < j < listed.len() implies listed[i] < listed[j] by {
            assert(earlier.contains(earlier[i]));
            if j < earlier.len() {
                assert(listed[j] == earlier[j]);
            }
        }
    }
}

/// With frames for all candidates each of them is supervised, and no other step is.
pub proof fn law_enough_frames_supervise_every_candidate(
    step: usize,
    total_steps: usize,
    frames: usize,
    stride: usize,
    include_step1: bool,
)
    requires
        total_steps <= frames,
        1 <= total_steps,
    ensures
        is_supervised_step(step, total_steps, frames, stride, include_step1)
            <==> is_rollout_candidate(
            step as int,
            total_steps as int,
            stride as int,
            include_step1,
        ),
{
    let listed = rollout_candidates(
        total_steps as nat,
        total_steps as int,
        stride as int,
        include_step1,
    );
    law_candidates_are_listed_in_order(
        total_steps as nat,
        total_steps as int,
        stride as int,
        include_step1,
    );
    lemma_candidate_count(total_steps as nat, total_steps as int, stride as int, include_step1);
    assert(listed.contains(step) <==> (step <= total_steps && is_rollout_candidate(
        step as int,
        total_steps as int,
        stride as int,
        include_step1,
    )));
}

proof fn lemma_candidate_count(n: nat, total_steps: int, stride: int, include_step1: bool)
    ensures
        rollout_candidates(n, total_steps, stride, include_step1).len() <= n,
    decreases n,
{
    if n > 0 {
        lemma_candidate_count((n - 1) as nat, total_steps, stride, include_step1);
    }
}

/// Every listed step that the rollout reaches is kept, and nothing else; but where it reaches none,
/// its last step is.
pub proof fn law_explicit_steps_are_kept_where_reached(
    step: usize,
    total_steps: usize,
    steps: Seq<usize>,
)
    requires
        total_steps >= 1,
    ensures
        1 <= step <= total_steps && steps.contains(step) ==> is_explicit_step(
            step,
            total_steps,
            steps,
        ),
        is_explicit_step(step, total_steps, steps) && !steps.contains(step) ==> step == total_steps
            && forall|k: int|
            0 <= k < steps.len() ==> (#[trigger] steps[k]) == 0 || steps[k] > total_steps,
        is_explicit_step(step, total_steps, steps) ==> 1 <= step <= total_steps,
        (forall|k: int| 0 <= k < steps.len() ==> (#[trigger] steps[k]) == 0 || steps[k]
            > total_steps) ==> is_explicit_step(total_steps, total_steps, steps),
{
    if steps.contains(step) && 1 <= step <= total_steps {
        let k = steps.index_of(step);
        assert(0 < steps[k] <= total_steps);
    }
}

/// A weighted draw ends at one step, which lies in the range: at the first step by which it is used
/// up, and at the last one where it never is.
pub proof fn law_weighted_draws_end_at_one_step(
    rollout: VisionRollout,
    spent: Seq<bool>,
    r: int,
    k: int,
)
    requires
        rollout.min_steps < rollout.max_steps,
        is_weighted_step(rollout, spent, r),
    ensures
        rollout.min_steps <= r <= rollout.max_steps,
        is_weighted_step(rollout, spent, k) ==> k == r,
        0 <= k < spent.len() && spent[k] && rollout.min_steps + k <= rollout.max_steps ==> r
            <= rollout.min_steps + k,
        r < rollout.max_steps ==> r - rollout.min_steps < spent.len() && spent[r
            - rollout.min_steps],
        rollout.min_steps <= k < r && k - rollout.min_steps < spent.len() ==> !spent[k
            - rollout.min_steps],
{
    let span = rollout.max_steps - rollout.min_steps;
    if exists|j: int|
        0 <= j < spent.len() && j <= span && (#[trigger] spent[j]) && r == rollout.min_steps + j
            && forall|i: int| 0 <= i < j ==> !#[trigger] spent[i] {
        let j = choose|j: int|
            0 <= j < spent.len() && j <= span && (#[trigger] spent[j]) && r == rollout.min_steps + j
                && forall|i: int| 0 <= i < j ==> !#[trigger] spent[i];
        assert(spent[j]);
    }
}

/// A rollout has between the least and the most steps, and at least one of none to choose from. A
/// positive power leaves the choice to the weighted draw, any other one leaves it open.
pub proof fn law_rollouts_keep_to_their_range(
    rollout: VisionRollout,
    sampling_power: Single,
    spent: Seq<bool>,
    r: int,
)
    ensures
        rollout.min_steps >= rollout.max_steps ==> (is_sampled_step_count(
            rollout,
            sampling_power,
            spent,
            r,
        ) <==> r == at_least_one(rollout.max_steps as int)),
        rollout.min_steps < rollout.max_steps && is_sampled_step_count(
            rollout,
            sampling_power,
            spent,
            r,
        ) ==> rollout.min_steps <= r <= rollout.max_steps,
        rollout.min_steps < rollout.max_steps && !sampling_power.is_nan() && sampling_power.rank()
            <= 0 && rollout.min_steps <= r <= rollout.max_steps ==> is_sampled_step_count(
            rollout,
            sampling_power,
            spent,
            r,
        ),
        rollout.min_steps < rollout.max_steps && (sampling_power.is_nan() || sampling_power.rank()
            > 0) && is_sampled_step_count(rollout, sampling_power, spent, r) ==> is_weighted_step(
            rollout,
            spent,
            r,
        ),
        draws_uniformly(rollout, sampling_power) <==> rollout.min_steps < rollout.max_steps
            && !sampling_power.is_nan() && sampling_power.rank() <= 0,
{
    if rollout.min_steps < rollout.max_steps && is_weighted_step(rollout, spent, r) {
        law_weighted_draws_end_at_one_step(rollout, spent, r, r);
    }
}

/// Explicit groups come before explicit steps, and either before sampled rollouts: where there are
/// explicit groups nothing else of the settings matters, and where there are explicit steps the
/// sampling does not.
pub proof fn law_explicit_supervision_comes_first(
    rollout: VisionRollout,
    a: RolloutSupervisionSamplingConfig,
    b: RolloutSupervisionSamplingConfig,
    spent: Seq<Vec<bool>>,
    k: int,
    other: int,
    group: Seq<usize>,
)
    requires
        a.explicit_groups@ == b.explicit_groups@,
    ensures
        a.explicit_groups@.len() > 0 ==> (is_supervision_group(rollout, a, spent, k, group)
            <==> is_supervision_group(rollout, b, spent, other, group)),
        a.explicit_groups@.len() > 0 && is_supervision_group(rollout, a, spent, k, group) ==> exists|
            g: int,
        |
            0 <= g < a.explicit_groups@.len() && #[trigger] is_explicit_listing(
                group,
                at_least_one(rollout.max_steps as int) as usize,
                a.explicit_groups@[g]@,
            ),
        a.explicit_groups@.len() == 0 && a.explicit_steps@.len() > 0 ==> (is_supervision_group(
            rollout,
            a,
            spent,
            k,
            group,
        ) <==> is_explicit_listing(
            group,
            at_least_one(rollout.max_steps as int) as usize,
            a.explicit_steps@,
        )),
{
}

/// Whatever is supervised, the steps of a group come in order, each once, and lie between the first
/// step and the longest rollout.
pub proof fn law_groups_lie_in_the_rollout(
    rollout: VisionRollout,
    config: RolloutSupervisionSamplingConfig,
    spent: Seq<Vec<bool>>,
    k: int,
    group: Seq<usize>,
    i: int,
)
    requires
        is_supervision_group(rollout, config, spent, k, group),
        0 <= i < group.len(),
    ensures
        strictly_increasing(group),
        1 <= group[i] <= at_least_one(rollout.max_steps as int),
{
    let x = group[i];
    assert(group.contains(x));
    let horizon = at_least_one(rollout.max_steps as int) as usize;
    if config.explicit_groups@.len() > 0 {
        let g = choose|g: int|
            0 <= g < config.explicit_groups@.len() && #[trigger] is_explicit_listing(
                group,
                horizon,
                config.explicit_groups@[g]@,
            );
        assert(is_explicit_step(x, horizon, config.explicit_groups@[g]@));
    } else if config.explicit_steps@.len() > 0 {
        assert(is_explicit_step(x, horizon, config.explicit_steps@));
    } else {
        let steps = choose|steps: usize| #[trigger]
            is_sampled_step_count(
                rollout,
                config.sampling_power,
                spent_of(spent, k),
                steps as int,
            ) && is_supervision_listing(
                group,
                steps,
                config.frames,
                config.stride,
                config.include_step1,
            );
        law_rollouts_keep_to_their_range(
            rollout,
            config.sampling_power,
            spent_of(spent, k),
            steps as int,
        );
        assert(is_supervised_step(x, steps, config.frames, config.stride, config.include_step1));
        law_supervision_covers_the_final_step(
            steps,
            config.frames,
            config.stride,
            config.include_step1,
        );
    }
}

/// The first position of a step holds it, no earlier one does, and there is none only where the step
/// does not occur.
pub proof fn law_first_position_is_the_first(steps: Seq<usize>, step: usize)
    ensures
        match first_position(steps, step) {
            Some(k) => 0 <= k < steps.len() && steps[k] == step && forall|j: int|
                0 <= j < k ==> #[trigger] steps[j] != step,
            None => forall|j: int| 0 <= j < steps.len() ==> #[trigger] steps[j] != step,
        },
    decreases steps.len(),
{
    if steps.len() > 0 && steps[0] != step {
        let rest = steps.skip(1);
        law_first_position_is_the_first(rest, step);
        assert forall|j: int| 1 <= j < steps.len() implies #[trigger] steps[j] == rest[j - 1] by {}
    }
}

/// The terms of a group are those of its own steps, in its order, and where there is a penalty each
/// step is compared with the one before it in the group.
pub proof fn law_groups_weigh_their_own_steps(
    plan: GroupTermPlan,
    group: Seq<usize>,
    evaluated: Seq<usize>,
    penalised: bool,
    i: int,
)
    requires
        is_group_term_plan(plan, group, evaluated, penalised),
        0 <= i < group.len(),
    ensures
        plan.positions@.len() == group.len(),
        plan.positions@[i] < evaluated.len(),
        evaluated[plan.positions@[i] as int] == group[i],
        !penalised ==> plan.pairs@.len() == 0,
        penalised ==> plan.pairs@.len() + 1 == group.len(),
        penalised && i + 1 < group.len() ==> evaluated[plan.pairs@[i].0 as int] == group[i]
            && evaluated[plan.pairs@[i].1 as int] == group[i + 1],
{
    assert(first_position(evaluated, group[i]) == Some(plan.positions@[i] as int));
    law_first_position_is_the_first(evaluated, group[i]);
    if i + 1 < group.len() {
        assert(first_position(evaluated, group[i + 1]) == Some(plan.positions@[i + 1] as int));
        law_first_position_is_the_first(evaluated, group[i + 1]);
    }
}

/// A group has its own weighted draws, and none where none were made for it.
pub proof fn law_groups_have_their_own_draws(spent: Seq<Vec<bool>>, k: int)
    ensures
        0 <= k < spent.len() ==> spent_of(spent, k) == spent[k]@,
        k >= spent.len() ==> spent_of(spent, k).len() == 0,
{
}

/// Every step of every group is merged, whichever group it is in, and no other step.
pub proof fn law_steps_of_all_groups_are_merged(
    groups: Seq<Vec<usize>>,
    g: int,
    i: int,
    step: usize,
)
    requires
        0 <= g < groups.len(),
        0 <= i < groups[g]@.len(),
    ensures
        in_some_group(groups, groups[g]@[i]),
        (forall|h: int| 0 <= h < groups.len() ==> !(#[trigger] groups[h])@.contains(step))
            ==> !in_some_group(groups, step),
{
    assert(groups[g]@.contains(groups[g]@[i]));
}

} // verus!
