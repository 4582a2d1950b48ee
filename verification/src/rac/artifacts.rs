//! What is drawn of an evaluation: which recorded states stand next to each other, and how many
//! samples are shown.

use crate::numeric::{floored_difference, min_of, sat_sub};
use crate::rollout::{at_least_one, max_one};
use crate::scalar::Single;
use vstd::prelude::*;

verus! {

/// A recorded state of a trajectory, or its last one where that many were not recorded.
#[derive(Clone, Copy, Debug, PartialEq, Eq, Structural)]
pub enum FramePick {
    Recorded(usize),
    Final,
}

/// Recorded features of a trajectory, or zeros where that many were not recorded.
#[derive(Clone, Copy, Debug, PartialEq, Eq, Structural)]
pub enum FeaturePick {
    Recorded(usize),
    Zeros,
}

/// How many states and features the three trajectories recorded.
#[derive(Clone, Copy, Debug, PartialEq, Eq, Structural)]
pub struct TrajectoryLengths {
    pub forward_steps: usize,
    pub forward_states: usize,
    pub forward_times: usize,
    pub reverse_states: usize,
    pub reverse_velocities: usize,
    pub reverse_tokens: usize,
    pub roundtrip_states: usize,
}

/// What is drawn for one step. The reverse trajectory is read backwards, so that it matches the
/// forward one.
#[derive(Clone, Copy, Debug, PartialEq, Eq, Structural)]
pub struct RacArtifactStep {
    pub forward: FramePick,
    /// The recorded time; `None` stands for the start.
    pub time: Option<usize>,
    pub reverse: FramePick,
    pub roundtrip: FramePick,
    pub reverse_velocity: FeaturePick,
    pub reverse_tokens: FeaturePick,
}

/// The state at `index`, where it was recorded.
pub open spec fn frame_pick_of(index: int, recorded: int) -> FramePick {
    if index < recorded {
        FramePick::Recorded(index as usize)
    } else {
        FramePick::Final
    }
}

/// The features at `index`, where they were recorded.
pub open spec fn feature_pick_of(index: int, recorded: int) -> FeaturePick {
    if index < recorded {
        FeaturePick::Recorded(index as usize)
    } else {
        FeaturePick::Zeros
    }
}

/// What is drawn for step `k`.
pub open spec fn artifact_step_of(lengths: TrajectoryLengths, k: int) -> RacArtifactStep {
    let mirrored = floored_difference(lengths.reverse_velocities as int, k + 1);
    RacArtifactStep {
        forward: frame_pick_of(k, lengths.forward_states as int),
        time: if k < lengths.forward_times {
            Some(k as usize)
        } else {
            None
        },
        reverse: frame_pick_of(
            floored_difference(lengths.reverse_states as int, k + 1),
            lengths.reverse_states as int,
        ),
        roundtrip: frame_pick_of(k, lengths.roundtrip_states as int),
        reverse_velocity: feature_pick_of(mirrored, lengths.reverse_velocities as int),
        reverse_tokens: feature_pick_of(mirrored, lengths.reverse_tokens as int),
    }
}

fn frame_pick(index: usize, recorded: usize) -> (r: FramePick)
    ensures
        r == frame_pick_of(index as int, recorded as int),
{
    if index < recorded {
        FramePick::Recorded(index)
    } else {
        FramePick::Final
    }
}

fn feature_pick(index: usize, recorded: usize) -> (r: FeaturePick)
    ensures
        r == feature_pick_of(index as int, recorded as int),
{
    if index < recorded {
        FeaturePick::Recorded(index)
    } else {
        FeaturePick::Zeros
    }
}

/// What is drawn, step by step.
pub fn plan_artifact_steps(lengths: &TrajectoryLengths) -> (steps: Vec<RacArtifactStep>)
    requires
        lengths.forward_steps < usize::MAX,
    ensures
        steps@ == Seq::new(
            lengths.forward_steps as nat,
            |k: int| artifact_step_of(*lengths, k),
        ),
{
    let mut steps: Vec<RacArtifactStep> = Vec::new();
    let mut k: usize = 0;
    while k < lengths.forward_steps
        invariant
            k <= lengths.forward_steps < usize::MAX,
            steps@ == Seq::new(k as nat, |j: int| artifact_step_of(*lengths, j)),
        decreases lengths.forward_steps - k,
    {
        let mirrored: usize = sat_sub(lengths.reverse_velocities, k + 1);
        let time: Option<usize> = if k < lengths.forward_times {
            Some(k)
        } else {
            None
        };
        let step = RacArtifactStep {
            forward: frame_pick(k, lengths.forward_states),
            time,
            reverse: frame_pick(
                sat_sub(lengths.reverse_states, k + 1),
                lengths.reverse_states,
            ),
            roundtrip: frame_pick(k, lengths.roundtrip_states),
            reverse_velocity: feature_pick(mirrored, lengths.reverse_velocities),
            reverse_tokens: feature_pick(mirrored, lengths.reverse_tokens),
        };
        assert(step == artifact_step_of(*lengths, k as int));
        steps.push(step);
        k += 1;
        assert(steps@ =~= Seq::new(k as nat, |j: int| artifact_step_of(*lengths, j)));
    }
    steps
}

/// Trajectories of the same number of steps are drawn without substitutes, and the reverse one ends
/// where the forward one starts.
pub proof fn law_matching_trajectories_are_drawn_in_full(
    lengths: TrajectoryLengths,
    steps: int,
    k: int,
)
    requires
        0 <= k < steps < usize::MAX,
        lengths.forward_states == steps + 1,
        lengths.forward_times == steps + 1,
        lengths.reverse_states == steps + 1,
        lengths.roundtrip_states == steps + 1,
        lengths.reverse_velocities == steps,
        lengths.reverse_tokens == steps,
    ensures
        artifact_step_of(lengths, k) == (RacArtifactStep {
            forward: FramePick::Recorded(k as usize),
            time: Some(k as usize),
            reverse: FramePick::Recorded((steps - k) as usize),
            roundtrip: FramePick::Recorded(k as usize),
            reverse_velocity: FeaturePick::Recorded((steps - 1 - k) as usize),
            reverse_tokens: FeaturePick::Recorded((steps - 1 - k) as usize),
        }),
{
}

/// The smallest of `limit` and the first `n` counts.
pub open spec fn least_of(limit: int, counts: Seq<usize>, n: nat) -> int
    decreases n,
{
    if n == 0 {
        limit
    } else {
        vstd::math::min(least_of(limit, counts, (n - 1) as nat), counts[n - 1] as int)
    }
}

/// How many samples are drawn: at most the configured number (at least one), and no more than every
/// stack holds. Nothing is drawn of a flow without steps or without samples.
pub fn artifact_samples(steps: usize, max_images: usize, stack_sizes: &[usize]) -> (take: Option<
    usize,
>)
    ensures
        ({
            let least = least_of(
                at_least_one(max_images as int),
                stack_sizes@,
                stack_sizes@.len(),
            );
            match take {
                Some(n) => steps > 0 && n == least && n > 0,
                None => steps == 0 || least == 0,
            }
        }),
{
    if steps == 0 {
        return None;
    }
    let mut take: usize = max_one(max_images);
    let mut i: usize = 0;
    while i < stack_sizes.len()
        invariant
            i <= stack_sizes@.len(),
            take == least_of(at_least_one(max_images as int), stack_sizes@, i as nat),
        decreases stack_sizes@.len() - i,
    {
        take = min_of(take, stack_sizes[i]);
        i += 1;
    }
    if take == 0 {
        None
    } else {
        Some(take)
    }
}

/// The captions of the panels, in order.
pub open spec fn legend_texts() -> Seq<Seq<char>> {
    seq![
        "forward_state_x_t"@,
        "forward_velocity_patch_norm_v_t"@,
        "forward_patch_pca_z_t"@,
        "reverse_velocity_patch_norm_v_t"@,
        "reverse_patch_pca_z_t"@,
        "reverse_state_x_t_matched"@,
        "roundtrip_state_x_t"@,
        "forward_reference_error_patch_norm"@,
    ]
}

/// The captions of the panels, in order.
pub fn rac_artifact_legend() -> (legend: Vec<&'static str>)
    ensures
        crate::cifar::name_views(legend@) == legend_texts(),
{
    let mut legend: Vec<&'static str> = Vec::new();
    legend.push("forward_state_x_t");
    legend.push("forward_velocity_patch_norm_v_t");
    legend.push("forward_patch_pca_z_t");
    legend.push("reverse_velocity_patch_norm_v_t");
    legend.push("reverse_patch_pca_z_t");
    legend.push("reverse_state_x_t_matched");
    legend.push("roundtrip_state_x_t");
    legend.push("forward_reference_error_patch_norm");
    assert(crate::cifar::name_views(legend@) =~= legend_texts());
    legend
}

/// What the sidecar says of one sample, apart from its losses.
#[derive(Clone, Copy, Debug, PartialEq, Eq, Structural)]
pub struct SidecarSample {
    pub sample_index: usize,
    pub label: i64,
    pub probe_pred: i64,
    pub probe_correct: bool,
}

/// The value at `index`; minus one where there is none.
pub open spec fn value_or_missing(values: Seq<i64>, index: int) -> i64 {
    if index < values.len() {
        values[index]
    } else {
        -1i64
    }
}

/// What the sidecar says of sample `k`.
pub open spec fn sidecar_sample_of(labels: Seq<i64>, predictions: Seq<i64>, k: int) -> SidecarSample {
    SidecarSample {
        sample_index: k as usize,
        label: value_or_missing(labels, k),
        probe_pred: value_or_missing(predictions, k),
        probe_correct: value_or_missing(labels, k) == value_or_missing(predictions, k),
    }
}

/// The samples of the sidecar: as many as the batch has, up to `max_images` (at least one).
pub fn sidecar_samples(batch: usize, max_images: usize, labels: &[i64], predictions: &[i64]) -> (
samples: Vec<SidecarSample>)
    ensures
        samples@ == Seq::new(
            vstd::math::min(batch as int, at_least_one(max_images as int)) as nat,
            |k: int| sidecar_sample_of(labels@, predictions@, k),
        ),
{
    let count: usize = min_of(batch, max_one(max_images));
    let mut samples: Vec<SidecarSample> = Vec::new();
    let mut k: usize = 0;
    while k < count
        invariant
            k <= count,
            samples@ == Seq::new(k as nat, |j: int| sidecar_sample_of(labels@, predictions@, j)),
        decreases count - k,
    {
        let label: i64 = if k < labels.len() {
            labels[k]
        } else {
            -1
        };
        let pred: i64 = if k < predictions.len() {
            predictions[k]
        } else {
            -1
        };
        samples.push(
            SidecarSample {
                sample_index: k,
                label,
                probe_pred: pred,
                probe_correct: pred == label,
            },
        );
        k += 1;
        assert(samples@ =~= Seq::new(
            k as nat,
            |j: int| sidecar_sample_of(labels@, predictions@, j),
        ));
    }
    samples
}

/// The rows of a matrix that is stored row after row.
pub fn matrix_rows<T: Copy>(values: &[T], rows: usize, width: usize) -> (out: Vec<Vec<T>>)
    requires
        rows * width <= values@.len(),
    ensures
        out@.len() == rows,
        forall|r: int|
            0 <= r < rows ==> (#[trigger] out@[r])@ == values@.subrange(
                r * width,
                (r + 1) * width,
            ),
{
    let total: usize = values.len();
    let mut out: Vec<Vec<T>> = Vec::new();
    let mut r: usize = 0;
    while r < rows
        invariant
            r <= rows,
            rows * width <= values@.len(),
            total == values@.len(),
            out@.len() == r,
            forall|k: int|
                0 <= k < r ==> (#[trigger] out@[k])@ == values@.subrange(
                    k * width,
                    (k + 1) * width,
                ),
        decreases rows - r,
    {
        assert(0 <= r * width && r * width + width == (r + 1) * width && (r + 1) * width <= rows
            * width) by (nonlinear_arith)
            requires
                r + 1 <= rows,
        ;
        let start: usize = r * width;
        let mut row: Vec<T> = Vec::new();
        let mut i: usize = 0;
        while i < width
            invariant
                i <= width,
                start + width <= total,
                total == values@.len(),
                row@ == values@.subrange(start as int, start + i),
            decreases width - i,
        {
            row.push(values[start + i]);
            i += 1;
            assert(row@ =~= values@.subrange(start as int, start + i));
        }
        assert(row@ =~= values@.subrange(r * width, (r + 1) * width));
        out.push(row);
        r += 1;
    }
    out
}

/// The threshold above which a unit counts as active.
pub const ACTIVITY_THRESHOLD: u32 = 0x3a83_126f;

/// Whether a value counts as active: its magnitude exceeds the threshold.
pub open spec fn is_active(value: Single) -> bool {
    !value.is_nan() && value.magnitude() > ACTIVITY_THRESHOLD
}

/// Whether a value counts as positive.
pub open spec fn is_firing(value: Single) -> bool {
    (Single { bits: ACTIVITY_THRESHOLD }).lt(value)
}

/// How many of the first `n` values are active and how many are positive.
pub open spec fn activity_of(values: Seq<Single>, n: nat) -> (int, int)
    decreases n,
{
    if n == 0 {
        (0, 0)
    } else {
        let earlier = activity_of(values, (n - 1) as nat);
        (
            earlier.0 + if is_active(values[n - 1]) {
                1int
            } else {
                0
            },
            earlier.1 + if is_firing(values[n - 1]) {
                1int
            } else {
                0
            },
        )
    }
}

/// How many values are active and how many are positive.
pub fn count_activity(values: &[Single]) -> (r: (usize, usize))
    ensures
        activity_of(values@, values@.len()) == (r.0 as int, r.1 as int),
        r.1 <= r.0 <= values@.len(),
{
    let mut active: usize = 0;
    let mut positive: usize = 0;
    let mut i: usize = 0;
    while i < values.len()
        invariant
            i <= values@.len(),
            activity_of(values@, i as nat) == (active as int, positive as int),
            positive <= active <= i,
        decreases values@.len() - i,
    {
        let value: Single = values[i];
        let magnitude = Single {
            bits: if value.bits >= 0x8000_0000 {
                value.bits - 0x8000_0000
            } else {
                value.bits
            },
        };
        let threshold = Single { bits: ACTIVITY_THRESHOLD };
        if threshold.less_than(magnitude) {
            active += 1;
        }
        if threshold.less_than(value) {
            positive += 1;
        }
        i += 1;
    }
    (active, positive)
}

/// A step shows what was recorded for it. Past the end of a trajectory stands its last state, and
/// features that were not recorded are zeros; the reverse trajectory is read from its end, and stays
/// at its start once it is used up.
pub proof fn law_steps_show_what_was_recorded(lengths: TrajectoryLengths, k: int)
    requires
        0 <= k < usize::MAX,
    ensures
        ({
            let s = artifact_step_of(lengths, k);
            &&& s.forward == FramePick::Final <==> lengths.forward_states <= k
            &&& s.forward matches FramePick::Recorded(i) ==> i == k
            &&& s.roundtrip == FramePick::Final <==> lengths.roundtrip_states <= k
            &&& s.roundtrip matches FramePick::Recorded(i) ==> i == k
            &&& s.time is None <==> lengths.forward_times <= k
            &&& s.time matches Some(i) ==> i == k
            &&& s.reverse == FramePick::Final <==> lengths.reverse_states == 0
            &&& s.reverse matches FramePick::Recorded(i) ==> {
                &&& i + k + 1 == lengths.reverse_states || (i == 0 && k >= lengths.reverse_states)
            }
            &&& lengths.reverse_velocities == 0 ==> s.reverse_velocity == FeaturePick::Zeros
            &&& lengths.reverse_velocities > 0 ==> s.reverse_velocity is Recorded
            &&& s.reverse_velocity matches FeaturePick::Recorded(i) ==> {
                &&& i + k + 1 == lengths.reverse_velocities || (i == 0 && k
                    >= lengths.reverse_velocities)
            }
            &&& s.reverse_tokens matches FeaturePick::Recorded(i) ==> {
                &&& i < lengths.reverse_tokens
                &&& i + k + 1 == lengths.reverse_velocities || (i == 0 && k
                    >= lengths.reverse_velocities)
            }
            &&& s.reverse_tokens == FeaturePick::Zeros <==> lengths.reverse_tokens == 0
                || lengths.reverse_tokens + k + 1 <= lengths.reverse_velocities
        }),
{
}

/// No stack is asked for more samples than it holds, and no more than the limit are taken; but as
/// many as all of these allow.
pub proof fn law_least_is_the_largest_common_count(limit: int, counts: Seq<usize>, n: nat, m: int)
    requires
        n <= counts.len(),
    ensures
        m <= least_of(limit, counts, n) <==> m <= limit && forall|k: int|
            0 <= k < n ==> m <= #[trigger] counts[k],
    decreases n,
{
    if n > 0 {
        law_least_is_the_largest_common_count(limit, counts, (n - 1) as nat, m);
        if m <= least_of(limit, counts, n) {
            assert(m <= counts[n - 1]);
        }
    }
}

/// The sidecar numbers its samples, shows the label and the prediction that stand at that number,
/// and minus one for either that is missing.
pub proof fn law_sidecar_shows_labels_and_predictions(
    labels: Seq<i64>,
    predictions: Seq<i64>,
    k: int,
)
    requires
        0 <= k <= usize::MAX,
    ensures
        ({
            let s = sidecar_sample_of(labels, predictions, k);
            &&& s.sample_index == k
            &&& k < labels.len() ==> s.label == labels[k]
            &&& k >= labels.len() ==> s.label + 1 == 0
            &&& k < predictions.len() ==> s.probe_pred == predictions[k]
            &&& k >= predictions.len() ==> s.probe_pred + 1 == 0
            &&& s.probe_correct <==> s.label == s.probe_pred
        }),
{
}

/// A value is active exactly where it is a number above the threshold or below its negative, and
/// positive where it is above the threshold. A value and its negative are both active or neither is,
/// and of an active pair exactly one is positive.
pub proof fn law_activity_is_symmetric(value: Single, negative: Single)
    requires
        value.bits < 0x8000_0000,
        negative.bits == value.bits + 0x8000_0000,
    ensures
        is_active(value) <==> is_active(negative),
        is_active(value) <==> is_firing(value),
        !is_firing(negative),
        is_active(value) <==> !value.is_nan() && value.bits > 0x3a83_126f,
{
}

/// The units of two parts that stand behind each other are counted together.
pub proof fn law_activity_adds_up(a: Seq<Single>, b: Seq<Single>)
    ensures
        activity_of(a + b, (a + b).len()).0 == activity_of(a, a.len()).0 + activity_of(
            b,
            b.len(),
        ).0,
        activity_of(a + b, (a + b).len()).1 == activity_of(a, a.len()).1 + activity_of(
            b,
            b.len(),
        ).1,
    decreases b.len(),
{
    if b.len() == 0 {
        assert(a + b =~= a);
    } else {
        let rest = b.drop_last();
        law_activity_adds_up(a, rest);
        assert((a + b).drop_last() =~= a + rest);
        lemma_activity_prefix(a + b, a + rest, (a + rest).len());
        lemma_activity_prefix(b, rest, rest.len());
        assert((a + b).last() == b.last());
    }
}

proof fn lemma_activity_prefix(long: Seq<Single>, short: Seq<Single>, n: nat)
    requires
        n <= short.len() <= long.len(),
        short =~= long.subrange(0, short.len() as int),
    ensures
        activity_of(long, n) == activity_of(short, n),
    decreases n,
{
    if n > 0 {
        lemma_activity_prefix(long, short, (n - 1) as nat);
    }
}

/// One value is counted where it is active and where it is positive, and nowhere else.
pub proof fn law_activity_of_one_value(value: Single)
    ensures
        activity_of(seq![value], 1).0 == 1 <==> is_active(value),
        activity_of(seq![value], 1).0 == 0 <==> !is_active(value),
        activity_of(seq![value], 1).1 == 1 <==> is_firing(value),
        activity_of(seq![value], 1).1 == 0 <==> !is_firing(value),
{
    reveal_with_fuel(activity_of, 2);
}

} // verus!
