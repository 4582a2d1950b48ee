//! Probes of a distilled encoder: which steps and samples they read, and their reports.

use crate::artifact::{
    markdown_prelude, push_vision_artifact_markdown_prelude, VisionArtifactHeader,
};
use crate::config::{
    VisionDistillConfig, VisionTeacherConfig, VisionTeacherDecoderMode, VisionTeacherTargetConfig,
    VisionTeacherTargetKind,
};
use crate::distill::{first_head, AuxiliaryTeacherHead, RowRange};
use crate::numeric::{ceil_div, ceil_div_of, is_square, square_side};
use crate::ordered::{insert_sorted, lists_exactly, strictly_increasing};
use crate::rollout::{at_least_one, max_one};
use crate::samples::{
    balanced_positions, class_count, is_class_count, is_fair_limit, labels_of,
    limit_samples_shuffled, picked, shuffled_buckets, ImageSample,
};
use crate::scalar::{Double, Single};
use crate::text::{
    bare_line, decimal, joined, line, optional_number_line, prefixed_numbers, push_bare_line,
    push_decimal, push_joined, push_joined_numbers, push_line, push_number_line,
    push_optional_number_line, texts,
};
use vstd::prelude::*;
use vstd::string::StringExecFns;

verus! {

pub const VISION_DISTILL_FEATURE_PROBE_HARNESS_VERSION: &'static str =
    "vision_distill_feature_probe_v1";

pub const VISION_DISTILL_LINEAR_PROBE_HARNESS_VERSION: &'static str =
    "vision_distill_linear_probe_v1";

pub const VISION_DISTILL_DECODE_PROBE_HARNESS_VERSION: &'static str =
    "vision_distill_decode_probe_v1";

/// Why a probe cannot run.
#[derive(Debug)]
pub enum ProbeError {
    NotDistillMode,
    /// The teacher is a network, and only stored features can be probed.
    TeacherIsModel,
    UnknownTeacher(String),
    EmptyDataset,
    MissingStepOne,
    NoSteps,
    EmptyValidationSplit,
    MissingHead(String),
    /// Patch tokens that form no square grid.
    NoPatchGrid,
}

/// Whether `x` is one of `steps`, where zero counts as one.
pub open spec fn is_probe_step(x: usize, steps: Seq<usize>) -> bool {
    exists|k: int| 0 <= k < steps.len() && x == at_least_one((#[trigger] steps[k]) as int)
}

/// The rollout steps that a probe reads: at least one each, in increasing order, without
/// repetition.
pub fn probe_steps(steps: &[usize]) -> (result: Vec<usize>)
    ensures
        lists_exactly(result@, |x: usize| is_probe_step(x, steps@)),
{
    let mut out: Vec<usize> = Vec::new();
    let mut i: usize = 0;
    while i < steps.len()
        invariant
            i <= steps@.len(),
            strictly_increasing(out@),
            forall|x: usize| #[trigger]
                out@.contains(x) <==> is_probe_step(x, steps@.take(i as int)),
        decreases steps@.len() - i,
    {
        let ghost prior = steps@.take(i as int);
        let ghost before = out@;
        let value: usize = max_one(steps[i]);
        insert_sorted(&mut out, value);
        i += 1;
        proof {
            let now = steps@.take(i as int);
            assert forall|x: usize| #[trigger] out@.contains(x) <==> is_probe_step(x, now) by {
                if is_probe_step(x, prior) {
                    let k = choose|k: int|
                        0 <= k < prior.len() && x == at_least_one((#[trigger] prior[k]) as int);
                    assert(now[k] == prior[k]);
                }
                if x == value {
                    assert(x == at_least_one(now[i - 1] as int));
                }
                if is_probe_step(x, now) {
                    let k = choose|k: int|
                        0 <= k < now.len() && x == at_least_one((#[trigger] now[k]) as int);
                    if k < i - 1 {
                        assert(prior[k] == now[k]);
                    }
                }
                assert(before.contains(x) <==> is_probe_step(x, prior));
            }
        }
    }
    assert(steps@.take(i as int) =~= steps@);
    out
}

/// The ranges of at most `batch_size` rows that cover `len` rows.
pub open spec fn batch_range(len: int, batch_size: int, k: int) -> RowRange {
    RowRange {
        start: (k * batch_size) as usize,
        end: vstd::math::min((k + 1) * batch_size, len) as usize,
    }
}

/// Splits `len` rows into batches of `batch_size` (at least one), the last one possibly shorter.
pub fn batch_ranges(len: usize, batch_size: usize) -> (ranges: Vec<RowRange>)
    ensures
        ranges@ == Seq::new(
            ceil_div_of(len as int, at_least_one(batch_size as int)) as nat,
            |k: int| batch_range(len as int, at_least_one(batch_size as int), k),
        ),
{
    let size: usize = max_one(batch_size);
    let count: usize = ceil_div(len, size);
    let mut ranges: Vec<RowRange> = Vec::new();
    let mut start: usize = 0;
    let mut k: usize = 0;
    proof {
        crate::numeric::law_ceil_div_is_tight(len as int, size as int);
        assert(0 * size == 0) by (nonlinear_arith);
        if len == 0 {
            vstd::arithmetic::div_mod::lemma_basic_div(size - 1, size as int);
        }
    }
    while k < count
        invariant
            k <= count,
            size >= 1,
            size == at_least_one(batch_size as int),
            count == ceil_div_of(len as int, size as int),
            len > 0 ==> (count - 1) * size < len,
            count * size >= len,
            k < count ==> start == k * size && start < len,
            ranges@ == Seq::new(k as nat, |j: int| batch_range(len as int, size as int, j)),
        decreases count - k,
    {
        let rest: usize = len - start;
        let end: usize = if rest < size {
            len
        } else {
            start + size
        };
        proof {
            assert((k + 1) * size == k * size + size) by (nonlinear_arith);
        }
        ranges.push(RowRange { start, end });
        start = end;
        k += 1;
        proof {
            assert(ranges@ =~= Seq::new(
                k as nat,
                |j: int| batch_range(len as int, size as int, j),
            ));
            if k < count {
                assert(k * size <= (count - 1) * size) by (nonlinear_arith)
                    requires
                        k <= count - 1,
                        size >= 1,
                ;
            }
        }
    }
    ranges
}

/// The batches of a probe meet without gap or overlap and cover all rows.
pub proof fn law_batches_cover_the_rows(len: int, batch_size: int, k: int)
    requires
        0 < len <= usize::MAX,
        1 <= batch_size <= usize::MAX,
        0 <= k < ceil_div_of(len, batch_size),
    ensures
        k == 0 ==> batch_range(len, batch_size, k).start == 0,
        k + 1 < ceil_div_of(len, batch_size) ==> batch_range(len, batch_size, k).end == batch_range(
            len,
            batch_size,
            k + 1,
        ).start,
        k + 1 == ceil_div_of(len, batch_size) ==> batch_range(len, batch_size, k).end == len,
        batch_range(len, batch_size, k).start < batch_range(len, batch_size, k).end,
{
    crate::numeric::law_ceil_div_is_tight(len, batch_size);
    let n = ceil_div_of(len, batch_size);
    assert(0 <= k * batch_size && k * batch_size + batch_size == (k + 1) * batch_size && k
        * batch_size <= (n - 1) * batch_size) by (nonlinear_arith)
        requires
            0 <= k <= n - 1,
            batch_size >= 1,
    ;
    if k + 1 < n {
        assert((k + 1) * batch_size <= (n - 1) * batch_size) by (nonlinear_arith)
            requires
                k + 1 <= n - 1,
                batch_size >= 1,
        ;
    }
    assert(k == 0 ==> k * batch_size == 0) by (nonlinear_arith);
}

/// The seed with which the linear probe of one step is trained.
pub open spec fn step_seed_of(train_seed: u64, step: int) -> u64 {
    train_seed ^ (step * 0x9e37_79b9_7f4a_7c15 % 0x1_0000_0000_0000_0000) as u64
}

/// The seed with which the linear probe of one step is trained.
pub fn step_seed(train_seed: u64, step: usize) -> (seed: u64)
    ensures
        seed == step_seed_of(train_seed, step as int),
{
    train_seed ^ (step as u64).wrapping_mul(0x9e37_79b9_7f4a_7c15)
}

/// What a probe knows of its teacher.
#[derive(Debug)]
pub struct ProbeTeacherSpec {
    pub name: String,
    pub weight: Single,
    pub target_kind: VisionTeacherTargetKind,
    pub decoder_mode: VisionTeacherDecoderMode,
    /// The auxiliary target; `None` for the primary teacher.
    pub target: Option<usize>,
    pub feature_dim: usize,
    pub patch_tokens: Option<usize>,
}

/// The position of the first target of that name.
pub open spec fn first_target(targets: Seq<VisionTeacherTargetConfig>, name: Seq<char>) -> Option<int>
    decreases targets.len(),
{
    if targets.len() == 0 {
        None
    } else {
        match first_target(targets.drop_last(), name) {
            Some(k) => Some(k),
            None => if targets.last().name@ == name {
                Some(targets.len() - 1)
            } else {
                None
            },
        }
    }
}

proof fn lemma_first_target_stays(
    targets: Seq<VisionTeacherTargetConfig>,
    name: Seq<char>,
    n: int,
)
    requires
        0 <= n <= targets.len(),
        first_target(targets.take(n), name) is Some,
    ensures
        first_target(targets, name) == first_target(targets.take(n), name),
    decreases targets.len(),
{
    if n == targets.len() {
        assert(targets.take(n) =~= targets);
    } else {
        assert(targets.drop_last().take(n) =~= targets.take(n));
        lemma_first_target_stays(targets.drop_last(), name, n);
    }
}

fn find_target(targets: &Vec<VisionTeacherTargetConfig>, name: &String) -> (r: Option<usize>)
    ensures
        match r {
            Some(k) => first_target(targets@, name@) == Some(k as int) && k < targets@.len()
                && targets@[k as int].name@ == name@,
            None => first_target(targets@, name@) is None,
        },
{
    let mut k: usize = 0;
    assert(first_target(targets@.take(0), name@) is None);
    while k < targets.len()
        invariant
            k <= targets@.len(),
            first_target(targets@.take(k as int), name@) is None,
        decreases targets@.len() - k,
    {
        assert(targets@.take(k + 1).drop_last() =~= targets@.take(k as int));
        if targets[k].name == *name {
            proof {
                lemma_first_target_stays(targets@, name@, k + 1);
            }
            return Some(k);
        }
        k += 1;
    }
    assert(targets@.take(k as int) =~= targets@);
    None
}

/// The bit pattern of a weight of one.
pub open spec fn full_weight() -> Single {
    Single::one()
}

/// Finds the teacher that a probe compares with. Without a name, or with the name of the primary
/// teacher, it is that one; else the auxiliary target of that name. Only stored features can be
/// probed.
pub fn resolve_probe_teacher_spec(
    distill: Option<&VisionDistillConfig>,
    primary_name: &String,
    teacher_target: Option<String>,
) -> (result: Result<ProbeTeacherSpec, ProbeError>)
    ensures
        ({
            let wanted = match teacher_target {
                Some(name) => name@,
                None => primary_name@,
            };
            match distill {
                None => result matches Err(ProbeError::NotDistillMode),
                Some(config) => if wanted == primary_name@ {
                    match config.teacher {
                        VisionTeacherConfig::Model(_) => result matches Err(
                            ProbeError::TeacherIsModel,
                        ),
                        VisionTeacherConfig::Features(features) => result matches Ok(spec) && {
                            &&& spec.name@ == primary_name@
                            &&& spec.weight == full_weight()
                            &&& spec.target_kind == VisionTeacherTargetKind::PatchAndCls
                            &&& spec.decoder_mode == VisionTeacherDecoderMode::SharedProjection
                            &&& spec.target is None
                            &&& spec.feature_dim == features.feature_dim
                            &&& spec.patch_tokens == features.patch_tokens
                        },
                    }
                } else {
                    match first_target(config.teacher_targets@, wanted) {
                        None => result matches Err(ProbeError::UnknownTeacher(name)) && name@
                            == wanted,
                        Some(k) => match config.teacher_targets@[k].teacher {
                            VisionTeacherConfig::Model(_) => result matches Err(
                                ProbeError::TeacherIsModel,
                            ),
                            VisionTeacherConfig::Features(features) => result matches Ok(spec) && {
                                &&& spec.name@ == wanted
                                &&& spec.weight == config.teacher_targets@[k].weight
                                &&& spec.target_kind == config.teacher_targets@[k].target_kind
                                &&& spec.decoder_mode == config.teacher_targets@[k].decoder_mode
                                &&& spec.target == Some(k as usize)
                                &&& spec.feature_dim == features.feature_dim
                                &&& spec.patch_tokens == features.patch_tokens
                            },
                        },
                    }
                },
            }
        }),
{
    let config = match distill {
        Some(config) => config,
        None => {
            return Err(ProbeError::NotDistillMode);
        },
    };
    let wanted: String = match teacher_target {
        Some(name) => name,
        None => primary_name.clone(),
    };
    if wanted == *primary_name {
        return match &config.teacher {
            VisionTeacherConfig::Model(_) => Err(ProbeError::TeacherIsModel),
            VisionTeacherConfig::Features(features) => Ok(
                ProbeTeacherSpec {
                    name: wanted,
                    weight: Single { bits: crate::scalar::SINGLE_ONE },
                    target_kind: VisionTeacherTargetKind::PatchAndCls,
                    decoder_mode: VisionTeacherDecoderMode::SharedProjection,
                    target: None,
                    feature_dim: features.feature_dim,
                    patch_tokens: features.patch_tokens,
                },
            ),
        };
    }
    match find_target(&config.teacher_targets, &wanted) {
        None => Err(ProbeError::UnknownTeacher(wanted)),
        Some(k) => {
            let target = &config.teacher_targets[k];
            match &target.teacher {
                VisionTeacherConfig::Model(_) => Err(ProbeError::TeacherIsModel),
                VisionTeacherConfig::Features(features) => Ok(
                    ProbeTeacherSpec {
                        name: wanted,
                        weight: target.weight,
                        target_kind: target.target_kind,
                        decoder_mode: target.decoder_mode,
                        target: Some(k),
                        feature_dim: features.feature_dim,
                        patch_tokens: features.patch_tokens,
                    },
                ),
            }
        },
    }
}

/// Whether `kept` is what an optional seeded limit leaves of `samples`.
pub open spec fn is_seeded_limit(
    kept: Seq<ImageSample>,
    samples: Seq<ImageSample>,
    limit: Option<usize>,
    seed: u64,
) -> bool {
    match limit {
        None => kept == samples,
        Some(max) => is_fair_limit(kept, samples, max as nat) && exists|classes: nat| #[trigger]
            is_class_count(labels_of(samples), classes as int) && kept == picked(
                samples,
                balanced_positions(
                    shuffled_buckets(labels_of(samples), classes, seed),
                    samples.len(),
                    max as nat,
                ),
            ),
    }
}

/// The labels are small enough to count the classes.
pub open spec fn labels_countable(samples: Seq<ImageSample>) -> bool {
    forall|i: int| 0 <= i < samples.len() ==> (#[trigger] samples[i]).label < usize::MAX
}

fn limit_seeded(samples: Vec<ImageSample>, limit: Option<usize>, seed: u64) -> (kept: Vec<
    ImageSample,
>)
    requires
        labels_countable(samples@),
    ensures
        is_seeded_limit(kept@, samples@, limit, seed),
        labels_countable(kept@),
{
    match limit {
        None => samples,
        Some(max) => {
            let kept = limit_samples_shuffled(samples.as_slice(), max, seed);
            assert forall|i: int| 0 <= i < kept@.len() implies (#[trigger] kept@[i]).label
                < usize::MAX by {
                assert(samples@.contains(kept@[i]));
            }
            kept
        },
    }
}

/// The samples of a probe.
#[derive(Debug)]
pub struct ProbeSplits {
    pub train: Vec<ImageSample>,
    pub val: Vec<ImageSample>,
    pub num_classes: usize,
}

/// The seed for the validation subset.
pub open spec fn validation_seed(subset_seed: u64) -> u64 {
    subset_seed ^ 0xa5a5_a5a5_a5a5_a5a5
}

/// The labels of both splits, one after the other.
pub open spec fn joint_labels(train: Seq<ImageSample>, val: Seq<ImageSample>) -> Seq<usize> {
    labels_of(train) + labels_of(val)
}

/// Limits the samples of both splits and counts their classes. The training split is limited by the
/// dataset's own limit first.
pub fn limit_probe_splits(
    train: Vec<ImageSample>,
    val: Vec<ImageSample>,
    max_records: Option<usize>,
    max_train_samples: Option<usize>,
    max_val_samples: Option<usize>,
    subset_seed: u64,
) -> (result: Result<ProbeSplits, ProbeError>)
    requires
        labels_countable(train@),
        labels_countable(val@),
    ensures
        match result {
            Ok(splits) => {
                &&& exists|records: Seq<ImageSample>| #[trigger]
                    is_seeded_limit(records, train@, max_records, subset_seed) && is_seeded_limit(
                        splits.train@,
                        records,
                        max_train_samples,
                        subset_seed,
                    )
                &&& is_seeded_limit(
                    splits.val@,
                    val@,
                    max_val_samples,
                    validation_seed(subset_seed),
                )
                &&& splits.train@.len() + splits.val@.len() > 0
                &&& is_class_count(
                    joint_labels(splits.train@, splits.val@),
                    splits.num_classes as int,
                )
            },
            Err(error) => {
                &&& error is EmptyDataset
                &&& exists|records: Seq<ImageSample>, none: Seq<ImageSample>|
                    none.len() == 0 && #[trigger] is_seeded_limit(
                        records,
                        train@,
                        max_records,
                        subset_seed,
                    ) && #[trigger] is_seeded_limit(
                        none,
                        records,
                        max_train_samples,
                        subset_seed,
                    )
                &&& exists|none: Seq<ImageSample>|
                    none.len() == 0 && #[trigger] is_seeded_limit(
                        none,
                        val@,
                        max_val_samples,
                        validation_seed(subset_seed),
                    )
            },
        },
{
    let ghost given_train = train@;
    let ghost given_val = val@;
    let records = limit_seeded(train, max_records, subset_seed);
    let ghost record_seq = records@;
    let kept_train = limit_seeded(records, max_train_samples, subset_seed);
    let val_seed: u64 = subset_seed ^ 0xa5a5_a5a5_a5a5_a5a5;
    let kept_val = limit_seeded(val, max_val_samples, val_seed);
    proof {
        assert(is_seeded_limit(record_seq, given_train, max_records, subset_seed));
        assert(is_seeded_limit(kept_train@, record_seq, max_train_samples, subset_seed));
        assert(is_seeded_limit(
            kept_val@,
            given_val,
            max_val_samples,
            validation_seed(subset_seed),
        ));
    }
    if kept_train.len() == 0 && kept_val.len() == 0 {
        return Err(ProbeError::EmptyDataset);
    }
    let train_classes: usize = class_count(kept_train.as_slice());
    let val_classes: usize = class_count(kept_val.as_slice());
    let num_classes: usize = if train_classes < val_classes {
        val_classes
    } else {
        train_classes
    };
    proof {
        let a = labels_of(kept_train@);
        let b = labels_of(kept_val@);
        let all = joint_labels(kept_train@, kept_val@);
        assert forall|i: int| 0 <= i < all.len() implies (#[trigger] all[i]) < num_classes by {
            if i < a.len() {
                assert(all[i] == a[i]);
            } else {
                assert(all[i] == b[i - a.len()]);
            }
        }
        if train_classes < val_classes {
            let i = choose|i: int| 0 <= i < b.len() && #[trigger] b[i] == val_classes - 1;
            assert(all[a.len() + i] == num_classes - 1);
        } else {
            assert(a.len() > 0);
            let i = choose|i: int| 0 <= i < a.len() && #[trigger] a[i] == train_classes - 1;
            assert(all[i] == num_classes - 1);
        }
    }
    Ok(ProbeSplits { train: kept_train, val: kept_val, num_classes })
}

/// Whether `k` is the class with the best score: the first of the highest scores, where scores that
/// are not numbers or minus infinity never win, and the first class where none does.
pub open spec fn is_best_class(scores: Seq<Single>, k: int) -> bool {
    let floor = Single { bits: 0xff80_0000 };
    ||| 0 <= k < scores.len() && floor.lt(scores[k]) && (forall|j: int|
        0 <= j < k ==> !scores[k].le(#[trigger] scores[j])) && (forall|j: int|
        k < j < scores.len() ==> !scores[k].lt(#[trigger] scores[j]))
    ||| k == 0 && forall|j: int| 0 <= j < scores.len() ==> !floor.lt(#[trigger] scores[j])
}

/// The class with the best score.
pub fn best_class(scores: &[Single]) -> (k: usize)
    ensures
        is_best_class(scores@, k as int),
{
    let floor = Single { bits: 0xff80_0000 };
    let mut best: usize = 0;
    let mut best_score: Single = floor;
    let mut won: bool = false;
    let mut i: usize = 0;
    while i < scores.len()
        invariant
            i <= scores@.len(),
            floor == (Single { bits: 0xff80_0000 }),
            !won ==> best == 0 && best_score == floor && forall|j: int|
                0 <= j < i ==> !floor.lt(#[trigger] scores@[j]),
            won ==> best < i && best_score == scores@[best as int] && floor.lt(best_score) && (
            forall|j: int| 0 <= j < best ==> !best_score.le(#[trigger] scores@[j])) && (forall|
                j: int,
            | best < j < i ==> !best_score.lt(#[trigger] scores@[j])),
        decreases scores@.len() - i,
    {
        let score: Single = scores[i];
        if best_score.less_than(score) {
            proof {
                assert forall|j: int| 0 <= j < i implies !score.le(#[trigger] scores@[j]) by {
                    if won {
                        if j < best {
                            assert(!best_score.le(scores@[j]));
                        } else if j > best {
                            assert(!best_score.lt(scores@[j]));
                        }
                    } else {
                        assert(!floor.lt(scores@[j]));
                    }
                }
            }
            best = i;
            best_score = score;
            won = true;
        }
        i += 1;
    }
    best
}

/// How many of the first `n` predictions are right.
pub open spec fn right_count(predictions: Seq<usize>, labels: Seq<usize>, n: nat) -> nat
    decreases n,
{
    if n == 0 {
        0
    } else {
        right_count(predictions, labels, (n - 1) as nat) + (if predictions[n - 1] == labels[n - 1] {
            1nat
        } else {
            0nat
        })
    }
}

/// How many predictions are right.
pub fn count_correct(predictions: &[usize], labels: &[usize]) -> (n: usize)
    requires
        predictions@.len() == labels@.len(),
    ensures
        n == right_count(predictions@, labels@, labels@.len()),
        n <= labels@.len(),
{
    let mut n: usize = 0;
    let mut i: usize = 0;
    while i < labels.len()
        invariant
            i <= labels@.len(),
            predictions@.len() == labels@.len(),
            n == right_count(predictions@, labels@, i as nat),
            n <= i,
        decreases labels@.len() - i,
    {
        if predictions[i] == labels[i] {
            n += 1;
        }
        i += 1;
    }
    n
}

/// The rows of an export: the label of each record, and its feature vectors of teacher and student.
#[derive(Debug)]
pub struct FeatureExport<T> {
    pub feature_dim: usize,
    pub labels: Vec<usize>,
    pub teacher_cls: Vec<Vec<T>>,
    pub student_cls: Vec<Vec<T>>,
}

/// Row `row` of a flat block of rows.
pub open spec fn row_of<T>(flat: Seq<T>, feature_dim: int, row: int) -> Seq<T> {
    flat.subrange(row * feature_dim, row * feature_dim + feature_dim)
}

/// Whether `rows` are `before`, followed by the first `n` rows of a flat block.
pub open spec fn rows_appended<T>(
    rows: Seq<Vec<T>>,
    before: Seq<Vec<T>>,
    flat: Seq<T>,
    feature_dim: int,
    n: int,
) -> bool {
    &&& rows.len() == before.len() + n
    &&& forall|k: int| 0 <= k < before.len() ==> #[trigger] rows[k] == before[k]
    &&& forall|k: int|
        before.len() <= k < rows.len() ==> (#[trigger] rows[k])@ == row_of(
            flat,
            feature_dim,
            k - before.len(),
        )
}

fn copy_row<T: Copy>(flat: &[T], feature_dim: usize, row: usize) -> (values: Vec<T>)
    requires
        (row + 1) * feature_dim <= flat@.len(),
    ensures
        values@ == row_of(flat@, feature_dim as int, row as int),
{
    let total: usize = flat.len();
    proof {
        assert((row + 1) * feature_dim == row * feature_dim + feature_dim) by (nonlinear_arith);
    }
    let start: usize = row * feature_dim;
    let mut values: Vec<T> = Vec::new();
    let mut i: usize = 0;
    while i < feature_dim
        invariant
            i <= feature_dim,
            start == row * feature_dim,
            start + feature_dim <= flat@.len() == total,
            values@ == flat@.subrange(start as int, start + i),
        decreases feature_dim - i,
    {
        values.push(flat[start + i]);
        i += 1;
        assert(values@ =~= flat@.subrange(start as int, start + i));
    }
    values
}

impl<T: Copy> FeatureExport<T> {
    /// One row of each kind per label, all rows of one width.
    pub open spec fn wf(&self) -> bool {
        &&& self.teacher_cls@.len() == self.labels@.len()
        &&& self.student_cls@.len() == self.labels@.len()
        &&& forall|k: int|
            0 <= k < self.teacher_cls@.len() ==> (#[trigger] self.teacher_cls@[k])@.len()
                == self.feature_dim
        &&& forall|k: int|
            0 <= k < self.student_cls@.len() ==> (#[trigger] self.student_cls@[k])@.len()
                == self.feature_dim
    }

    /// An export without rows.
    pub fn new(feature_dim: usize) -> (export: Self)
        ensures
            export.wf(),
            export.feature_dim == feature_dim,
            export.labels@.len() == 0,
    {
        Self { feature_dim, labels: Vec::new(), teacher_cls: Vec::new(), student_cls: Vec::new() }
    }

    /// How many records the export holds.
    pub fn records(&self) -> (n: usize)
        ensures
            n == self.labels@.len(),
    {
        self.labels.len()
    }

    /// Appends a batch: the labels of its samples, and a row of each block per sample.
    pub fn record_batch(&mut self, samples: &[ImageSample], teacher_flat: &[T], student_flat: &[T])
        requires
            old(self).wf(),
            samples@.len() * old(self).feature_dim <= teacher_flat@.len(),
            samples@.len() * old(self).feature_dim <= student_flat@.len(),
        ensures
            final(self).wf(),
            final(self).feature_dim == old(self).feature_dim,
            final(self).labels@ == old(self).labels@ + Seq::new(
                samples@.len(),
                |k: int| samples@[k].label,
            ),
            rows_appended(
                final(self).teacher_cls@,
                old(self).teacher_cls@,
                teacher_flat@,
                old(self).feature_dim as int,
                samples@.len() as int,
            ),
            rows_appended(
                final(self).student_cls@,
                old(self).student_cls@,
                student_flat@,
                old(self).feature_dim as int,
                samples@.len() as int,
            ),
    {
        let ghost before = *self;
        let dim: usize = self.feature_dim;
        let mut row: usize = 0;
        while row < samples.len()
            invariant
                row <= samples@.len(),
                dim == self.feature_dim,
                dim == before.feature_dim,
                before.wf(),
                samples@.len() * dim <= teacher_flat@.len(),
                samples@.len() * dim <= student_flat@.len(),
                self.labels@ == before.labels@ + Seq::new(row as nat, |k: int| samples@[k].label),
                rows_appended(
                    self.teacher_cls@,
                    before.teacher_cls@,
                    teacher_flat@,
                    dim as int,
                    row as int,
                ),
                rows_appended(
                    self.student_cls@,
                    before.student_cls@,
                    student_flat@,
                    dim as int,
                    row as int,
                ),
                self.wf(),
            decreases samples@.len() - row,
        {
            proof {
                let (r, n, d) = (row as int, samples@.len() as int, dim as int);
                assert((r + 1) * d <= n * d) by (nonlinear_arith)
                    requires
                        r + 1 <= n,
                        d >= 0,
                ;
                assert((r + 1) * d == r * d + d) by (nonlinear_arith);
                assert(0 <= r * d) by (nonlinear_arith)
                    requires
                        r >= 0,
                        d >= 0,
                ;
            }
            let teacher = copy_row(teacher_flat, dim, row);
            let student = copy_row(student_flat, dim, row);
            assert(teacher@.len() == dim && student@.len() == dim);
            let ghost prior = *self;
            self.labels.push(samples[row].label);
            self.teacher_cls.push(teacher);
            self.student_cls.push(student);
            row += 1;
            assert(self.teacher_cls@ == prior.teacher_cls@.push(teacher));
            assert(self.student_cls@ == prior.student_cls@.push(student));
            assert(self.labels@ =~= before.labels@ + Seq::new(
                row as nat,
                |k: int| samples@[k].label,
            ));
        }
    }
}

/// One measured step of a probe.
#[derive(Clone, Copy, Debug, PartialEq, Eq, Structural)]
pub struct StepScore {
    pub step: usize,
    pub score: Double,
}

/// Whether `k` holds the highest score, the last one of equals.
pub open spec fn is_last_maximum(scores: Seq<StepScore>, k: int) -> bool {
    &&& 0 <= k < scores.len()
    &&& forall|j: int|
        0 <= j < k ==> (#[trigger] scores[j]).score.total_rank() <= scores[k].score.total_rank()
    &&& forall|j: int|
        k < j < scores.len() ==> (#[trigger] scores[j]).score.total_rank()
            < scores[k].score.total_rank()
}

/// Whether `k` holds the lowest score, the first one of equals.
pub open spec fn is_first_minimum(scores: Seq<StepScore>, k: int) -> bool {
    &&& 0 <= k < scores.len()
    &&& forall|j: int|
        0 <= j < k ==> scores[k].score.total_rank() < (#[trigger] scores[j]).score.total_rank()
    &&& forall|j: int|
        k < j < scores.len() ==> scores[k].score.total_rank() <= (
        #[trigger] scores[j]).score.total_rank()
}

fn last_maximum(scores: &[StepScore]) -> (k: usize)
    requires
        scores@.len() > 0,
    ensures
        is_last_maximum(scores@, k as int),
{
    let mut best: usize = 0;
    let mut i: usize = 1;
    while i < scores.len()
        invariant
            1 <= i <= scores@.len(),
            best < i,
            is_last_maximum(scores@.take(i as int), best as int),
        decreases scores@.len() - i,
    {
        let ghost prior = scores@.take(i as int);
        let ghost now = scores@.take(i + 1);
        assert(forall|j: int| 0 <= j < i ==> now[j] == prior[j]);
        assert(now[i as int] == scores@[i as int]);
        if !scores[i].score.total_less_than(scores[best].score) {
            assert forall|j: int| 0 <= j < i implies (#[trigger] now[j]).score.total_rank()
                <= now[i as int].score.total_rank() by {
                assert(prior[j].score.total_rank() <= prior[best as int].score.total_rank());
            }
            best = i;
        } else {
            assert(is_last_maximum(now, best as int)) by {
                assert forall|j: int| 0 <= j < best implies (#[trigger] now[j]).score.total_rank()
                    <= now[best as int].score.total_rank() by {
                    assert(prior[j].score.total_rank() <= prior[best as int].score.total_rank());
                }
                assert forall|j: int| best < j < now.len() implies (
                #[trigger] now[j]).score.total_rank() < now[best as int].score.total_rank() by {
                    if j < i {
                        assert(prior[j].score.total_rank() < prior[best as int].score.total_rank());
                    }
                }
            }
        }
        i += 1;
    }
    assert(scores@.take(i as int) =~= scores@);
    best
}

fn first_minimum(scores: &[StepScore]) -> (k: usize)
    requires
        scores@.len() > 0,
    ensures
        is_first_minimum(scores@, k as int),
{
    let mut best: usize = 0;
    let mut i: usize = 1;
    while i < scores.len()
        invariant
            1 <= i <= scores@.len(),
            best < i,
            is_first_minimum(scores@.take(i as int), best as int),
        decreases scores@.len() - i,
    {
        let ghost prior = scores@.take(i as int);
        let ghost now = scores@.take(i + 1);
        assert(forall|j: int| 0 <= j < i ==> now[j] == prior[j]);
        assert(now[i as int] == scores@[i as int]);
        if scores[i].score.total_less_than(scores[best].score) {
            assert forall|j: int| 0 <= j < i implies now[i as int].score.total_rank() < (
            #[trigger] now[j]).score.total_rank() by {
                if j < best {
                    assert(prior[best as int].score.total_rank() < prior[j].score.total_rank());
                } else if j > best {
                    assert(prior[best as int].score.total_rank() <= prior[j].score.total_rank());
                }
            }
            best = i;
        } else {
            assert(is_first_minimum(now, best as int)) by {
                assert forall|j: int| 0 <= j < best implies now[best as int].score.total_rank() < (
                #[trigger] now[j]).score.total_rank() by {
                    assert(prior[best as int].score.total_rank() < prior[j].score.total_rank());
                }
                assert forall|j: int| best < j < now.len() implies now[best as int].score.total_rank()
                    <= (#[trigger] now[j]).score.total_rank() by {
                    if j < i {
                        assert(prior[best as int].score.total_rank()
                            <= prior[j].score.total_rank());
                    }
                }
            }
        }
        i += 1;
    }
    assert(scores@.take(i as int) =~= scores@);
    best
}

/// The baseline and the best step of a probe, as positions in its scores.
#[derive(Clone, Copy, Debug, PartialEq, Eq, Structural)]
pub struct ProbeOutcome {
    pub baseline: usize,
    pub best: usize,
}

/// Whether `k` is the first score of step one.
pub open spec fn is_first_step_one(scores: Seq<StepScore>, k: int) -> bool {
    0 <= k < scores.len() && scores[k].step == 1 && forall|j: int|
        0 <= j < k ==> (#[trigger] scores[j]).step != 1
}

/// No score of step one.
pub open spec fn lacks_step_one(scores: Seq<StepScore>) -> bool {
    forall|j: int| 0 <= j < scores.len() ==> (#[trigger] scores[j]).step != 1
}

fn find_step_one(scores: &[StepScore]) -> (r: Option<usize>)
    ensures
        match r {
            Some(k) => is_first_step_one(scores@, k as int),
            None => lacks_step_one(scores@),
        },
{
    let mut k: usize = 0;
    while k < scores.len()
        invariant
            k <= scores@.len(),
            forall|j: int| 0 <= j < k ==> (#[trigger] scores@[j]).step != 1,
        decreases scores@.len() - k,
    {
        if scores[k].step == 1 {
            return Some(k);
        }
        k += 1;
    }
    None
}

/// The outcome of a feature probe: step one is the baseline, and the highest accuracy wins.
pub fn feature_probe_outcome(scores: &[StepScore]) -> (result: Result<ProbeOutcome, ProbeError>)
    ensures
        match result {
            Ok(outcome) => is_first_step_one(scores@, outcome.baseline as int) && is_last_maximum(
                scores@,
                outcome.best as int,
            ),
            Err(error) => error is MissingStepOne && lacks_step_one(scores@),
        },
{
    match find_step_one(scores) {
        Some(baseline) => Ok(ProbeOutcome { baseline, best: last_maximum(scores) }),
        None => Err(ProbeError::MissingStepOne),
    }
}

/// The outcome of a linear probe: the first step is the baseline, and the highest accuracy wins.
pub fn linear_probe_outcome(scores: &[StepScore]) -> (result: Result<ProbeOutcome, ProbeError>)
    ensures
        match result {
            Ok(outcome) => outcome.baseline == 0 && is_last_maximum(scores@, outcome.best as int),
            Err(error) => error is NoSteps && scores@.len() == 0,
        },
{
    if scores.len() == 0 {
        return Err(ProbeError::NoSteps);
    }
    Ok(ProbeOutcome { baseline: 0, best: last_maximum(scores) })
}

/// The outcome of a decode probe over `batches` batches: step one is the baseline, and the lowest
/// loss wins. Without batches or steps there is nothing to compare.
pub fn decode_probe_outcome(scores: &[StepScore], batches: usize) -> (result: Result<
    ProbeOutcome,
    ProbeError,
>)
    ensures
        match result {
            Ok(outcome) => (batches > 0 || scores@.len() == 0) && is_first_step_one(
                scores@,
                outcome.baseline as int,
            ) && is_first_minimum(scores@, outcome.best as int),
            Err(error) => if scores@.len() > 0 && batches == 0 {
                error is EmptyValidationSplit
            } else {
                error is MissingStepOne && lacks_step_one(scores@)
            },
        },
{
    if scores.len() > 0 && batches == 0 {
        return Err(ProbeError::EmptyValidationSplit);
    }
    match find_step_one(scores) {
        Some(baseline) => Ok(ProbeOutcome { baseline, best: first_minimum(scores) }),
        None => Err(ProbeError::MissingStepOne),
    }
}

/// No step beats the best one of a probe, and the best one is no worse than the baseline.
pub proof fn law_best_step_is_unbeaten(scores: Seq<StepScore>, best: int, j: int)
    requires
        is_last_maximum(scores, best),
        0 <= j < scores.len(),
    ensures
        scores[j].score.total_rank() <= scores[best].score.total_rank(),
{
    if j != best {
        assert(scores[j] == scores[j]);
    }
}

/// How the features of a decode probe are compared with one teacher.
#[derive(Clone, Copy, Debug, PartialEq, Eq, Structural)]
pub struct DecodePlan {
    /// The decoder head that projects the student's features.
    pub head: Option<usize>,
    /// Whether the student's patch features are compared; else a placeholder stands for them.
    pub student_patches: bool,
    /// The token count that the student's patch features are resampled to.
    pub resample_to: Option<usize>,
    /// Whether the teacher's patch features are there; else a placeholder stands for them.
    pub teacher_patches: bool,
}

/// The token count that a spatial decoder works on: that of its head, of the teacher, or of the
/// features at hand.
pub open spec fn decode_tokens(
    head_tokens: Option<usize>,
    teacher_tokens: Option<usize>,
    patch_tokens: usize,
) -> usize {
    match head_tokens {
        Some(tokens) => tokens,
        None => match teacher_tokens {
            Some(tokens) => tokens,
            None => patch_tokens,
        },
    }
}

/// The height and the width of the square grid of `tokens` patches.
pub fn patch_grid_from_tokens(tokens: usize) -> (result: Result<(usize, usize), ProbeError>)
    ensures
        match result {
            Ok((height, width)) => height == width && height * width == tokens,
            Err(error) => error is NoPatchGrid && !is_square(tokens as nat),
        },
        result is Ok <==> is_square(tokens as nat),
{
    match square_side(tokens) {
        Some(side) => {
            assert(side as nat * side as nat == tokens as nat);
            Ok((side, side))
        },
        None => Err(ProbeError::NoPatchGrid),
    }
}

/// Plans how a decode probe compares features. `patch_tokens` counts the patch vectors of the
/// teacher's features, where there are any; `student_tokens` those of the student.
pub fn plan_decode(
    heads: &Vec<AuxiliaryTeacherHead>,
    spec: &ProbeTeacherSpec,
    primary_name: &String,
    student_tokens: usize,
    patch_tokens: Option<usize>,
) -> (result: Result<DecodePlan, ProbeError>)
    ensures
        ({
            let enabled = spec.target_kind == VisionTeacherTargetKind::PatchAndCls && patch_tokens
                is Some;
            let head = first_head(heads@, spec.name@);
            if spec.name@ == primary_name@ {
                result matches Ok(plan) && plan == (DecodePlan {
                    head: None,
                    student_patches: true,
                    resample_to: None,
                    teacher_patches: patch_tokens is Some,
                })
            } else {
                match head {
                    None => result matches Err(ProbeError::MissingHead(name)) && name@
                        == spec.name@,
                    Some(k) => {
                        let spatial = enabled && heads@[k].decoder_mode.resamples();
                        let tokens = decode_tokens(
                            heads@[k].patch_tokens,
                            spec.patch_tokens,
                            patch_tokens->0,
                        );
                        match result {
                            Ok(plan) => {
                                &&& spatial ==> is_square(student_tokens as nat) && is_square(
                                    tokens as nat,
                                )
                                &&& plan == (DecodePlan {
                                    head: Some(k as usize),
                                    student_patches: enabled,
                                    resample_to: if spatial {
                                        Some(tokens)
                                    } else {
                                        None
                                    },
                                    teacher_patches: patch_tokens is Some,
                                })
                            },
                            Err(error) => spatial && error is NoPatchGrid && !(is_square(
                                student_tokens as nat,
                            ) && is_square(tokens as nat)),
                        }
                    },
                }
            }
        }),
{
    let teacher_patches: bool = patch_tokens.is_some();
    if spec.name == *primary_name {
        return Ok(
            DecodePlan { head: None, student_patches: true, resample_to: None, teacher_patches },
        );
    }
    let enabled: bool = spec.target_kind == VisionTeacherTargetKind::PatchAndCls
        && teacher_patches;
    match crate::distill::auxiliary_teacher_head(heads, &spec.name) {
        None => Err(ProbeError::MissingHead(spec.name.clone())),
        Some(k) => {
            let mut resample_to: Option<usize> = None;
            if enabled && heads[k].decoder_mode.supports_spatial_resampling() {
                let at_hand: usize = match patch_tokens {
                    Some(tokens) => tokens,
                    None => 0,
                };
                let tokens: usize = match heads[k].patch_tokens {
                    Some(tokens) => tokens,
                    None => match spec.patch_tokens {
                        Some(tokens) => tokens,
                        None => at_hand,
                    },
                };
                if patch_grid_from_tokens(student_tokens).is_err() || patch_grid_from_tokens(
                    tokens,
                ).is_err() {
                    return Err(ProbeError::NoPatchGrid);
                }
                resample_to = Some(tokens);
            }
            Ok(
                DecodePlan {
                    head: Some(k),
                    student_patches: enabled,
                    resample_to,
                    teacher_patches,
                },
            )
        },
    }
}

/// One measured step of a report. The measured numbers are given as they are printed.
#[derive(Debug)]
pub struct ReportedStep {
    pub step: usize,
    pub acc: String,
}

/// The accuracies of a report, as they are printed.
#[derive(Debug)]
pub struct ReportedAccuracy {
    pub teacher_acc: String,
    pub step_accuracies: Vec<ReportedStep>,
    pub best_step: usize,
    pub best_acc: String,
    pub best_minus_s1: String,
    pub teacher_minus_best_gap: String,
}

/// The report of a feature probe.
#[derive(Debug)]
pub struct VisionDistillFeatureProbeReport {
    pub artifact: VisionArtifactHeader,
    pub harness_version: &'static str,
    pub config: Vec<String>,
    pub checkpoint: String,
    pub steps: Vec<usize>,
    pub batch_size: usize,
    pub max_train_samples: Option<usize>,
    pub max_val_samples: Option<usize>,
    pub subset_seed: u64,
    pub teacher_target: String,
    pub image_size: usize,
    pub feature_dim: usize,
    pub num_classes: usize,
    pub train_records: usize,
    pub val_records: usize,
    pub accuracy: ReportedAccuracy,
}

/// A line that lists texts.
pub open spec fn list_line(label: Seq<char>, items: Seq<String>) -> Seq<char> {
    label + joined(texts(items), ", "@) + "\n"@
}

/// Appends a line that lists texts.
pub(crate) fn push_list_line(out: &mut String, label: &str, items: &Vec<String>)
    ensures
        final(out)@ == old(out)@ + list_line(label@, items@),
{
    out.append(label);
    push_joined(out, items, ", ");
    out.append("\n");
    assert(out@ =~= old(out)@ + list_line(label@, items@));
}

/// A line that lists rollout steps.
pub open spec fn steps_line(label: Seq<char>, steps: Seq<usize>) -> Seq<char> {
    label + joined(prefixed_numbers(steps, "s"@), ", "@) + "\n"@
}

fn push_steps_line(out: &mut String, label: &str, steps: &Vec<usize>)
    ensures
        final(out)@ == old(out)@ + steps_line(label@, steps@),
{
    out.append(label);
    push_joined_numbers(out, steps, "s", ", ");
    out.append("\n");
    assert(out@ =~= old(out)@ + steps_line(label@, steps@));
}

fn push_seed_line(out: &mut String, label: &str, seed: u64)
    ensures
        final(out)@ == old(out)@ + line(label@, decimal(seed as nat)),
{
    out.append(label);
    push_decimal(out, seed);
    out.append("\n");
    assert(out@ =~= old(out)@ + line(label@, decimal(seed as nat)));
}

/// The table row of one step: `before` the step, `after` it the accuracy.
pub open spec fn step_row(step: ReportedStep, after: Seq<char>) -> Seq<char> {
    "| dragon s"@ + decimal(step.step as nat) + after + step.acc@ + " |\n"@
}

/// The table rows of the first `n` steps.
pub open spec fn step_rows(steps: Seq<ReportedStep>, after: Seq<char>, n: nat) -> Seq<char>
    decreases n,
{
    if n == 0 {
        Seq::empty()
    } else {
        step_rows(steps, after, (n - 1) as nat) + step_row(steps[n - 1], after)
    }
}

fn push_step_rows(out: &mut String, steps: &Vec<ReportedStep>, after: &str)
    ensures
        final(out)@ == old(out)@ + step_rows(steps@, after@, steps@.len()),
{
    let mut i: usize = 0;
    assert(out@ =~= old(out)@ + step_rows(steps@, after@, 0));
    while i < steps.len()
        invariant
            i <= steps@.len(),
            out@ == old(out)@ + step_rows(steps@, after@, i as nat),
        decreases steps@.len() - i,
    {
        out.append("| dragon s");
        push_decimal(out, steps[i].step as u64);
        out.append(after);
        out.append(steps[i].acc.as_str());
        out.append(" |\n");
        i += 1;
        assert(out@ =~= old(out)@ + step_rows(steps@, after@, i as nat));
    }
}

/// A table row of two cells.
pub open spec fn cell_row(label: Seq<char>, value: Seq<char>) -> Seq<char> {
    "| "@ + label + " | "@ + value + " |\n"@
}

fn push_cell_row(out: &mut String, label: &str, value: &str)
    ensures
        final(out)@ == old(out)@ + cell_row(label@, value@),
{
    out.append("| ");
    out.append(label);
    out.append(" | ");
    out.append(value);
    out.append(" |\n");
    assert(out@ =~= old(out)@ + cell_row(label@, value@));
}

/// The closing lines of an accuracy report.
pub open spec fn accuracy_summary(accuracy: ReportedAccuracy) -> Seq<char> {
    bare_line(""@) + line("- best step: s"@, decimal(accuracy.best_step as nat)) + line(
        "- best accuracy: "@,
        accuracy.best_acc@,
    ) + line("- best minus s1: "@, accuracy.best_minus_s1@) + line(
        "- teacher minus best gap: "@,
        accuracy.teacher_minus_best_gap@,
    )
}

fn push_accuracy_summary(out: &mut String, accuracy: &ReportedAccuracy)
    ensures
        final(out)@ == old(out)@ + accuracy_summary(*accuracy),
{
    push_bare_line(out, "");
    push_number_line(out, "- best step: s", accuracy.best_step);
    push_line(out, "- best accuracy: ", accuracy.best_acc.as_str());
    push_line(out, "- best minus s1: ", accuracy.best_minus_s1.as_str());
    push_line(out, "- teacher minus best gap: ", accuracy.teacher_minus_best_gap.as_str());
    assert(out@ =~= old(out)@ + accuracy_summary(*accuracy));
}

impl VisionDistillFeatureProbeReport {
    /// The report as text.
    pub open spec fn markdown(&self) -> Seq<char> {
        Seq::<char>::empty() + markdown_prelude("Vision Distill Feature Probe"@, self.artifact)
            + line("- checkpoint: "@, self.checkpoint@) + line(
            "- harness version: "@,
            self.harness_version@,
        ) + list_line("- config: "@, self.config@) + line(
            "- teacher target: "@,
            self.teacher_target@,
        ) + line("- image size: "@, decimal(self.image_size as nat)) + line(
            "- feature dim: "@,
            decimal(self.feature_dim as nat),
        ) + line("- classes: "@, decimal(self.num_classes as nat)) + line(
            "- train records: "@,
            decimal(self.train_records as nat),
        ) + line("- val records: "@, decimal(self.val_records as nat)) + line(
            "- batch size: "@,
            decimal(self.batch_size as nat),
        ) + optional_number_line("- max train samples: "@, self.max_train_samples)
            + optional_number_line("- max val samples: "@, self.max_val_samples) + line(
            "- subset seed: "@,
            decimal(self.subset_seed as nat),
        ) + steps_line("- rollout steps: "@, self.steps@) + bare_line(""@) + bare_line(
            "| source | accuracy |"@,
        ) + bare_line("|---|---:|"@) + cell_row("teacher cls"@, self.accuracy.teacher_acc@)
            + step_rows(
            self.accuracy.step_accuracies@,
            " cls | "@,
            self.accuracy.step_accuracies@.len(),
        ) + accuracy_summary(self.accuracy)
    }

    /// The report as text.
    pub fn to_markdown(&self) -> (out: String)
        ensures
            out@ == self.markdown(),
    {
        let mut out = String::new();
        push_vision_artifact_markdown_prelude(
            &mut out,
            "Vision Distill Feature Probe",
            &self.artifact,
        );
        push_line(&mut out, "- checkpoint: ", self.checkpoint.as_str());
        push_line(&mut out, "- harness version: ", self.harness_version);
        push_list_line(&mut out, "- config: ", &self.config);
        push_line(&mut out, "- teacher target: ", self.teacher_target.as_str());
        push_number_line(&mut out, "- image size: ", self.image_size);
        push_number_line(&mut out, "- feature dim: ", self.feature_dim);
        push_number_line(&mut out, "- classes: ", self.num_classes);
        push_number_line(&mut out, "- train records: ", self.train_records);
        push_number_line(&mut out, "- val records: ", self.val_records);
        push_number_line(&mut out, "- batch size: ", self.batch_size);
        push_optional_number_line(&mut out, "- max train samples: ", self.max_train_samples);
        push_optional_number_line(&mut out, "- max val samples: ", self.max_val_samples);
        push_seed_line(&mut out, "- subset seed: ", self.subset_seed);
        push_steps_line(&mut out, "- rollout steps: ", &self.steps);
        push_bare_line(&mut out, "");
        push_bare_line(&mut out, "| source | accuracy |");
        push_bare_line(&mut out, "|---|---:|");
        push_cell_row(&mut out, "teacher cls", self.accuracy.teacher_acc.as_str());
        push_step_rows(&mut out, &self.accuracy.step_accuracies, " cls | ");
        push_accuracy_summary(&mut out, &self.accuracy);
        out
    }
}

/// The report of a linear probe.
#[derive(Debug)]
pub struct VisionDistillLinearProbeReport {
    pub artifact: VisionArtifactHeader,
    pub harness_version: &'static str,
    pub config: Vec<String>,
    pub checkpoint: String,
    pub steps: Vec<usize>,
    pub batch_size: usize,
    pub max_train_samples: Option<usize>,
    pub max_val_samples: Option<usize>,
    pub subset_seed: u64,
    pub teacher_target: String,
    pub train_seed: u64,
    pub epochs: usize,
    pub learning_rate: String,
    pub weight_decay: String,
    pub image_size: usize,
    pub teacher_feature_dim: usize,
    pub student_feature_dim: usize,
    pub num_classes: usize,
    pub train_records: usize,
    pub val_records: usize,
    pub accuracy: ReportedAccuracy,
}

impl VisionDistillLinearProbeReport {
    /// The report as text.
    pub open spec fn markdown(&self) -> Seq<char> {
        Seq::<char>::empty() + markdown_prelude("Vision Distill Linear Probe"@, self.artifact)
            + line("- checkpoint: "@, self.checkpoint@) + line(
            "- harness version: "@,
            self.harness_version@,
        ) + list_line("- config: "@, self.config@) + line(
            "- teacher target: "@,
            self.teacher_target@,
        ) + line("- image size: "@, decimal(self.image_size as nat)) + line(
            "- teacher feature dim: "@,
            decimal(self.teacher_feature_dim as nat),
        ) + line("- student feature dim: "@, decimal(self.student_feature_dim as nat)) + line(
            "- classes: "@,
            decimal(self.num_classes as nat),
        ) + line("- train records: "@, decimal(self.train_records as nat)) + line(
            "- val records: "@,
            decimal(self.val_records as nat),
        ) + line("- feature batch size: "@, decimal(self.batch_size as nat)) + line(
            "- probe epochs: "@,
            decimal(self.epochs as nat),
        ) + line("- probe learning rate: "@, self.learning_rate@) + line(
            "- probe weight decay: "@,
            self.weight_decay@,
        ) + line("- subset seed: "@, decimal(self.subset_seed as nat)) + line(
            "- train seed: "@,
            decimal(self.train_seed as nat),
        ) + optional_number_line("- max train samples: "@, self.max_train_samples)
            + optional_number_line("- max val samples: "@, self.max_val_samples) + steps_line(
            "- rollout steps: "@,
            self.steps@,
        ) + bare_line(""@) + bare_line("| source | top-1 acc |"@) + bare_line("|---|---:|"@)
            + cell_row("teacher linear probe"@, self.accuracy.teacher_acc@) + step_rows(
            self.accuracy.step_accuracies@,
            " linear probe | "@,
            self.accuracy.step_accuracies@.len(),
        ) + accuracy_summary(self.accuracy)
    }

    /// The report as text.
    pub fn to_markdown(&self) -> (out: String)
        ensures
            out@ == self.markdown(),
    {
        let mut out = String::new();
        push_vision_artifact_markdown_prelude(
            &mut out,
            "Vision Distill Linear Probe",
            &self.artifact,
        );
        push_line(&mut out, "- checkpoint: ", self.checkpoint.as_str());
        push_line(&mut out, "- harness version: ", self.harness_version);
        push_list_line(&mut out, "- config: ", &self.config);
        push_line(&mut out, "- teacher target: ", self.teacher_target.as_str());
        push_number_line(&mut out, "- image size: ", self.image_size);
        push_number_line(&mut out, "- teacher feature dim: ", self.teacher_feature_dim);
        push_number_line(&mut out, "- student feature dim: ", self.student_feature_dim);
        push_number_line(&mut out, "- classes: ", self.num_classes);
        push_number_line(&mut out, "- train records: ", self.train_records);
        push_number_line(&mut out, "- val records: ", self.val_records);
        push_number_line(&mut out, "- feature batch size: ", self.batch_size);
        push_number_line(&mut out, "- probe epochs: ", self.epochs);
        push_line(&mut out, "- probe learning rate: ", self.learning_rate.as_str());
        push_line(&mut out, "- probe weight decay: ", self.weight_decay.as_str());
        push_seed_line(&mut out, "- subset seed: ", self.subset_seed);
        push_seed_line(&mut out, "- train seed: ", self.train_seed);
        push_optional_number_line(&mut out, "- max train samples: ", self.max_train_samples);
        push_optional_number_line(&mut out, "- max val samples: ", self.max_val_samples);
        push_steps_line(&mut out, "- rollout steps: ", &self.steps);
        push_bare_line(&mut out, "");
        push_bare_line(&mut out, "| source | top-1 acc |");
        push_bare_line(&mut out, "|---|---:|");
        push_cell_row(&mut out, "teacher linear probe", self.accuracy.teacher_acc.as_str());
        push_step_rows(&mut out, &self.accuracy.step_accuracies, " linear probe | ");
        push_accuracy_summary(&mut out, &self.accuracy);
        out
    }
}

/// The losses of one decoded step, as they are printed.
#[derive(Debug)]
pub struct ReportedLosses {
    pub step: usize,
    pub distill_total: String,
    pub distill_patch: String,
    pub distill_cls: String,
}

/// The report of a decode probe.
#[derive(Debug)]
pub struct VisionDistillDecodeProbeReport {
    pub artifact: VisionArtifactHeader,
    pub harness_version: &'static str,
    pub config: Vec<String>,
    pub checkpoint: String,
    pub steps: Vec<usize>,
    pub batch_size: usize,
    pub max_val_samples: Option<usize>,
    pub subset_seed: u64,
    pub teacher_target: String,
    pub teacher_weight: String,
    pub teacher_target_kind: VisionTeacherTargetKind,
    pub teacher_decoder_mode: VisionTeacherDecoderMode,
    pub image_size: usize,
    pub feature_dim: usize,
    pub val_records: usize,
    pub best_step: usize,
    pub best_total: String,
    pub best_minus_s1: String,
    pub steps_report: Vec<ReportedLosses>,
}

/// The name of a target kind.
pub open spec fn target_kind_name(kind: VisionTeacherTargetKind) -> Seq<char> {
    match kind {
        VisionTeacherTargetKind::PatchAndCls => "PatchAndCls"@,
        VisionTeacherTargetKind::ClsOnly => "ClsOnly"@,
        VisionTeacherTargetKind::GlobalOnly => "GlobalOnly"@,
    }
}

fn target_kind_text(kind: VisionTeacherTargetKind) -> (r: &'static str)
    ensures
        r@ == target_kind_name(kind),
{
    match kind {
        VisionTeacherTargetKind::PatchAndCls => "PatchAndCls",
        VisionTeacherTargetKind::ClsOnly => "ClsOnly",
        VisionTeacherTargetKind::GlobalOnly => "GlobalOnly",
    }
}

/// The name of a decoder mode.
pub open spec fn decoder_mode_name(mode: VisionTeacherDecoderMode) -> Seq<char> {
    match mode {
        VisionTeacherDecoderMode::SharedProjection => "SharedProjection"@,
        VisionTeacherDecoderMode::DedicatedProjection => "DedicatedProjection"@,
        VisionTeacherDecoderMode::DedicatedSpatialProjection => "DedicatedSpatialProjection"@,
    }
}

fn decoder_mode_text(mode: VisionTeacherDecoderMode) -> (r: &'static str)
    ensures
        r@ == decoder_mode_name(mode),
{
    match mode {
        VisionTeacherDecoderMode::SharedProjection => "SharedProjection",
        VisionTeacherDecoderMode::DedicatedProjection => "DedicatedProjection",
        VisionTeacherDecoderMode::DedicatedSpatialProjection => "DedicatedSpatialProjection",
    }
}

/// The table row of one decoded step.
pub open spec fn loss_row(step: ReportedLosses, teacher: Seq<char>) -> Seq<char> {
    "| dragon s"@ + decimal(step.step as nat) + " -> "@ + teacher + " | "@ + step.distill_total@
        + " | "@ + step.distill_patch@ + " | "@ + step.distill_cls@ + " |\n"@
}

/// The table rows of the first `n` decoded steps.
pub open spec fn loss_rows(steps: Seq<ReportedLosses>, teacher: Seq<char>, n: nat) -> Seq<char>
    decreases n,
{
    if n == 0 {
        Seq::empty()
    } else {
        loss_rows(steps, teacher, (n - 1) as nat) + loss_row(steps[n - 1], teacher)
    }
}

fn push_loss_rows(out: &mut String, steps: &Vec<ReportedLosses>, teacher: &str)
    ensures
        final(out)@ == old(out)@ + loss_rows(steps@, teacher@, steps@.len()),
{
    let mut i: usize = 0;
    assert(out@ =~= old(out)@ + loss_rows(steps@, teacher@, 0));
    while i < steps.len()
        invariant
            i <= steps@.len(),
            out@ == old(out)@ + loss_rows(steps@, teacher@, i as nat),
        decreases steps@.len() - i,
    {
        out.append("| dragon s");
        push_decimal(out, steps[i].step as u64);
        out.append(" -> ");
        out.append(teacher);
        out.append(" | ");
        out.append(steps[i].distill_total.as_str());
        out.append(" | ");
        out.append(steps[i].distill_patch.as_str());
        out.append(" | ");
        out.append(steps[i].distill_cls.as_str());
        out.append(" |\n");
        i += 1;
        assert(out@ =~= old(out)@ + loss_rows(steps@, teacher@, i as nat));
    }
}

impl VisionDistillDecodeProbeReport {
    /// The report as text.
    pub open spec fn markdown(&self) -> Seq<char> {
        Seq::<char>::empty() + markdown_prelude("Vision Distill Decode Probe"@, self.artifact)
            + line("- checkpoint: "@, self.checkpoint@) + line(
            "- harness version: "@,
            self.harness_version@,
        ) + list_line("- config: "@, self.config@) + line(
            "- teacher target: "@,
            self.teacher_target@,
        ) + line("- teacher weight: "@, self.teacher_weight@) + line(
            "- teacher target kind: "@,
            target_kind_name(self.teacher_target_kind),
        ) + line("- teacher decoder mode: "@, decoder_mode_name(self.teacher_decoder_mode)) + line(
            "- image size: "@,
            decimal(self.image_size as nat),
        ) + line("- feature dim: "@, decimal(self.feature_dim as nat)) + line(
            "- val records: "@,
            decimal(self.val_records as nat),
        ) + line("- batch size: "@, decimal(self.batch_size as nat)) + optional_number_line(
            "- max val samples: "@,
            self.max_val_samples,
        ) + line("- subset seed: "@, decimal(self.subset_seed as nat)) + steps_line(
            "- rollout steps: "@,
            self.steps@,
        ) + bare_line(""@) + bare_line("| source | total | patch | cls |"@) + bare_line(
            "|---|---:|---:|---:|"@,
        ) + loss_rows(self.steps_report@, self.teacher_target@, self.steps_report@.len())
            + bare_line(""@) + line("- best step: s"@, decimal(self.best_step as nat)) + line(
            "- best total: "@,
            self.best_total@,
        ) + line("- best minus s1: "@, self.best_minus_s1@)
    }

    /// The report as text.
    pub fn to_markdown(&self) -> (out: String)
        ensures
            out@ == self.markdown(),
    {
        let mut out = String::new();
        push_vision_artifact_markdown_prelude(
            &mut out,
            "Vision Distill Decode Probe",
            &self.artifact,
        );
        push_line(&mut out, "- checkpoint: ", self.checkpoint.as_str());
        push_line(&mut out, "- harness version: ", self.harness_version);
        push_list_line(&mut out, "- config: ", &self.config);
        push_line(&mut out, "- teacher target: ", self.teacher_target.as_str());
        push_line(&mut out, "- teacher weight: ", self.teacher_weight.as_str());
        push_line(
            &mut out,
            "- teacher target kind: ",
            target_kind_text(self.teacher_target_kind),
        );
        push_line(
            &mut out,
            "- teacher decoder mode: ",
            decoder_mode_text(self.teacher_decoder_mode),
        );
        push_number_line(&mut out, "- image size: ", self.image_size);
        push_number_line(&mut out, "- feature dim: ", self.feature_dim);
        push_number_line(&mut out, "- val records: ", self.val_records);
        push_number_line(&mut out, "- batch size: ", self.batch_size);
        push_optional_number_line(&mut out, "- max val samples: ", self.max_val_samples);
        push_seed_line(&mut out, "- subset seed: ", self.subset_seed);
        push_steps_line(&mut out, "- rollout steps: ", &self.steps);
        push_bare_line(&mut out, "");
        push_bare_line(&mut out, "| source | total | patch | cls |");
        push_bare_line(&mut out, "|---|---:|---:|---:|");
        push_loss_rows(&mut out, &self.steps_report, self.teacher_target.as_str());
        push_bare_line(&mut out, "");
        push_number_line(&mut out, "- best step: s", self.best_step);
        push_line(&mut out, "- best total: ", self.best_total.as_str());
        push_line(&mut out, "- best minus s1: ", self.best_minus_s1.as_str());
        out
    }
}

/// Every step that is asked for is probed, zero as the first one, and no other.
pub proof fn law_probed_steps_are_those_asked_for(x: usize, steps: Seq<usize>)
    ensures
        x >= 2 ==> (is_probe_step(x, steps) <==> steps.contains(x)),
        is_probe_step(1, steps) <==> steps.contains(0) || steps.contains(1),
        !is_probe_step(0, steps),
{
    if steps.contains(x) {
        let k = steps.index_of(x);
        assert(at_least_one(steps[k] as int) == at_least_one(x as int));
    }
    if steps.contains(0) {
        let k = steps.index_of(0);
        assert(at_least_one(steps[k] as int) == 1);
    }
    if steps.contains(1) {
        let k = steps.index_of(1);
        assert(at_least_one(steps[k] as int) == 1);
    }
}

/// The seeds of neighbouring steps are one odd stride apart, modulo the range of a seed, and the seed
/// of the training shifts them all in the same bits.
pub proof fn law_step_seeds_step_apart(seed: u64, other: u64, step: nat)
    ensures
        step_seed_of(seed, 0) == seed,
        step_seed_of(0, step as int + 1) == (step_seed_of(0, step as int) + 0x9e37_79b9_7f4a_7c15)
            % 0x1_0000_0000_0000_0000,
        step_seed_of(seed, step as int) ^ step_seed_of(other, step as int) == seed ^ other,
        step_seed_of(seed, step as int) == seed ^ step_seed_of(0, step as int),
{
    let modulus = 0x1_0000_0000_0000_0000int;
    let stride = 0x9e37_79b9_7f4a_7c15int;
    let own = (step as int * stride % modulus) as u64;
    let next = ((step + 1) * stride % modulus) as u64;
    assert((step + 1) * stride == step as int * stride + stride) by (nonlinear_arith);
    vstd::arithmetic::div_mod::lemma_add_mod_noop(step as int * stride, stride, modulus);
    assert(0u64 ^ own == own && 0u64 ^ next == next && (seed ^ own) ^ (other ^ own) == seed ^ other
        && seed ^ 0u64 == seed) by (bit_vector);
    assert(step_seed_of(0, step as int) == 0u64 ^ own);
    assert(step_seed_of(0, step as int + 1) == 0u64 ^ next);
    assert(0int * stride % modulus == 0);
}

/// A name leads to the first target that bears it, and to none only where no target does.
pub proof fn law_names_lead_to_their_first_target(
    targets: Seq<VisionTeacherTargetConfig>,
    name: Seq<char>,
)
    ensures
        match first_target(targets, name) {
            Some(k) => 0 <= k < targets.len() && targets[k].name@ == name && forall|j: int|
                0 <= j < k ==> (#[trigger] targets[j]).name@ != name,
            None => forall|j: int| 0 <= j < targets.len() ==> (#[trigger] targets[j]).name@ != name,
        },
    decreases targets.len(),
{
    if targets.len() > 0 {
        let rest = targets.drop_last();
        law_names_lead_to_their_first_target(rest, name);
        assert forall|j: int| 0 <= j < targets.len() - 1 implies #[trigger] targets[j]
            == rest[j] by {}
    }
}

/// A limit that is not set, or that all samples meet, keeps them as they are; any other one keeps as
/// many as it says, out of those given.
pub proof fn law_seeded_limits_keep_what_fits(
    kept: Seq<ImageSample>,
    samples: Seq<ImageSample>,
    limit: Option<usize>,
    seed: u64,
)
    requires
        is_seeded_limit(kept, samples, limit, seed),
    ensures
        limit is None ==> kept == samples,
        limit matches Some(max) ==> max >= samples.len() ==> kept == samples,
        limit matches Some(max) ==> max < samples.len() ==> kept.len() == max,
        kept.to_multiset().subset_of(samples.to_multiset()),
{
}

/// The validation subset is drawn with another seed than the training subset, and no two runs share
/// one that do not share the other.
pub proof fn law_validation_has_a_seed_of_its_own(a: u64, b: u64)
    ensures
        validation_seed(a) != a,
        validation_seed(validation_seed(a)) == a,
        validation_seed(a) == validation_seed(b) ==> a == b,
        validation_seed(a) ^ a == 0xa5a5_a5a5_a5a5_a5a5,
{
    assert(a ^ 0xa5a5_a5a5_a5a5_a5a5u64 != a && (a ^ 0xa5a5_a5a5_a5a5_a5a5u64)
        ^ 0xa5a5_a5a5_a5a5_a5a5u64 == a && (b ^ 0xa5a5_a5a5_a5a5_a5a5u64)
        ^ 0xa5a5_a5a5_a5a5_a5a5u64 == b && (a ^ 0xa5a5_a5a5_a5a5_a5a5u64) ^ a
        == 0xa5a5_a5a5_a5a5_a5a5u64) by (bit_vector);
}

/// No class scores higher than the best one, an equal score only comes later, and there is only one
/// best class. Without a score above minus infinity it is the first.
pub proof fn law_best_class_is_the_first_of_the_highest(scores: Seq<Single>, k: int, j: int)
    requires
        is_best_class(scores, k),
        0 <= j < scores.len(),
    ensures
        0 <= k < scores.len(),
        !scores[j].is_nan() && !scores[k].is_nan() ==> scores[j].rank() <= scores[k].rank(),
        !scores[j].is_nan() && !scores[k].is_nan() && j < k ==> scores[j].rank()
            < scores[k].rank(),
        scores[k].is_nan() ==> k == 0 && (scores[j].is_nan() || scores[j].rank() <= -0x7f80_0000),
        is_best_class(scores, j) ==> j == k,
{
}

/// What is right in two parts is right together; a prediction counts where it is the label.
pub proof fn law_right_predictions_add_up(
    predictions: Seq<usize>,
    labels: Seq<usize>,
    more: Seq<usize>,
    more_labels: Seq<usize>,
)
    requires
        predictions.len() == labels.len(),
        more.len() == more_labels.len(),
    ensures
        right_count(
            predictions + more,
            labels + more_labels,
            labels.len() + more_labels.len(),
        ) == right_count(predictions, labels, labels.len()) + right_count(
            more,
            more_labels,
            more_labels.len(),
        ),
        more.len() == 1 ==> right_count(more, more_labels, 1) == (if more[0] == more_labels[0] {
            1nat
        } else {
            0nat
        }),
    decreases more.len(),
{
    reveal_with_fuel(right_count, 2);
    if more.len() == 0 {
        assert(predictions + more =~= predictions);
        assert(labels + more_labels =~= labels);
    } else {
        let n = (labels.len() + more.len() - 1) as nat;
        law_right_predictions_add_up(predictions, labels, more.drop_last(), more_labels.drop_last());
        lemma_right_prefix(
            predictions + more,
            labels + more_labels,
            predictions + more.drop_last(),
            labels + more_labels.drop_last(),
            n,
        );
        lemma_right_prefix(
            more,
            more_labels,
            more.drop_last(),
            more_labels.drop_last(),
            (more.len() - 1) as nat,
        );
        assert((predictions + more)[n as int] == more.last());
        assert((labels + more_labels)[n as int] == more_labels.last());
    }
}

proof fn lemma_right_prefix(
    a: Seq<usize>,
    b: Seq<usize>,
    c: Seq<usize>,
    d: Seq<usize>,
    n: nat,
)
    requires
        n <= a.len(),
        n <= b.len(),
        n <= c.len(),
        n <= d.len(),
        forall|i: int| 0 <= i < n ==> a[i] == c[i],
        forall|i: int| 0 <= i < n ==> b[i] == d[i],
    ensures
        right_count(a, b, n) == right_count(c, d, n),
    decreases n,
{
    if n > 0 {
        lemma_right_prefix(a, b, c, d, (n - 1) as nat);
    }
}

/// All predictions are right exactly where each is its label, and none is where none is.
pub proof fn law_counts_reach_from_none_to_all(
    predictions: Seq<usize>,
    labels: Seq<usize>,
    n: nat,
)
    requires
        n <= predictions.len(),
        n <= labels.len(),
    ensures
        right_count(predictions, labels, n) <= n,
        right_count(predictions, labels, n) == n <==> forall|i: int|
            0 <= i < n ==> predictions[i] == labels[i],
        right_count(predictions, labels, n) == 0 <==> forall|i: int|
            0 <= i < n ==> predictions[i] != labels[i],
    decreases n,
{
    if n > 0 {
        law_counts_reach_from_none_to_all(predictions, labels, (n - 1) as nat);
    }
}

/// An appended row holds its own part of the block: value `j` of the `i`-th appended row stands `i`
/// rows and `j` values into it. Rows that were there stay.
pub proof fn law_rows_are_cut_from_the_block<T>(
    rows: Seq<Vec<T>>,
    before: Seq<Vec<T>>,
    flat: Seq<T>,
    feature_dim: int,
    n: int,
    i: int,
    j: int,
)
    requires
        rows_appended(rows, before, flat, feature_dim, n),
        n * feature_dim <= flat.len(),
        0 <= i < n,
        0 <= j < feature_dim,
    ensures
        rows.take(before.len() as int) == before,
        rows[before.len() + i]@.len() == feature_dim,
        rows[before.len() + i]@[j] == flat[i * feature_dim + j],
{
    assert(rows.take(before.len() as int) =~= before);
    assert(0 <= i * feature_dim && i * feature_dim + feature_dim <= n * feature_dim)
        by (nonlinear_arith)
        requires
            0 <= i < n,
            feature_dim >= 0,
    ;
    assert(rows[before.len() + i]@ == row_of(flat, feature_dim, i));
}

/// No step has a lower loss than the best one, and an equal loss only comes later; nor a higher
/// accuracy, and an equal accuracy only comes earlier. Each best step is the only one.
pub proof fn law_best_steps_are_unique(scores: Seq<StepScore>, k: int, j: int)
    requires
        0 <= j < scores.len(),
    ensures
        is_first_minimum(scores, k) ==> {
            &&& scores[k].score.total_rank() <= scores[j].score.total_rank()
            &&& scores[k].score.total_rank() == scores[j].score.total_rank() ==> k <= j
            &&& is_first_minimum(scores, j) ==> j == k
        },
        is_last_maximum(scores, k) ==> {
            &&& scores[k].score.total_rank() >= scores[j].score.total_rank()
            &&& scores[k].score.total_rank() == scores[j].score.total_rank() ==> k >= j
            &&& is_last_maximum(scores, j) ==> j == k
        },
{
    if is_first_minimum(scores, k) {
        if j < k {
            assert(scores[k].score.total_rank() < scores[j].score.total_rank());
        }
        if k < j {
            assert(scores[k].score.total_rank() <= scores[j].score.total_rank());
        }
        if is_first_minimum(scores, j) && k < j {
            assert(scores[j].score.total_rank() < scores[k].score.total_rank());
        }
    }
    if is_last_maximum(scores, k) {
        if j < k {
            assert(scores[j].score.total_rank() <= scores[k].score.total_rank());
        }
        if k < j {
            assert(scores[j].score.total_rank() < scores[k].score.total_rank());
        }
        if is_last_maximum(scores, j) && j < k {
            assert(scores[k].score.total_rank() < scores[j].score.total_rank());
        }
    }
}

/// The head's token count comes before the teacher's, and the teacher's before that at hand.
pub proof fn law_heads_decide_the_tokens(
    head_tokens: Option<usize>,
    teacher_tokens: Option<usize>,
    patch_tokens: usize,
)
    ensures
        ({
            let tokens = decode_tokens(head_tokens, teacher_tokens, patch_tokens);
            &&& head_tokens is Some ==> tokens == head_tokens->0
            &&& head_tokens is None && teacher_tokens is Some ==> tokens == teacher_tokens->0
            &&& head_tokens is None && teacher_tokens is None ==> tokens == patch_tokens
        }),
{
}

/// A teacher that stands alone has a weight of one.
pub proof fn law_full_weight_is_one()
    ensures
        full_weight().bits == 0x3f80_0000,
{
}

/// The baseline is the earliest score of step one, the only one of its kind; there is one unless no
/// score is of that step.
pub proof fn law_baselines_are_the_first_of_step_one(scores: Seq<StepScore>, k: int, j: int)
    requires
        0 <= j < scores.len(),
        scores[j].step == 1,
    ensures
        !lacks_step_one(scores),
        is_first_step_one(scores, k) ==> 0 <= k <= j && scores[k].step == 1,
        is_first_step_one(scores, k) && is_first_step_one(scores, j) ==> k == j,
{
    if is_first_step_one(scores, k) && k > j {
        assert(scores[j].step != 1);
    }
    if is_first_step_one(scores, k) && is_first_step_one(scores, j) && k < j {
        assert(scores[k].step != 1);
    }
}

/// Where no score is of step one there is no baseline.
pub proof fn law_without_step_one_there_is_no_baseline(scores: Seq<StepScore>, k: int)
    requires
        forall|j: int| 0 <= j < scores.len() ==> (#[trigger] scores[j]).step != 1,
    ensures
        lacks_step_one(scores),
        !is_first_step_one(scores, k),
{
}

} // verus!
