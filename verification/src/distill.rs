//! Distillation targets: which heads decode for which teacher, and how targets are grouped.

use crate::config::{
    VisionDistillConfig, VisionDistillationLossConfig, VisionTeacherConfig,
    VisionTeacherDecoderMode, VisionTeacherTargetConfig, VisionTeacherTargetKind,
};
use crate::numeric::{is_square, max_of, sat_mul, saturated, square_side};
use crate::ordered::{insert_sorted, lists_exactly, strictly_increasing};
use crate::rollout::{at_least_one, max_one, VisionRollout};
use crate::scalar::Single;
use vstd::prelude::*;

verus! {

/// The loss of one teacher: a target without patch features carries no patch and no relational
/// term.
pub open spec fn target_loss(
    config: VisionDistillationLossConfig,
    target_kind: VisionTeacherTargetKind,
    has_patch: bool,
) -> VisionDistillationLossConfig {
    if target_kind == VisionTeacherTargetKind::PatchAndCls && has_patch {
        config
    } else {
        VisionDistillationLossConfig {
            patch_mse_weight: Single::zero(),
            rel_weight: Single::zero(),
            ..config
        }
    }
}

/// The loss of one teacher.
pub fn distill_config_for_teacher_target(
    config: &VisionDistillationLossConfig,
    target_kind: VisionTeacherTargetKind,
    has_patch: bool,
) -> (loss: VisionDistillationLossConfig)
    ensures
        loss == target_loss(*config, target_kind, has_patch),
{
    let mut loss: VisionDistillationLossConfig = *config;
    let patched: bool = match target_kind {
        VisionTeacherTargetKind::PatchAndCls => has_patch,
        VisionTeacherTargetKind::ClsOnly => false,
        VisionTeacherTargetKind::GlobalOnly => false,
    };
    if !patched {
        loss.patch_mse_weight = Single { bits: 0 };
        loss.rel_weight = Single { bits: 0 };
    }
    loss
}

/// The default hidden width of an auxiliary decoder: twice the wider side.
pub fn default_auxiliary_decoder_hidden_dim(shared_dim: usize, target_dim: usize) -> (r: usize)
    ensures
        r == at_least_one(saturated(vstd::math::max(shared_dim as int, target_dim as int) * 2)),
{
    max_one(sat_mul(max_of(shared_dim, target_dim), 2))
}

/// The decoder heads of one auxiliary teacher.
#[derive(Debug)]
pub struct AuxiliaryTeacherHead {
    pub name: String,
    pub decoder_mode: VisionTeacherDecoderMode,
    pub patch_tokens: Option<usize>,
    pub hidden_dim: usize,
    pub target_dim: usize,
    pub has_patch_head: bool,
}

/// The feature dimension of a teacher.
pub open spec fn teacher_dim(teacher: VisionTeacherConfig, shared_dim: int) -> int {
    match teacher {
        VisionTeacherConfig::Features(features) => features.feature_dim as int,
        VisionTeacherConfig::Model(model) => match model.feature_dim {
            Some(dim) => dim as int,
            None => shared_dim,
        },
    }
}

/// How many patch vectors a teacher has per image, where it says so.
pub open spec fn teacher_tokens(teacher: VisionTeacherConfig) -> Option<usize> {
    match teacher {
        VisionTeacherConfig::Features(features) => features.patch_tokens,
        VisionTeacherConfig::Model(model) => model.patch_tokens,
    }
}

/// Whether `head` holds the decoder heads that `target` asks for.
pub open spec fn is_head_of(
    head: AuxiliaryTeacherHead,
    target: VisionTeacherTargetConfig,
    shared_dim: int,
) -> bool {
    let dim = teacher_dim(target.teacher, shared_dim);
    &&& head.name@ == target.name@
    &&& head.decoder_mode == target.decoder_mode
    &&& head.patch_tokens == teacher_tokens(target.teacher)
    &&& head.target_dim == dim
    &&& head.hidden_dim == (match target.decoder_hidden_dim {
        Some(hidden) => hidden as int,
        None => at_least_one(saturated(vstd::math::max(shared_dim, dim) * 2)),
    })
    &&& head.has_patch_head == (target.target_kind == VisionTeacherTargetKind::PatchAndCls)
}

/// The decoder heads of one target; none where it shares the projection of the student.
pub fn teacher_decoder_head(target: &VisionTeacherTargetConfig, shared_dim: usize) -> (head: Option<
    AuxiliaryTeacherHead,
>)
    ensures
        match head {
            Some(h) => target.decoder_mode.dedicated() && is_head_of(h, *target, shared_dim as int),
            None => !target.decoder_mode.dedicated(),
        },
{
    if !target.decoder_mode.uses_dedicated_projection() {
        return None;
    }
    let target_dim: usize = match &target.teacher {
        VisionTeacherConfig::Features(features) => features.feature_dim,
        VisionTeacherConfig::Model(model) => match model.feature_dim {
            Some(dim) => dim,
            None => shared_dim,
        },
    };
    let patch_tokens: Option<usize> = match &target.teacher {
        VisionTeacherConfig::Features(features) => features.patch_tokens,
        VisionTeacherConfig::Model(model) => model.patch_tokens,
    };
    let hidden_dim: usize = match target.decoder_hidden_dim {
        Some(hidden) => hidden,
        None => default_auxiliary_decoder_hidden_dim(shared_dim, target_dim),
    };
    let has_patch_head: bool = target.target_kind == VisionTeacherTargetKind::PatchAndCls;
    Some(
        AuxiliaryTeacherHead {
            name: target.name.clone(),
            decoder_mode: target.decoder_mode,
            patch_tokens,
            hidden_dim,
            target_dim,
            has_patch_head,
        },
    )
}

/// The targets among the first `n` that have heads of their own, in order.
pub open spec fn dedicated_targets(targets: Seq<VisionTeacherTargetConfig>, n: nat) -> Seq<
    VisionTeacherTargetConfig,
>
    decreases n,
{
    if n == 0 {
        Seq::empty()
    } else {
        let earlier = dedicated_targets(targets, (n - 1) as nat);
        if targets[n - 1].decoder_mode.dedicated() {
            earlier.push(targets[n - 1])
        } else {
            earlier
        }
    }
}

/// Whether `heads` are the heads of `targets`, one for each.
pub open spec fn are_heads_of(
    heads: Seq<AuxiliaryTeacherHead>,
    targets: Seq<VisionTeacherTargetConfig>,
    shared_dim: int,
) -> bool {
    &&& heads.len() == targets.len()
    &&& forall|i: int|
        0 <= i < heads.len() ==> is_head_of(#[trigger] heads[i], targets[i], shared_dim)
}

/// The settled settings of a distillation model.
#[derive(Debug)]
pub struct VisionDistillModelPlan {
    pub loss: VisionDistillationLossConfig,
    pub heads: Vec<AuxiliaryTeacherHead>,
    pub rollout: VisionRollout,
    pub supervision_frames: usize,
    pub supervision_stride: usize,
    pub supervision_groups: usize,
    pub explicit_steps: Vec<usize>,
    pub explicit_groups: Vec<Vec<usize>>,
    pub include_step1: bool,
    pub supervision_power: Single,
    pub sampling_power: Single,
    pub improvement_weight: Single,
    pub improvement_margin: Single,
}

/// `kept` lists the positive entries of `steps`.
pub open spec fn is_positive_listing(kept: Seq<usize>, steps: Seq<usize>) -> bool {
    lists_exactly(kept, |x: usize| x > 0 && steps.contains(x))
}

fn positive_steps(steps: &[usize]) -> (kept: Vec<usize>)
    ensures
        is_positive_listing(kept@, steps@),
{
    let mut kept: Vec<usize> = Vec::new();
    let mut i: usize = 0;
    while i < steps.len()
        invariant
            i <= steps@.len(),
            strictly_increasing(kept@),
            forall|x: usize| #[trigger]
                kept@.contains(x) <==> (x > 0 && steps@.take(i as int).contains(x)),
        decreases steps@.len() - i,
    {
        let ghost prior = steps@.take(i as int);
        let ghost before = kept@;
        let step: usize = steps[i];
        if step > 0 {
            insert_sorted(&mut kept, step);
        }
        i += 1;
        proof {
            let now = steps@.take(i as int);
            assert(now =~= prior.push(step));
            assert forall|x: usize| #[trigger] kept@.contains(x) <==> (x > 0 && now.contains(x)) by {
                if prior.contains(x) {
                    let k = choose|k: int| 0 <= k < prior.len() && prior[k] == x;
                    assert(now[k] == x);
                }
                if x == step {
                    assert(now[i as int - 1] == x);
                }
                if now.contains(x) {
                    let k = choose|k: int| 0 <= k < now.len() && now[k] == x;
                    if k < i - 1 {
                        assert(prior[k] == x);
                    }
                }
                assert(before.contains(x) <==> (x > 0 && prior.contains(x)));
            }
        }
    }
    assert(steps@.take(i as int) =~= steps@);
    kept
}

/// Whether a group has a positive step.
pub open spec fn has_positive(group: Seq<usize>) -> bool {
    exists|k: int| 0 <= k < group.len() && (#[trigger] group[k]) > 0
}

/// The groups among the first `n` that have a positive step, in order.
pub open spec fn usable_groups(groups: Seq<Vec<usize>>, n: nat) -> Seq<Seq<usize>>
    decreases n,
{
    if n == 0 {
        Seq::empty()
    } else {
        let earlier = usable_groups(groups, (n - 1) as nat);
        if has_positive(groups[n - 1]@) {
            earlier.push(groups[n - 1]@)
        } else {
            earlier
        }
    }
}

/// Whether `kept` lists the positive steps of each of `groups`.
pub open spec fn are_positive_listings(kept: Seq<Vec<usize>>, groups: Seq<Seq<usize>>) -> bool {
    &&& kept.len() == groups.len()
    &&& forall|i: int| 0 <= i < kept.len() ==> is_positive_listing((#[trigger] kept[i])@, groups[i])
}

fn positive_groups(groups: &Vec<Vec<usize>>) -> (kept: Vec<Vec<usize>>)
    ensures
        are_positive_listings(kept@, usable_groups(groups@, groups@.len())),
{
    let mut kept: Vec<Vec<usize>> = Vec::new();
    let mut g: usize = 0;
    while g < groups.len()
        invariant
            g <= groups@.len(),
            are_positive_listings(kept@, usable_groups(groups@, g as nat)),
        decreases groups@.len() - g,
    {
        let group = positive_steps(groups[g].as_slice());
        let ghost source = groups@[g as int]@;
        proof {
            if group@.len() > 0 {
                assert(group@.contains(group@[0]));
                let k = choose|k: int| 0 <= k < source.len() && source[k] == group@[0];
                assert(source[k] > 0);
            }
            if has_positive(source) {
                let k = choose|k: int| 0 <= k < source.len() && (#[trigger] source[k]) > 0;
                assert(source.contains(source[k]));
                assert(group@.contains(source[k]));
            }
        }
        if group.len() > 0 {
            kept.push(group);
        }
        g += 1;
    }
    kept
}

/// Settles the settings of a distillation model: heads for the targets that need them, step lists
/// sorted and without zeros or repetition, empty groups dropped, counts at least one, and negative
/// weights set to zero.
pub fn plan_distill_model(config: &VisionDistillConfig, shared_dim: usize, rollout: &VisionRollout) -> (
plan: VisionDistillModelPlan)
    ensures
        plan.loss == config.loss,
        plan.rollout == *rollout,
        are_heads_of(
            plan.heads@,
            dedicated_targets(config.teacher_targets@, config.teacher_targets@.len()),
            shared_dim as int,
        ),
        plan.supervision_frames == at_least_one(config.rollout_supervision_frames as int),
        plan.supervision_stride == at_least_one(config.rollout_supervision_stride as int),
        plan.supervision_groups == at_least_one(config.rollout_supervision_groups as int),
        is_positive_listing(plan.explicit_steps@, config.rollout_supervision_explicit_steps@),
        are_positive_listings(
            plan.explicit_groups@,
            usable_groups(
                config.rollout_supervision_explicit_groups@,
                config.rollout_supervision_explicit_groups@.len(),
            ),
        ),
        plan.include_step1 == config.rollout_supervision_include_step1,
        plan.supervision_power == config.rollout_supervision_power.clamped_at_zero(),
        plan.sampling_power == config.rollout_sampling_power.clamped_at_zero(),
        plan.improvement_weight == config.rollout_improvement_weight.clamped_at_zero(),
        plan.improvement_margin == config.rollout_improvement_margin.clamped_at_zero(),
{
    let mut heads: Vec<AuxiliaryTeacherHead> = Vec::new();
    let mut i: usize = 0;
    while i < config.teacher_targets.len()
        invariant
            i <= config.teacher_targets@.len(),
            are_heads_of(
                heads@,
                dedicated_targets(config.teacher_targets@, i as nat),
                shared_dim as int,
            ),
        decreases config.teacher_targets@.len() - i,
    {
        if let Some(head) = teacher_decoder_head(&config.teacher_targets[i], shared_dim) {
            heads.push(head);
        }
        i += 1;
    }
    VisionDistillModelPlan {
        loss: config.loss,
        heads,
        rollout: *rollout,
        supervision_frames: max_one(config.rollout_supervision_frames),
        supervision_stride: max_one(config.rollout_supervision_stride),
        supervision_groups: max_one(config.rollout_supervision_groups),
        explicit_steps: positive_steps(config.rollout_supervision_explicit_steps.as_slice()),
        explicit_groups: positive_groups(&config.rollout_supervision_explicit_groups),
        include_step1: config.rollout_supervision_include_step1,
        supervision_power: config.rollout_supervision_power.or_zero(),
        sampling_power: config.rollout_sampling_power.or_zero(),
        improvement_weight: config.rollout_improvement_weight.or_zero(),
        improvement_margin: config.rollout_improvement_margin.or_zero(),
    }
}

/// The position of the first head of that name.
pub open spec fn first_head(heads: Seq<AuxiliaryTeacherHead>, name: Seq<char>) -> Option<int>
    decreases heads.len(),
{
    if heads.len() == 0 {
        None
    } else {
        match first_head(heads.drop_last(), name) {
            Some(k) => Some(k),
            None => if heads.last().name@ == name {
                Some(heads.len() - 1)
            } else {
                None
            },
        }
    }
}

/// Where the heads of an auxiliary teacher stand.
pub fn auxiliary_teacher_head(heads: &Vec<AuxiliaryTeacherHead>, name: &String) -> (r: Option<usize>)
    ensures
        match r {
            Some(k) => first_head(heads@, name@) == Some(k as int) && k < heads@.len()
                && heads@[k as int].name@ == name@,
            None => first_head(heads@, name@) is None,
        },
{
    let mut k: usize = 0;
    assert(first_head(heads@.take(0), name@) is None);
    while k < heads.len()
        invariant
            k <= heads@.len(),
            first_head(heads@.take(k as int), name@) is None,
        decreases heads@.len() - k,
    {
        assert(heads@.take(k + 1).drop_last() =~= heads@.take(k as int));
        if heads[k].name == *name {
            proof {
                lemma_first_head_stays(heads@, name@, k + 1);
            }
            return Some(k);
        }
        k += 1;
    }
    assert(heads@.take(k as int) =~= heads@);
    None
}

proof fn lemma_first_head_stays(heads: Seq<AuxiliaryTeacherHead>, name: Seq<char>, n: int)
    requires
        0 <= n <= heads.len(),
        first_head(heads.take(n), name) is Some,
    ensures
        first_head(heads, name) == first_head(heads.take(n), name),
    decreases heads.len(),
{
    if n == heads.len() {
        assert(heads.take(n) =~= heads);
    } else {
        assert(heads.drop_last().take(n) =~= heads.take(n));
        lemma_first_head_stays(heads.drop_last(), name, n);
    }
}

/// A patch grid.
#[derive(Clone, Copy, Debug, PartialEq, Eq, Structural)]
pub struct PatchGrid {
    pub height: usize,
    pub width: usize,
}

/// The square grid of `tokens` patches.
pub fn patch_grid_from_tokens(tokens: usize) -> (grid: PatchGrid)
    requires
        is_square(tokens as nat),
    ensures
        grid.height == grid.width,
        grid.height * grid.width == tokens,
{
    match square_side(tokens) {
        Some(side) => PatchGrid { height: side, width: side },
        None => PatchGrid { height: 0, width: 0 },
    }
}

/// How patch tokens go over from one grid to another.
#[derive(Clone, Copy, Debug, PartialEq, Eq, Structural)]
pub enum GridResampling {
    Keep,
    /// Both sides shrink or stay: average over the source patches.
    AveragePool(PatchGrid),
    /// A side grows: repeat the nearest source patch.
    Nearest(PatchGrid),
}

/// How patch tokens go over from `source` to `target`.
pub open spec fn resampling_of(source: PatchGrid, target: PatchGrid) -> GridResampling {
    if source == target {
        GridResampling::Keep
    } else if target.height <= source.height && target.width <= source.width {
        GridResampling::AveragePool(target)
    } else {
        GridResampling::Nearest(target)
    }
}

/// How `source_tokens` patch tokens are brought to the grid of `target_tokens`; `None` where one of
/// the counts forms no square grid.
pub fn plan_resampling(source_tokens: usize, target_tokens: usize) -> (plan: Option<GridResampling>)
    ensures
        match plan {
            Some(p) => exists|s: nat, t: nat|
                #[trigger] (s * s) == source_tokens as nat && #[trigger] (t * t)
                    == target_tokens as nat && p == resampling_of(
                    PatchGrid { height: s as usize, width: s as usize },
                    PatchGrid { height: t as usize, width: t as usize },
                ),
            None => !is_square(source_tokens as nat) || !is_square(target_tokens as nat),
        },
{
    match (square_side(source_tokens), square_side(target_tokens)) {
        (Some(source_side), Some(target_side)) => {
            assert(source_side as nat * source_side as nat == source_tokens as nat);
            assert(target_side as nat * target_side as nat == target_tokens as nat);
            let source = patch_grid_from_tokens(source_tokens);
            let target = patch_grid_from_tokens(target_tokens);
            let plan = if source == target {
                GridResampling::Keep
            } else if target.height <= source.height && target.width <= source.width {
                GridResampling::AveragePool(target)
            } else {
                GridResampling::Nearest(target)
            };
            proof {
                let s = source.height as nat;
                let t = target.height as nat;
                assert(s * s == source_tokens as nat);
                assert(t * t == target_tokens as nat);
                assert(plan == resampling_of(
                    PatchGrid { height: s as usize, width: s as usize },
                    PatchGrid { height: t as usize, width: t as usize },
                ));
            }
            Some(plan)
        },
        _ => None,
    }
}

/// The rows `start..end` of a packed batch.
#[derive(Clone, Copy, Debug, PartialEq, Eq, Structural)]
pub struct RowRange {
    pub start: usize,
    pub end: usize,
}

/// The rows of each chunk when `chunks` batches of `batch` rows were packed together.
pub open spec fn chunk_rows(batch: int, chunks: nat) -> Seq<RowRange> {
    Seq::new(
        chunks,
        |i: int| RowRange { start: (i * batch) as usize, end: ((i + 1) * batch) as usize },
    )
}

/// The rows of each chunk when `chunks` batches of `batch` rows were packed together.
pub fn split_batched_rows(total_rows: usize, batch: usize, chunks: usize) -> (ranges: Vec<RowRange>)
    requires
        total_rows == batch * chunks,
    ensures
        ranges@ == chunk_rows(batch as int, chunks as nat),
{
    let mut ranges: Vec<RowRange> = Vec::new();
    let mut i: usize = 0;
    while i < chunks
        invariant
            i <= chunks,
            total_rows == batch * chunks,
            ranges@ == chunk_rows(batch as int, i as nat),
        decreases chunks - i,
    {
        assert(0 <= i * batch && i * batch + batch == (i + 1) * batch && (i + 1) * batch
            <= total_rows) by (nonlinear_arith)
            requires
                i + 1 <= chunks,
                total_rows == batch * chunks,
        ;
        let start: usize = i * batch;
        ranges.push(RowRange { start, end: start + batch });
        i += 1;
        assert(ranges@ =~= chunk_rows(batch as int, i as nat));
    }
    ranges
}

/// The chunks of a packed batch meet without gap or overlap and cover it.
pub proof fn law_chunks_tile_the_batch(total_rows: int, batch: int, chunks: nat, i: int)
    requires
        total_rows == batch * chunks,
        total_rows <= usize::MAX,
        batch >= 0,
        0 <= i < chunks,
    ensures
        ({
            let ranges = chunk_rows(batch, chunks);
            &&& ranges[0].start == 0
            &&& ranges[i].start + batch == ranges[i].end
            &&& i + 1 < chunks ==> ranges[i].end == ranges[i + 1].start
            &&& ranges[chunks - 1].end == total_rows
        }),
{
    assert(0 <= i * batch && i * batch + batch == (i + 1) * batch && (i + 1) * batch <= batch
        * chunks) by (nonlinear_arith)
        requires
            batch >= 0,
            0 <= i < chunks,
    ;
    assert(0 * batch == 0 && (chunks - 1 + 1) * batch == batch * chunks) by (nonlinear_arith);
}

/// What the student's features of one teacher target are made of.
#[derive(Clone, Copy, Debug, PartialEq, Eq, Structural)]
pub struct TargetPlan {
    /// The auxiliary target; `None` for the primary teacher.
    pub target: Option<usize>,
    /// The decoder head that projects the student's features; `None` takes them as they are.
    pub head: Option<usize>,
    /// Whether patch features are compared.
    pub patches: bool,
    /// The token count that the student's patch features are resampled to before they are projected.
    pub resample_to: Option<usize>,
}

/// What the plan reads of one auxiliary target of a batch.
#[derive(Debug)]
pub struct TargetBatchShape {
    pub name: String,
    pub weight: Single,
    pub target_kind: VisionTeacherTargetKind,
    /// How many patch vectors the batch holds per image, where it holds any.
    pub patch_tokens: Option<usize>,
}

/// The plan of one auxiliary target.
pub open spec fn target_plan_of(
    heads: Seq<AuxiliaryTeacherHead>,
    loss: VisionDistillationLossConfig,
    target: TargetBatchShape,
    index: int,
    student_tokens: int,
) -> TargetPlan {
    let own = target_loss(loss, target.target_kind, target.patch_tokens is Some);
    let patches = Single::zero().lt(own.patch_mse_weight) || Single::zero().lt(own.rel_weight);
    let head = first_head(heads, target.name@);
    TargetPlan {
        target: Some(index as usize),
        head: match head {
            Some(k) => Some(k as usize),
            None => None,
        },
        patches,
        resample_to: if patches && head is Some && heads[head->0].decoder_mode.resamples() {
            match heads[head->0].patch_tokens {
                Some(tokens) => Some(tokens),
                None => match target.patch_tokens {
                    Some(tokens) => Some(tokens),
                    None => Some(student_tokens as usize),
                },
            }
        } else {
            None
        },
    }
}

/// The plans of the auxiliary targets among the first `n` that carry weight, in order.
pub open spec fn auxiliary_plans(
    heads: Seq<AuxiliaryTeacherHead>,
    loss: VisionDistillationLossConfig,
    targets: Seq<TargetBatchShape>,
    student_tokens: int,
    n: nat,
) -> Seq<TargetPlan>
    decreases n,
{
    if n == 0 {
        Seq::empty()
    } else {
        let earlier = auxiliary_plans(heads, loss, targets, student_tokens, (n - 1) as nat);
        if targets[n - 1].weight.le(Single::zero()) {
            earlier
        } else {
            earlier.push(target_plan_of(heads, loss, targets[n - 1], n - 1, student_tokens))
        }
    }
}

/// The plan of the primary teacher: all features as they are.
pub open spec fn primary_plan() -> TargetPlan {
    TargetPlan { target: None, head: None, patches: true, resample_to: None }
}

fn plan_target(
    heads: &Vec<AuxiliaryTeacherHead>,
    loss: &VisionDistillationLossConfig,
    target: &TargetBatchShape,
    index: usize,
    student_tokens: usize,
) -> (plan: TargetPlan)
    ensures
        plan == target_plan_of(heads@, *loss, *target, index as int, student_tokens as int),
{
    let has_patch: bool = target.patch_tokens.is_some();
    let own = distill_config_for_teacher_target(loss, target.target_kind, has_patch);
    let patches: bool = own.patch_mse_weight.is_positive() || own.rel_weight.is_positive();
    let head: Option<usize> = auxiliary_teacher_head(heads, &target.name);
    let resample_to: Option<usize> = match head {
        Some(k) => if patches && heads[k].decoder_mode.supports_spatial_resampling() {
            match heads[k].patch_tokens {
                Some(tokens) => Some(tokens),
                None => match target.patch_tokens {
                    Some(tokens) => Some(tokens),
                    None => Some(student_tokens),
                },
            }
        } else {
            None
        },
        None => None,
    };
    TargetPlan { target: Some(index), head, patches, resample_to }
}

/// Plans the targets of one student output: the primary teacher first, then every auxiliary target
/// that carries weight.
pub fn plan_teacher_targets(
    heads: &Vec<AuxiliaryTeacherHead>,
    loss: &VisionDistillationLossConfig,
    targets: &Vec<TargetBatchShape>,
    student_tokens: usize,
) -> (plans: Vec<TargetPlan>)
    ensures
        plans@ == seq![primary_plan()] + auxiliary_plans(
            heads@,
            *loss,
            targets@,
            student_tokens as int,
            targets@.len(),
        ),
{
    let mut plans: Vec<TargetPlan> = Vec::new();
    plans.push(TargetPlan { target: None, head: None, patches: true, resample_to: None });
    let mut i: usize = 0;
    assert(plans@ =~= seq![primary_plan()] + auxiliary_plans(
        heads@,
        *loss,
        targets@,
        student_tokens as int,
        0,
    ));
    while i < targets.len()
        invariant
            i <= targets@.len(),
            plans@ == seq![primary_plan()] + auxiliary_plans(
                heads@,
                *loss,
                targets@,
                student_tokens as int,
                i as nat,
            ),
        decreases targets@.len() - i,
    {
        if !targets[i].weight.is_at_most_zero() {
            plans.push(plan_target(heads, loss, &targets[i], i, student_tokens));
        }
        i += 1;
        assert(plans@ =~= seq![primary_plan()] + auxiliary_plans(
            heads@,
            *loss,
            targets@,
            student_tokens as int,
            i as nat,
        ));
    }
    plans
}

/// The shape by which targets are compared together. Class features have no tokens.
#[derive(Clone, Copy, Debug, PartialEq, Eq, Structural)]
pub struct LossShapeKey {
    pub tokens: usize,
    pub dim: usize,
}

/// The targets of one shape.
#[derive(Debug)]
pub struct ShapeGroup {
    pub key: LossShapeKey,
    pub members: Vec<usize>,
}

/// The targets among the first `n` that carry weight and have the given shape, in order.
pub open spec fn members_of(
    weights: Seq<Single>,
    keys: Seq<LossShapeKey>,
    key: LossShapeKey,
    n: nat,
) -> Seq<usize>
    decreases n,
{
    if n == 0 {
        Seq::empty()
    } else {
        let earlier = members_of(weights, keys, key, (n - 1) as nat);
        if !weights[n - 1].le(Single::zero()) && keys[n - 1] == key {
            earlier.push((n - 1) as usize)
        } else {
            earlier
        }
    }
}

/// The shapes of the first `n` targets that carry weight, in the order in which they first occur.
pub open spec fn shapes_of(weights: Seq<Single>, keys: Seq<LossShapeKey>, n: nat) -> Seq<
    LossShapeKey,
>
    decreases n,
{
    if n == 0 {
        Seq::empty()
    } else {
        let earlier = shapes_of(weights, keys, (n - 1) as nat);
        if weights[n - 1].le(Single::zero()) || earlier.contains(keys[n - 1]) {
            earlier
        } else {
            earlier.push(keys[n - 1])
        }
    }
}

/// Whether `groups` holds the first `n` targets that carry weight, shape by shape.
pub open spec fn are_shape_groups(
    groups: Seq<ShapeGroup>,
    weights: Seq<Single>,
    keys: Seq<LossShapeKey>,
    n: nat,
) -> bool {
    let shapes = shapes_of(weights, keys, n);
    &&& groups.len() == shapes.len()
    &&& forall|g: int|
        0 <= g < groups.len() ==> (#[trigger] groups[g]).key == shapes[g] && groups[g].members@
            == members_of(weights, keys, shapes[g], n)
}

proof fn lemma_shapes_distinct(weights: Seq<Single>, keys: Seq<LossShapeKey>, n: nat)
    ensures
        shapes_of(weights, keys, n).no_duplicates(),
    decreases n,
{
    if n > 0 {
        lemma_shapes_distinct(weights, keys, (n - 1) as nat);
        let earlier = shapes_of(weights, keys, (n - 1) as nat);
        let all = shapes_of(weights, keys, n);
        assert forall|i: int, j: int| 0 <= i < all.len() && 0 <= j < all.len() && i != j implies
            all[i] != all[j] by {
            if all.len() > earlier.len() {
                if i == earlier.len() {
                    assert(earlier.contains(earlier[j]));
                }
                if j == earlier.len() {
                    assert(earlier.contains(earlier[i]));
                }
            }
        }
    }
}

proof fn lemma_no_members(
    weights: Seq<Single>,
    keys: Seq<LossShapeKey>,
    key: LossShapeKey,
    n: nat,
)
    requires
        !shapes_of(weights, keys, n).contains(key),
    ensures
        members_of(weights, keys, key, n) == Seq::<usize>::empty(),
    decreases n,
{
    if n > 0 {
        let earlier = shapes_of(weights, keys, (n - 1) as nat);
        let all = shapes_of(weights, keys, n);
        if earlier.contains(key) {
            let k = choose|k: int| 0 <= k < earlier.len() && earlier[k] == key;
            assert(all[k] == key);
        }
        lemma_no_members(weights, keys, key, (n - 1) as nat);
        if !weights[n - 1].le(Single::zero()) && keys[n - 1] == key {
            assert(all.last() == key);
            assert(all[all.len() - 1] == key);
        }
    }
}

/// Groups the targets that carry weight by their shape, in the order in which the shapes first
/// occur.
pub fn group_by_shape(weights: &[Single], keys: &[LossShapeKey]) -> (groups: Vec<ShapeGroup>)
    requires
        weights@.len() == keys@.len(),
    ensures
        are_shape_groups(groups@, weights@, keys@, weights@.len()),
{
    let mut groups: Vec<ShapeGroup> = Vec::new();
    let mut i: usize = 0;
    while i < weights.len()
        invariant
            i <= weights@.len(),
            weights@.len() == keys@.len(),
            are_shape_groups(groups@, weights@, keys@, i as nat),
        decreases weights@.len() - i,
    {
        let ghost shapes = shapes_of(weights@, keys@, i as nat);
        let ghost before = groups@;
        proof {
            lemma_shapes_distinct(weights@, keys@, i as nat);
        }
        if !weights[i].is_at_most_zero() {
            let key: LossShapeKey = keys[i];
            let mut g: usize = 0;
            while g < groups.len() && groups[g].key != key
                invariant
                    g <= groups@.len(),
                    groups@ == before,
                    forall|j: int| 0 <= j < g ==> (#[trigger] groups@[j]).key != key,
                decreases groups@.len() - g,
            {
                g += 1;
            }
            if g < groups.len() {
                let ghost members = groups@[g as int].members@;
                groups[g].members.push(i);
                proof {
                    assert(shapes[g as int] == key);
                    assert(shapes.contains(key));
                    assert(shapes_of(weights@, keys@, (i + 1) as nat) == shapes);
                    assert forall|j: int| 0 <= j < groups@.len() implies (
                    #[trigger] groups@[j]).key == shapes[j] && groups@[j].members@ == members_of(
                        weights@,
                        keys@,
                        shapes[j],
                        (i + 1) as nat,
                    ) by {
                        if j == g {
                            assert(groups@[j].members@ =~= members.push(i));
                        } else {
                            assert(groups@[j] == before[j]);
                            assert(shapes[j] != shapes[g as int]);
                        }
                    }
                }
            } else {
                proof {
                    if shapes.contains(key) {
                        let j = choose|j: int| 0 <= j < shapes.len() && shapes[j] == key;
                        assert(groups@[j].key == key);
                    }
                    lemma_no_members(weights@, keys@, key, i as nat);
                }
                let mut members: Vec<usize> = Vec::new();
                members.push(i);
                groups.push(ShapeGroup { key, members });
                proof {
                    let now = shapes_of(weights@, keys@, (i + 1) as nat);
                    assert(now == shapes.push(key));
                    assert forall|j: int| 0 <= j < groups@.len() implies (
                    #[trigger] groups@[j]).key == now[j] && groups@[j].members@ == members_of(
                        weights@,
                        keys@,
                        now[j],
                        (i + 1) as nat,
                    ) by {
                        if j < before.len() {
                            assert(groups@[j] == before[j]);
                            assert(shapes.contains(shapes[j]));
                        } else {
                            assert(groups@[j].members@ =~= Seq::<usize>::empty().push(i));
                        }
                    }
                }
            }
        }
        i += 1;
    }
    groups
}

/// Every target that carries weight is in a group, and in one only: shapes do not repeat.
pub proof fn law_groups_partition_the_targets(
    weights: Seq<Single>,
    keys: Seq<LossShapeKey>,
    n: nat,
    i: int,
)
    requires
        0 <= i < n <= weights.len(),
        weights.len() == keys.len(),
        n <= usize::MAX,
    ensures
        shapes_of(weights, keys, n).no_duplicates(),
        !weights[i].le(Single::zero()) ==> shapes_of(weights, keys, n).contains(keys[i])
            && members_of(weights, keys, keys[i], n).contains(i as usize),
        forall|key: LossShapeKey|
            key != keys[i] ==> !(#[trigger] members_of(weights, keys, key, n)).contains(i as usize),
    decreases n,
{
    lemma_shapes_distinct(weights, keys, n);
    let m = (n - 1) as nat;
    if i < m {
        law_groups_partition_the_targets(weights, keys, m, i);
        if !weights[i].le(Single::zero()) {
            let earlier = shapes_of(weights, keys, m);
            let all = shapes_of(weights, keys, n);
            let k = choose|k: int| 0 <= k < earlier.len() && earlier[k] == keys[i];
            assert(all[k] == keys[i]);
            let members = members_of(weights, keys, keys[i], m);
            let j = choose|j: int| 0 <= j < members.len() && members[j] == i as usize;
            assert(members_of(weights, keys, keys[i], n)[j] == i as usize);
        }
    } else {
        if !weights[i].le(Single::zero()) {
            let earlier = shapes_of(weights, keys, m);
            let all = shapes_of(weights, keys, n);
            if !earlier.contains(keys[i]) {
                assert(all[earlier.len() as int] == keys[i]);
            }
            let members = members_of(weights, keys, keys[i], n);
            assert(members[members.len() - 1] == i as usize);
        }
    }
    assert forall|key: LossShapeKey| key != keys[i] implies !(#[trigger] members_of(
        weights,
        keys,
        key,
        n,
    )).contains(i as usize) by {
        let members = members_of(weights, keys, key, n);
        let earlier = members_of(weights, keys, key, m);
        lemma_members_in_range(weights, keys, key, m);
        if members.contains(i as usize) {
            let j = choose|j: int| 0 <= j < members.len() && members[j] == i as usize;
            if j < earlier.len() {
                assert(earlier.contains(earlier[j]));
            }
        }
    }
}

proof fn lemma_members_in_range(
    weights: Seq<Single>,
    keys: Seq<LossShapeKey>,
    key: LossShapeKey,
    n: nat,
)
    requires
        n <= usize::MAX,
    ensures
        forall|x: usize| #[trigger] members_of(weights, keys, key, n).contains(x) ==> x < n,
    decreases n,
{
    if n > 0 {
        lemma_members_in_range(weights, keys, key, (n - 1) as nat);
        let earlier = members_of(weights, keys, key, (n - 1) as nat);
        let all = members_of(weights, keys, key, n);
        assert forall|x: usize| #[trigger] all.contains(x) implies x < n by {
            let j = choose|j: int| 0 <= j < all.len() && all[j] == x;
            if j < earlier.len() {
                assert(earlier.contains(earlier[j]));
            }
        }
    }
}

/// Only the terms on patches depend on whether a target has patches: without them both are off, with
/// them they are those of the run. The terms on class features are always those of the run.
pub proof fn law_class_terms_do_not_depend_on_patches(
    config: VisionDistillationLossConfig,
    target_kind: VisionTeacherTargetKind,
    has_patch: bool,
)
    ensures
        ({
            let loss = target_loss(config, target_kind, has_patch);
            let compares = has_patch && target_kind == VisionTeacherTargetKind::PatchAndCls;
            &&& loss.cls_mse_weight == config.cls_mse_weight
            &&& loss.cls_cosine_weight == config.cls_cosine_weight
            &&& loss.rel_tau == config.rel_tau
            &&& loss.rel_sample_tokens == config.rel_sample_tokens
            &&& compares ==> loss.patch_mse_weight == config.patch_mse_weight && loss.rel_weight
                == config.rel_weight
            &&& !compares ==> loss.patch_mse_weight.bits == 0 && loss.rel_weight.bits == 0
        }),
{
}

/// A teacher has the features and tokens it says; one that does not say how many features has as
/// many as the student.
pub proof fn law_teachers_say_their_sizes(teacher: VisionTeacherConfig, shared_dim: int)
    ensures
        teacher matches VisionTeacherConfig::Features(features) ==> {
            &&& teacher_dim(teacher, shared_dim) == features.feature_dim
            &&& teacher_tokens(teacher) == features.patch_tokens
        },
        teacher matches VisionTeacherConfig::Model(model) ==> {
            &&& model.feature_dim matches Some(dim) ==> teacher_dim(teacher, shared_dim) == dim
            &&& model.feature_dim is None ==> teacher_dim(teacher, shared_dim) == shared_dim
            &&& teacher_tokens(teacher) == model.patch_tokens
        },
{
}

/// A head leads to its teacher's width; its hidden width is the configured one, or else no narrower
/// than twice either side, as far as that can be counted. Only targets with patches have a patch
/// head.
pub proof fn law_heads_fit_their_target(
    head: AuxiliaryTeacherHead,
    target: VisionTeacherTargetConfig,
    shared_dim: usize,
)
    requires
        is_head_of(head, target, shared_dim as int),
    ensures
        head.name@ == target.name@,
        head.decoder_mode == target.decoder_mode,
        head.target_dim == teacher_dim(target.teacher, shared_dim as int),
        head.patch_tokens == teacher_tokens(target.teacher),
        head.has_patch_head <==> target.target_kind is PatchAndCls,
        target.decoder_hidden_dim matches Some(hidden) ==> head.hidden_dim == hidden,
        target.decoder_hidden_dim is None && shared_dim * 2 <= usize::MAX && head.target_dim * 2
            <= usize::MAX ==> {
            &&& head.hidden_dim >= 1
            &&& head.hidden_dim >= shared_dim * 2
            &&& head.hidden_dim >= head.target_dim * 2
            &&& head.hidden_dim == shared_dim * 2 || head.hidden_dim == head.target_dim * 2
                || head.hidden_dim == 1
        },
{
}

/// The targets that have heads of their own are those that do not share the student's projection, in
/// their order.
pub proof fn law_own_heads_are_filtered_out(targets: Seq<VisionTeacherTargetConfig>)
    ensures
        dedicated_targets(targets, targets.len()) == targets.filter(
            |target: VisionTeacherTargetConfig| !(target.decoder_mode is SharedProjection),
        ),
    decreases targets.len(),
{
    reveal(Seq::filter);
    if targets.len() > 0 {
        law_own_heads_are_filtered_out(targets.drop_last());
        lemma_dedicated_prefix(targets, targets.drop_last(), (targets.len() - 1) as nat);
    }
}

proof fn lemma_dedicated_prefix(
    long: Seq<VisionTeacherTargetConfig>,
    short: Seq<VisionTeacherTargetConfig>,
    n: nat,
)
    requires
        n <= short.len() <= long.len(),
        short =~= long.subrange(0, short.len() as int),
    ensures
        dedicated_targets(long, n) == dedicated_targets(short, n),
    decreases n,
{
    if n > 0 {
        lemma_dedicated_prefix(long, short, (n - 1) as nat);
    }
}

/// The usable groups are those that hold a step other than zero, in their order.
pub proof fn law_usable_groups_are_filtered_out(groups: Seq<Vec<usize>>)
    ensures
        usable_groups(groups, groups.len()) == groups.map_values(|group: Vec<usize>| group@).filter(
            |group: Seq<usize>| exists|k: int| 0 <= k < group.len() && #[trigger] group[k] != 0,
        ),
    decreases groups.len(),
{
    reveal(Seq::filter);
    let usable = |group: Seq<usize>| exists|k: int|
        0 <= k < group.len() && #[trigger] group[k] != 0;
    let views = groups.map_values(|group: Vec<usize>| group@);
    if groups.len() > 0 {
        let rest = groups.drop_last();
        law_usable_groups_are_filtered_out(rest);
        lemma_usable_prefix(groups, rest, rest.len());
        assert(views.drop_last() =~= rest.map_values(|group: Vec<usize>| group@));
        assert(views.last() == groups.last()@);
        assert(usable(groups.last()@) <==> has_positive(groups.last()@));
        assert(groups.drop_last() =~= groups.subrange(0, groups.len() - 1));
    } else {
        assert(views =~= Seq::empty());
    }
}

proof fn lemma_usable_prefix(long: Seq<Vec<usize>>, short: Seq<Vec<usize>>, n: nat)
    requires
        n <= short.len() <= long.len(),
        short =~= long.subrange(0, short.len() as int),
    ensures
        usable_groups(long, n) == usable_groups(short, n),
    decreases n,
{
    if n > 0 {
        lemma_usable_prefix(long, short, (n - 1) as nat);
    }
}

/// A name leads to the first head that bears it, and to none only where no head does.
pub proof fn law_names_lead_to_their_first_head(heads: Seq<AuxiliaryTeacherHead>, name: Seq<char>)
    ensures
        match first_head(heads, name) {
            Some(k) => 0 <= k < heads.len() && heads[k].name@ == name && forall|j: int|
                0 <= j < k ==> (#[trigger] heads[j]).name@ != name,
            None => forall|j: int| 0 <= j < heads.len() ==> (#[trigger] heads[j]).name@ != name,
        },
    decreases heads.len(),
{
    if heads.len() > 0 {
        let rest = heads.drop_last();
        law_names_lead_to_their_first_head(rest, name);
        assert forall|j: int| 0 <= j < heads.len() - 1 implies #[trigger] heads[j] == rest[j] by {}
    }
}

/// A grid stays as it is only where it is already the wanted one. Patches are averaged only where no
/// side grows, and repeated only where one does; what was averaged on the way is repeated on the way
/// back.
pub proof fn law_grids_shrink_by_averaging_and_grow_by_repeating(
    source: PatchGrid,
    target: PatchGrid,
)
    ensures
        resampling_of(source, target) == GridResampling::Keep <==> source.height == target.height
            && source.width == target.width,
        resampling_of(source, target) matches GridResampling::AveragePool(grid) ==> {
            &&& grid == target
            &&& target.height <= source.height && target.width <= source.width
            &&& resampling_of(target, source) == GridResampling::Nearest(source)
        },
        resampling_of(source, target) matches GridResampling::Nearest(grid) ==> {
            &&& grid == target
            &&& target.height > source.height || target.width > source.width
        },
{
}

/// A target is projected by the first head of its name. Its patches are compared exactly where it
/// has some, it is of that kind, and a term on patches carries weight. They are resampled only to be
/// projected by a spatial decoder: to the count of the head, else of the batch, else of the student.
pub proof fn law_targets_are_projected_by_their_head(
    heads: Seq<AuxiliaryTeacherHead>,
    loss: VisionDistillationLossConfig,
    target: TargetBatchShape,
    index: int,
    student_tokens: int,
)
    requires
        0 <= index <= usize::MAX,
        heads.len() <= usize::MAX,
        0 <= student_tokens <= usize::MAX,
    ensures
        ({
            let plan = target_plan_of(heads, loss, target, index, student_tokens);
            &&& plan.target is Some && plan.target->0 == index
            &&& plan.head is None <==> (forall|j: int|
                0 <= j < heads.len() ==> (#[trigger] heads[j]).name@ != target.name@)
            &&& plan.head matches Some(k) ==> k < heads.len() && heads[k as int].name@
                == target.name@ && forall|j: int|
                0 <= j < k ==> (#[trigger] heads[j]).name@ != target.name@
            &&& plan.patches <==> target.patch_tokens is Some && target.target_kind is PatchAndCls
                && ((!loss.patch_mse_weight.is_nan() && loss.patch_mse_weight.rank() > 0) || (
            !loss.rel_weight.is_nan() && loss.rel_weight.rank() > 0))
            &&& plan.resample_to is Some <==> plan.patches && plan.head is Some
                && heads[plan.head->0 as int].decoder_mode is DedicatedSpatialProjection
            &&& plan.resample_to matches Some(tokens) ==> {
                let own = heads[plan.head->0 as int].patch_tokens;
                &&& own matches Some(count) ==> tokens == count
                &&& own is None ==> Some(tokens) == target.patch_tokens
            }
        }),
{
    law_names_lead_to_their_first_head(heads, target.name@);
}

/// Every auxiliary target that carries weight is planned once, in the order of the targets, and no
/// other one is.
pub proof fn law_weighted_targets_are_planned_once(
    heads: Seq<AuxiliaryTeacherHead>,
    loss: VisionDistillationLossConfig,
    targets: Seq<TargetBatchShape>,
    student_tokens: int,
    n: nat,
)
    requires
        n <= targets.len() <= usize::MAX,
    ensures
        ({
            let plans = auxiliary_plans(heads, loss, targets, student_tokens, n);
            &&& forall|j: int|
                0 <= j < plans.len() ==> {
                    let i = (#[trigger] plans[j]).target->0 as int;
                    &&& plans[j].target is Some && i < n
                    &&& targets[i].weight.is_nan() || targets[i].weight.rank() > 0
                    &&& plans[j] == target_plan_of(heads, loss, targets[i], i, student_tokens)
                }
            &&& forall|i: int, j: int|
                0 <= i < j < plans.len() ==> (#[trigger] plans[i]).target->0 < (
                #[trigger] plans[j]).target->0
            &&& forall|i: int|
                0 <= i < n && ((#[trigger] targets[i]).weight.is_nan() || targets[i].weight.rank()
                    > 0) ==> exists|j: int|
                    0 <= j < plans.len() && (#[trigger] plans[j]).target == Some(i as usize)
        }),
    decreases n,
{
    if n > 0 {
        let m = (n - 1) as nat;
        law_weighted_targets_are_planned_once(heads, loss, targets, student_tokens, m);
        let earlier = auxiliary_plans(heads, loss, targets, student_tokens, m);
        let plans = auxiliary_plans(heads, loss, targets, student_tokens, n);
        assert forall|j: int| 0 <= j < earlier.len() implies #[trigger] plans[j] == earlier[j] by {}
        assert forall|i: int|
            0 <= i < n && ((#[trigger] targets[i]).weight.is_nan() || targets[i].weight.rank()
                > 0) implies exists|j: int|
            0 <= j < plans.len() && (#[trigger] plans[j]).target == Some(i as usize) by {
            if i < m {
                let j = choose|j: int|
                    0 <= j < earlier.len() && (#[trigger] earlier[j]).target == Some(i as usize);
                assert(plans[j].target == Some(i as usize));
            } else {
                assert(plans[plans.len() - 1].target == Some(i as usize));
            }
        }
    }
}

/// The primary teacher comes without a head, and its features are compared as they are.
pub proof fn law_primary_features_are_compared_as_they_are()
    ensures
        primary_plan().target is None,
        primary_plan().head is None,
        primary_plan().resample_to is None,
        primary_plan().patches,
{
}

/// A group holds the targets of its shape that carry weight, each once and in order, and no others.
pub proof fn law_groups_hold_the_weighted_targets(
    weights: Seq<Single>,
    keys: Seq<LossShapeKey>,
    key: LossShapeKey,
    n: nat,
)
    requires
        n <= weights.len(),
        weights.len() == keys.len(),
        n <= usize::MAX,
    ensures
        ({
            let members = members_of(weights, keys, key, n);
            &&& forall|i: int, j: int| 0 <= i < j < members.len() ==> members[i] < members[j]
            &&& forall|j: int|
                0 <= j < members.len() ==> {
                    let i = #[trigger] members[j] as int;
                    &&& i < n
                    &&& keys[i] == key
                    &&& weights[i].is_nan() || weights[i].rank() > 0
                }
        }),
    decreases n,
{
    if n > 0 {
        let m = (n - 1) as nat;
        law_groups_hold_the_weighted_targets(weights, keys, key, m);
        let earlier = members_of(weights, keys, key, m);
        let members = members_of(weights, keys, key, n);
        assert forall|j: int| 0 <= j < earlier.len() implies #[trigger] members[j] == earlier[j] by {
        }
        assert forall|i: int, j: int| 0 <= i < j < members.len() implies members[i] < members[j] by {
            assert(members[i] == earlier[i]);
            assert(earlier[i] < m);
        }
    }
}

/// The shapes come in the order in which they first occur: where one shape stands before another,
/// some target of it that carries weight comes before every such target of the other.
pub proof fn law_shapes_come_as_they_occur(
    weights: Seq<Single>,
    keys: Seq<LossShapeKey>,
    n: nat,
    g: int,
    h: int,
    later: int,
)
    requires
        n <= weights.len(),
        weights.len() == keys.len(),
        n <= usize::MAX,
        0 <= g < h < shapes_of(weights, keys, n).len(),
        0 <= later < n,
        keys[later] == shapes_of(weights, keys, n)[h],
        weights[later].is_nan() || weights[later].rank() > 0,
    ensures
        exists|first: int|
            0 <= first < later && keys[first] == shapes_of(weights, keys, n)[g] && ((
            #[trigger] weights[first]).is_nan() || weights[first].rank() > 0),
    decreases n,
{
    let m = (n - 1) as nat;
    let earlier = shapes_of(weights, keys, m);
    let shapes = shapes_of(weights, keys, n);
    if n >= 2 {
        law_groups_partition_the_targets(weights, keys, n, 0);
    }
    if later < m {
        law_groups_partition_the_targets(weights, keys, m, later);
        law_groups_partition_the_targets(weights, keys, n, later);
        let at = earlier.index_of(keys[later]);
        assert(earlier[at] == keys[later] && shapes[at] == shapes[h]);
        assert(at == h);
        law_shapes_come_as_they_occur(weights, keys, m, g, h, later);
    } else if h < earlier.len() {
        lemma_shape_occurs(weights, keys, m, g);
    } else {
        lemma_shape_occurs(weights, keys, m, g);
    }
}

proof fn lemma_shape_occurs(weights: Seq<Single>, keys: Seq<LossShapeKey>, n: nat, g: int)
    requires
        n <= weights.len(),
        weights.len() == keys.len(),
        0 <= g < shapes_of(weights, keys, n).len(),
    ensures
        exists|first: int|
            0 <= first < n && keys[first] == shapes_of(weights, keys, n)[g] && ((
            #[trigger] weights[first]).is_nan() || weights[first].rank() > 0),
    decreases n,
{
    if n > 0 {
        let m = (n - 1) as nat;
        if g < shapes_of(weights, keys, m).len() {
            lemma_shape_occurs(weights, keys, m, g);
        } else {
            let first = n - 1;
            assert(weights[first].is_nan() || weights[first].rank() > 0);
        }
    }
}

/// Each target gets its own head, in their order.
pub proof fn law_each_target_has_its_head(
    heads: Seq<AuxiliaryTeacherHead>,
    targets: Seq<VisionTeacherTargetConfig>,
    shared_dim: int,
    i: int,
)
    requires
        are_heads_of(heads, targets, shared_dim),
        0 <= i < targets.len(),
    ensures
        heads.len() == targets.len(),
        is_head_of(heads[i], targets[i], shared_dim),
{
}

/// Every step of a list but zero is kept, once and in increasing order, and nothing else; so for each
/// group.
pub proof fn law_all_steps_but_zero_are_kept(
    kept: Seq<Vec<usize>>,
    groups: Seq<Seq<usize>>,
    i: int,
    x: usize,
)
    requires
        are_positive_listings(kept, groups),
        0 <= i < groups.len(),
    ensures
        kept.len() == groups.len(),
        kept[i]@.contains(x) <==> x != 0 && groups[i].contains(x),
        strictly_increasing(kept[i]@),
{
    assert(is_positive_listing(kept[i]@, groups[i]));
}

/// Targets of one group have its shape and carry weight, no two groups have the same shape, and every
/// target that carries weight is in the group of its shape.
pub proof fn law_groups_are_those_of_the_shapes(
    groups: Seq<ShapeGroup>,
    weights: Seq<Single>,
    keys: Seq<LossShapeKey>,
    g: int,
    h: int,
    i: int,
)
    requires
        weights.len() == keys.len(),
        weights.len() <= usize::MAX,
        are_shape_groups(groups, weights, keys, weights.len()),
        0 <= g < groups.len(),
        0 <= h < groups.len(),
        0 <= i < weights.len(),
    ensures
        groups[g].key == groups[h].key ==> g == h,
        groups[g].members@.contains(i as usize) ==> keys[i] == groups[g].key && (
        weights[i].is_nan() || weights[i].rank() > 0),
        keys[i] == groups[g].key && (weights[i].is_nan() || weights[i].rank() > 0)
            ==> groups[g].members@.contains(i as usize),
{
    let n = weights.len();
    law_groups_partition_the_targets(weights, keys, n, i);
    let shapes = shapes_of(weights, keys, n);
    assert(groups[g].key == shapes[g]);
    assert(groups[h].key == shapes[h]);
    law_groups_hold_the_weighted_targets(weights, keys, shapes[g], n);
    let members = members_of(weights, keys, shapes[g], n);
    assert(groups[g].members@ == members);
    if members.contains(i as usize) {
        let j = members.index_of(i as usize);
        assert(members[j] as int == i);
    }
}

} // verus!
