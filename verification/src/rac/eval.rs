//! One evaluation of the autoencoder: the flows it integrates and the losses it takes.

use crate::config::{VisionRacConfig, VisionRacTeacherKind};
use crate::numeric::{min_of, square_side};
use crate::rac::flow::{randomises_time_grid, time_grid_points, FlowSettings};
use crate::rac::state::{latent_extent, latent_extent_of, VisionRacStateMappingKind};
use crate::rollout::{at_least_one, max_one};
use crate::scalar::Single;
use vstd::prelude::*;

verus! {

/// Where the teacher's latent comes from.
#[derive(Clone, Copy, Debug, PartialEq, Eq, Structural)]
pub enum LatentSource {
    /// The image, pooled to this size.
    Pooled { height: usize, width: usize },
    /// The batch brings it along.
    Precomputed,
}

/// Which semantic losses are taken.
#[derive(Clone, Copy, Debug, PartialEq, Eq, Structural)]
pub enum SemanticLoss {
    Absent,
    Cls,
    Patch,
    /// Both, divided by the sum of their weights.
    Both,
}

/// What of a batch and a model decides which losses are taken.
#[derive(Clone, Copy, Debug, PartialEq, Eq, Structural)]
pub struct RacEvalInputs {
    pub image_height: usize,
    pub image_width: usize,
    pub has_teacher_latent: bool,
    pub has_teacher_cls: bool,
    pub has_teacher_patch: bool,
    pub has_semantic_head: bool,
    pub has_semantic_patch_head: bool,
    pub capture_artifacts: bool,
}

/// What is drawn of an evaluation.
#[derive(Clone, Copy, Debug, PartialEq, Eq, Structural)]
pub struct RacArtifactRequest {
    pub max_images: usize,
    pub upscale: usize,
    /// The window that the drawing names; none where the gradient runs through.
    pub flow_backprop_steps: Option<usize>,
}

/// One evaluation: decode the latent, encode the image, and decode the encoding again.
#[derive(Clone, Copy, Debug, PartialEq, Eq, Structural)]
pub struct RacEvalPlan {
    pub latent: LatentSource,
    pub grid_points: usize,
    pub random_grid: bool,
    pub decode: FlowSettings,
    pub encode: FlowSettings,
    pub decode_again: FlowSettings,
    pub semantic: SemanticLoss,
    pub probe_loss: bool,
    pub artifacts: Option<RacArtifactRequest>,
}

/// The settings of one integration.
pub open spec fn flow_settings_of(
    config: VisionRacConfig,
    reverse: bool,
    wipe_after_step: Option<usize>,
) -> FlowSettings {
    FlowSettings {
        reverse,
        reverse_noise: config.reverse_noise,
        wipe_after_step,
        detach_each_step: config.memory.detach_each_step,
        flow_backprop_steps: config.memory.flow_backprop_steps,
    }
}

fn flow_settings(config: &VisionRacConfig, reverse: bool, wipe_after_step: Option<usize>) -> (r:
    FlowSettings)
    ensures
        r == flow_settings_of(*config, reverse, wipe_after_step),
{
    FlowSettings {
        reverse,
        reverse_noise: config.reverse_noise,
        wipe_after_step,
        detach_each_step: config.memory.detach_each_step,
        flow_backprop_steps: config.memory.flow_backprop_steps,
    }
}

/// Which semantic losses are taken: each needs its head and its target, and the teacher a positive
/// weight.
pub open spec fn semantic_loss_of(weight: Single, inputs: RacEvalInputs) -> SemanticLoss {
    let active = Single::zero().lt(weight);
    let cls = active && inputs.has_semantic_head && inputs.has_teacher_cls;
    let patch = active && inputs.has_semantic_patch_head && inputs.has_teacher_patch;
    if cls && patch {
        SemanticLoss::Both
    } else if cls {
        SemanticLoss::Cls
    } else if patch {
        SemanticLoss::Patch
    } else {
        SemanticLoss::Absent
    }
}

/// Whether `plan` is that of one evaluation. Only an evaluation that is drawn clears the memory on its
/// way.
pub open spec fn is_rac_eval_plan(
    config: VisionRacConfig,
    inputs: RacEvalInputs,
    plan: RacEvalPlan,
) -> bool {
    let wipe = if inputs.capture_artifacts {
        config.memory.eval_wipe_after_step
    } else {
        None
    };
    &&& plan.latent == (match config.teacher.kind {
        VisionRacTeacherKind::PooledImage => LatentSource::Pooled {
            height: latent_extent_of(
                inputs.image_height as int,
                config.teacher.latent_downsample as int,
            ) as usize,
            width: latent_extent_of(
                inputs.image_width as int,
                config.teacher.latent_downsample as int,
            ) as usize,
        },
        VisionRacTeacherKind::PrecomputedLatent => LatentSource::Precomputed,
    })
    &&& plan.grid_points == at_least_one(config.sample_steps as int) + 1
    &&& plan.random_grid == (config.random_time_grid && config.sample_steps > 1)
    &&& plan.decode == flow_settings_of(config, false, None)
    &&& plan.encode == flow_settings_of(config, true, wipe)
    &&& plan.decode_again == flow_settings_of(config, false, wipe)
    &&& plan.semantic == semantic_loss_of(config.semantic_teacher.weight, inputs)
    &&& plan.probe_loss == Single::zero().lt(config.probe_weight)
    &&& plan.artifacts == (if inputs.capture_artifacts && config.artifact_every > 0
        && config.artifact_max_images > 0 {
        Some(
            RacArtifactRequest {
                max_images: config.artifact_max_images,
                upscale: at_least_one(config.artifact_upscale as int) as usize,
                flow_backprop_steps: if config.memory.detach_each_step {
                    Some(1)
                } else {
                    config.memory.flow_backprop_steps
                },
            },
        )
    } else {
        None
    })
}

/// Plans one evaluation. Only an evaluation that is drawn clears the memory on its way.
pub fn plan_rac_eval(config: &VisionRacConfig, inputs: &RacEvalInputs) -> (plan: RacEvalPlan)
    requires
        config.sample_steps < usize::MAX,
        config.teacher.kind == VisionRacTeacherKind::PrecomputedLatent ==> inputs.has_teacher_latent,
    ensures
        is_rac_eval_plan(*config, *inputs, plan),
{
    let wipe: Option<usize> = if inputs.capture_artifacts {
        config.memory.eval_wipe_after_step
    } else {
        None
    };
    let latent = match config.teacher.kind {
        VisionRacTeacherKind::PooledImage => LatentSource::Pooled {
            height: latent_extent(inputs.image_height, config.teacher.latent_downsample),
            width: latent_extent(inputs.image_width, config.teacher.latent_downsample),
        },
        VisionRacTeacherKind::PrecomputedLatent => LatentSource::Precomputed,
    };
    let active: bool = config.semantic_teacher.weight.is_positive();
    let cls: bool = active && inputs.has_semantic_head && inputs.has_teacher_cls;
    let patch: bool = active && inputs.has_semantic_patch_head && inputs.has_teacher_patch;
    let semantic = if cls && patch {
        SemanticLoss::Both
    } else if cls {
        SemanticLoss::Cls
    } else if patch {
        SemanticLoss::Patch
    } else {
        SemanticLoss::Absent
    };
    let artifacts = if inputs.capture_artifacts && config.artifact_every > 0
        && config.artifact_max_images > 0 {
        Some(
            RacArtifactRequest {
                max_images: config.artifact_max_images,
                upscale: max_one(config.artifact_upscale),
                flow_backprop_steps: if config.memory.detach_each_step {
                    Some(1)
                } else {
                    config.memory.flow_backprop_steps
                },
            },
        )
    } else {
        None
    };
    RacEvalPlan {
        latent,
        grid_points: time_grid_points(config.sample_steps),
        random_grid: randomises_time_grid(config.sample_steps, config.random_time_grid),
        decode: flow_settings(config, false, None),
        encode: flow_settings(config, true, wipe),
        decode_again: flow_settings(config, false, wipe),
        semantic,
        probe_loss: config.probe_weight.is_positive(),
        artifacts,
    }
}

/// How patch features of a teacher are brought to the student's token count.
#[derive(Clone, Copy, Debug, PartialEq, Eq, Structural)]
pub enum PatchAlignment {
    Keep,
    /// The first tokens, where a count forms no square grid.
    Truncate { tokens: usize },
    /// Bilinear interpolation between two square grids.
    Interpolate { source_side: usize, target_side: usize },
}

/// The side of the square grid of `tokens` tokens, where they form one.
pub fn maybe_square_grid(tokens: usize) -> (side: Option<usize>)
    ensures
        match side {
            Some(s) => s * s == tokens,
            None => forall|s: nat| #[trigger] (s * s) != tokens as nat,
        },
{
    square_side(tokens)
}

/// How patch features of a teacher are brought to the student's token count.
pub fn plan_patch_alignment(source_tokens: usize, target_tokens: usize) -> (plan: PatchAlignment)
    ensures
        match plan {
            PatchAlignment::Keep => source_tokens == target_tokens,
            PatchAlignment::Truncate { tokens } => {
                &&& source_tokens != target_tokens
                &&& (forall|s: nat| #[trigger] (s * s) != source_tokens as nat) || (forall|s: nat|
                    #[trigger] (s * s) != target_tokens as nat)
                &&& tokens == vstd::math::min(source_tokens as int, target_tokens as int)
            },
            PatchAlignment::Interpolate { source_side, target_side } => {
                &&& source_tokens != target_tokens
                &&& source_side * source_side == source_tokens
                &&& target_side * target_side == target_tokens
            },
        },
{
    if source_tokens == target_tokens {
        return PatchAlignment::Keep;
    }
    match (maybe_square_grid(source_tokens), maybe_square_grid(target_tokens)) {
        (Some(source_side), Some(target_side)) => PatchAlignment::Interpolate {
            source_side,
            target_side,
        },
        _ => PatchAlignment::Truncate { tokens: min_of(target_tokens, source_tokens) },
    }
}

/// How a latent and a state go over into each other.
#[derive(Clone, Copy, Debug, PartialEq, Eq, Structural)]
pub enum StateTransfer {
    Copy,
    /// One latent pixel at the centre of each square tile of this side.
    Centres { stride: usize },
    /// The nearest latent pixel (into the state).
    Nearest,
    /// The average over the state's pixels (out of the state).
    Pool,
}

/// How a latent goes over into a state of `height` by `width`.
pub fn plan_latent_to_state(
    mapping: VisionRacStateMappingKind,
    latent_h: usize,
    latent_w: usize,
    height: usize,
    width: usize,
) -> (plan: StateTransfer)
    requires
        (latent_h > 0 && latent_w > 0) || (latent_h == height && latent_w == width),
    ensures
        latent_h == height && latent_w == width ==> plan == StateTransfer::Copy,
        !(latent_h == height && latent_w == width) ==> plan == (match mapping {
            VisionRacStateMappingKind::ExpandNearest => StateTransfer::Nearest,
            VisionRacStateMappingKind::CenteredSubpixel => match crate::rac::state::subpixel_plan_of(
                latent_h as int,
                latent_w as int,
                height as int,
                width as int,
            ) {
                crate::rac::state::SubpixelPlan::Tiles(stride) => StateTransfer::Centres { stride },
                _ => StateTransfer::Nearest,
            },
        }),
{
    match mapping {
        VisionRacStateMappingKind::ExpandNearest => if latent_h == height && latent_w == width {
            StateTransfer::Copy
        } else {
            StateTransfer::Nearest
        },
        VisionRacStateMappingKind::CenteredSubpixel => match crate::rac::state::subpixel_plan(
            latent_h,
            latent_w,
            height,
            width,
        ) {
            crate::rac::state::SubpixelPlan::Identity => StateTransfer::Copy,
            crate::rac::state::SubpixelPlan::Tiles(stride) => StateTransfer::Centres { stride },
            crate::rac::state::SubpixelPlan::Resample => StateTransfer::Nearest,
        },
    }
}

/// How a latent of `latent_h` by `latent_w` is read off a state. Without centres it is pooled, even
/// where the sizes agree.
pub fn plan_state_to_latent(
    mapping: VisionRacStateMappingKind,
    height: usize,
    width: usize,
    latent_h: usize,
    latent_w: usize,
) -> (plan: StateTransfer)
    requires
        mapping == VisionRacStateMappingKind::CenteredSubpixel ==> (latent_h > 0 && latent_w > 0)
            || (latent_h == height && latent_w == width),
    ensures
        plan == (match mapping {
            VisionRacStateMappingKind::ExpandNearest => StateTransfer::Pool,
            VisionRacStateMappingKind::CenteredSubpixel => match crate::rac::state::subpixel_plan_of(
                latent_h as int,
                latent_w as int,
                height as int,
                width as int,
            ) {
                crate::rac::state::SubpixelPlan::Identity => StateTransfer::Copy,
                crate::rac::state::SubpixelPlan::Tiles(stride) => StateTransfer::Centres { stride },
                crate::rac::state::SubpixelPlan::Resample => StateTransfer::Pool,
            },
        }),
{
    match mapping {
        VisionRacStateMappingKind::ExpandNearest => StateTransfer::Pool,
        VisionRacStateMappingKind::CenteredSubpixel => match crate::rac::state::subpixel_plan(
            latent_h,
            latent_w,
            height,
            width,
        ) {
            crate::rac::state::SubpixelPlan::Identity => StateTransfer::Copy,
            crate::rac::state::SubpixelPlan::Tiles(stride) => StateTransfer::Centres { stride },
            crate::rac::state::SubpixelPlan::Resample => StateTransfer::Pool,
        },
    }
}

/// Every flow of an evaluation runs under the same settings: two of them differ at most in their
/// direction and in where the memory is cleared, which are those asked for.
pub proof fn law_flows_share_their_settings(
    config: VisionRacConfig,
    reverse: bool,
    wipe: Option<usize>,
    other_reverse: bool,
    other_wipe: Option<usize>,
)
    ensures
        ({
            let a = flow_settings_of(config, reverse, wipe);
            let b = flow_settings_of(config, other_reverse, other_wipe);
            &&& a.reverse == reverse && a.wipe_after_step == wipe
            &&& b == (FlowSettings { reverse: other_reverse, wipe_after_step: other_wipe, ..a })
            &&& a.reverse_noise == config.reverse_noise
            &&& a.detach_each_step <==> config.memory.detach_each_step
            &&& a.flow_backprop_steps == config.memory.flow_backprop_steps
        }),
{
}

/// The class loss is taken exactly where the teacher has a positive weight and both the head and the
/// target of the class are there, whatever there is of patches; and so for the patch loss.
pub proof fn law_each_semantic_loss_needs_its_own_parts(weight: Single, inputs: RacEvalInputs)
    ensures
        ({
            let loss = semantic_loss_of(weight, inputs);
            let weighs = weight.rank() > 0 && !weight.is_nan();
            &&& loss == SemanticLoss::Cls || loss == SemanticLoss::Both <==> weighs
                && inputs.has_semantic_head && inputs.has_teacher_cls
            &&& loss == SemanticLoss::Patch || loss == SemanticLoss::Both <==> weighs
                && inputs.has_semantic_patch_head && inputs.has_teacher_patch
        }),
{
}

/// Drawing an evaluation changes nothing of it but where its memory is cleared: it decodes, encodes
/// and decodes again under the same settings, and takes the same losses. What is not drawn clears
/// nothing on its way, and the first decoding never does.
pub proof fn law_drawing_only_clears_the_memory(
    config: VisionRacConfig,
    inputs: RacEvalInputs,
    drawn: RacEvalPlan,
    plain: RacEvalPlan,
)
    requires
        is_rac_eval_plan(config, RacEvalInputs { capture_artifacts: true, ..inputs }, drawn),
        is_rac_eval_plan(config, RacEvalInputs { capture_artifacts: false, ..inputs }, plain),
    ensures
        drawn.latent == plain.latent,
        drawn.grid_points == plain.grid_points,
        drawn.random_grid == plain.random_grid,
        drawn.decode == plain.decode,
        drawn.encode == (FlowSettings {
            wipe_after_step: config.memory.eval_wipe_after_step,
            ..plain.encode
        }),
        drawn.decode_again == (FlowSettings {
            wipe_after_step: config.memory.eval_wipe_after_step,
            ..plain.decode_again
        }),
        plain.encode.wipe_after_step is None && plain.decode_again.wipe_after_step is None,
        drawn.decode.wipe_after_step is None,
        drawn.semantic == plain.semantic,
        drawn.probe_loss == plain.probe_loss,
        plain.artifacts is None,
        drawn.artifacts is Some <==> config.artifact_every >= 1 && config.artifact_max_images >= 1,
{
}

/// The latent is decoded forward and the image encoded in reverse, over one more point than there are
/// steps. The probe is trained where it carries weight, and a latent that comes with the batch is not
/// pooled.
pub proof fn law_evaluations_decode_encode_and_decode(
    config: VisionRacConfig,
    inputs: RacEvalInputs,
    plan: RacEvalPlan,
)
    requires
        is_rac_eval_plan(config, inputs, plan),
        config.sample_steps < usize::MAX,
    ensures
        !plan.decode.reverse && plan.encode.reverse && !plan.decode_again.reverse,
        plan.grid_points >= 2,
        config.sample_steps >= 1 ==> plan.grid_points == config.sample_steps + 1,
        plan.random_grid <==> config.random_time_grid && config.sample_steps >= 2,
        plan.latent is Pooled <==> config.teacher.kind is PooledImage,
        plan.latent matches LatentSource::Pooled { height, width } ==> {
            let downsample = config.teacher.latent_downsample as int;
            &&& height == latent_extent_of(inputs.image_height as int, downsample) as usize
            &&& width == latent_extent_of(inputs.image_width as int, downsample) as usize
        },
        plan.probe_loss <==> !config.probe_weight.is_nan() && config.probe_weight.rank() > 0,
        plan.artifacts matches Some(request) ==> {
            &&& request.max_images == config.artifact_max_images
            &&& request.upscale >= 1 && (config.artifact_upscale >= 1 ==> request.upscale
                == config.artifact_upscale)
            &&& config.memory.detach_each_step ==> request.flow_backprop_steps == Some(1usize)
            &&& !config.memory.detach_each_step ==> request.flow_backprop_steps
                == config.memory.flow_backprop_steps
        },
{
}

} // verus!
