//! Training runs: which settings are refused, and what a run does in which order.
//!
//! A run alternates work on files and devices with decisions. The work is named by a
//! [`TrainAction`]; whoever performs it reports back with a [`TrainEvent`].

use crate::distill_runtime::RunSettingsError;
use crate::numeric::{sat_mul, saturated};
use crate::reconstruction::recon_patch_dim;
use crate::rollout::{at_least_one, max_one, VisionRollout};
use crate::scalar::Single;
use crate::text::texts;
use vstd::prelude::*;

verus! {

/// The seed of every backend that trains or evaluates.
pub const TRAINING_SEED: u64 = 1337;

/// The weight and the masked share of a reconstruction loss.
#[derive(Clone, Copy, Debug, PartialEq, Eq, Structural)]
pub struct VisionReconLossConfig {
    pub weight: Single,
    pub mask_ratio: Single,
}

/// The settings of a joint embedding loss.
#[derive(Clone, Copy, Debug, PartialEq, Eq, Structural)]
pub struct VisionLejepaLossConfig {
    pub enabled: bool,
    pub lambda: Single,
    pub sigreg_knots: usize,
    pub sigreg_t_max: Single,
    pub sigreg_proj_dim: usize,
}

/// How the views of one image have to overlap.
#[derive(Clone, Copy, Debug, PartialEq, Eq, Structural)]
pub struct VisionCrossViewConfig {
    pub enabled: bool,
    pub min_overlap: Single,
    pub max_attempts: usize,
}

/// When and how much a run draws.
#[derive(Clone, Copy, Debug, PartialEq, Eq, Structural)]
pub struct ArtifactSettings {
    pub every: usize,
    pub overwrite: bool,
    pub max_images: usize,
    pub fps: usize,
}

/// The settings of joint embedding.
#[derive(Clone, Copy, Debug, PartialEq, Eq, Structural)]
pub struct VisionLejepaConfig {
    pub views: usize,
    pub global_views: usize,
    pub local_views: usize,
    pub local_image_size: usize,
    pub min_view_overlap: Single,
    pub view_overlap_attempts: usize,
    pub recon: VisionReconLossConfig,
    pub lejepa: VisionLejepaLossConfig,
    pub artifacts: ArtifactSettings,
}

/// The settings of masked reconstruction.
#[derive(Clone, Copy, Debug, PartialEq, Eq, Structural)]
pub struct VisionMaeConfig {
    pub pyramid_levels: usize,
    pub recon: VisionReconLossConfig,
    pub cross_view: VisionCrossViewConfig,
    pub artifacts: ArtifactSettings,
}

/// Which samples count as hard ones.
#[derive(Clone, Copy, Debug, PartialEq, Eq, Structural)]
pub enum GdpoHardGate {
    Off,
    Fixed { threshold: Single },
    Percentile { quantile: Single },
}

/// The settings of the policy gradient.
#[derive(Clone, Copy, Debug, PartialEq, Eq, Structural)]
pub struct VisionGdpoConfig {
    pub enabled: bool,
    pub group_size: usize,
    pub hard_weight: Single,
    pub easy_weight: Single,
    pub policy_weight: Single,
    pub policy_clip_range: Single,
    pub advantage_clip: Single,
    pub advantage_ema_decay: Single,
    pub hard_gate: GdpoHardGate,
}

/// The settings of saccades.
#[derive(Clone, Copy, Debug, PartialEq, Eq, Structural)]
pub struct VisionSaccadeConfig {
    /// Zero stands for the number of eyes of the vision model.
    pub num_eyes: usize,
    pub mip_levels: usize,
    pub inner_steps: usize,
    pub recon: VisionReconLossConfig,
    pub lejepa: VisionLejepaLossConfig,
    pub info_reward_stride: usize,
    pub quantize_bins: usize,
    pub action_noise_std: Single,
    pub gdpo: VisionGdpoConfig,
    pub cross_view: VisionCrossViewConfig,
    pub artifacts: ArtifactSettings,
}

/// What a run trains.
#[derive(Clone, Copy, Debug, PartialEq, Eq, Structural)]
pub enum VisionTrainingModeConfig {
    Distill,
    Lejepa(VisionLejepaConfig),
    Mae(VisionMaeConfig),
    Rac,
    Saccade(VisionSaccadeConfig),
    VideoLejepa { vjepa21: bool },
}

/// The settings that decide what a run does.
#[derive(Clone, Copy, Debug, PartialEq, Eq, Structural)]
pub struct VisionTrainingConfig {
    pub batch_size: usize,
    pub gradient_accumulation_steps: usize,
    pub log_frequency: usize,
    pub image_size: usize,
    pub patch_size: usize,
    pub in_channels: usize,
    pub num_eyes: usize,
    pub augment_image_size: usize,
    pub mode: VisionTrainingModeConfig,
}

/// Which family a refused setting belongs to.
#[derive(Clone, Copy, Debug, PartialEq, Eq, Structural)]
pub enum SettingsFamily {
    Lejepa,
    Mae,
    Saccade,
}

/// Why the settings of a training mode are refused.
#[derive(Clone, Copy, Debug, PartialEq, Eq, Structural)]
pub enum ModeSettingsError {
    LocalImageSizeZero,
    LocalImageSizeNotDivisible { local_image_size: usize, patch_size: usize },
    LocalImageSizeTooLarge { local_image_size: usize, image_size: usize },
    ReconWeight { family: SettingsFamily },
    MaskRatio { family: SettingsFamily, mask_ratio: Single },
    Lambda { family: SettingsFamily, lambda: Single },
    SigregKnots { family: SettingsFamily },
    SigregTMax { family: SettingsFamily },
    SigregProjDim { family: SettingsFamily },
    PyramidLevels,
    MipLevels,
    InnerSteps,
    InfoRewardStride,
    QuantizeBins,
    GroupSize,
    ActionNoise,
    HardWeight,
    EasyWeight,
    PolicyWeight,
    PolicyClipRange,
    AdvantageClip { advantage_clip: Single },
    AdvantageEmaDecay { advantage_ema_decay: Single },
    HardGateQuantile { quantile: Single },
}

/// Whether a number lies between zero and one, both included.
pub open spec fn is_share(x: Single) -> bool {
    Single::zero().le(x) && x.le(Single::one())
}

/// The first of two faults that there is.
pub open spec fn first_fault(
    a: Option<ModeSettingsError>,
    b: Option<ModeSettingsError>,
) -> Option<ModeSettingsError> {
    match a {
        Some(_) => a,
        None => b,
    }
}

/// The first thing that is wrong with a joint embedding loss; nothing where it is off.
pub open spec fn embedding_fault(
    loss: VisionLejepaLossConfig,
    family: SettingsFamily,
) -> Option<ModeSettingsError> {
    if !loss.enabled {
        None
    } else if !is_share(loss.lambda) {
        Some(ModeSettingsError::Lambda { family, lambda: loss.lambda })
    } else if loss.sigreg_knots == 0 {
        Some(ModeSettingsError::SigregKnots { family })
    } else if loss.sigreg_t_max.le(Single::zero()) {
        Some(ModeSettingsError::SigregTMax { family })
    } else if loss.sigreg_proj_dim == 0 {
        Some(ModeSettingsError::SigregProjDim { family })
    } else {
        None
    }
}

fn check_embedding(loss: &VisionLejepaLossConfig, family: SettingsFamily) -> (result: Result<
    (),
    ModeSettingsError,
>)
    ensures
        match result {
            Ok(_) => embedding_fault(*loss, family) is None,
            Err(e) => embedding_fault(*loss, family) == Some(e),
        },
{
    if !loss.enabled {
        return Ok(());
    }
    if !loss.lambda.in_unit_interval() {
        return Err(ModeSettingsError::Lambda { family, lambda: loss.lambda });
    }
    if loss.sigreg_knots == 0 {
        return Err(ModeSettingsError::SigregKnots { family });
    }
    if loss.sigreg_t_max.is_at_most_zero() {
        return Err(ModeSettingsError::SigregTMax { family });
    }
    if loss.sigreg_proj_dim == 0 {
        return Err(ModeSettingsError::SigregProjDim { family });
    }
    Ok(())
}

/// How many views of each kind joint embedding uses. Once either crop count is set there is at least
/// one global crop; otherwise there are only the plain views.
pub open spec fn lejepa_views(lejepa: VisionLejepaConfig) -> (int, int) {
    if lejepa.global_views > 0 || lejepa.local_views > 0 {
        (at_least_one(lejepa.global_views as int), lejepa.local_views as int)
    } else {
        (at_least_one(lejepa.views as int), 0)
    }
}

/// The first thing that is wrong with the size of the local crops; nothing where there are none.
pub open spec fn local_size_fault(
    lejepa: VisionLejepaConfig,
    image_size: usize,
    patch_size: usize,
) -> Option<ModeSettingsError> {
    let size = lejepa.local_image_size;
    if lejepa_views(lejepa).1 == 0 {
        None
    } else if size == 0 {
        Some(ModeSettingsError::LocalImageSizeZero)
    } else if size as int % patch_size as int != 0 {
        Some(ModeSettingsError::LocalImageSizeNotDivisible { local_image_size: size, patch_size })
    } else if size > image_size {
        Some(ModeSettingsError::LocalImageSizeTooLarge { local_image_size: size, image_size })
    } else {
        None
    }
}

/// The first thing that is wrong with the settings of joint embedding.
pub open spec fn lejepa_fault(
    lejepa: VisionLejepaConfig,
    image_size: usize,
    patch_size: usize,
) -> Option<ModeSettingsError> {
    let family = SettingsFamily::Lejepa;
    first_fault(
        local_size_fault(lejepa, image_size, patch_size),
        if lejepa.recon.weight.lt(Single::zero()) {
            Some(ModeSettingsError::ReconWeight { family })
        } else if !is_share(lejepa.recon.mask_ratio) {
            Some(ModeSettingsError::MaskRatio { family, mask_ratio: lejepa.recon.mask_ratio })
        } else {
            embedding_fault(lejepa.lejepa, family)
        },
    )
}

/// The first thing that is wrong with a reconstruction loss that is checked share first.
pub open spec fn recon_fault(
    recon: VisionReconLossConfig,
    family: SettingsFamily,
) -> Option<ModeSettingsError> {
    if !is_share(recon.mask_ratio) {
        Some(ModeSettingsError::MaskRatio { family, mask_ratio: recon.mask_ratio })
    } else if recon.weight.lt(Single::zero()) {
        Some(ModeSettingsError::ReconWeight { family })
    } else {
        None
    }
}

/// The first thing that is wrong with the settings of masked reconstruction.
pub open spec fn mae_fault(mae: VisionMaeConfig) -> Option<ModeSettingsError> {
    first_fault(
        recon_fault(mae.recon, SettingsFamily::Mae),
        if mae.pyramid_levels == 0 {
            Some(ModeSettingsError::PyramidLevels)
        } else {
            None
        },
    )
}

/// The first thing that is wrong with the policy gradient; nothing where it is off.
pub open spec fn gdpo_fault(saccade: VisionSaccadeConfig) -> Option<ModeSettingsError> {
    let gdpo = saccade.gdpo;
    if !gdpo.enabled {
        None
    } else if gdpo.group_size == 0 {
        Some(ModeSettingsError::GroupSize)
    } else if saccade.action_noise_std.le(Single::zero()) {
        Some(ModeSettingsError::ActionNoise)
    } else if gdpo.hard_weight.lt(Single::zero()) {
        Some(ModeSettingsError::HardWeight)
    } else if gdpo.easy_weight.lt(Single::zero()) {
        Some(ModeSettingsError::EasyWeight)
    } else if gdpo.policy_weight.lt(Single::zero()) {
        Some(ModeSettingsError::PolicyWeight)
    } else if gdpo.policy_clip_range.lt(Single::zero()) {
        Some(ModeSettingsError::PolicyClipRange)
    } else if gdpo.advantage_clip.lt(Single::zero()) {
        Some(ModeSettingsError::AdvantageClip { advantage_clip: gdpo.advantage_clip })
    } else if !(Single::zero().le(gdpo.advantage_ema_decay) && gdpo.advantage_ema_decay.lt(
        Single::one(),
    )) {
        Some(
            ModeSettingsError::AdvantageEmaDecay { advantage_ema_decay: gdpo.advantage_ema_decay },
        )
    } else {
        match gdpo.hard_gate {
            GdpoHardGate::Percentile { quantile } => if is_share(quantile) {
                None
            } else {
                Some(ModeSettingsError::HardGateQuantile { quantile })
            },
            _ => None,
        }
    }
}

/// The first thing that is wrong with the settings of saccades.
pub open spec fn saccade_fault(saccade: VisionSaccadeConfig) -> Option<ModeSettingsError> {
    let family = SettingsFamily::Saccade;
    let steps = if saccade.mip_levels == 0 {
        Some(ModeSettingsError::MipLevels)
    } else if saccade.inner_steps == 0 {
        Some(ModeSettingsError::InnerSteps)
    } else {
        None
    };
    let losses = first_fault(
        recon_fault(saccade.recon, family),
        embedding_fault(saccade.lejepa, family),
    );
    let policy = if saccade.info_reward_stride == 0 {
        Some(ModeSettingsError::InfoRewardStride)
    } else if saccade.quantize_bins < 2 {
        Some(ModeSettingsError::QuantizeBins)
    } else {
        gdpo_fault(saccade)
    };
    first_fault(steps, first_fault(losses, policy))
}

fn check_recon(recon: &VisionReconLossConfig, family: SettingsFamily) -> (result: Result<
    (),
    ModeSettingsError,
>)
    ensures
        match result {
            Ok(_) => recon_fault(*recon, family) is None,
            Err(e) => recon_fault(*recon, family) == Some(e),
        },
{
    if !recon.mask_ratio.in_unit_interval() {
        return Err(ModeSettingsError::MaskRatio { family, mask_ratio: recon.mask_ratio });
    }
    if recon.weight.is_negative() {
        return Err(ModeSettingsError::ReconWeight { family });
    }
    Ok(())
}

fn check_gdpo(saccade: &VisionSaccadeConfig) -> (result: Result<(), ModeSettingsError>)
    ensures
        match result {
            Ok(_) => gdpo_fault(*saccade) is None,
            Err(e) => gdpo_fault(*saccade) == Some(e),
        },
{
    let gdpo = saccade.gdpo;
    if !gdpo.enabled {
        return Ok(());
    }
    if gdpo.group_size == 0 {
        return Err(ModeSettingsError::GroupSize);
    }
    if saccade.action_noise_std.is_at_most_zero() {
        return Err(ModeSettingsError::ActionNoise);
    }
    if gdpo.hard_weight.is_negative() {
        return Err(ModeSettingsError::HardWeight);
    }
    if gdpo.easy_weight.is_negative() {
        return Err(ModeSettingsError::EasyWeight);
    }
    if gdpo.policy_weight.is_negative() {
        return Err(ModeSettingsError::PolicyWeight);
    }
    if gdpo.policy_clip_range.is_negative() {
        return Err(ModeSettingsError::PolicyClipRange);
    }
    if gdpo.advantage_clip.is_negative() {
        return Err(ModeSettingsError::AdvantageClip { advantage_clip: gdpo.advantage_clip });
    }
    if !gdpo.advantage_ema_decay.below_one() {
        return Err(
            ModeSettingsError::AdvantageEmaDecay { advantage_ema_decay: gdpo.advantage_ema_decay },
        );
    }
    match gdpo.hard_gate {
        GdpoHardGate::Percentile { quantile } => if quantile.in_unit_interval() {
            Ok(())
        } else {
            Err(ModeSettingsError::HardGateQuantile { quantile })
        },
        _ => Ok(()),
    }
}

/// The images that a run loads.
#[derive(Clone, Copy, Debug, PartialEq, Eq, Structural)]
pub struct DatasetPlan {
    pub views: usize,
    pub local_views: usize,
    /// The size of the local crops, which are also resized to it; none where there are none.
    pub local_image_size: Option<usize>,
    pub min_view_overlap: Single,
    pub view_overlap_attempts: usize,
}

/// The plan of a dataset whose views are the eyes of a model.
pub open spec fn eye_dataset(cross_view: VisionCrossViewConfig, num_eyes: int) -> DatasetPlan {
    DatasetPlan {
        views: if cross_view.enabled {
            at_least_one(num_eyes) as usize
        } else {
            1
        },
        local_views: 0,
        local_image_size: None,
        min_view_overlap: if cross_view.enabled {
            cross_view.min_overlap.clamped_at_zero()
        } else {
            Single::zero()
        },
        view_overlap_attempts: if cross_view.enabled {
            at_least_one(cross_view.max_attempts as int) as usize
        } else {
            1
        },
    }
}

fn plan_eye_dataset(cross_view: &VisionCrossViewConfig, num_eyes: usize) -> (plan: DatasetPlan)
    ensures
        plan == eye_dataset(*cross_view, num_eyes as int),
{
    if cross_view.enabled {
        DatasetPlan {
            views: max_one(num_eyes),
            local_views: 0,
            local_image_size: None,
            min_view_overlap: cross_view.min_overlap.or_zero(),
            view_overlap_attempts: max_one(cross_view.max_attempts),
        }
    } else {
        DatasetPlan {
            views: 1,
            local_views: 0,
            local_image_size: None,
            min_view_overlap: Single { bits: 0 },
            view_overlap_attempts: 1,
        }
    }
}

/// Plans the data of joint embedding, or refuses its settings.
pub fn plan_lejepa_dataset(
    lejepa: &VisionLejepaConfig,
    image_size: usize,
    patch_size: usize,
) -> (result: Result<DatasetPlan, ModeSettingsError>)
    requires
        patch_size > 0,
    ensures
        match result {
            Ok(plan) => {
                &&& lejepa_fault(*lejepa, image_size, patch_size) is None
                &&& (plan.views as int, plan.local_views as int) == lejepa_views(*lejepa)
                &&& plan.local_image_size == (if plan.local_views > 0 {
                    Some(lejepa.local_image_size)
                } else {
                    None
                })
                &&& plan.min_view_overlap == lejepa.min_view_overlap
                &&& plan.view_overlap_attempts == lejepa.view_overlap_attempts
            },
            Err(e) => lejepa_fault(*lejepa, image_size, patch_size) == Some(e),
        },
{
    let multi_crop: bool = lejepa.global_views > 0 || lejepa.local_views > 0;
    let views: usize = if multi_crop {
        max_one(lejepa.global_views)
    } else {
        max_one(lejepa.views)
    };
    let local_views: usize = if multi_crop {
        lejepa.local_views
    } else {
        0
    };
    if local_views > 0 {
        if lejepa.local_image_size == 0 {
            return Err(ModeSettingsError::LocalImageSizeZero);
        }
        if lejepa.local_image_size % patch_size != 0 {
            return Err(
                ModeSettingsError::LocalImageSizeNotDivisible {
                    local_image_size: lejepa.local_image_size,
                    patch_size,
                },
            );
        }
        if lejepa.local_image_size > image_size {
            return Err(
                ModeSettingsError::LocalImageSizeTooLarge {
                    local_image_size: lejepa.local_image_size,
                    image_size,
                },
            );
        }
    }
    if lejepa.recon.weight.is_negative() {
        return Err(ModeSettingsError::ReconWeight { family: SettingsFamily::Lejepa });
    }
    if !lejepa.recon.mask_ratio.in_unit_interval() {
        return Err(
            ModeSettingsError::MaskRatio {
                family: SettingsFamily::Lejepa,
                mask_ratio: lejepa.recon.mask_ratio,
            },
        );
    }
    match check_embedding(&lejepa.lejepa, SettingsFamily::Lejepa) {
        Err(e) => Err(e),
        Ok(_) => Ok(
            DatasetPlan {
                views,
                local_views,
                local_image_size: if local_views > 0 {
                    Some(lejepa.local_image_size)
                } else {
                    None
                },
                min_view_overlap: lejepa.min_view_overlap,
                view_overlap_attempts: lejepa.view_overlap_attempts,
            },
        ),
    }
}

/// Plans the data of masked reconstruction, or refuses its settings.
pub fn plan_mae_dataset(mae: &VisionMaeConfig, num_eyes: usize) -> (result: Result<
    DatasetPlan,
    ModeSettingsError,
>)
    ensures
        match result {
            Ok(plan) => mae_fault(*mae) is None && plan == eye_dataset(
                mae.cross_view,
                num_eyes as int,
            ),
            Err(e) => mae_fault(*mae) == Some(e),
        },
{
    match check_recon(&mae.recon, SettingsFamily::Mae) {
        Err(e) => Err(e),
        Ok(_) => if mae.pyramid_levels == 0 {
            Err(ModeSettingsError::PyramidLevels)
        } else {
            Ok(plan_eye_dataset(&mae.cross_view, num_eyes))
        },
    }
}

/// How many eyes a saccade run has: its own number, else that of the vision model.
pub open spec fn saccade_eyes_of(saccade: VisionSaccadeConfig, num_eyes: int) -> int {
    if saccade.num_eyes == 0 {
        at_least_one(num_eyes)
    } else {
        saccade.num_eyes as int
    }
}

/// How many eyes a saccade run has.
pub fn saccade_eyes(saccade: &VisionSaccadeConfig, num_eyes: usize) -> (eyes: usize)
    ensures
        eyes == saccade_eyes_of(*saccade, num_eyes as int),
        eyes > 0,
{
    if saccade.num_eyes == 0 {
        max_one(num_eyes)
    } else {
        saccade.num_eyes
    }
}

/// Plans the data of saccades, or refuses their settings.
pub fn plan_saccade_dataset(saccade: &VisionSaccadeConfig, num_eyes: usize) -> (result: Result<
    DatasetPlan,
    ModeSettingsError,
>)
    ensures
        match result {
            Ok(plan) => saccade_fault(*saccade) is None && plan == eye_dataset(
                saccade.cross_view,
                saccade_eyes_of(*saccade, num_eyes as int),
            ),
            Err(e) => saccade_fault(*saccade) == Some(e),
        },
{
    if saccade.mip_levels == 0 {
        return Err(ModeSettingsError::MipLevels);
    }
    if saccade.inner_steps == 0 {
        return Err(ModeSettingsError::InnerSteps);
    }
    if let Err(e) = check_recon(&saccade.recon, SettingsFamily::Saccade) {
        return Err(e);
    }
    if let Err(e) = check_embedding(&saccade.lejepa, SettingsFamily::Saccade) {
        return Err(e);
    }
    if saccade.info_reward_stride == 0 {
        return Err(ModeSettingsError::InfoRewardStride);
    }
    if saccade.quantize_bins < 2 {
        return Err(ModeSettingsError::QuantizeBins);
    }
    if let Err(e) = check_gdpo(saccade) {
        return Err(e);
    }
    let eyes: usize = saccade_eyes(saccade, num_eyes);
    Ok(plan_eye_dataset(&saccade.cross_view, eyes))
}

/// What a trained model reports while it trains.
#[derive(Clone, Copy, Debug, PartialEq, Eq, Structural)]
pub struct VisionDiagnostics {
    pub distill: bool,
    pub distill_rollout: bool,
    pub inv: bool,
    pub sigreg: bool,
    pub recon: bool,
    pub policy: bool,
    pub probe: bool,
    pub artifacts: ArtifactSettings,
}

/// Which model the generic image trainer fits.
#[derive(Clone, Copy, Debug, PartialEq, Eq, Structural)]
pub enum TrainedModel {
    Distill,
    Lejepa,
    Mae,
    Saccade,
}

impl TrainedModel {
    /// What the names of the model's metrics begin with.
    pub open spec fn prefix(self) -> Seq<char> {
        match self {
            TrainedModel::Distill => "distill"@,
            TrainedModel::Lejepa => "lejepa"@,
            TrainedModel::Mae => "mae"@,
            TrainedModel::Saccade => "saccade"@,
        }
    }

    /// What the names of the model's metrics begin with.
    pub fn metric_prefix(self) -> (prefix: &'static str)
        ensures
            prefix@ == self.prefix(),
    {
        match self {
            TrainedModel::Distill => "distill",
            TrainedModel::Lejepa => "lejepa",
            TrainedModel::Mae => "mae",
            TrainedModel::Saccade => "saccade",
        }
    }
}

/// The model of a mode that the generic image trainer fits.
pub open spec fn model_of(mode: VisionTrainingModeConfig) -> Option<TrainedModel> {
    match mode {
        VisionTrainingModeConfig::Distill => Some(TrainedModel::Distill),
        VisionTrainingModeConfig::Lejepa(_) => Some(TrainedModel::Lejepa),
        VisionTrainingModeConfig::Mae(_) => Some(TrainedModel::Mae),
        VisionTrainingModeConfig::Saccade(_) => Some(TrainedModel::Saccade),
        VisionTrainingModeConfig::Rac => None,
        VisionTrainingModeConfig::VideoLejepa { .. } => None,
    }
}

/// What a model reports: each loss that is on, and drawings as configured. Distillation draws
/// nothing.
pub open spec fn diagnostics_of(mode: VisionTrainingModeConfig) -> VisionDiagnostics {
    let distill = mode is Distill;
    let embedding = match mode {
        VisionTrainingModeConfig::Lejepa(c) => c.lejepa.enabled,
        VisionTrainingModeConfig::Saccade(c) => c.lejepa.enabled,
        _ => false,
    };
    VisionDiagnostics {
        distill,
        distill_rollout: distill,
        inv: embedding,
        sigreg: embedding,
        recon: match mode {
            VisionTrainingModeConfig::Lejepa(c) => Single::zero().lt(c.recon.weight),
            VisionTrainingModeConfig::Mae(c) => Single::zero().lt(c.recon.weight),
            VisionTrainingModeConfig::Saccade(c) => Single::zero().lt(c.recon.weight),
            _ => false,
        },
        policy: match mode {
            VisionTrainingModeConfig::Saccade(c) => c.gdpo.enabled,
            _ => false,
        },
        probe: mode is Lejepa,
        artifacts: match mode {
            VisionTrainingModeConfig::Lejepa(c) => c.artifacts,
            VisionTrainingModeConfig::Mae(c) => c.artifacts,
            VisionTrainingModeConfig::Saccade(c) => c.artifacts,
            _ => ArtifactSettings { every: 0, overwrite: false, max_images: 0, fps: 1 },
        },
    }
}

/// What the model of a mode reports.
pub fn plan_diagnostics(mode: &VisionTrainingModeConfig) -> (diagnostics: VisionDiagnostics)
    ensures
        diagnostics == diagnostics_of(*mode),
{
    let silent = ArtifactSettings { every: 0, overwrite: false, max_images: 0, fps: 1 };
    let mut diagnostics = VisionDiagnostics {
        distill: false,
        distill_rollout: false,
        inv: false,
        sigreg: false,
        recon: false,
        policy: false,
        probe: false,
        artifacts: silent,
    };
    match mode {
        VisionTrainingModeConfig::Distill => {
            diagnostics.distill = true;
            diagnostics.distill_rollout = true;
        },
        VisionTrainingModeConfig::Lejepa(c) => {
            diagnostics.inv = c.lejepa.enabled;
            diagnostics.sigreg = c.lejepa.enabled;
            diagnostics.recon = c.recon.weight.is_positive();
            diagnostics.probe = true;
            diagnostics.artifacts = c.artifacts;
        },
        VisionTrainingModeConfig::Mae(c) => {
            diagnostics.recon = c.recon.weight.is_positive();
            diagnostics.artifacts = c.artifacts;
        },
        VisionTrainingModeConfig::Saccade(c) => {
            diagnostics.inv = c.lejepa.enabled;
            diagnostics.sigreg = c.lejepa.enabled;
            diagnostics.recon = c.recon.weight.is_positive();
            diagnostics.policy = c.gdpo.enabled;
            diagnostics.artifacts = c.artifacts;
        },
        _ => {},
    }
    diagnostics
}

/// How long a run lasts.
#[derive(Clone, Copy, Debug, PartialEq, Eq, Structural)]
pub enum ScheduleSource {
    Epochs,
    MaxIters,
}

/// The schedule of a run.
#[derive(Clone, Copy, Debug, PartialEq, Eq, Structural)]
pub struct TrainSchedule {
    pub steps_per_epoch: usize,
    pub total_epochs: usize,
    pub total_steps: usize,
    pub source: ScheduleSource,
}

/// Over how many steps the learning rate is scheduled, where the run itself fixes that: only where
/// its length was given in epochs.
pub fn scheduler_iters(schedule: &TrainSchedule) -> (iters: Option<usize>)
    ensures
        iters == (match schedule.source {
            ScheduleSource::Epochs => Some(schedule.total_steps),
            ScheduleSource::MaxIters => None,
        }),
{
    match schedule.source {
        ScheduleSource::Epochs => Some(schedule.total_steps),
        ScheduleSource::MaxIters => None,
    }
}

/// A run directory that was chosen ahead of the run.
#[derive(Debug)]
pub struct PlannedRunArtifacts {
    pub run_dir: String,
    pub run_name: String,
}

/// Why a run ended without training to its end.
#[derive(Clone, Copy, Debug, PartialEq, Eq, Structural)]
pub enum TrainRefusal {
    Run(RunSettingsError),
    Mode(ModeSettingsError),
    /// The last action could not be performed.
    Failed,
}

/// What the run waits for.
#[derive(Clone, Copy, Debug, PartialEq, Eq, Structural)]
pub enum TrainPhase {
    Backend,
    Rollout,
    Download { rollout: VisionRollout },
    Datasets { rollout: VisionRollout },
    Schedule { rollout: VisionRollout, valid_records_steps: usize },
    ValidSteps { rollout: VisionRollout, schedule: TrainSchedule },
    LearningRate { rollout: VisionRollout, schedule: TrainSchedule, valid_steps: usize },
    RunPlan { rollout: VisionRollout, schedule: TrainSchedule, valid_steps: usize },
    Activation { rollout: VisionRollout, schedule: TrainSchedule, valid_steps: usize },
    Training,
    Ended,
}

/// What is to be done next.
#[derive(Clone, Copy, Debug, PartialEq, Eq, Structural)]
pub enum TrainAction {
    /// Seed the backend and start it.
    StartBackend { seed: u64 },
    /// Resolve the rollout from the training settings and the steps of the model.
    ResolveRollout,
    /// Download the dataset, where it is wanted and missing.
    DownloadDataset,
    TrainRac,
    TrainVideoVjepa21,
    TrainVideoLejepa { rollout: VisionRollout },
    /// Load the images and teachers of distillation.
    LoadDistillDatasets,
    /// Load the images of both splits.
    LoadDatasets(DatasetPlan),
    ResolveSchedule { steps_per_epoch: usize },
    ResolveValidSteps { total_steps: usize, log_frequency: usize, valid_steps_per_epoch: usize },
    ResolveLearningRate { total_steps: usize, iters: Option<usize> },
    /// Choose a run directory under the root of vision runs.
    PlanRun,
    /// Create the run directory and write the settings there.
    ActivateRun,
    Fit(FitPlan),
    Complete,
    Refuse(TrainRefusal),
    /// The event came out of turn: nothing is to be done.
    Nothing,
}

/// How the model is fitted.
#[derive(Clone, Copy, Debug, PartialEq, Eq, Structural)]
pub struct FitPlan {
    pub model: TrainedModel,
    pub rollout: VisionRollout,
    pub epochs: usize,
    /// The batches of an epoch, and those of the whole run.
    pub train_steps_per_epoch: usize,
    pub train_total_steps: usize,
    /// The batches of a validation; there is no limit on their total.
    pub valid_steps_per_epoch: usize,
    pub effective_batch_size: usize,
    pub recon_patch_dim: usize,
    pub diagnostics: VisionDiagnostics,
}

/// What became of the last action.
#[derive(Clone, Copy, Debug, PartialEq, Eq, Structural)]
pub enum TrainEvent {
    BackendStarted,
    RolloutResolved(VisionRollout),
    DatasetReady,
    /// The datasets are open: the steps of an epoch over either split.
    DatasetsLoaded { train_steps: usize, valid_steps: usize },
    ScheduleResolved(TrainSchedule),
    ValidStepsResolved(usize),
    LearningRateResolved,
    RunPlanned,
    RunActivated,
    Trained,
    Failed,
}

/// The first thing that is wrong with the settings of any run.
pub open spec fn run_fault(config: VisionTrainingConfig) -> Option<RunSettingsError> {
    if config.batch_size == 0 {
        Some(RunSettingsError::ZeroBatchSize)
    } else if config.patch_size == 0 {
        Some(RunSettingsError::ZeroPatchSize)
    } else if config.augment_image_size != config.image_size {
        Some(
            RunSettingsError::ImageSize {
                augment: config.augment_image_size,
                vision: config.image_size,
            },
        )
    } else {
        None
    }
}

/// The first thing that is wrong with the settings of the mode; the generic trainer alone has any.
pub open spec fn mode_fault(config: VisionTrainingConfig) -> Option<ModeSettingsError> {
    match config.mode {
        VisionTrainingModeConfig::Lejepa(c) => lejepa_fault(
            c,
            config.image_size,
            config.patch_size,
        ),
        VisionTrainingModeConfig::Mae(c) => mae_fault(c),
        VisionTrainingModeConfig::Saccade(c) => saccade_fault(c),
        _ => None,
    }
}

/// The images that a mode with valid settings loads.
pub open spec fn dataset_of(config: VisionTrainingConfig) -> DatasetPlan {
    match config.mode {
        VisionTrainingModeConfig::Lejepa(c) => DatasetPlan {
            views: lejepa_views(c).0 as usize,
            local_views: lejepa_views(c).1 as usize,
            local_image_size: if lejepa_views(c).1 > 0 {
                Some(c.local_image_size)
            } else {
                None
            },
            min_view_overlap: c.min_view_overlap,
            view_overlap_attempts: c.view_overlap_attempts,
        },
        VisionTrainingModeConfig::Mae(c) => eye_dataset(c.cross_view, config.num_eyes as int),
        VisionTrainingModeConfig::Saccade(c) => eye_dataset(
            c.cross_view,
            saccade_eyes_of(c, config.num_eyes as int),
        ),
        _ => arbitrary(),
    }
}

/// What follows once the dataset is there: a trainer of its own for some modes, the datasets of the
/// generic trainer for the others.
pub open spec fn dispatch_of(config: VisionTrainingConfig, rollout: VisionRollout) -> (
    TrainPhase,
    TrainAction,
) {
    match config.mode {
        VisionTrainingModeConfig::Rac => (TrainPhase::Training, TrainAction::TrainRac),
        VisionTrainingModeConfig::VideoLejepa { vjepa21 } => (
            TrainPhase::Training,
            if vjepa21 {
                TrainAction::TrainVideoVjepa21
            } else {
                TrainAction::TrainVideoLejepa { rollout }
            },
        ),
        VisionTrainingModeConfig::Distill => (
            TrainPhase::Datasets { rollout },
            TrainAction::LoadDistillDatasets,
        ),
        _ => match mode_fault(config) {
            Some(fault) => (TrainPhase::Ended, TrainAction::Refuse(TrainRefusal::Mode(fault))),
            None => (
                TrainPhase::Datasets { rollout },
                TrainAction::LoadDatasets(dataset_of(config)),
            ),
        },
    }
}

/// How the model of a run is fitted.
pub open spec fn fit_of(
    config: VisionTrainingConfig,
    rollout: VisionRollout,
    schedule: TrainSchedule,
    valid_steps: usize,
) -> FitPlan {
    FitPlan {
        model: model_of(config.mode)->0,
        rollout,
        epochs: schedule.total_epochs,
        train_steps_per_epoch: schedule.steps_per_epoch,
        train_total_steps: schedule.total_steps,
        valid_steps_per_epoch: valid_steps,
        effective_batch_size: saturated(
            config.batch_size * at_least_one(config.gradient_accumulation_steps as int),
        ) as usize,
        recon_patch_dim: saturated(
            saturated(config.patch_size * config.patch_size) * config.in_channels,
        ) as usize,
        diagnostics: diagnostics_of(config.mode),
    }
}

/// What follows an event: the next phase and the next action. `planned` says that the run directory
/// was chosen ahead of the run.
pub open spec fn step_of(
    config: VisionTrainingConfig,
    planned: bool,
    phase: TrainPhase,
    event: TrainEvent,
) -> (TrainPhase, TrainAction) {
    match (phase, event) {
        (TrainPhase::Ended, _) => (phase, TrainAction::Nothing),
        (_, TrainEvent::Failed) => (TrainPhase::Ended, TrainAction::Refuse(TrainRefusal::Failed)),
        (TrainPhase::Backend, TrainEvent::BackendStarted) => match run_fault(config) {
            Some(fault) => (TrainPhase::Ended, TrainAction::Refuse(TrainRefusal::Run(fault))),
            None => (TrainPhase::Rollout, TrainAction::ResolveRollout),
        },
        (TrainPhase::Rollout, TrainEvent::RolloutResolved(rollout)) => (
            TrainPhase::Download { rollout },
            TrainAction::DownloadDataset,
        ),
        (TrainPhase::Download { rollout }, TrainEvent::DatasetReady) => dispatch_of(config, rollout),
        (
            TrainPhase::Datasets { rollout },
            TrainEvent::DatasetsLoaded { train_steps, valid_steps },
        ) => (
            TrainPhase::Schedule { rollout, valid_records_steps: valid_steps },
            TrainAction::ResolveSchedule { steps_per_epoch: train_steps },
        ),
        (
            TrainPhase::Schedule { rollout, valid_records_steps },
            TrainEvent::ScheduleResolved(schedule),
        ) => (
            TrainPhase::ValidSteps { rollout, schedule },
            TrainAction::ResolveValidSteps {
                total_steps: schedule.total_steps,
                log_frequency: config.log_frequency,
                valid_steps_per_epoch: valid_records_steps,
            },
        ),
        (
            TrainPhase::ValidSteps { rollout, schedule },
            TrainEvent::ValidStepsResolved(valid_steps),
        ) => (
            TrainPhase::LearningRate { rollout, schedule, valid_steps },
            TrainAction::ResolveLearningRate {
                total_steps: schedule.total_steps,
                iters: match schedule.source {
                    ScheduleSource::Epochs => Some(schedule.total_steps),
                    ScheduleSource::MaxIters => None,
                },
            },
        ),
        (
            TrainPhase::LearningRate { rollout, schedule, valid_steps },
            TrainEvent::LearningRateResolved,
        ) => if planned {
            (
                TrainPhase::Activation { rollout, schedule, valid_steps },
                TrainAction::ActivateRun,
            )
        } else {
            (TrainPhase::RunPlan { rollout, schedule, valid_steps }, TrainAction::PlanRun)
        },
        (TrainPhase::RunPlan { rollout, schedule, valid_steps }, TrainEvent::RunPlanned) => (
            TrainPhase::Activation { rollout, schedule, valid_steps },
            TrainAction::ActivateRun,
        ),
        (TrainPhase::Activation { rollout, schedule, valid_steps }, TrainEvent::RunActivated) => (
            TrainPhase::Training,
            TrainAction::Fit(fit_of(config, rollout, schedule, valid_steps)),
        ),
        (TrainPhase::Training, TrainEvent::Trained) => (TrainPhase::Ended, TrainAction::Complete),
        _ => (phase, TrainAction::Nothing),
    }
}

/// A training run in progress.
#[derive(Debug)]
pub struct TrainSession {
    pub config: VisionTrainingConfig,
    pub config_paths: Vec<String>,
    pub planned_run: Option<PlannedRunArtifacts>,
    pub backend_name: String,
    pub phase: TrainPhase,
}

impl TrainSession {
    /// Past the dispatch only the generic trainer goes on.
    pub open spec fn wf(self) -> bool {
        match self.phase {
            TrainPhase::Backend => true,
            TrainPhase::Rollout => run_fault(self.config) is None,
            TrainPhase::Download { .. } => run_fault(self.config) is None,
            TrainPhase::Training => true,
            TrainPhase::Ended => true,
            _ => run_fault(self.config) is None && model_of(self.config.mode) is Some && mode_fault(
                self.config,
            ) is None,
        }
    }

    /// Takes an event and says what is to be done next.
    pub fn advance(&mut self, event: TrainEvent) -> (action: TrainAction)
        requires
            old(self).wf(),
        ensures
            final(self).wf(),
            final(self).config == old(self).config,
            final(self).config_paths == old(self).config_paths,
            final(self).planned_run == old(self).planned_run,
            final(self).backend_name == old(self).backend_name,
            (final(self).phase, action) == step_of(
                old(self).config,
                old(self).planned_run is Some,
                old(self).phase,
                event,
            ),
    {
        let phase = self.phase;
        match (phase, event) {
            (TrainPhase::Ended, _) => TrainAction::Nothing,
            (_, TrainEvent::Failed) => {
                self.phase = TrainPhase::Ended;
                TrainAction::Refuse(TrainRefusal::Failed)
            },
            (TrainPhase::Backend, TrainEvent::BackendStarted) => match self.find_fault() {
                Some(fault) => {
                    self.phase = TrainPhase::Ended;
                    TrainAction::Refuse(TrainRefusal::Run(fault))
                },
                None => {
                    self.phase = TrainPhase::Rollout;
                    TrainAction::ResolveRollout
                },
            },
            (TrainPhase::Rollout, TrainEvent::RolloutResolved(rollout)) => {
                self.phase = TrainPhase::Download { rollout };
                TrainAction::DownloadDataset
            },
            (TrainPhase::Download { rollout }, TrainEvent::DatasetReady) => self.dispatch(rollout),
            (
                TrainPhase::Datasets { rollout },
                TrainEvent::DatasetsLoaded { train_steps, valid_steps },
            ) => {
                self.phase = TrainPhase::Schedule { rollout, valid_records_steps: valid_steps };
                TrainAction::ResolveSchedule { steps_per_epoch: train_steps }
            },
            (
                TrainPhase::Schedule { rollout, valid_records_steps },
                TrainEvent::ScheduleResolved(schedule),
            ) => {
                self.phase = TrainPhase::ValidSteps { rollout, schedule };
                TrainAction::ResolveValidSteps {
                    total_steps: schedule.total_steps,
                    log_frequency: self.config.log_frequency,
                    valid_steps_per_epoch: valid_records_steps,
                }
            },
            (
                TrainPhase::ValidSteps { rollout, schedule },
                TrainEvent::ValidStepsResolved(valid_steps),
            ) => {
                self.phase = TrainPhase::LearningRate { rollout, schedule, valid_steps };
                TrainAction::ResolveLearningRate {
                    total_steps: schedule.total_steps,
                    iters: scheduler_iters(&schedule),
                }
            },
            (
                TrainPhase::LearningRate { rollout, schedule, valid_steps },
                TrainEvent::LearningRateResolved,
            ) => if self.planned_run.is_some() {
                self.phase = TrainPhase::Activation { rollout, schedule, valid_steps };
                TrainAction::ActivateRun
            } else {
                self.phase = TrainPhase::RunPlan { rollout, schedule, valid_steps };
                TrainAction::PlanRun
            },
            (TrainPhase::RunPlan { rollout, schedule, valid_steps }, TrainEvent::RunPlanned) => {
                self.phase = TrainPhase::Activation { rollout, schedule, valid_steps };
                TrainAction::ActivateRun
            },
            (
                TrainPhase::Activation { rollout, schedule, valid_steps },
                TrainEvent::RunActivated,
            ) => {
                self.phase = TrainPhase::Training;
                TrainAction::Fit(self.plan_fit(rollout, &schedule, valid_steps))
            },
            (TrainPhase::Training, TrainEvent::Trained) => {
                self.phase = TrainPhase::Ended;
                TrainAction::Complete
            },
            _ => TrainAction::Nothing,
        }
    }

    fn find_fault(&self) -> (fault: Option<RunSettingsError>)
        ensures
            fault == run_fault(self.config),
    {
        let config = self.config;
        if config.batch_size == 0 {
            Some(RunSettingsError::ZeroBatchSize)
        } else if config.patch_size == 0 {
            Some(RunSettingsError::ZeroPatchSize)
        } else if config.augment_image_size != config.image_size {
            Some(
                RunSettingsError::ImageSize {
                    augment: config.augment_image_size,
                    vision: config.image_size,
                },
            )
        } else {
            None
        }
    }

    fn dispatch(&mut self, rollout: VisionRollout) -> (action: TrainAction)
        requires
            run_fault(old(self).config) is None,
        ensures
            final(self).wf(),
            final(self).config == old(self).config,
            final(self).config_paths == old(self).config_paths,
            final(self).planned_run == old(self).planned_run,
            final(self).backend_name == old(self).backend_name,
            (final(self).phase, action) == dispatch_of(old(self).config, rollout),
    {
        let config = self.config;
        let planned = match config.mode {
            VisionTrainingModeConfig::Rac => {
                self.phase = TrainPhase::Training;
                return TrainAction::TrainRac;
            },
            VisionTrainingModeConfig::VideoLejepa { vjepa21 } => {
                self.phase = TrainPhase::Training;
                return if vjepa21 {
                    TrainAction::TrainVideoVjepa21
                } else {
                    TrainAction::TrainVideoLejepa { rollout }
                };
            },
            VisionTrainingModeConfig::Distill => {
                self.phase = TrainPhase::Datasets { rollout };
                return TrainAction::LoadDistillDatasets;
            },
            VisionTrainingModeConfig::Lejepa(c) => plan_lejepa_dataset(
                &c,
                config.image_size,
                config.patch_size,
            ),
            VisionTrainingModeConfig::Mae(c) => plan_mae_dataset(&c, config.num_eyes),
            VisionTrainingModeConfig::Saccade(c) => plan_saccade_dataset(&c, config.num_eyes),
        };
        match planned {
            Ok(plan) => {
                self.phase = TrainPhase::Datasets { rollout };
                TrainAction::LoadDatasets(plan)
            },
            Err(fault) => {
                self.phase = TrainPhase::Ended;
                TrainAction::Refuse(TrainRefusal::Mode(fault))
            },
        }
    }

    fn plan_fit(
        &self,
        rollout: VisionRollout,
        schedule: &TrainSchedule,
        valid_steps: usize,
    ) -> (plan: FitPlan)
        requires
            model_of(self.config.mode) is Some,
        ensures
            plan == fit_of(self.config, rollout, *schedule, valid_steps),
    {
        let config = self.config;
        let model = match config.mode {
            VisionTrainingModeConfig::Lejepa(_) => TrainedModel::Lejepa,
            VisionTrainingModeConfig::Mae(_) => TrainedModel::Mae,
            VisionTrainingModeConfig::Saccade(_) => TrainedModel::Saccade,
            _ => TrainedModel::Distill,
        };
        FitPlan {
            model,
            rollout,
            epochs: schedule.total_epochs,
            train_steps_per_epoch: schedule.steps_per_epoch,
            train_total_steps: schedule.total_steps,
            valid_steps_per_epoch: valid_steps,
            effective_batch_size: sat_mul(
                config.batch_size,
                max_one(config.gradient_accumulation_steps),
            ),
            recon_patch_dim: recon_patch_dim(config.patch_size, config.in_channels),
            diagnostics: plan_diagnostics(&config.mode),
        }
    }
}

/// Whether a session is the start of a run.
pub open spec fn is_start_of(
    session: TrainSession,
    config: VisionTrainingConfig,
    config_paths: Seq<Seq<char>>,
    backend_name: Seq<char>,
) -> bool {
    &&& session.config == config
    &&& texts(session.config_paths@) == config_paths
    &&& session.backend_name@ == backend_name
    &&& session.phase == TrainPhase::Backend
}

/// The first action of every run: its backend is seeded and started before its settings are looked
/// at.
pub open spec fn first_action() -> TrainAction {
    TrainAction::StartBackend { seed: TRAINING_SEED }
}

fn train_vision_backend_with_context(
    config: &VisionTrainingConfig,
    config_paths: Vec<String>,
    planned_run: Option<PlannedRunArtifacts>,
    backend_name: &str,
) -> (started: (TrainSession, TrainAction))
    ensures
        started.0.wf(),
        is_start_of(started.0, *config, texts(config_paths@), backend_name@),
        started.0.planned_run == planned_run,
        started.1 == first_action(),
{
    let session = TrainSession {
        config: *config,
        config_paths,
        planned_run,
        backend_name: backend_name.to_owned(),
        phase: TrainPhase::Backend,
    };
    (session, TrainAction::StartBackend { seed: TRAINING_SEED })
}

/// Starts a run without configuration files.
pub fn train_vision_backend(config: &VisionTrainingConfig, backend_name: &str) -> (started: (
    TrainSession,
    TrainAction,
))
    ensures
        started.0.wf(),
        is_start_of(started.0, *config, Seq::empty(), backend_name@),
        started.0.planned_run is None,
        started.1 == first_action(),
{
    let paths: Vec<String> = Vec::new();
    assert(texts(paths@) =~= Seq::<Seq<char>>::empty());
    train_vision_backend_with_context(config, paths, None, backend_name)
}

/// Starts a run; the configuration files decide where run directories lie.
pub fn train_vision_backend_with_config_paths(
    config: &VisionTrainingConfig,
    config_paths: Vec<String>,
    backend_name: &str,
) -> (started: (TrainSession, TrainAction))
    ensures
        started.0.wf(),
        is_start_of(started.0, *config, texts(config_paths@), backend_name@),
        started.0.planned_run is None,
        started.1 == first_action(),
{
    train_vision_backend_with_context(config, config_paths, None, backend_name)
}

/// Starts a run in a directory that was chosen before.
pub fn train_vision_backend_with_planned_run(
    config: &VisionTrainingConfig,
    config_paths: Vec<String>,
    planned_run: PlannedRunArtifacts,
    backend_name: &str,
) -> (started: (TrainSession, TrainAction))
    ensures
        started.0.wf(),
        is_start_of(started.0, *config, texts(config_paths@), backend_name@),
        started.0.planned_run == Some(planned_run),
        started.1 == first_action(),
{
    train_vision_backend_with_context(config, config_paths, Some(planned_run), backend_name)
}

/// Starts a run as [`train_vision_backend`] does.
pub fn train_vision_backend_for_test(config: &VisionTrainingConfig, backend_name: &str) -> (started:
    (TrainSession, TrainAction))
    ensures
        started.0.wf(),
        is_start_of(started.0, *config, Seq::empty(), backend_name@),
        started.0.planned_run is None,
        started.1 == first_action(),
{
    train_vision_backend(config, backend_name)
}

/// How many actions a run in this phase can still ask for.
pub open spec fn actions_left(phase: TrainPhase) -> nat {
    match phase {
        TrainPhase::Backend => 10,
        TrainPhase::Rollout => 9,
        TrainPhase::Download { .. } => 8,
        TrainPhase::Datasets { .. } => 7,
        TrainPhase::Schedule { .. } => 6,
        TrainPhase::ValidSteps { .. } => 5,
        TrainPhase::LearningRate { .. } => 4,
        TrainPhase::RunPlan { .. } => 3,
        TrainPhase::Activation { .. } => 2,
        TrainPhase::Training => 1,
        TrainPhase::Ended => 0,
    }
}

/// Every event either comes out of turn and changes nothing, or brings the run closer to its end.
pub proof fn law_runs_end(
    config: VisionTrainingConfig,
    planned: bool,
    phase: TrainPhase,
    event: TrainEvent,
)
    ensures
        ({
            let (next, action) = step_of(config, planned, phase, event);
            if action == TrainAction::Nothing {
                next == phase
            } else {
                actions_left(next) < actions_left(phase)
            }
        }),
{
}

/// The phase after a list of events.
pub open spec fn phase_after(
    config: VisionTrainingConfig,
    planned: bool,
    phase: TrainPhase,
    events: Seq<TrainEvent>,
) -> TrainPhase
    decreases events.len(),
{
    if events.len() == 0 {
        phase
    } else {
        step_of(
            config,
            planned,
            phase_after(config, planned, phase, events.drop_last()),
            events.last(),
        ).0
    }
}

/// Whether the generic trainer has gone past the check of its mode, and has not yet fitted a model.
pub open spec fn is_past_dispatch(phase: TrainPhase) -> bool {
    match phase {
        TrainPhase::Backend => false,
        TrainPhase::Rollout => false,
        TrainPhase::Download { .. } => false,
        TrainPhase::Training => false,
        TrainPhase::Ended => false,
        _ => true,
    }
}

/// Data is loaded, and a model fitted, only under settings that nothing is wrong with: whatever
/// events a run has seen, the phases past the dispatch are reached, and a fit is asked for, only
/// where the mode has a model and is not refused.
pub proof fn law_refused_settings_load_nothing(
    config: VisionTrainingConfig,
    planned: bool,
    events: Seq<TrainEvent>,
    event: TrainEvent,
)
    ensures
        ({
            let phase = phase_after(config, planned, TrainPhase::Backend, events);
            let action = step_of(config, planned, phase, event).1;
            &&& is_past_dispatch(phase) || action is Fit ==> mode_fault(config) is None && model_of(
                config.mode,
            ) is Some
            &&& phase is Rollout || phase is Download || is_past_dispatch(phase) ==> run_fault(
                config,
            ) is None
        }),
    decreases events.len(),
{
    if events.len() > 0 {
        law_refused_settings_load_nothing(config, planned, events.drop_last(), events.last());
    }
}

/// A run whose directory was chosen ahead never chooses another one.
pub proof fn law_planned_runs_keep_their_directory(
    config: VisionTrainingConfig,
    phase: TrainPhase,
    event: TrainEvent,
)
    ensures
        step_of(config, true, phase, event).1 != TrainAction::PlanRun,
{
}

/// The settings of a loss that is off do not matter: whatever they are, the same is refused.
pub proof fn law_disabled_losses_are_not_checked(
    saccade: VisionSaccadeConfig,
    lejepa: VisionLejepaConfig,
    loss: VisionLejepaLossConfig,
    gdpo: VisionGdpoConfig,
    action_noise_std: Single,
    image_size: usize,
    patch_size: usize,
)
    requires
        !loss.enabled,
        !gdpo.enabled,
    ensures
        !lejepa.lejepa.enabled ==> lejepa_fault(
            VisionLejepaConfig { lejepa: loss, ..lejepa },
            image_size,
            patch_size,
        ) == lejepa_fault(lejepa, image_size, patch_size),
        !saccade.lejepa.enabled ==> saccade_fault(VisionSaccadeConfig { lejepa: loss, ..saccade })
            == saccade_fault(saccade),
        !saccade.gdpo.enabled ==> saccade_fault(
            VisionSaccadeConfig { gdpo, action_noise_std, ..saccade },
        ) == saccade_fault(saccade),
{
}

/// A share is a number from zero to one.
pub proof fn law_shares_lie_between_zero_and_one(x: Single)
    ensures
        is_share(x) <==> !x.is_nan() && 0 <= x.rank() && x.rank() <= 0x3f80_0000,
{
}

/// Of two faults the first is told, and there is none only where there is neither.
pub proof fn law_first_faults_win(a: Option<ModeSettingsError>, b: Option<ModeSettingsError>)
    ensures
        first_fault(a, b) is None <==> a is None && b is None,
        a is Some ==> first_fault(a, b) == a,
        a is None ==> first_fault(a, b) == b,
{
}

/// A joint embedding loss passes exactly where it is off, or its mixing weight is a share, it has
/// knots and projections, and its range is not at or below zero.
pub proof fn law_embedding_losses_pass_where_they_are_sound(
    loss: VisionLejepaLossConfig,
    family: SettingsFamily,
)
    ensures
        embedding_fault(loss, family) is None <==> !loss.enabled || {
            &&& !loss.lambda.is_nan() && 0 <= loss.lambda.rank() <= 0x3f80_0000
            &&& loss.sigreg_knots >= 1
            &&& loss.sigreg_t_max.is_nan() || loss.sigreg_t_max.rank() > 0
            &&& loss.sigreg_proj_dim >= 1
        },
{
}

/// There is always a global view. Crops are counted where either kind is configured; otherwise there
/// are the plain views, and no local ones.
pub proof fn law_joint_embedding_has_a_global_view(lejepa: VisionLejepaConfig)
    ensures
        lejepa_views(lejepa).0 >= 1,
        lejepa_views(lejepa).1 == lejepa.local_views,
        lejepa.global_views >= 1 ==> lejepa_views(lejepa).0 == lejepa.global_views,
        lejepa.global_views == 0 && lejepa.local_views >= 1 ==> lejepa_views(lejepa).0 == 1,
        lejepa.global_views == 0 && lejepa.local_views == 0 && lejepa.views >= 1 ==> lejepa_views(
            lejepa,
        ).0 == lejepa.views,
{
}

/// Joint embedding is accepted exactly where its local crops, if there are any, are whole patches and
/// no larger than the image, the reconstruction weight is not negative, the masked share is one, and
/// the embedding loss is sound.
pub proof fn law_joint_embedding_is_accepted(
    lejepa: VisionLejepaConfig,
    image_size: usize,
    patch_size: usize,
)
    requires
        patch_size > 0,
    ensures
        ({
            let local = lejepa.local_image_size;
            lejepa_fault(lejepa, image_size, patch_size) is None <==> {
                &&& lejepa.local_views == 0 || (1 <= local <= image_size && exists|n: int|
                    #[trigger] (n * patch_size) == local)
                &&& lejepa.recon.weight.is_nan() || lejepa.recon.weight.rank() >= 0
                &&& !lejepa.recon.mask_ratio.is_nan() && 0 <= lejepa.recon.mask_ratio.rank()
                    <= 0x3f80_0000
                &&& embedding_fault(lejepa.lejepa, SettingsFamily::Lejepa) is None
            }
        }),
{
    let (size, patch) = (lejepa.local_image_size as int, patch_size as int);
    vstd::arithmetic::div_mod::lemma_fundamental_div_mod(size, patch);
    vstd::arithmetic::mul::lemma_mul_is_commutative(patch, size / patch);
    if size % patch == 0 {
        assert((size / patch) * patch_size == size);
    } else {
        assert forall|n: int| #[trigger] (n * patch_size) != size by {
            if n * patch_size == size {
                vstd::arithmetic::div_mod::lemma_fundamental_div_mod_converse(size, patch, n, 0);
            }
        }
    }
}

/// Masked reconstruction is accepted exactly where its share is one, its weight is not negative and
/// its pyramid has a level.
pub proof fn law_masked_reconstruction_is_accepted(mae: VisionMaeConfig)
    ensures
        mae_fault(mae) is None <==> {
            &&& !mae.recon.mask_ratio.is_nan() && 0 <= mae.recon.mask_ratio.rank() <= 0x3f80_0000
            &&& mae.recon.weight.is_nan() || mae.recon.weight.rank() >= 0
            &&& mae.pyramid_levels >= 1
        },
{
}

/// The policy gradient passes exactly where it is off, or has a group and noise, no negative weight
/// or bound, a decay below one, and a share where samples are gated by one.
pub proof fn law_policy_gradients_pass_where_they_are_sound(saccade: VisionSaccadeConfig)
    ensures
        ({
            let gdpo = saccade.gdpo;
            gdpo_fault(saccade) is None <==> !gdpo.enabled || {
                &&& gdpo.group_size >= 1
                &&& saccade.action_noise_std.is_nan() || saccade.action_noise_std.rank() > 0
                &&& gdpo.hard_weight.is_nan() || gdpo.hard_weight.rank() >= 0
                &&& gdpo.easy_weight.is_nan() || gdpo.easy_weight.rank() >= 0
                &&& gdpo.policy_weight.is_nan() || gdpo.policy_weight.rank() >= 0
                &&& gdpo.policy_clip_range.is_nan() || gdpo.policy_clip_range.rank() >= 0
                &&& gdpo.advantage_clip.is_nan() || gdpo.advantage_clip.rank() >= 0
                &&& !gdpo.advantage_ema_decay.is_nan() && 0 <= gdpo.advantage_ema_decay.rank()
                    < 0x3f80_0000
                &&& gdpo.hard_gate matches GdpoHardGate::Percentile { quantile }
                    ==> !quantile.is_nan() && 0 <= quantile.rank() <= 0x3f80_0000
            }
        }),
{
}

/// Saccades are accepted exactly where they have levels and steps, both losses and the policy are
/// sound, rewards come at some stride and positions fall into two bins or more.
pub proof fn law_saccades_are_accepted(saccade: VisionSaccadeConfig)
    ensures
        saccade_fault(saccade) is None <==> {
            &&& saccade.mip_levels >= 1
            &&& saccade.inner_steps >= 1
            &&& !saccade.recon.mask_ratio.is_nan() && 0 <= saccade.recon.mask_ratio.rank()
                <= 0x3f80_0000
            &&& saccade.recon.weight.is_nan() || saccade.recon.weight.rank() >= 0
            &&& embedding_fault(saccade.lejepa, SettingsFamily::Saccade) is None
            &&& saccade.info_reward_stride >= 1
            &&& saccade.quantize_bins >= 2
            &&& gdpo_fault(saccade) is None
        },
        saccade.mip_levels == 0 ==> saccade_fault(saccade) == Some(ModeSettingsError::MipLevels),
        saccade.mip_levels >= 1 && saccade.inner_steps == 0 ==> saccade_fault(saccade) == Some(
            ModeSettingsError::InnerSteps,
        ),
{
}

/// Without cross views there is one view of an image, whatever the eyes and the overlap; with them
/// there is one for each eye, the overlap is as configured but not negative, and it is tried for at
/// least once.
pub proof fn law_eyes_see_views_only_where_views_cross(
    cross_view: VisionCrossViewConfig,
    num_eyes: usize,
)
    ensures
        ({
            let plan = eye_dataset(cross_view, num_eyes as int);
            let overlap = cross_view.min_overlap;
            &&& plan.local_views == 0 && plan.local_image_size is None
            &&& !cross_view.enabled ==> plan.views == 1 && plan.view_overlap_attempts == 1
                && plan.min_view_overlap.bits == 0
            &&& cross_view.enabled ==> {
                &&& plan.views >= 1 && (num_eyes >= 1 ==> plan.views == num_eyes)
                &&& plan.view_overlap_attempts >= 1 && (cross_view.max_attempts >= 1
                    ==> plan.view_overlap_attempts == cross_view.max_attempts)
                &&& !overlap.is_nan() && overlap.rank() > 0 ==> plan.min_view_overlap == overlap
                &&& overlap.is_nan() || overlap.rank() <= 0 ==> plan.min_view_overlap.bits == 0
            }
        }),
{
}

/// A saccade run has its own number of eyes, that of the model where it has none, and always one.
pub proof fn law_saccades_have_an_eye(saccade: VisionSaccadeConfig, num_eyes: int)
    ensures
        saccade_eyes_of(saccade, num_eyes) >= 1,
        saccade.num_eyes >= 1 ==> saccade_eyes_of(saccade, num_eyes) == saccade.num_eyes,
        saccade.num_eyes == 0 && num_eyes >= 1 ==> saccade_eyes_of(saccade, num_eyes) == num_eyes,
{
}

/// What is reported is what is trained: each loss of a mode exactly where it is on, nothing of other
/// modes, and drawings as the mode has them.
pub proof fn law_reports_follow_the_losses(mode: VisionTrainingModeConfig)
    ensures
        ({
            let d = diagnostics_of(mode);
            &&& d.distill && d.distill_rollout <==> mode is Distill
            &&& d.distill <==> d.distill_rollout
            &&& d.inv <==> d.sigreg
            &&& d.probe <==> mode is Lejepa
            &&& mode matches VisionTrainingModeConfig::Lejepa(c) ==> {
                &&& d.inv <==> c.lejepa.enabled
                &&& d.recon <==> !c.recon.weight.is_nan() && c.recon.weight.rank() > 0
                &&& !d.policy
                &&& d.artifacts == c.artifacts
            }
            &&& mode matches VisionTrainingModeConfig::Mae(c) ==> {
                &&& !d.inv
                &&& d.recon <==> !c.recon.weight.is_nan() && c.recon.weight.rank() > 0
                &&& !d.policy
                &&& d.artifacts == c.artifacts
            }
            &&& mode matches VisionTrainingModeConfig::Saccade(c) ==> {
                &&& d.inv <==> c.lejepa.enabled
                &&& d.recon <==> !c.recon.weight.is_nan() && c.recon.weight.rank() > 0
                &&& d.policy <==> c.gdpo.enabled
                &&& d.artifacts == c.artifacts
            }
            &&& mode is Distill ==> !d.inv && !d.recon && !d.policy && d.artifacts.every == 0
                && d.artifacts.max_images == 0
        }),
{
}

/// Each mode is trained by its own trainer. Autoencoders and video load no data here; every other
/// mode loads its own data, or is refused for what is wrong with its settings.
pub proof fn law_modes_go_to_their_trainer(config: VisionTrainingConfig, rollout: VisionRollout)
    ensures
        ({
            let (next, action) = dispatch_of(config, rollout);
            &&& action == TrainAction::TrainRac <==> config.mode is Rac
            &&& action == TrainAction::TrainVideoVjepa21 <==> config.mode == (
            VisionTrainingModeConfig::VideoLejepa { vjepa21: true })
            &&& action is TrainVideoLejepa <==> config.mode == (
            VisionTrainingModeConfig::VideoLejepa { vjepa21: false })
            &&& action is TrainVideoLejepa ==> action == (TrainAction::TrainVideoLejepa { rollout })
            &&& action == TrainAction::LoadDistillDatasets <==> config.mode is Distill
            &&& action is LoadDatasets || action is Refuse <==> config.mode is Lejepa
                || config.mode is Mae || config.mode is Saccade
            &&& action is Refuse <==> mode_fault(config) is Some
            &&& action is LoadDatasets || action == TrainAction::LoadDistillDatasets ==> next == (
            TrainPhase::Datasets { rollout })
            &&& config.mode is Rac || config.mode is VideoLejepa ==> next == TrainPhase::Training
                && model_of(config.mode) is None
        }),
        config.mode is Rac || config.mode is VideoLejepa || config.mode is Distill ==> mode_fault(
            config,
        ) is None,
        config.mode matches VisionTrainingModeConfig::Lejepa(c) ==> mode_fault(config)
            == lejepa_fault(c, config.image_size, config.patch_size),
        config.mode matches VisionTrainingModeConfig::Mae(c) ==> mode_fault(config) == mae_fault(c),
        config.mode matches VisionTrainingModeConfig::Saccade(c) ==> mode_fault(config)
            == saccade_fault(c),
{
}

/// The images of joint embedding are its views and crops; those of masked reconstruction and saccades
/// are what their eyes see.
pub proof fn law_images_follow_the_mode(config: VisionTrainingConfig)
    ensures
        ({
            let plan = dataset_of(config);
            &&& config.mode matches VisionTrainingModeConfig::Lejepa(c) ==> {
                &&& plan.views == lejepa_views(c).0
                &&& plan.local_views == c.local_views
                &&& c.local_views == 0 ==> plan.local_image_size is None
                &&& c.local_views >= 1 ==> plan.local_image_size == Some(c.local_image_size)
                &&& plan.min_view_overlap == c.min_view_overlap
                &&& plan.view_overlap_attempts == c.view_overlap_attempts
            }
            &&& config.mode matches VisionTrainingModeConfig::Mae(c) ==> plan == eye_dataset(
                c.cross_view,
                config.num_eyes as int,
            )
            &&& config.mode matches VisionTrainingModeConfig::Saccade(c) ==> {
                &&& c.num_eyes >= 1 ==> plan == eye_dataset(c.cross_view, c.num_eyes as int)
                &&& c.num_eyes == 0 ==> plan == eye_dataset(c.cross_view, config.num_eyes as int)
            }
        }),
{
}

/// A run is refused exactly where its batches or patches are empty or its image sizes differ.
pub proof fn law_runs_need_batches_patches_and_one_size(config: VisionTrainingConfig)
    ensures
        run_fault(config) is None <==> config.batch_size >= 1 && config.patch_size >= 1
            && config.augment_image_size == config.image_size,
        run_fault(config) == Some(RunSettingsError::ZeroBatchSize) <==> config.batch_size == 0,
        run_fault(config) == Some(RunSettingsError::ZeroPatchSize) <==> config.batch_size >= 1
            && config.patch_size == 0,
        run_fault(config) != Some(RunSettingsError::WrongMode),
        run_fault(config) matches Some(RunSettingsError::ImageSize { augment, vision }) ==> augment
            == config.augment_image_size && vision == config.image_size,
{
}

/// A run in which every action succeeds fits the model of its mode, with the rollout, the schedule and
/// the validation steps that were resolved on the way, and then ends. The directory is chosen on the
/// way unless it was chosen ahead.
pub proof fn law_successful_runs_fit_what_was_resolved(
    config: VisionTrainingConfig,
    planned: bool,
    rollout: VisionRollout,
    train_steps: usize,
    records_steps: usize,
    schedule: TrainSchedule,
    valid_steps: usize,
)
    requires
        run_fault(config) is None,
        mode_fault(config) is None,
        model_of(config.mode) is Some,
    ensures
        ({
            let p0 = TrainPhase::Backend;
            let (p1, a1) = step_of(config, planned, p0, TrainEvent::BackendStarted);
            let (p2, a2) = step_of(config, planned, p1, TrainEvent::RolloutResolved(rollout));
            let (p3, a3) = step_of(config, planned, p2, TrainEvent::DatasetReady);
            let (p4, a4) = step_of(
                config,
                planned,
                p3,
                TrainEvent::DatasetsLoaded { train_steps, valid_steps: records_steps },
            );
            let (p5, a5) = step_of(config, planned, p4, TrainEvent::ScheduleResolved(schedule));
            let (p6, a6) = step_of(config, planned, p5, TrainEvent::ValidStepsResolved(valid_steps));
            let (p7, a7) = step_of(config, planned, p6, TrainEvent::LearningRateResolved);
            let (p8, a8) = if planned {
                (p7, a7)
            } else {
                step_of(config, planned, p7, TrainEvent::RunPlanned)
            };
            let (p9, a9) = step_of(config, planned, p8, TrainEvent::RunActivated);
            let (p10, a10) = step_of(config, planned, p9, TrainEvent::Trained);
            &&& a1 == TrainAction::ResolveRollout
            &&& a2 == TrainAction::DownloadDataset
            &&& config.mode is Distill ==> a3 == TrainAction::LoadDistillDatasets
            &&& !(config.mode is Distill) ==> a3 == TrainAction::LoadDatasets(dataset_of(config))
            &&& a4 == (TrainAction::ResolveSchedule { steps_per_epoch: train_steps })
            &&& a5 == (TrainAction::ResolveValidSteps {
                total_steps: schedule.total_steps,
                log_frequency: config.log_frequency,
                valid_steps_per_epoch: records_steps,
            })
            &&& a6 matches TrainAction::ResolveLearningRate { total_steps, iters } && total_steps
                == schedule.total_steps && (iters is Some <==> schedule.source
                == ScheduleSource::Epochs) && (iters is Some ==> iters->0 == schedule.total_steps)
            &&& !planned ==> a7 == TrainAction::PlanRun
            &&& a8 == TrainAction::ActivateRun
            &&& a9 matches TrainAction::Fit(plan) && {
                &&& Some(plan.model) == model_of(config.mode)
                &&& plan.rollout == rollout
                &&& plan.epochs == schedule.total_epochs
                &&& plan.train_steps_per_epoch == schedule.steps_per_epoch
                &&& plan.train_total_steps == schedule.total_steps
                &&& plan.valid_steps_per_epoch == valid_steps
                &&& plan.diagnostics == diagnostics_of(config.mode)
            }
            &&& a10 == TrainAction::Complete && p10 == TrainPhase::Ended
        }),
{
}

/// The model fits the mode, and its metrics bear its name.
pub proof fn law_models_are_those_of_the_mode(mode: VisionTrainingModeConfig)
    ensures
        model_of(mode) == Some(TrainedModel::Distill) <==> mode is Distill,
        model_of(mode) == Some(TrainedModel::Lejepa) <==> mode is Lejepa,
        model_of(mode) == Some(TrainedModel::Mae) <==> mode is Mae,
        model_of(mode) == Some(TrainedModel::Saccade) <==> mode is Saccade,
{
}

/// Batches whose gradients are accumulated count together, and a patch holds the values of its pixels
/// in every channel, as far as either can be counted.
pub proof fn law_fits_count_accumulated_batches(
    config: VisionTrainingConfig,
    rollout: VisionRollout,
    schedule: TrainSchedule,
    valid_steps: usize,
)
    ensures
        ({
            let plan = fit_of(config, rollout, schedule, valid_steps);
            let whole = config.batch_size * config.gradient_accumulation_steps;
            let values = config.patch_size * config.patch_size * config.in_channels;
            &&& config.gradient_accumulation_steps == 0 ==> plan.effective_batch_size
                == config.batch_size
            &&& config.gradient_accumulation_steps >= 1 && whole <= usize::MAX
                ==> plan.effective_batch_size == whole
            &&& whole > usize::MAX ==> plan.effective_batch_size == usize::MAX
            &&& config.in_channels >= 1 && values <= usize::MAX ==> plan.recon_patch_dim == values
            &&& config.in_channels >= 1 && values > usize::MAX ==> plan.recon_patch_dim == usize::MAX
        }),
{
    let (s, c) = (config.patch_size * config.patch_size, config.in_channels as int);
    assert(c >= 1 && s >= 0 ==> s * c >= s) by (nonlinear_arith);
    assert(s >= 0) by (nonlinear_arith)
        requires
            s == config.patch_size * config.patch_size,
    ;
    assert(c >= 1 ==> usize::MAX * c >= usize::MAX) by (nonlinear_arith);
    assert(config.batch_size * 1 == config.batch_size);
    assert(config.batch_size * config.gradient_accumulation_steps >= 0) by (nonlinear_arith);
}

/// A run starts with the settings, files and backend it was given, before anything is done.
pub proof fn law_runs_start_with_what_they_were_given(
    session: TrainSession,
    config: VisionTrainingConfig,
    config_paths: Seq<Seq<char>>,
    backend_name: Seq<char>,
)
    requires
        is_start_of(session, config, config_paths, backend_name),
    ensures
        session.config == config,
        texts(session.config_paths@) == config_paths,
        session.backend_name@ == backend_name,
        session.wf(),
        actions_left(session.phase) == 10,
        step_of(config, session.planned_run is Some, session.phase, TrainEvent::BackendStarted).1
            != TrainAction::Nothing,
{
}

} // verus!
