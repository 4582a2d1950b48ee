//! Configuration values that the planning rules read.

use crate::rac::state::VisionRacStateMappingKind;
use crate::scalar::Single;
use vstd::prelude::*;

verus! {

/// Which half of a dataset is meant.
#[derive(Clone, Copy, Debug, PartialEq, Eq, Structural)]
pub enum ImageNetSplit {
    Train,
    Val,
}

/// Where the images of a run come from.
#[derive(Clone, Copy, Debug, PartialEq, Eq, Structural)]
pub enum VisionDatasetSource {
    Imagenet,
    Cifar10,
    Cifar100,
    MovingMnist,
}

/// What an auxiliary teacher supervises.
#[derive(Clone, Copy, Debug, PartialEq, Eq, Structural)]
pub enum VisionTeacherTargetKind {
    PatchAndCls,
    ClsOnly,
    GlobalOnly,
}

/// How student features are decoded for a teacher.
#[derive(Clone, Copy, Debug, PartialEq, Eq, Structural)]
pub enum VisionTeacherDecoderMode {
    SharedProjection,
    DedicatedProjection,
    DedicatedSpatialProjection,
}

impl VisionTeacherDecoderMode {
    /// Only the dedicated spatial decoder resamples the student's patch grid.
    pub open spec fn resamples(self) -> bool {
        self == VisionTeacherDecoderMode::DedicatedSpatialProjection
    }

    /// Whether this decoder resamples the student's patch grid.
    pub fn supports_spatial_resampling(self) -> (r: bool)
        ensures
            r == self.resamples(),
    {
        self == VisionTeacherDecoderMode::DedicatedSpatialProjection
    }

    /// Both dedicated decoders have projection heads of their own.
    pub open spec fn dedicated(self) -> bool {
        self != VisionTeacherDecoderMode::SharedProjection
    }

    /// Whether this decoder has projection heads of its own.
    pub fn uses_dedicated_projection(self) -> (r: bool)
        ensures
            r == self.dedicated(),
    {
        match self {
            VisionTeacherDecoderMode::SharedProjection => false,
            VisionTeacherDecoderMode::DedicatedProjection => true,
            VisionTeacherDecoderMode::DedicatedSpatialProjection => true,
        }
    }
}

/// Teacher features that were computed ahead of training.
#[derive(Debug)]
pub struct VisionTeacherFeatureConfig {
    pub train_cls_path: String,
    pub val_cls_path: String,
    pub train_patch_path: Option<String>,
    pub val_patch_path: Option<String>,
    pub feature_dim: usize,
    pub patch_tokens: Option<usize>,
}

/// A teacher network that runs during training.
#[derive(Clone, Copy, Debug, PartialEq, Eq, Structural)]
pub struct VisionTeacherModelConfig {
    pub image_size: Option<usize>,
    pub patch_size: Option<usize>,
    pub patch_tokens: Option<usize>,
    pub feature_dim: Option<usize>,
    /// The feature dimension of the network itself.
    pub variant_dim: usize,
}

/// Where teacher features come from.
#[derive(Debug)]
pub enum VisionTeacherConfig {
    Features(VisionTeacherFeatureConfig),
    Model(VisionTeacherModelConfig),
}

/// An auxiliary teacher.
#[derive(Debug)]
pub struct VisionTeacherTargetConfig {
    pub name: String,
    pub weight: Single,
    pub target_kind: VisionTeacherTargetKind,
    pub decoder_mode: VisionTeacherDecoderMode,
    pub decoder_hidden_dim: Option<usize>,
    pub teacher: VisionTeacherConfig,
}

/// How the terms of the distillation loss are weighed.
#[derive(Clone, Copy, Debug, PartialEq, Eq, Structural)]
pub struct VisionDistillationLossConfig {
    pub patch_mse_weight: Single,
    pub cls_mse_weight: Single,
    pub cls_cosine_weight: Single,
    pub rel_weight: Single,
    pub rel_tau: Single,
    pub rel_sample_tokens: Option<usize>,
}

/// Distillation from one primary teacher and any number of auxiliary ones.
#[derive(Debug)]
pub struct VisionDistillConfig {
    pub teacher: VisionTeacherConfig,
    pub teacher_targets: Vec<VisionTeacherTargetConfig>,
    pub loss: VisionDistillationLossConfig,
    pub rollout_supervision_frames: usize,
    pub rollout_supervision_stride: usize,
    pub rollout_supervision_groups: usize,
    pub rollout_supervision_explicit_steps: Vec<usize>,
    pub rollout_supervision_explicit_groups: Vec<Vec<usize>>,
    pub rollout_supervision_include_step1: bool,
    pub rollout_supervision_power: Single,
    pub rollout_sampling_power: Single,
    pub rollout_improvement_weight: Single,
    pub rollout_improvement_margin: Single,
    pub student_checkpoint: Option<String>,
}

/// What the latent teacher of the reversible autoencoder is.
#[derive(Clone, Copy, Debug, PartialEq, Eq, Structural)]
pub enum VisionRacTeacherKind {
    PooledImage,
    PrecomputedLatent,
}

/// Latents that were computed ahead of training.
#[derive(Debug)]
pub struct VisionRacPrecomputedLatentConfig {
    pub train_path: String,
    pub val_path: String,
    pub channels: usize,
    pub height: usize,
    pub width: usize,
}

/// The latent teacher of the reversible autoencoder.
#[derive(Debug)]
pub struct VisionRacTeacherConfig {
    pub kind: VisionRacTeacherKind,
    pub state_mapping: VisionRacStateMappingKind,
    pub latent_downsample: usize,
    pub precomputed_latent: Option<VisionRacPrecomputedLatentConfig>,
}

/// The semantic teacher of the reversible autoencoder.
#[derive(Debug)]
pub struct VisionRacSemanticTeacherConfig {
    pub weight: Single,
    pub cls_weight: Single,
    pub patch_weight: Single,
    pub hidden_dim: Option<usize>,
    pub teacher: VisionTeacherConfig,
}

/// How the recurrent memory behaves along a flow.
#[derive(Clone, Copy, Debug, PartialEq, Eq, Structural)]
pub struct VisionRacMemoryConfig {
    pub reset_each_step: bool,
    pub detach_each_step: bool,
    pub flow_backprop_steps: Option<usize>,
    pub disable_writes: bool,
    pub eval_wipe_after_step: Option<usize>,
}

/// The reversible autoencoder.
#[derive(Debug)]
pub struct VisionRacConfig {
    pub sample_steps: usize,
    pub random_time_grid: bool,
    pub reverse_noise: bool,
    pub state_channels: usize,
    pub probe_weight: Single,
    pub artifact_every: usize,
    pub artifact_max_images: usize,
    pub artifact_upscale: usize,
    pub teacher: VisionRacTeacherConfig,
    pub semantic_teacher: VisionRacSemanticTeacherConfig,
    pub memory: VisionRacMemoryConfig,
}

/// Only a spatial decoder resamples, and whatever resamples has a projection of its own.
pub proof fn law_resampling_needs_an_own_projection(mode: VisionTeacherDecoderMode)
    ensures
        mode.resamples() ==> mode.dedicated(),
        mode is SharedProjection ==> !mode.dedicated(),
        mode is DedicatedProjection ==> mode.dedicated() && !mode.resamples(),
        mode is DedicatedSpatialProjection ==> mode.resamples(),
{
}

} // verus!
