//! Which teacher stores a reversible autoencoder needs.

use crate::config::{
    ImageNetSplit, VisionRacConfig, VisionRacPrecomputedLatentConfig, VisionRacTeacherKind,
    VisionTeacherConfig,
};
use crate::stores::{
    cls_path_of, copy_path, patch_path_of, same_path, FeatureStoreRequest, LatentStoreRequest,
};
use crate::numeric::{max_of, sat_mul, saturated};
use crate::rollout::{at_least_one, max_one};
use crate::scalar::Single;
use vstd::prelude::*;

verus! {

/// Why a teacher store cannot be built.
#[derive(Clone, Copy, Debug, PartialEq, Eq, Structural)]
pub enum RacTeacherError {
    /// The semantic teacher is a network, and only stored features are supported.
    SemanticTeacherIsModel,
    /// Precomputed latents were asked for, and none are configured.
    MissingPrecomputedLatent,
}

/// The dimension of the semantic teacher's features; `None` where it carries no weight.
pub open spec fn semantic_feature_dim(config: VisionRacConfig, fallback_dim: int) -> Option<int> {
    if config.semantic_teacher.weight.le(Single::zero()) {
        None
    } else {
        match config.semantic_teacher.teacher {
            VisionTeacherConfig::Features(teacher) => Some(
                at_least_one(teacher.feature_dim as int),
            ),
            VisionTeacherConfig::Model(teacher) => match teacher.feature_dim {
                Some(dim) => Some(at_least_one(dim as int)),
                None => Some(at_least_one(fallback_dim)),
            },
        }
    }
}

/// The dimension of the semantic teacher's features; `None` where it carries no weight.
pub fn rac_semantic_teacher_feature_dim(config: &VisionRacConfig, fallback_dim: usize) -> (dim:
    Option<usize>)
    ensures
        match dim {
            Some(d) => semantic_feature_dim(*config, fallback_dim as int) == Some(d as int),
            None => semantic_feature_dim(*config, fallback_dim as int) is None,
        },
{
    if config.semantic_teacher.weight.is_at_most_zero() {
        return None;
    }
    match &config.semantic_teacher.teacher {
        VisionTeacherConfig::Features(teacher) => Some(max_one(teacher.feature_dim)),
        VisionTeacherConfig::Model(teacher) => match teacher.feature_dim {
            Some(dim) => Some(max_one(dim)),
            None => Some(max_one(fallback_dim)),
        },
    }
}

/// The semantic feature store that a split needs. There is none where the teacher carries no
/// weight, and a teacher network is refused.
pub fn rac_semantic_teacher_store(
    split: ImageNetSplit,
    config: &VisionRacConfig,
    expected_records: usize,
    cache_in_memory: bool,
) -> (result: Result<Option<FeatureStoreRequest>, RacTeacherError>)
    ensures
        match result {
            Ok(None) => config.semantic_teacher.weight.le(Single::zero()),
            Ok(Some(request)) => {
                &&& !config.semantic_teacher.weight.le(Single::zero())
                &&& config.semantic_teacher.teacher matches VisionTeacherConfig::Features(teacher)
                    && {
                    &&& request.cls_path@ == cls_path_of(teacher, split)@
                    &&& same_path(request.patch_path, patch_path_of(teacher, split))
                    &&& request.feature_dim == at_least_one(teacher.feature_dim as int)
                    &&& request.patch_tokens == teacher.patch_tokens
                    &&& request.expected_records == expected_records
                    &&& request.cache_in_memory == cache_in_memory
                }
            },
            Err(error) => {
                &&& error == RacTeacherError::SemanticTeacherIsModel
                &&& !config.semantic_teacher.weight.le(Single::zero())
                &&& config.semantic_teacher.teacher is Model
            },
        },
{
    if config.semantic_teacher.weight.is_at_most_zero() {
        return Ok(None);
    }
    match &config.semantic_teacher.teacher {
        VisionTeacherConfig::Features(teacher) => {
            let (cls_path, patch_path) = match split {
                ImageNetSplit::Train => (
                    teacher.train_cls_path.clone(),
                    copy_path(&teacher.train_patch_path),
                ),
                ImageNetSplit::Val => (
                    teacher.val_cls_path.clone(),
                    copy_path(&teacher.val_patch_path),
                ),
            };
            Ok(
                Some(
                    FeatureStoreRequest {
                        cls_path,
                        patch_path,
                        feature_dim: max_one(teacher.feature_dim),
                        patch_tokens: teacher.patch_tokens,
                        expected_records,
                        cache_in_memory,
                    },
                ),
            )
        },
        VisionTeacherConfig::Model(_) => Err(RacTeacherError::SemanticTeacherIsModel),
    }
}

/// The path of the latents of one split.
pub open spec fn latent_path_of(
    spec: VisionRacPrecomputedLatentConfig,
    split: ImageNetSplit,
) -> String {
    match split {
        ImageNetSplit::Train => spec.train_path,
        ImageNetSplit::Val => spec.val_path,
    }
}

/// The latent store that a split needs: none for pooled images, the configured one for
/// precomputed latents.
pub fn rac_teacher_latent_store(
    split: ImageNetSplit,
    config: &VisionRacConfig,
    expected_records: usize,
    cache_in_memory: bool,
) -> (result: Result<Option<LatentStoreRequest>, RacTeacherError>)
    ensures
        match result {
            Ok(None) => config.teacher.kind == VisionRacTeacherKind::PooledImage,
            Ok(Some(request)) => {
                &&& config.teacher.kind == VisionRacTeacherKind::PrecomputedLatent
                &&& config.teacher.precomputed_latent matches Some(latent) && {
                    &&& request.path@ == latent_path_of(latent, split)@
                    &&& request.channels == at_least_one(latent.channels as int)
                    &&& request.height == at_least_one(latent.height as int)
                    &&& request.width == at_least_one(latent.width as int)
                    &&& request.expected_records == expected_records
                    &&& request.cache_in_memory == cache_in_memory
                }
            },
            Err(error) => {
                &&& error == RacTeacherError::MissingPrecomputedLatent
                &&& config.teacher.kind == VisionRacTeacherKind::PrecomputedLatent
                &&& config.teacher.precomputed_latent is None
            },
        },
{
    match config.teacher.kind {
        VisionRacTeacherKind::PooledImage => Ok(None),
        VisionRacTeacherKind::PrecomputedLatent => match &config.teacher.precomputed_latent {
            None => Err(RacTeacherError::MissingPrecomputedLatent),
            Some(latent) => {
                let path = match split {
                    ImageNetSplit::Train => latent.train_path.clone(),
                    ImageNetSplit::Val => latent.val_path.clone(),
                };
                Ok(
                    Some(
                        LatentStoreRequest {
                            path,
                            channels: max_one(latent.channels),
                            height: max_one(latent.height),
                            width: max_one(latent.width),
                            expected_records,
                            cache_in_memory,
                        },
                    ),
                )
            },
        },
    }
}

/// The widths of a projection head.
#[derive(Clone, Copy, Debug, PartialEq, Eq, Structural)]
pub struct ProjectionHeadDims {
    pub input: usize,
    pub hidden: usize,
    pub output: usize,
}

/// The head that maps `projection_dim` features to `target_dim` ones: the hidden width is twice the
/// wider side unless it is configured.
pub open spec fn projection_head(
    projection_dim: int,
    target_dim: int,
    hidden_dim: Option<usize>,
) -> ProjectionHeadDims {
    ProjectionHeadDims {
        input: at_least_one(projection_dim) as usize,
        hidden: at_least_one(
            match hidden_dim {
                Some(hidden) => hidden as int,
                None => saturated(vstd::math::max(projection_dim, target_dim) * 2),
            },
        ) as usize,
        output: at_least_one(target_dim) as usize,
    }
}

fn projection_head_dims(projection_dim: usize, target_dim: usize, hidden_dim: Option<usize>) -> (r:
    ProjectionHeadDims)
    ensures
        r == projection_head(projection_dim as int, target_dim as int, hidden_dim),
{
    let hidden: usize = match hidden_dim {
        Some(hidden) => hidden,
        None => sat_mul(max_of(projection_dim, target_dim), 2),
    };
    ProjectionHeadDims {
        input: max_one(projection_dim),
        hidden: max_one(hidden),
        output: max_one(target_dim),
    }
}

/// The head that predicts the teacher's class features: present where both its weights are
/// positive.
pub fn semantic_head_dims(config: &VisionRacConfig, projection_dim: usize) -> (head: Option<
    ProjectionHeadDims,
>)
    ensures
        head == (if Single::zero().lt(config.semantic_teacher.weight) && Single::zero().lt(
            config.semantic_teacher.cls_weight,
        ) {
            Some(
                projection_head(
                    projection_dim as int,
                    semantic_feature_dim(*config, projection_dim as int)->0,
                    config.semantic_teacher.hidden_dim,
                ),
            )
        } else {
            None
        }),
{
    if config.semantic_teacher.weight.is_positive()
        && config.semantic_teacher.cls_weight.is_positive() {
        match rac_semantic_teacher_feature_dim(config, projection_dim) {
            Some(target) => Some(
                projection_head_dims(projection_dim, target, config.semantic_teacher.hidden_dim),
            ),
            None => None,
        }
    } else {
        None
    }
}

/// Whether patch features are supervised: stored features with a patch file and a token count, and
/// positive weights.
pub open spec fn supervises_patches(config: VisionRacConfig) -> bool {
    &&& Single::zero().lt(config.semantic_teacher.weight)
    &&& Single::zero().lt(config.semantic_teacher.patch_weight)
    &&& config.semantic_teacher.teacher matches VisionTeacherConfig::Features(teacher)
        && teacher.train_patch_path is Some && teacher.patch_tokens is Some
}

/// The head that predicts the teacher's patch features.
pub fn semantic_patch_head_dims(config: &VisionRacConfig, projection_dim: usize) -> (head: Option<
    ProjectionHeadDims,
>)
    ensures
        head == (if supervises_patches(*config) {
            Some(
                projection_head(
                    projection_dim as int,
                    at_least_one(
                        config.semantic_teacher.teacher->Features_0.feature_dim as int,
                    ),
                    config.semantic_teacher.hidden_dim,
                ),
            )
        } else {
            None
        }),
{
    match &config.semantic_teacher.teacher {
        VisionTeacherConfig::Features(teacher) => {
            if config.semantic_teacher.weight.is_positive()
                && config.semantic_teacher.patch_weight.is_positive()
                && teacher.train_patch_path.is_some() && teacher.patch_tokens.is_some() {
                Some(
                    projection_head_dims(
                        projection_dim,
                        max_one(teacher.feature_dim),
                        config.semantic_teacher.hidden_dim,
                    ),
                )
            } else {
                None
            }
        },
        VisionTeacherConfig::Model(_) => None,
    }
}

/// A teacher without a positive weight has no features; any other one has at least one, and as many
/// as it says, or as many as the model where it says nothing.
pub proof fn law_weighted_teachers_have_features(config: VisionRacConfig, fallback_dim: int)
    ensures
        ({
            let weight = config.semantic_teacher.weight;
            let dim = semantic_feature_dim(config, fallback_dim);
            &&& dim is None <==> !weight.is_nan() && weight.rank() <= 0
            &&& dim matches Some(d) ==> d >= 1 && match config.semantic_teacher.teacher {
                VisionTeacherConfig::Features(teacher) => d == 1 && teacher.feature_dim == 0 || d
                    == teacher.feature_dim,
                VisionTeacherConfig::Model(teacher) => match teacher.feature_dim {
                    Some(own) => d == 1 && own == 0 || d == own,
                    None => d == 1 && fallback_dim <= 0 || d == fallback_dim,
                },
            }
        }),
{
}

/// Each split has its own latents.
pub proof fn law_latents_go_with_their_split(latents: VisionRacPrecomputedLatentConfig)
    ensures
        latent_path_of(latents, ImageNetSplit::Train) == latents.train_path,
        latent_path_of(latents, ImageNetSplit::Val) == latents.val_path,
{
}

/// A head leads from the model's width to the teacher's. No width of it is zero, and unless it is
/// configured or too large to count, the hidden one is twice the wider side.
pub proof fn law_heads_lead_from_model_to_teacher(
    projection_dim: usize,
    target_dim: usize,
    hidden_dim: Option<usize>,
)
    ensures
        ({
            let head = projection_head(projection_dim as int, target_dim as int, hidden_dim);
            let wide = head.hidden as int;
            &&& head.input >= 1 && head.hidden >= 1 && head.output >= 1
            &&& projection_dim >= 1 ==> head.input == projection_dim
            &&& target_dim >= 1 ==> head.output == target_dim
            &&& hidden_dim matches Some(hidden) ==> hidden >= 1 ==> head.hidden == hidden
            &&& hidden_dim is None && head.input * 2 <= usize::MAX && head.output * 2 <= usize::MAX
                && (projection_dim >= 1 || target_dim >= 1) ==> {
                &&& wide >= head.input * 2 || projection_dim == 0
                &&& wide >= head.output * 2 || target_dim == 0
                &&& wide == head.input * 2 || wide == head.output * 2
            }
        }),
{
}

/// Patches are supervised only by stored features that have patches, and only with two positive
/// weights; and always there.
pub proof fn law_patches_need_stored_patches(config: VisionRacConfig)
    ensures
        ({
            let teacher = config.semantic_teacher;
            supervises_patches(config) <==> {
                &&& teacher.weight.rank() > 0 && !teacher.weight.is_nan()
                &&& teacher.patch_weight.rank() > 0 && !teacher.patch_weight.is_nan()
                &&& teacher.teacher is Features
                &&& teacher.teacher->Features_0.train_patch_path is Some
                &&& teacher.teacher->Features_0.patch_tokens is Some
            }
        }),
{
}

} // verus!
