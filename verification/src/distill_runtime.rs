//! Preparing distillation runs: which teacher features are opened, and when settings are refused.

use crate::config::{
    ImageNetSplit, VisionTeacherConfig, VisionTeacherDecoderMode, VisionTeacherFeatureConfig,
    VisionTeacherModelConfig, VisionTeacherTargetConfig, VisionTeacherTargetKind,
};
use crate::numeric::{ceil_div, ceil_div_of};
use crate::stores::{cls_path_of, copy_path, patch_path_of, same_path, FeatureStoreRequest};
use crate::train::TRAINING_SEED;
use vstd::prelude::*;

verus! {

/// Why the data of a distillation run cannot be prepared.
#[derive(Clone, Copy, Debug, PartialEq, Eq, Structural)]
pub enum DistillDataError {
    FeatureDim { teacher: usize, student: usize },
    PatchTokens { teacher: usize, student: usize },
    MissingTrainPatchPath,
    MissingValPatchPath,
    /// A teacher network was asked for where none can run.
    ModelUnsupported,
    ModelPatchSizeZero,
    ModelImageNotDivisible { image_size: usize, patch_size: usize },
    ModelTokens { teacher: usize, student: usize },
    ModelPatchTokens { configured: usize, actual: usize },
    ModelEmbedding { configured: usize, actual: usize },
    /// An auxiliary teacher is a network.
    AuxiliaryModel { target: usize },
    AuxiliaryTokens { target: usize, teacher: usize, student: usize },
    AuxiliaryTokensMissing { target: usize },
    AuxiliaryTrainPatchPath { target: usize },
    AuxiliaryValPatchPath { target: usize },
}

/// How many patch tokens the student has per image: the square of the patches along a side, rounded
/// up.
pub open spec fn student_tokens_of(image_size: int, patch_size: int) -> int {
    ceil_div_of(image_size, patch_size) * ceil_div_of(image_size, patch_size)
}

/// How many patch tokens the student has per image.
pub fn student_patch_tokens(image_size: usize, patch_size: usize) -> (tokens: usize)
    requires
        patch_size > 0,
        student_tokens_of(image_size as int, patch_size as int) <= usize::MAX,
    ensures
        tokens == student_tokens_of(image_size as int, patch_size as int),
{
    let grid: usize = ceil_div(image_size, patch_size);
    grid * grid
}

/// Why the settings of a run are refused before anything is loaded.
#[derive(Clone, Copy, Debug, PartialEq, Eq, Structural)]
pub enum RunSettingsError {
    ZeroBatchSize,
    ZeroPatchSize,
    ImageSize { augment: usize, vision: usize },
    /// The training mode is another one than the run is for.
    WrongMode,
}

/// The first thing that is wrong with the settings of a distillation run.
pub open spec fn distill_settings_fault(
    batch_size: int,
    patch_size: int,
    augment_image_size: int,
    vision_image_size: int,
    is_distill: bool,
) -> Option<RunSettingsError> {
    if batch_size == 0 {
        Some(RunSettingsError::ZeroBatchSize)
    } else if patch_size == 0 {
        Some(RunSettingsError::ZeroPatchSize)
    } else if augment_image_size != vision_image_size {
        Some(
            RunSettingsError::ImageSize {
                augment: augment_image_size as usize,
                vision: vision_image_size as usize,
            },
        )
    } else if !is_distill {
        Some(RunSettingsError::WrongMode)
    } else {
        None
    }
}

/// Checks the settings of a distillation run.
pub fn check_distill_settings(
    batch_size: usize,
    patch_size: usize,
    augment_image_size: usize,
    vision_image_size: usize,
    is_distill: bool,
) -> (result: Result<(), RunSettingsError>)
    ensures
        match result {
            Ok(_) => distill_settings_fault(
                batch_size as int,
                patch_size as int,
                augment_image_size as int,
                vision_image_size as int,
                is_distill,
            ) is None,
            Err(error) => distill_settings_fault(
                batch_size as int,
                patch_size as int,
                augment_image_size as int,
                vision_image_size as int,
                is_distill,
            ) == Some(error),
        },
{
    if batch_size == 0 {
        return Err(RunSettingsError::ZeroBatchSize);
    }
    if patch_size == 0 {
        return Err(RunSettingsError::ZeroPatchSize);
    }
    if augment_image_size != vision_image_size {
        return Err(
            RunSettingsError::ImageSize { augment: augment_image_size, vision: vision_image_size },
        );
    }
    if !is_distill {
        return Err(RunSettingsError::WrongMode);
    }
    Ok(())
}

/// How many patch vectors a target is supervised with, or why none can be told: decoders without
/// resampling need the student's own count, the spatial one a configured count.
pub open spec fn target_tokens_of(
    target_kind: VisionTeacherTargetKind,
    decoder_mode: VisionTeacherDecoderMode,
    configured: Option<usize>,
    student: usize,
    target: usize,
) -> Result<Option<usize>, DistillDataError> {
    if target_kind != VisionTeacherTargetKind::PatchAndCls {
        Ok(None)
    } else if decoder_mode.resamples() {
        match configured {
            Some(tokens) => Ok(Some(tokens)),
            None => Err(DistillDataError::AuxiliaryTokensMissing { target }),
        }
    } else {
        match configured {
            Some(tokens) => if tokens == student {
                Ok(Some(tokens))
            } else {
                Err(DistillDataError::AuxiliaryTokens { target, teacher: tokens, student })
            },
            None => Ok(Some(student)),
        }
    }
}

/// How many patch vectors a target is supervised with.
pub fn teacher_target_patch_tokens(
    target: &VisionTeacherTargetConfig,
    configured: Option<usize>,
    student: usize,
    index: usize,
) -> (result: Result<Option<usize>, DistillDataError>)
    ensures
        result == target_tokens_of(
            target.target_kind,
            target.decoder_mode,
            configured,
            student,
            index,
        ),
{
    match target.target_kind {
        VisionTeacherTargetKind::PatchAndCls => match target.decoder_mode {
            VisionTeacherDecoderMode::DedicatedSpatialProjection => match configured {
                Some(tokens) => Ok(Some(tokens)),
                None => Err(DistillDataError::AuxiliaryTokensMissing { target: index }),
            },
            _ => match configured {
                Some(tokens) => if tokens == student {
                    Ok(Some(tokens))
                } else {
                    Err(
                        DistillDataError::AuxiliaryTokens { target: index, teacher: tokens, student },
                    )
                },
                None => Ok(Some(student)),
            },
        },
        _ => Ok(None),
    }
}

/// The stores of one teacher for both splits.
#[derive(Debug)]
pub struct TeacherStores {
    pub train: FeatureStoreRequest,
    pub val: FeatureStoreRequest,
}

/// Whether a request opens the features of one split.
pub open spec fn is_store_of(
    request: FeatureStoreRequest,
    teacher: VisionTeacherFeatureConfig,
    split: ImageNetSplit,
    patches: bool,
    tokens: Option<usize>,
    records: int,
    cache: bool,
) -> bool {
    &&& request.cls_path@ == cls_path_of(teacher, split)@
    &&& same_path(
        request.patch_path,
        if patches {
            patch_path_of(teacher, split)
        } else {
            None
        },
    )
    &&& request.feature_dim == teacher.feature_dim
    &&& request.patch_tokens == tokens
    &&& request.expected_records == records
    &&& request.cache_in_memory == cache
}

/// Whether the requests open the features of both splits.
pub open spec fn are_stores_of(
    stores: TeacherStores,
    teacher: VisionTeacherFeatureConfig,
    patches: bool,
    tokens: Option<usize>,
    train_records: int,
    val_records: int,
    cache: bool,
) -> bool {
    &&& is_store_of(stores.train, teacher, ImageNetSplit::Train, patches, tokens, train_records, cache)
    &&& is_store_of(stores.val, teacher, ImageNetSplit::Val, patches, tokens, val_records, cache)
}

fn request_stores(
    teacher: &VisionTeacherFeatureConfig,
    patches: bool,
    tokens: Option<usize>,
    train_records: usize,
    val_records: usize,
    cache: bool,
) -> (stores: TeacherStores)
    ensures
        are_stores_of(
            stores,
            *teacher,
            patches,
            tokens,
            train_records as int,
            val_records as int,
            cache,
        ),
{
    let train_patch = if patches {
        copy_path(&teacher.train_patch_path)
    } else {
        None
    };
    let val_patch = if patches {
        copy_path(&teacher.val_patch_path)
    } else {
        None
    };
    TeacherStores {
        train: FeatureStoreRequest {
            cls_path: teacher.train_cls_path.clone(),
            patch_path: train_patch,
            feature_dim: teacher.feature_dim,
            patch_tokens: tokens,
            expected_records: train_records,
            cache_in_memory: cache,
        },
        val: FeatureStoreRequest {
            cls_path: teacher.val_cls_path.clone(),
            patch_path: val_patch,
            feature_dim: teacher.feature_dim,
            patch_tokens: tokens,
            expected_records: val_records,
            cache_in_memory: cache,
        },
    }
}

/// The first thing that is wrong with the stored features of the primary teacher: their dimension,
/// their token count, and a missing patch file of the training or the validation split.
pub open spec fn primary_features_fault(
    teacher: VisionTeacherFeatureConfig,
    projection_dim: usize,
    student_tokens: usize,
) -> Option<DistillDataError> {
    if teacher.feature_dim != projection_dim {
        Some(
            DistillDataError::FeatureDim { teacher: teacher.feature_dim, student: projection_dim },
        )
    } else if teacher.patch_tokens is Some && teacher.patch_tokens->0 != student_tokens {
        Some(
            DistillDataError::PatchTokens {
                teacher: teacher.patch_tokens->0,
                student: student_tokens,
            },
        )
    } else if teacher.train_patch_path is None {
        Some(DistillDataError::MissingTrainPatchPath)
    } else if teacher.val_patch_path is None {
        Some(DistillDataError::MissingValPatchPath)
    } else {
        None
    }
}

/// The first thing that is wrong with a teacher network.
pub open spec fn model_teacher_fault(
    teacher: VisionTeacherModelConfig,
    vision_image_size: usize,
    vision_patch_size: usize,
    projection_dim: usize,
    student_tokens: usize,
) -> Option<DistillDataError> {
    let image_size = match teacher.image_size {
        Some(size) => size,
        None => vision_image_size,
    };
    let patch_size = match teacher.patch_size {
        Some(size) => size,
        None => vision_patch_size,
    };
    let tokens = student_tokens_of(image_size as int, patch_size as int);
    let dim = match teacher.feature_dim {
        Some(dim) => dim,
        None => teacher.variant_dim,
    };
    if patch_size == 0 {
        Some(DistillDataError::ModelPatchSizeZero)
    } else if image_size as int % patch_size as int != 0 {
        Some(DistillDataError::ModelImageNotDivisible { image_size, patch_size })
    } else if tokens != student_tokens {
        Some(DistillDataError::ModelTokens { teacher: tokens as usize, student: student_tokens })
    } else if teacher.patch_tokens is Some && teacher.patch_tokens->0 != tokens {
        Some(
            DistillDataError::ModelPatchTokens {
                configured: teacher.patch_tokens->0,
                actual: tokens as usize,
            },
        )
    } else if dim != projection_dim {
        Some(DistillDataError::FeatureDim { teacher: dim, student: projection_dim })
    } else if teacher.variant_dim != dim {
        Some(
            DistillDataError::ModelEmbedding { configured: dim, actual: teacher.variant_dim },
        )
    } else {
        None
    }
}

/// How the primary teacher is prepared.
#[derive(Clone, Copy, Debug, PartialEq, Eq, Structural)]
pub enum PrimaryTeacher {
    /// Stored features with this many patch vectors.
    Features { tokens: usize },
    /// A network that runs on images of this size.
    Model { image_size: usize, patch_size: usize, feature_dim: usize },
}

/// Decides how the primary teacher is prepared. Without support for teacher networks a network is
/// refused.
pub fn plan_primary_teacher(
    teacher: &VisionTeacherConfig,
    vision_image_size: usize,
    vision_patch_size: usize,
    projection_dim: usize,
    student_tokens: usize,
    runs_networks: bool,
) -> (result: Result<PrimaryTeacher, DistillDataError>)
    requires
        teacher matches VisionTeacherConfig::Model(model) ==> {
            let image = match model.image_size {
                Some(size) => size,
                None => vision_image_size,
            };
            let patch = match model.patch_size {
                Some(size) => size,
                None => vision_patch_size,
            };
            patch > 0 ==> student_tokens_of(image as int, patch as int) <= usize::MAX
        },
    ensures
        match *teacher {
            VisionTeacherConfig::Features(features) => match primary_features_fault(
                features,
                projection_dim,
                student_tokens,
            ) {
                Some(error) => result == Err::<PrimaryTeacher, DistillDataError>(error),
                None => result == Ok::<PrimaryTeacher, DistillDataError>(
                    PrimaryTeacher::Features { tokens: student_tokens },
                ),
            },
            VisionTeacherConfig::Model(model) => if !runs_networks {
                result == Err::<PrimaryTeacher, DistillDataError>(
                    DistillDataError::ModelUnsupported,
                )
            } else {
                match model_teacher_fault(
                    model,
                    vision_image_size,
                    vision_patch_size,
                    projection_dim,
                    student_tokens,
                ) {
                    Some(error) => result == Err::<PrimaryTeacher, DistillDataError>(error),
                    None => result == Ok::<PrimaryTeacher, DistillDataError>(
                        PrimaryTeacher::Model {
                            image_size: match model.image_size {
                                Some(size) => size,
                                None => vision_image_size,
                            },
                            patch_size: match model.patch_size {
                                Some(size) => size,
                                None => vision_patch_size,
                            },
                            feature_dim: projection_dim,
                        },
                    ),
                }
            },
        },
{
    match teacher {
        VisionTeacherConfig::Features(features) => {
            if features.feature_dim != projection_dim {
                return Err(
                    DistillDataError::FeatureDim {
                        teacher: features.feature_dim,
                        student: projection_dim,
                    },
                );
            }
            if let Some(tokens) = features.patch_tokens {
                if tokens != student_tokens {
                    return Err(
                        DistillDataError::PatchTokens { teacher: tokens, student: student_tokens },
                    );
                }
            }
            if features.train_patch_path.is_none() {
                return Err(DistillDataError::MissingTrainPatchPath);
            }
            if features.val_patch_path.is_none() {
                return Err(DistillDataError::MissingValPatchPath);
            }
            Ok(PrimaryTeacher::Features { tokens: student_tokens })
        },
        VisionTeacherConfig::Model(model) => {
            if !runs_networks {
                return Err(DistillDataError::ModelUnsupported);
            }
            let image_size: usize = match model.image_size {
                Some(size) => size,
                None => vision_image_size,
            };
            let patch_size: usize = match model.patch_size {
                Some(size) => size,
                None => vision_patch_size,
            };
            if patch_size == 0 {
                return Err(DistillDataError::ModelPatchSizeZero);
            }
            if image_size % patch_size != 0 {
                return Err(DistillDataError::ModelImageNotDivisible { image_size, patch_size });
            }
            let tokens: usize = student_patch_tokens(image_size, patch_size);
            if tokens != student_tokens {
                return Err(
                    DistillDataError::ModelTokens { teacher: tokens, student: student_tokens },
                );
            }
            if let Some(configured) = model.patch_tokens {
                if configured != tokens {
                    return Err(DistillDataError::ModelPatchTokens { configured, actual: tokens });
                }
            }
            let feature_dim: usize = match model.feature_dim {
                Some(dim) => dim,
                None => model.variant_dim,
            };
            if feature_dim != projection_dim {
                return Err(
                    DistillDataError::FeatureDim { teacher: feature_dim, student: projection_dim },
                );
            }
            if model.variant_dim != feature_dim {
                return Err(
                    DistillDataError::ModelEmbedding {
                        configured: feature_dim,
                        actual: model.variant_dim,
                    },
                );
            }
            Ok(PrimaryTeacher::Model { image_size, patch_size, feature_dim })
        },
    }
}

/// The stores of the primary teacher, once its features have passed and both datasets are known.
pub fn primary_teacher_stores(
    teacher: &VisionTeacherFeatureConfig,
    tokens: usize,
    train_records: usize,
    val_records: usize,
    cache: bool,
) -> (stores: TeacherStores)
    ensures
        are_stores_of(
            stores,
            *teacher,
            true,
            Some(tokens),
            train_records as int,
            val_records as int,
            cache,
        ),
{
    request_stores(teacher, true, Some(tokens), train_records, val_records, cache)
}

/// The first thing that is wrong with an auxiliary target: a network, its token count, and a missing
/// patch file where patches are supervised.
pub open spec fn auxiliary_fault(
    target: VisionTeacherTargetConfig,
    student_tokens: usize,
    index: usize,
) -> Option<DistillDataError> {
    match target.teacher {
        VisionTeacherConfig::Model(_) => Some(DistillDataError::AuxiliaryModel { target: index }),
        VisionTeacherConfig::Features(teacher) => match target_tokens_of(
            target.target_kind,
            target.decoder_mode,
            teacher.patch_tokens,
            student_tokens,
            index,
        ) {
            Err(error) => Some(error),
            Ok(_) => if target.target_kind != VisionTeacherTargetKind::PatchAndCls {
                None
            } else if teacher.train_patch_path is None {
                Some(DistillDataError::AuxiliaryTrainPatchPath { target: index })
            } else if teacher.val_patch_path is None {
                Some(DistillDataError::AuxiliaryValPatchPath { target: index })
            } else {
                None
            },
        },
    }
}

/// Whether `stores` are those of an auxiliary target.
pub open spec fn are_auxiliary_stores(
    stores: TeacherStores,
    target: VisionTeacherTargetConfig,
    train_records: int,
    val_records: int,
    student_tokens: usize,
    index: usize,
    cache: bool,
) -> bool {
    &&& target.teacher matches VisionTeacherConfig::Features(teacher) && are_stores_of(
        stores,
        teacher,
        target.target_kind == VisionTeacherTargetKind::PatchAndCls,
        target_tokens_of(
            target.target_kind,
            target.decoder_mode,
            teacher.patch_tokens,
            student_tokens,
            index,
        )->Ok_0,
        train_records,
        val_records,
        cache,
    )
}

/// Plans the stores of one auxiliary target.
pub fn plan_auxiliary_target(
    target: &VisionTeacherTargetConfig,
    train_records: usize,
    val_records: usize,
    student_tokens: usize,
    index: usize,
    cache: bool,
) -> (result: Result<TeacherStores, DistillDataError>)
    ensures
        match result {
            Ok(stores) => auxiliary_fault(*target, student_tokens, index) is None
                && are_auxiliary_stores(
                stores,
                *target,
                train_records as int,
                val_records as int,
                student_tokens,
                index,
                cache,
            ),
            Err(error) => auxiliary_fault(*target, student_tokens, index) == Some(error),
        },
{
    match &target.teacher {
        VisionTeacherConfig::Model(_) => Err(DistillDataError::AuxiliaryModel { target: index }),
        VisionTeacherConfig::Features(teacher) => {
            let tokens: Option<usize> = match teacher_target_patch_tokens(
                target,
                teacher.patch_tokens,
                student_tokens,
                index,
            ) {
                Ok(tokens) => tokens,
                Err(error) => {
                    return Err(error);
                },
            };
            let patches: bool = target.target_kind == VisionTeacherTargetKind::PatchAndCls;
            if patches {
                if teacher.train_patch_path.is_none() {
                    return Err(DistillDataError::AuxiliaryTrainPatchPath { target: index });
                }
                if teacher.val_patch_path.is_none() {
                    return Err(DistillDataError::AuxiliaryValPatchPath { target: index });
                }
            }
            Ok(request_stores(teacher, patches, tokens, train_records, val_records, cache))
        },
    }
}

/// Plans the stores of all auxiliary targets; the first fault ends the planning.
pub fn plan_auxiliary_targets(
    targets: &Vec<VisionTeacherTargetConfig>,
    train_records: usize,
    val_records: usize,
    student_tokens: usize,
    cache: bool,
) -> (result: Result<Vec<TeacherStores>, DistillDataError>)
    ensures
        match result {
            Ok(stores) => {
                &&& stores@.len() == targets@.len()
                &&& forall|i: int|
                    0 <= i < targets@.len() ==> auxiliary_fault(
                        #[trigger] targets@[i],
                        student_tokens,
                        i as usize,
                    ) is None && are_auxiliary_stores(
                        stores@[i],
                        targets@[i],
                        train_records as int,
                        val_records as int,
                        student_tokens,
                        i as usize,
                        cache,
                    )
            },
            Err(error) => exists|i: int|
                0 <= i < targets@.len() && auxiliary_fault(
                    #[trigger] targets@[i],
                    student_tokens,
                    i as usize,
                ) == Some(error) && forall|j: int|
                    0 <= j < i ==> auxiliary_fault(
                        #[trigger] targets@[j],
                        student_tokens,
                        j as usize,
                    ) is None,
        },
{
    let mut stores: Vec<TeacherStores> = Vec::new();
    let mut i: usize = 0;
    while i < targets.len()
        invariant
            i <= targets@.len(),
            stores@.len() == i,
            forall|j: int|
                0 <= j < i ==> auxiliary_fault(
                    #[trigger] targets@[j],
                    student_tokens,
                    j as usize,
                ) is None && are_auxiliary_stores(
                    stores@[j],
                    targets@[j],
                    train_records as int,
                    val_records as int,
                    student_tokens,
                    j as usize,
                    cache,
                ),
        decreases targets@.len() - i,
    {
        match plan_auxiliary_target(
            &targets[i],
            train_records,
            val_records,
            student_tokens,
            i,
            cache,
        ) {
            Ok(store) => {
                let ghost before = stores@;
                stores.push(store);
                assert forall|j: int| 0 <= j < i implies stores@[j] == before[j] by {}
            },
            Err(error) => {
                assert(auxiliary_fault(targets@[i as int], student_tokens, i) == Some(error));
                return Err(error);
            },
        }
        i += 1;
    }
    Ok(stores)
}

/// The settings of a distillation run that decide how its checkpoints are evaluated.
#[derive(Clone, Copy, Debug, PartialEq, Eq, Structural)]
pub struct DistillEvalSettings {
    pub batch_size: usize,
    pub image_size: usize,
    pub patch_size: usize,
    pub augment_image_size: usize,
    pub is_distill: bool,
}

/// Why the evaluation of a checkpoint ended without a summary.
#[derive(Clone, Copy, Debug, PartialEq, Eq, Structural)]
pub enum DistillEvalRefusal {
    Settings(RunSettingsError),
    CheckpointMissing,
    NoBatches,
    /// The last action could not be performed.
    Failed,
}

/// What the evaluation of a checkpoint waits for.
#[derive(Clone, Copy, Debug, PartialEq, Eq, Structural)]
pub enum DistillEvalPhase {
    Backend,
    Rollout,
    Download,
    Datasets,
    Checkpoint { valid_steps: usize },
    Model { valid_steps: usize },
    Batches { batches: usize },
    Ended,
}

/// What is to be done next.
#[derive(Clone, Copy, Debug, PartialEq, Eq, Structural)]
pub enum DistillEvalAction {
    /// Seed the backend and start it.
    StartBackend { seed: u64 },
    ResolveRollout,
    DownloadDataset,
    LoadDatasets { student_patch_tokens: usize },
    FindCheckpoint,
    LoadModel,
    /// Evaluate the next batch of an epoch of this many, and add its metrics to the sums.
    EvaluateBatch { valid_steps: usize },
    NextBatch,
    /// Divide the sums by the number of batches.
    Summarize { batches: usize },
    Refuse(DistillEvalRefusal),
    /// The event came out of turn: nothing is to be done.
    Nothing,
}

/// What became of the last action.
#[derive(Clone, Copy, Debug, PartialEq, Eq, Structural)]
pub enum DistillEvalEvent {
    BackendStarted,
    RolloutResolved,
    DatasetReady,
    /// The datasets are open: the steps of an epoch over the validation split.
    DatasetsLoaded { valid_steps: usize },
    CheckpointLooked { found: bool },
    ModelLoaded,
    BatchEvaluated,
    EpochOver,
    Failed,
}

/// What follows an event: the next phase and the next action.
pub open spec fn eval_step_of(
    settings: DistillEvalSettings,
    phase: DistillEvalPhase,
    event: DistillEvalEvent,
) -> (DistillEvalPhase, DistillEvalAction) {
    match (phase, event) {
        (DistillEvalPhase::Ended, _) => (phase, DistillEvalAction::Nothing),
        (_, DistillEvalEvent::Failed) => (
            DistillEvalPhase::Ended,
            DistillEvalAction::Refuse(DistillEvalRefusal::Failed),
        ),
        (DistillEvalPhase::Backend, DistillEvalEvent::BackendStarted) => match eval_fault(
            settings,
        ) {
            Some(fault) => (
                DistillEvalPhase::Ended,
                DistillEvalAction::Refuse(DistillEvalRefusal::Settings(fault)),
            ),
            None => (DistillEvalPhase::Rollout, DistillEvalAction::ResolveRollout),
        },
        (DistillEvalPhase::Rollout, DistillEvalEvent::RolloutResolved) => (
            DistillEvalPhase::Download,
            DistillEvalAction::DownloadDataset,
        ),
        (DistillEvalPhase::Download, DistillEvalEvent::DatasetReady) => (
            DistillEvalPhase::Datasets,
            DistillEvalAction::LoadDatasets {
                student_patch_tokens: student_tokens_of(
                    settings.image_size as int,
                    settings.patch_size as int,
                ) as usize,
            },
        ),
        (DistillEvalPhase::Datasets, DistillEvalEvent::DatasetsLoaded { valid_steps }) => (
            DistillEvalPhase::Checkpoint { valid_steps },
            DistillEvalAction::FindCheckpoint,
        ),
        (
            DistillEvalPhase::Checkpoint { valid_steps },
            DistillEvalEvent::CheckpointLooked { found },
        ) => if found {
            (DistillEvalPhase::Model { valid_steps }, DistillEvalAction::LoadModel)
        } else {
            (
                DistillEvalPhase::Ended,
                DistillEvalAction::Refuse(DistillEvalRefusal::CheckpointMissing),
            )
        },
        (DistillEvalPhase::Model { valid_steps }, DistillEvalEvent::ModelLoaded) => (
            DistillEvalPhase::Batches { batches: 0 },
            DistillEvalAction::EvaluateBatch { valid_steps },
        ),
        (DistillEvalPhase::Batches { batches }, DistillEvalEvent::BatchEvaluated) => (
            DistillEvalPhase::Batches { batches: (batches + 1) as usize },
            DistillEvalAction::NextBatch,
        ),
        (DistillEvalPhase::Batches { batches }, DistillEvalEvent::EpochOver) => (
            DistillEvalPhase::Ended,
            if batches == 0 {
                DistillEvalAction::Refuse(DistillEvalRefusal::NoBatches)
            } else {
                DistillEvalAction::Summarize { batches }
            },
        ),
        _ => (phase, DistillEvalAction::Nothing),
    }
}

/// The evaluation of a distillation checkpoint in progress.
#[derive(Clone, Copy, Debug, PartialEq, Eq, Structural)]
pub struct DistillEvalSession {
    pub settings: DistillEvalSettings,
    pub phase: DistillEvalPhase,
}

/// The first thing that is wrong with the settings of an evaluation.
pub open spec fn eval_fault(settings: DistillEvalSettings) -> Option<RunSettingsError> {
    distill_settings_fault(
        settings.batch_size as int,
        settings.patch_size as int,
        settings.augment_image_size as int,
        settings.image_size as int,
        settings.is_distill,
    )
}

impl DistillEvalSession {
    /// The tokens can be counted, and only valid settings get past the start.
    pub open spec fn wf(self) -> bool {
        &&& self.phase is Backend || self.phase is Ended || eval_fault(self.settings) is None
        &&& !(self.phase is Ended) && self.settings.patch_size > 0 ==> student_tokens_of(
            self.settings.image_size as int,
            self.settings.patch_size as int,
        ) <= usize::MAX
    }

    /// Takes an event and says what is to be done next.
    pub fn advance(&mut self, event: DistillEvalEvent) -> (action: DistillEvalAction)
        requires
            old(self).wf(),
            old(self).phase matches DistillEvalPhase::Batches { batches } ==> batches < usize::MAX,
        ensures
            final(self).wf(),
            final(self).settings == old(self).settings,
            (final(self).phase, action) == eval_step_of(old(self).settings, old(self).phase, event),
    {
        let phase = self.phase;
        match (phase, event) {
            (DistillEvalPhase::Ended, _) => DistillEvalAction::Nothing,
            (_, DistillEvalEvent::Failed) => {
                self.phase = DistillEvalPhase::Ended;
                DistillEvalAction::Refuse(DistillEvalRefusal::Failed)
            },
            (DistillEvalPhase::Backend, DistillEvalEvent::BackendStarted) => {
                match check_distill_settings(
                    self.settings.batch_size,
                    self.settings.patch_size,
                    self.settings.augment_image_size,
                    self.settings.image_size,
                    self.settings.is_distill,
                ) {
                    Err(fault) => {
                        self.phase = DistillEvalPhase::Ended;
                        DistillEvalAction::Refuse(DistillEvalRefusal::Settings(fault))
                    },
                    Ok(_) => {
                        self.phase = DistillEvalPhase::Rollout;
                        DistillEvalAction::ResolveRollout
                    },
                }
            },
            (DistillEvalPhase::Rollout, DistillEvalEvent::RolloutResolved) => {
                self.phase = DistillEvalPhase::Download;
                DistillEvalAction::DownloadDataset
            },
            (DistillEvalPhase::Download, DistillEvalEvent::DatasetReady) => {
                self.phase = DistillEvalPhase::Datasets;
                DistillEvalAction::LoadDatasets {
                    student_patch_tokens: student_patch_tokens(
                        self.settings.image_size,
                        self.settings.patch_size,
                    ),
                }
            },
            (DistillEvalPhase::Datasets, DistillEvalEvent::DatasetsLoaded { valid_steps }) => {
                self.phase = DistillEvalPhase::Checkpoint { valid_steps };
                DistillEvalAction::FindCheckpoint
            },
            (
                DistillEvalPhase::Checkpoint { valid_steps },
                DistillEvalEvent::CheckpointLooked { found },
            ) => if found {
                self.phase = DistillEvalPhase::Model { valid_steps };
                DistillEvalAction::LoadModel
            } else {
                self.phase = DistillEvalPhase::Ended;
                DistillEvalAction::Refuse(DistillEvalRefusal::CheckpointMissing)
            },
            (DistillEvalPhase::Model { valid_steps }, DistillEvalEvent::ModelLoaded) => {
                self.phase = DistillEvalPhase::Batches { batches: 0 };
                DistillEvalAction::EvaluateBatch { valid_steps }
            },
            (DistillEvalPhase::Batches { batches }, DistillEvalEvent::BatchEvaluated) => {
                self.phase = DistillEvalPhase::Batches { batches: batches + 1 };
                DistillEvalAction::NextBatch
            },
            (DistillEvalPhase::Batches { batches }, DistillEvalEvent::EpochOver) => {
                self.phase = DistillEvalPhase::Ended;
                if batches == 0 {
                    DistillEvalAction::Refuse(DistillEvalRefusal::NoBatches)
                } else {
                    DistillEvalAction::Summarize { batches }
                }
            },
            _ => DistillEvalAction::Nothing,
        }
    }
}

/// Starts the evaluation of a checkpoint: the backend is seeded and started. After that the settings
/// are checked, before anything is loaded.
pub fn eval_vision_distill_checkpoint_backend(settings: &DistillEvalSettings) -> (started: (
    DistillEvalSession,
    DistillEvalAction,
))
    requires
        settings.patch_size > 0 ==> student_tokens_of(
            settings.image_size as int,
            settings.patch_size as int,
        ) <= usize::MAX,
    ensures
        started.0.wf(),
        started.0.settings == *settings,
        started.0.phase == DistillEvalPhase::Backend,
        started.1 == (DistillEvalAction::StartBackend { seed: TRAINING_SEED }),
{
    (
        DistillEvalSession { settings: *settings, phase: DistillEvalPhase::Backend },
        DistillEvalAction::StartBackend { seed: TRAINING_SEED },
    )
}

/// The phase after `n` evaluated batches.
pub open spec fn phase_after_batches(
    settings: DistillEvalSettings,
    phase: DistillEvalPhase,
    n: nat,
) -> DistillEvalPhase
    decreases n,
{
    if n == 0 {
        phase
    } else {
        eval_step_of(
            settings,
            phase_after_batches(settings, phase, (n - 1) as nat),
            DistillEvalEvent::BatchEvaluated,
        ).0
    }
}

/// A summary divides by exactly the batches that were evaluated, and an epoch without any is refused.
pub proof fn law_summary_counts_the_batches(
    settings: DistillEvalSettings,
    valid_steps: usize,
    n: nat,
)
    requires
        n <= usize::MAX,
    ensures
        ({
            let start = eval_step_of(
                settings,
                DistillEvalPhase::Model { valid_steps },
                DistillEvalEvent::ModelLoaded,
            ).0;
            let phase = phase_after_batches(settings, start, n);
            let action = eval_step_of(settings, phase, DistillEvalEvent::EpochOver).1;
            action == (if n == 0 {
                DistillEvalAction::Refuse(DistillEvalRefusal::NoBatches)
            } else {
                DistillEvalAction::Summarize { batches: n as usize }
            })
        }),
{
    lemma_batches_add_up(settings, n);
}

proof fn lemma_batches_add_up(settings: DistillEvalSettings, n: nat)
    requires
        n <= usize::MAX,
    ensures
        phase_after_batches(settings, DistillEvalPhase::Batches { batches: 0 }, n) == (
        DistillEvalPhase::Batches { batches: n as usize }),
    decreases n,
{
    if n > 0 {
        lemma_batches_add_up(settings, (n - 1) as nat);
    }
}

/// The patches of the student form a square that covers the image, and one patch fewer along a side
/// would not.
pub proof fn law_student_patches_cover_the_image(image_size: usize, patch_size: usize)
    requires
        patch_size > 0,
    ensures
        exists|side: int|
            0 <= side && #[trigger] (side * side) == student_tokens_of(
                image_size as int,
                patch_size as int,
            ) && side * patch_size >= image_size && (image_size > 0 ==> (side - 1) * patch_size
                < image_size),
{
    let side = ceil_div_of(image_size as int, patch_size as int);
    crate::numeric::law_ceil_div_is_tight(image_size as int, patch_size as int);
    vstd::arithmetic::div_mod::lemma_div_pos_is_pos(
        image_size as int + patch_size as int - 1,
        patch_size as int,
    );
    assert(side * side == student_tokens_of(image_size as int, patch_size as int));
}

/// A run goes ahead exactly where its batches and patches are not empty, both image sizes agree and
/// it is a distillation. Otherwise the first of these that fails is named.
pub proof fn law_settings_are_refused_for_their_first_fault(
    batch_size: usize,
    patch_size: usize,
    augment_image_size: usize,
    vision_image_size: usize,
    is_distill: bool,
)
    ensures
        ({
            let fault = distill_settings_fault(
                batch_size as int,
                patch_size as int,
                augment_image_size as int,
                vision_image_size as int,
                is_distill,
            );
            &&& fault is None <==> batch_size >= 1 && patch_size >= 1 && augment_image_size
                == vision_image_size && is_distill
            &&& fault == Some(RunSettingsError::ZeroBatchSize) <==> batch_size == 0
            &&& fault == Some(RunSettingsError::ZeroPatchSize) <==> batch_size >= 1 && patch_size
                == 0
            &&& fault == Some(RunSettingsError::WrongMode) <==> batch_size >= 1 && patch_size >= 1
                && augment_image_size == vision_image_size && !is_distill
            &&& fault matches Some(RunSettingsError::ImageSize { augment, vision }) ==> {
                &&& augment == augment_image_size && vision == vision_image_size
                &&& augment != vision
            }
        }),
{
}

/// A target without patches is supervised with none, whatever is configured. With patches, a spatial
/// decoder takes the configured count and needs one; the others take the student's count, and refuse
/// another one.
pub proof fn law_only_spatial_decoders_change_the_tokens(
    target_kind: VisionTeacherTargetKind,
    decoder_mode: VisionTeacherDecoderMode,
    configured: Option<usize>,
    student: usize,
    target: usize,
)
    ensures
        ({
            let result = target_tokens_of(target_kind, decoder_mode, configured, student, target);
            let patches = target_kind is PatchAndCls;
            let spatial = decoder_mode is DedicatedSpatialProjection;
            &&& !patches <==> result == Ok::<Option<usize>, DistillDataError>(None)
            &&& patches && spatial && result is Ok ==> result->Ok_0 == configured
            &&& patches && !spatial && result is Ok ==> result->Ok_0 == Some(student)
            &&& result is Err <==> patches && (if spatial {
                configured is None
            } else {
                configured is Some && configured->0 != student
            })
            &&& result matches Err(error) ==> error == (if spatial {
                DistillDataError::AuxiliaryTokensMissing { target }
            } else {
                DistillDataError::AuxiliaryTokens { target, teacher: configured->0, student }
            })
        }),
{
}

/// The training features and the validation features of a teacher are opened each from its own files
/// and with its own number of records; apart from that both are opened alike. Patches are opened only
/// where they are asked for.
pub proof fn law_each_split_opens_its_own_features(
    stores: TeacherStores,
    teacher: VisionTeacherFeatureConfig,
    patches: bool,
    tokens: Option<usize>,
    train_records: int,
    val_records: int,
    cache: bool,
)
    requires
        are_stores_of(stores, teacher, patches, tokens, train_records, val_records, cache),
    ensures
        stores.train.cls_path@ == teacher.train_cls_path@,
        stores.val.cls_path@ == teacher.val_cls_path@,
        patches ==> (stores.train.patch_path is Some <==> teacher.train_patch_path is Some),
        patches ==> (stores.val.patch_path is Some <==> teacher.val_patch_path is Some),
        patches && teacher.train_patch_path is Some ==> stores.train.patch_path->0@
            == teacher.train_patch_path->0@,
        patches && teacher.val_patch_path is Some ==> stores.val.patch_path->0@
            == teacher.val_patch_path->0@,
        !patches ==> stores.train.patch_path is None && stores.val.patch_path is None,
        stores.train.expected_records == train_records,
        stores.val.expected_records == val_records,
        stores.train.feature_dim == teacher.feature_dim,
        stores.val.feature_dim == teacher.feature_dim,
        stores.train.patch_tokens == tokens && stores.val.patch_tokens == tokens,
        stores.train.cache_in_memory == cache && stores.val.cache_in_memory == cache,
{
}

/// Stored features serve as the primary teacher exactly where they have the student's width, no
/// other token count than the student's, and patch files of both splits.
pub proof fn law_primary_features_match_the_student(
    teacher: VisionTeacherFeatureConfig,
    projection_dim: usize,
    student_tokens: usize,
)
    ensures
        ({
            let fault = primary_features_fault(teacher, projection_dim, student_tokens);
            let wide = teacher.feature_dim == projection_dim;
            let counted = teacher.patch_tokens is None || teacher.patch_tokens == Some(
                student_tokens,
            );
            &&& fault is None <==> wide && counted && teacher.train_patch_path is Some
                && teacher.val_patch_path is Some
            &&& !wide <==> fault == Some(
                DistillDataError::FeatureDim {
                    teacher: teacher.feature_dim,
                    student: projection_dim,
                },
            )
            &&& wide && !counted <==> fault is Some && fault->0 is PatchTokens
            &&& fault matches Some(DistillDataError::PatchTokens { teacher: t, student }) ==> Some(t)
                == teacher.patch_tokens && student == student_tokens
            &&& fault == Some(DistillDataError::MissingTrainPatchPath) <==> wide && counted
                && teacher.train_patch_path is None
            &&& fault == Some(DistillDataError::MissingValPatchPath) <==> wide && counted
                && teacher.train_patch_path is Some && teacher.val_patch_path is None
        }),
{
}

/// A network serves as the primary teacher exactly where whole patches cover its images, there are as
/// many as the student's and as configured, and its features are as wide as the student's, as
/// configured and as the network itself. What it does not say of its sizes is as for the student.
pub proof fn law_teacher_networks_match_the_student(
    teacher: VisionTeacherModelConfig,
    vision_image_size: usize,
    vision_patch_size: usize,
    projection_dim: usize,
    student_tokens: usize,
    image: usize,
    patch: usize,
)
    requires
        teacher.image_size == Some(image) || (teacher.image_size is None && image
            == vision_image_size),
        teacher.patch_size == Some(patch) || (teacher.patch_size is None && patch
            == vision_patch_size),
    ensures
        ({
            let fault = model_teacher_fault(
                teacher,
                vision_image_size,
                vision_patch_size,
                projection_dim,
                student_tokens,
            );
            &&& fault is None <==> exists|side: int|
                patch > 0 && side * patch == image && #[trigger] (side * side) == student_tokens && (
                teacher.patch_tokens is None || teacher.patch_tokens == Some(student_tokens))
                    && teacher.variant_dim == projection_dim && (teacher.feature_dim is None
                    || teacher.feature_dim == Some(projection_dim))
            &&& patch == 0 <==> fault == Some(DistillDataError::ModelPatchSizeZero)
            &&& patch > 0 && (forall|side: int| #[trigger] (side * patch) != image) <==> fault
                is Some && fault->0 is ModelImageNotDivisible
        }),
{
    let fault = model_teacher_fault(
        teacher,
        vision_image_size,
        vision_patch_size,
        projection_dim,
        student_tokens,
    );
    if patch > 0 {
        let (i, p) = (image as int, patch as int);
        vstd::arithmetic::div_mod::lemma_fundamental_div_mod(i, p);
        vstd::arithmetic::mul::lemma_mul_is_commutative(p, i / p);
        if i % p == 0 {
            let side = i / p;
            assert(side * patch == image);
            vstd::arithmetic::div_mod::lemma_fundamental_div_mod_converse(
                i + p - 1,
                p,
                side,
                p - 1,
            );
            assert(student_tokens_of(i, p) == side * side);
            assert forall|other: int| #[trigger] (other * patch) == image implies other == side by {
                vstd::arithmetic::div_mod::lemma_fundamental_div_mod_converse(i, p, other, 0);
            }
        } else {
            assert forall|side: int| #[trigger] (side * patch) != image by {
                if side * patch == image {
                    vstd::arithmetic::div_mod::lemma_fundamental_div_mod_converse(i, p, side, 0);
                }
            }
        }
    }
}

/// An auxiliary target is served exactly by stored features; where its patches are supervised, their
/// count must be told and patch files of both splits be there.
pub proof fn law_auxiliary_targets_are_stored_features(
    target: VisionTeacherTargetConfig,
    student_tokens: usize,
    index: usize,
)
    ensures
        ({
            let fault = auxiliary_fault(target, student_tokens, index);
            let patches = target.target_kind is PatchAndCls;
            &&& target.teacher is Model <==> fault == Some(
                DistillDataError::AuxiliaryModel { target: index },
            )
            &&& target.teacher is Features && !patches ==> fault is None
            &&& target.teacher matches VisionTeacherConfig::Features(teacher) ==> patches ==> {
                let told = if target.decoder_mode is DedicatedSpatialProjection {
                    teacher.patch_tokens is Some
                } else {
                    teacher.patch_tokens is None || teacher.patch_tokens == Some(student_tokens)
                };
                &&& fault is None <==> told && teacher.train_patch_path is Some
                    && teacher.val_patch_path is Some
                &&& fault == Some(DistillDataError::AuxiliaryTrainPatchPath { target: index })
                    <==> told && teacher.train_patch_path is None
                &&& fault == Some(DistillDataError::AuxiliaryValPatchPath { target: index }) <==> told
                    && teacher.train_patch_path is Some && teacher.val_patch_path is None
            }
        }),
{
}

/// Nothing is loaded for a run that is refused, and every action follows the success of the one
/// before it. An evaluation ends with a summary or a refusal, and then does nothing more.
pub proof fn law_evaluation_goes_step_by_step(
    settings: DistillEvalSettings,
    phase: DistillEvalPhase,
    event: DistillEvalEvent,
)
    ensures
        ({
            let (next, action) = eval_step_of(settings, phase, event);
            &&& action == DistillEvalAction::ResolveRollout <==> {
                &&& phase == DistillEvalPhase::Backend && event == DistillEvalEvent::BackendStarted
                &&& settings.batch_size >= 1 && settings.patch_size >= 1
                &&& settings.augment_image_size == settings.image_size && settings.is_distill
            }
            &&& action == DistillEvalAction::DownloadDataset <==> phase == DistillEvalPhase::Rollout
                && event == DistillEvalEvent::RolloutResolved
            &&& action is LoadDatasets <==> phase == DistillEvalPhase::Download && event
                == DistillEvalEvent::DatasetReady
            &&& action == DistillEvalAction::FindCheckpoint <==> phase == DistillEvalPhase::Datasets
                && event is DatasetsLoaded
            &&& action == DistillEvalAction::LoadModel <==> phase is Checkpoint && event == (
            DistillEvalEvent::CheckpointLooked { found: true })
            &&& action is EvaluateBatch <==> phase is Model && event == DistillEvalEvent::ModelLoaded
            &&& action == DistillEvalAction::NextBatch <==> phase is Batches && event
                == DistillEvalEvent::BatchEvaluated
            &&& next == DistillEvalPhase::Ended && phase != DistillEvalPhase::Ended <==> action
                is Refuse || action is Summarize
            &&& action == DistillEvalAction::Refuse(DistillEvalRefusal::Failed) <==> event
                == DistillEvalEvent::Failed && phase != DistillEvalPhase::Ended
            &&& action == DistillEvalAction::Nothing ==> next == phase
            &&& phase == DistillEvalPhase::Ended ==> action == DistillEvalAction::Nothing
            &&& (event matches DistillEvalEvent::DatasetsLoaded { valid_steps } ==> action
                == DistillEvalAction::FindCheckpoint ==> next == DistillEvalPhase::Checkpoint {
                valid_steps,
            })
            &&& (phase matches DistillEvalPhase::Checkpoint { valid_steps } ==> action
                == DistillEvalAction::LoadModel ==> next == DistillEvalPhase::Model { valid_steps })
            &&& (phase matches DistillEvalPhase::Model { valid_steps } ==> action is EvaluateBatch
                ==> action == DistillEvalAction::EvaluateBatch { valid_steps })
        }),
{
}

/// Patch files of an auxiliary target are opened exactly where its patches are supervised, with as
/// many tokens as it is supervised with.
pub proof fn law_auxiliary_patches_are_opened_where_supervised(
    stores: TeacherStores,
    target: VisionTeacherTargetConfig,
    train_records: int,
    val_records: int,
    student_tokens: usize,
    index: usize,
    cache: bool,
)
    requires
        are_auxiliary_stores(
            stores,
            target,
            train_records,
            val_records,
            student_tokens,
            index,
            cache,
        ),
        auxiliary_fault(target, student_tokens, index) is None,
    ensures
        ({
            let patches = target.target_kind is PatchAndCls;
            let teacher = target.teacher->Features_0;
            &&& target.teacher is Features
            &&& stores.train.patch_path is Some <==> patches
            &&& stores.val.patch_path is Some <==> patches
            &&& stores.train.patch_tokens is Some <==> patches
            &&& stores.val.patch_tokens == stores.train.patch_tokens
            &&& patches && target.decoder_mode is DedicatedSpatialProjection
                ==> stores.train.patch_tokens == teacher.patch_tokens
            &&& patches && !(target.decoder_mode is DedicatedSpatialProjection)
                ==> stores.train.patch_tokens == Some(student_tokens)
            &&& stores.train.cls_path@ == teacher.train_cls_path@
            &&& stores.val.cls_path@ == teacher.val_cls_path@
            &&& stores.train.expected_records == train_records
            &&& stores.val.expected_records == val_records
        }),
{
}

} // verus!
