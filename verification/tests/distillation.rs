use burn_dragon_vision::artifact::{push_vision_artifact_markdown_prelude, VisionArtifactHeader};
use burn_dragon_vision::config::{
    VisionDistillConfig, VisionDistillationLossConfig, VisionTeacherConfig,
    VisionTeacherDecoderMode, VisionTeacherFeatureConfig, VisionTeacherModelConfig,
    VisionTeacherTargetConfig, VisionTeacherTargetKind,
};
use burn_dragon_vision::distill::{
    auxiliary_teacher_head, default_auxiliary_decoder_hidden_dim,
    distill_config_for_teacher_target, group_by_shape, patch_grid_from_tokens, plan_distill_model,
    plan_resampling, plan_teacher_targets, split_batched_rows, teacher_decoder_head,
    GridResampling, LossShapeKey, PatchGrid, RowRange, TargetBatchShape, TargetPlan,
};
use burn_dragon_vision::distill_runtime::{
    check_distill_settings, eval_vision_distill_checkpoint_backend, plan_auxiliary_target,
    plan_auxiliary_targets, plan_primary_teacher, primary_teacher_stores, student_patch_tokens,
    teacher_target_patch_tokens, DistillDataError, DistillEvalAction, DistillEvalEvent,
    DistillEvalRefusal, DistillEvalSettings, PrimaryTeacher, RunSettingsError,
};
use burn_dragon_vision::probe::{
    batch_ranges, best_class, count_correct, decode_probe_outcome, feature_probe_outcome,
    limit_probe_splits, linear_probe_outcome, patch_grid_from_tokens as probe_patch_grid,
    plan_decode, probe_steps, resolve_probe_teacher_spec, step_seed, DecodePlan, FeatureExport, ProbeError, ProbeOutcome, ReportedAccuracy,
    ReportedLosses, ReportedStep, StepScore, VisionDistillDecodeProbeReport,
    VisionDistillFeatureProbeReport, VisionDistillLinearProbeReport,
    VISION_DISTILL_DECODE_PROBE_HARNESS_VERSION, VISION_DISTILL_FEATURE_PROBE_HARNESS_VERSION,
    VISION_DISTILL_LINEAR_PROBE_HARNESS_VERSION,
};
use burn_dragon_vision::rollout::VisionRollout;
use burn_dragon_vision::samples::ImageSample;
use burn_dragon_vision::scalar::{Double, Single};
use burn_dragon_vision::serving::{
    plan_serving_benchmark, step_window, validation_probe_tokens, DeployMeasurement, StepWindow,
    ValidationProbeError, VisionDistillDeploySmokePrecision, VisionDistillDeploySmokeReport,
    VisionDistillServingBenchmarkReport, VisionDistillServingStepMetrics,
};

fn single(value: f32) -> Single {
    Single { bits: value.to_bits() }
}

fn loss() -> VisionDistillationLossConfig {
    VisionDistillationLossConfig {
        patch_mse_weight: single(1.0),
        cls_mse_weight: single(0.5),
        cls_cosine_weight: single(0.25),
        rel_weight: single(0.1),
        rel_tau: single(0.07),
        rel_sample_tokens: Some(32),
    }
}

fn features(dim: usize, tokens: Option<usize>) -> VisionTeacherFeatureConfig {
    VisionTeacherFeatureConfig {
        train_cls_path: "train_cls.bin".to_string(),
        val_cls_path: "val_cls.bin".to_string(),
        train_patch_path: Some("train_patch.bin".to_string()),
        val_patch_path: Some("val_patch.bin".to_string()),
        feature_dim: dim,
        patch_tokens: tokens,
    }
}

fn target(
    name: &str,
    kind: VisionTeacherTargetKind,
    mode: VisionTeacherDecoderMode,
    teacher: VisionTeacherConfig,
) -> VisionTeacherTargetConfig {
    VisionTeacherTargetConfig {
        name: name.to_string(),
        weight: single(0.5),
        target_kind: kind,
        decoder_mode: mode,
        decoder_hidden_dim: None,
        teacher,
    }
}

fn distill(targets: Vec<VisionTeacherTargetConfig>) -> VisionDistillConfig {
    VisionDistillConfig {
        teacher: VisionTeacherConfig::Features(features(64, Some(16))),
        teacher_targets: targets,
        loss: loss(),
        rollout_supervision_frames: 4,
        rollout_supervision_stride: 2,
        rollout_supervision_groups: 0,
        rollout_supervision_explicit_steps: vec![4, 2, 2],
        rollout_supervision_explicit_groups: vec![vec![3, 1]],
        rollout_supervision_include_step1: true,
        rollout_supervision_power: single(1.0),
        rollout_sampling_power: single(1.0),
        rollout_improvement_weight: single(0.0),
        rollout_improvement_margin: single(0.0),
        student_checkpoint: None,
    }
}

fn model(image: Option<usize>, patch: Option<usize>) -> VisionTeacherModelConfig {
    VisionTeacherModelConfig {
        image_size: image,
        patch_size: patch,
        patch_tokens: None,
        feature_dim: None,
        variant_dim: 64,
    }
}

#[test]
fn prelude_names_kind_and_schema() {
    let mut out = "x".to_string();
    let header = VisionArtifactHeader::new("demo_kind");
    push_vision_artifact_markdown_prelude(&mut out, "Demo", &header);
    assert_eq!(
        out,
        "x# Demo\n\n- artifact kind: `demo_kind`\n- schema version: `1`\n"
    );
}

#[test]
fn targets_without_patches_lose_their_patch_terms() {
    let full = distill_config_for_teacher_target(&loss(), VisionTeacherTargetKind::PatchAndCls, true);
    assert_eq!(full, loss());
    for (kind, patch) in [
        (VisionTeacherTargetKind::PatchAndCls, false),
        (VisionTeacherTargetKind::ClsOnly, true),
        (VisionTeacherTargetKind::GlobalOnly, true),
    ] {
        let cut = distill_config_for_teacher_target(&loss(), kind, patch);
        assert_eq!((cut.patch_mse_weight, cut.rel_weight), (single(0.0), single(0.0)));
        assert_eq!(cut.cls_mse_weight, single(0.5));
    }
}

#[test]
fn decoder_heads_follow_the_targets() {
    assert_eq!(default_auxiliary_decoder_hidden_dim(64, 100), 200);
    assert_eq!(default_auxiliary_decoder_hidden_dim(0, 0), 1);
    assert_eq!(default_auxiliary_decoder_hidden_dim(usize::MAX, 1), usize::MAX);
    let shared = target(
        "a",
        VisionTeacherTargetKind::PatchAndCls,
        VisionTeacherDecoderMode::SharedProjection,
        VisionTeacherConfig::Features(features(64, None)),
    );
    assert!(teacher_decoder_head(&shared, 64).is_none());
    let spatial = target(
        "b",
        VisionTeacherTargetKind::PatchAndCls,
        VisionTeacherDecoderMode::DedicatedSpatialProjection,
        VisionTeacherConfig::Features(features(96, Some(49))),
    );
    let head = teacher_decoder_head(&spatial, 64).unwrap();
    assert_eq!((head.hidden_dim, head.target_dim, head.patch_tokens), (192, 96, Some(49)));
    assert!(head.has_patch_head);
    let plan = plan_distill_model(
        &distill(vec![shared, spatial]),
        64,
        &VisionRollout { min_steps: 1, max_steps: 8, backprop_steps: 4 },
    );
    assert_eq!(plan.heads.len(), 1);
    assert_eq!(auxiliary_teacher_head(&plan.heads, &"b".to_string()), Some(0));
    assert_eq!(auxiliary_teacher_head(&plan.heads, &"a".to_string()), None);
    assert_eq!(plan.supervision_groups, 1);
    assert_eq!(plan.supervision_stride, 2);
}

#[test]
fn grids_are_square() {
    assert_eq!(patch_grid_from_tokens(49), PatchGrid { height: 7, width: 7 });
    assert_eq!(patch_grid_from_tokens(0), PatchGrid { height: 0, width: 0 });
    assert_eq!(probe_patch_grid(49).unwrap(), (7, 7));
    assert!(matches!(probe_patch_grid(50), Err(ProbeError::NoPatchGrid)));
    assert_eq!(plan_resampling(49, 49), Some(GridResampling::Keep));
    assert_eq!(
        plan_resampling(64, 16),
        Some(GridResampling::AveragePool(PatchGrid { height: 4, width: 4 }))
    );
    assert_eq!(
        plan_resampling(16, 64),
        Some(GridResampling::Nearest(PatchGrid { height: 8, width: 8 }))
    );
    assert_eq!(plan_resampling(50, 16), None);
}

#[test]
fn chunks_tile_the_packed_batch() {
    assert_eq!(
        split_batched_rows(6, 2, 3),
        vec![
            RowRange { start: 0, end: 2 },
            RowRange { start: 2, end: 4 },
            RowRange { start: 4, end: 6 }
        ]
    );
    assert_eq!(split_batched_rows(0, 5, 0), vec![]);
}

#[test]
fn teacher_targets_are_planned_in_order() {
    let spatial = target(
        "b",
        VisionTeacherTargetKind::PatchAndCls,
        VisionTeacherDecoderMode::DedicatedSpatialProjection,
        VisionTeacherConfig::Features(features(96, None)),
    );
    let heads = vec![teacher_decoder_head(&spatial, 64).unwrap()];
    let shape = |name: &str, weight: f32, tokens: Option<usize>| TargetBatchShape {
        name: name.to_string(),
        weight: single(weight),
        target_kind: VisionTeacherTargetKind::PatchAndCls,
        patch_tokens: tokens,
    };
    let plans = plan_teacher_targets(
        &heads,
        &loss(),
        &vec![shape("off", 0.0, Some(4)), shape("b", 1.0, Some(25)), shape("c", 1.0, None)],
        16,
    );
    assert_eq!(
        plans,
        vec![
            TargetPlan { target: None, head: None, patches: true, resample_to: None },
            TargetPlan { target: Some(1), head: Some(0), patches: true, resample_to: Some(25) },
            TargetPlan { target: Some(2), head: None, patches: false, resample_to: None },
        ]
    );
}

#[test]
fn targets_of_one_shape_are_grouped() {
    let key = |tokens: usize, dim: usize| LossShapeKey { tokens, dim };
    let groups = group_by_shape(
        &[single(1.0), single(0.0), single(2.0), single(1.0)],
        &[key(4, 8), key(4, 8), key(9, 8), key(4, 8)],
    );
    assert_eq!(groups.len(), 2);
    assert_eq!((groups[0].key, groups[0].members.clone()), (key(4, 8), vec![0, 3]));
    assert_eq!((groups[1].key, groups[1].members.clone()), (key(9, 8), vec![2]));
}

#[test]
fn student_tokens_round_up() {
    assert_eq!(student_patch_tokens(224, 16), 196);
    assert_eq!(student_patch_tokens(225, 16), 225);
}

#[test]
fn run_settings_are_checked_in_order() {
    assert_eq!(check_distill_settings(0, 0, 1, 2, false), Err(RunSettingsError::ZeroBatchSize));
    assert_eq!(check_distill_settings(1, 0, 1, 2, false), Err(RunSettingsError::ZeroPatchSize));
    assert_eq!(
        check_distill_settings(1, 1, 1, 2, false),
        Err(RunSettingsError::ImageSize { augment: 1, vision: 2 })
    );
    assert_eq!(check_distill_settings(1, 1, 2, 2, false), Err(RunSettingsError::WrongMode));
    assert_eq!(check_distill_settings(1, 1, 2, 2, true), Ok(()));
}

#[test]
fn primary_teachers_must_match_the_student() {
    let plan = |teacher: VisionTeacherConfig, networks: bool| {
        plan_primary_teacher(&teacher, 32, 8, 64, 16, networks)
    };
    let stored = |f: VisionTeacherFeatureConfig| VisionTeacherConfig::Features(f);
    assert_eq!(
        plan(stored(features(64, Some(16))), false),
        Ok(PrimaryTeacher::Features { tokens: 16 })
    );
    assert_eq!(
        plan(stored(features(60, None)), false),
        Err(DistillDataError::FeatureDim { teacher: 60, student: 64 })
    );
    assert_eq!(
        plan(stored(features(64, Some(9))), false),
        Err(DistillDataError::PatchTokens { teacher: 9, student: 16 })
    );
    let mut no_train = features(64, None);
    no_train.train_patch_path = None;
    assert_eq!(plan(stored(no_train), false), Err(DistillDataError::MissingTrainPatchPath));
    let mut no_val = features(64, None);
    no_val.val_patch_path = None;
    assert_eq!(plan(stored(no_val), false), Err(DistillDataError::MissingValPatchPath));

    let network = |m: VisionTeacherModelConfig| VisionTeacherConfig::Model(m);
    assert_eq!(
        plan(network(model(None, None)), false),
        Err(DistillDataError::ModelUnsupported)
    );
    assert_eq!(
        plan(network(model(None, None)), true),
        Ok(PrimaryTeacher::Model { image_size: 32, patch_size: 8, feature_dim: 64 })
    );
    assert_eq!(
        plan(network(model(None, Some(0))), true),
        Err(DistillDataError::ModelPatchSizeZero)
    );
    assert_eq!(
        plan(network(model(Some(30), None)), true),
        Err(DistillDataError::ModelImageNotDivisible { image_size: 30, patch_size: 8 })
    );
    assert_eq!(
        plan(network(model(Some(40), None)), true),
        Err(DistillDataError::ModelTokens { teacher: 25, student: 16 })
    );
    let mut tokens = model(None, None);
    tokens.patch_tokens = Some(9);
    assert_eq!(
        plan(network(tokens), true),
        Err(DistillDataError::ModelPatchTokens { configured: 9, actual: 16 })
    );
    let mut dim = model(None, None);
    dim.variant_dim = 80;
    assert_eq!(
        plan(network(dim), true),
        Err(DistillDataError::FeatureDim { teacher: 80, student: 64 })
    );
    let mut embedding = model(None, None);
    embedding.feature_dim = Some(64);
    embedding.variant_dim = 80;
    assert_eq!(
        plan(network(embedding), true),
        Err(DistillDataError::ModelEmbedding { configured: 64, actual: 80 })
    );
}

#[test]
fn stores_are_opened_for_both_splits() {
    let stores = primary_teacher_stores(&features(64, None), 16, 100, 20, true);
    assert_eq!(stores.train.cls_path, "train_cls.bin");
    assert_eq!(stores.train.patch_path.as_deref(), Some("train_patch.bin"));
    assert_eq!((stores.train.expected_records, stores.val.expected_records), (100, 20));
    assert_eq!(stores.val.patch_tokens, Some(16));
    assert!(stores.val.cache_in_memory);
}

#[test]
fn auxiliary_targets_are_checked() {
    let kind = VisionTeacherTargetKind::PatchAndCls;
    let shared = VisionTeacherDecoderMode::SharedProjection;
    let spatial = VisionTeacherDecoderMode::DedicatedSpatialProjection;
    let stored = |tokens: Option<usize>| VisionTeacherConfig::Features(features(64, tokens));
    let ok = target("a", kind, spatial, stored(Some(49)));
    assert_eq!(teacher_target_patch_tokens(&ok, Some(49), 16, 0), Ok(Some(49)));
    let planned = plan_auxiliary_target(&ok, 10, 5, 16, 0, false).unwrap();
    assert_eq!(planned.train.patch_tokens, Some(49));
    let plan = |t: VisionTeacherTargetConfig| plan_auxiliary_target(&t, 10, 5, 16, 3, false).err();
    assert_eq!(
        plan(target("b", kind, shared, stored(Some(49)))),
        Some(DistillDataError::AuxiliaryTokens { target: 3, teacher: 49, student: 16 })
    );
    assert_eq!(
        plan(target("c", kind, spatial, stored(None))),
        Some(DistillDataError::AuxiliaryTokensMissing { target: 3 })
    );
    assert_eq!(
        plan(target("d", kind, shared, VisionTeacherConfig::Model(model(None, None)))),
        Some(DistillDataError::AuxiliaryModel { target: 3 })
    );
    let mut train = features(64, None);
    train.train_patch_path = None;
    assert_eq!(
        plan(target("e", kind, shared, VisionTeacherConfig::Features(train))),
        Some(DistillDataError::AuxiliaryTrainPatchPath { target: 3 })
    );
    let mut val = features(64, None);
    val.val_patch_path = None;
    assert_eq!(
        plan(target("f", kind, shared, VisionTeacherConfig::Features(val))),
        Some(DistillDataError::AuxiliaryValPatchPath { target: 3 })
    );
    let global = target("g", VisionTeacherTargetKind::ClsOnly, shared, stored(None));
    let list = vec![global, ok, target("c", kind, spatial, stored(None))];
    assert_eq!(
        plan_auxiliary_targets(&list, 10, 5, 16, false).err(),
        Some(DistillDataError::AuxiliaryTokensMissing { target: 2 })
    );
    let stores = plan_auxiliary_targets(
        &vec![target("g", VisionTeacherTargetKind::ClsOnly, shared, stored(None))],
        10,
        5,
        16,
        true,
    )
    .unwrap();
    assert_eq!(stores[0].train.patch_path, None);
}

#[test]
fn checkpoint_evaluation_counts_its_batches() {
    let settings = DistillEvalSettings {
        batch_size: 2,
        image_size: 32,
        patch_size: 8,
        augment_image_size: 32,
        is_distill: true,
    };
    let (mut session, first) = eval_vision_distill_checkpoint_backend(&settings);
    assert_eq!(first, DistillEvalAction::StartBackend { seed: 1337 });
    assert_eq!(
        session.advance(DistillEvalEvent::BackendStarted),
        DistillEvalAction::ResolveRollout
    );
    assert_eq!(session.advance(DistillEvalEvent::EpochOver), DistillEvalAction::Nothing);
    assert_eq!(
        session.advance(DistillEvalEvent::RolloutResolved),
        DistillEvalAction::DownloadDataset
    );
    assert_eq!(
        session.advance(DistillEvalEvent::DatasetReady),
        DistillEvalAction::LoadDatasets { student_patch_tokens: 16 }
    );
    assert_eq!(
        session.advance(DistillEvalEvent::DatasetsLoaded { valid_steps: 3 }),
        DistillEvalAction::FindCheckpoint
    );
    let before = session;
    assert_eq!(
        session.advance(DistillEvalEvent::CheckpointLooked { found: false }),
        DistillEvalAction::Refuse(DistillEvalRefusal::CheckpointMissing)
    );
    session = before;
    session.advance(DistillEvalEvent::CheckpointLooked { found: true });
    assert_eq!(
        session.advance(DistillEvalEvent::ModelLoaded),
        DistillEvalAction::EvaluateBatch { valid_steps: 3 }
    );
    let mut empty = session;
    assert_eq!(
        empty.advance(DistillEvalEvent::EpochOver),
        DistillEvalAction::Refuse(DistillEvalRefusal::NoBatches)
    );
    assert_eq!(session.advance(DistillEvalEvent::BatchEvaluated), DistillEvalAction::NextBatch);
    session.advance(DistillEvalEvent::BatchEvaluated);
    assert_eq!(
        session.advance(DistillEvalEvent::EpochOver),
        DistillEvalAction::Summarize { batches: 2 }
    );
    assert_eq!(session.advance(DistillEvalEvent::Failed), DistillEvalAction::Nothing);
    let mut failing = before;
    assert_eq!(
        failing.advance(DistillEvalEvent::Failed),
        DistillEvalAction::Refuse(DistillEvalRefusal::Failed)
    );
    let refused = DistillEvalSettings { batch_size: 0, ..settings };
    assert_eq!(
        eval_vision_distill_checkpoint_backend(&refused).0.advance(DistillEvalEvent::BackendStarted),
        DistillEvalAction::Refuse(DistillEvalRefusal::Settings(RunSettingsError::ZeroBatchSize))
    );
}

#[test]
fn probe_steps_are_positive_and_sorted() {
    assert_eq!(probe_steps(&[4, 0, 1, 8, 4]), vec![1, 4, 8]);
    assert_eq!(probe_steps(&[]), Vec::<usize>::new());
}

#[test]
fn batches_cover_the_rows() {
    assert_eq!(
        batch_ranges(5, 2),
        vec![
            RowRange { start: 0, end: 2 },
            RowRange { start: 2, end: 4 },
            RowRange { start: 4, end: 5 }
        ]
    );
    assert_eq!(batch_ranges(0, 2), vec![]);
}

#[test]
fn step_seeds_differ_by_step() {
    assert_eq!(step_seed(7, 0), 7);
    assert_eq!(step_seed(7, 1), 7 ^ 0x9E37_79B9_7F4A_7C15);
    assert_eq!(step_seed(7, 3), 7 ^ 3u64.wrapping_mul(0x9E37_79B9_7F4A_7C15));
}

#[test]
fn probe_teachers_are_found_by_name() {
    let primary = "primary".to_string();
    let config = distill(vec![
        target(
            "aux",
            VisionTeacherTargetKind::ClsOnly,
            VisionTeacherDecoderMode::DedicatedProjection,
            VisionTeacherConfig::Features(features(96, None)),
        ),
        target(
            "net",
            VisionTeacherTargetKind::ClsOnly,
            VisionTeacherDecoderMode::DedicatedProjection,
            VisionTeacherConfig::Model(model(None, None)),
        ),
    ]);
    let find = |name: Option<&str>| {
        resolve_probe_teacher_spec(Some(&config), &primary, name.map(|n| n.to_string()))
    };
    let spec = find(None).unwrap();
    assert_eq!((spec.name.as_str(), spec.feature_dim, spec.target), ("primary", 64, None));
    assert_eq!(spec.weight, single(1.0));
    let aux = find(Some("aux")).unwrap();
    assert_eq!((aux.feature_dim, aux.target, aux.weight), (96, Some(0), single(0.5)));
    assert!(matches!(find(Some("net")), Err(ProbeError::TeacherIsModel)));
    assert!(matches!(find(Some("none")), Err(ProbeError::UnknownTeacher(name)) if name == "none"));
    assert!(matches!(
        resolve_probe_teacher_spec(None, &primary, None),
        Err(ProbeError::NotDistillMode)
    ));
}

fn sample(label: usize, teacher_index: usize) -> ImageSample {
    ImageSample { path: format!("{teacher_index}.png"), label, teacher_index }
}

#[test]
fn probe_splits_are_limited() {
    let split = |n: usize| -> Vec<ImageSample> { (0..n).map(|i| sample(i % 3, i)).collect() };
    let splits = limit_probe_splits(split(12), split(9), None, Some(6), Some(3), 5).unwrap();
    assert_eq!((splits.train.len(), splits.val.len(), splits.num_classes), (6, 3, 3));
    for class in 0..3 {
        assert_eq!(splits.train.iter().filter(|s| s.label == class).count(), 2);
    }
    assert!(matches!(
        limit_probe_splits(split(0), split(9), None, None, Some(0), 5),
        Err(ProbeError::EmptyDataset)
    ));
}

#[test]
fn the_best_class_has_the_highest_score() {
    let scores = [0.5f32, 2.0, -1.0].map(single);
    assert_eq!(best_class(&scores), 1);
    assert_eq!(count_correct(&[1, 0, 2], &[1, 1, 2]), 2);
}

fn score(step: usize, value: f64) -> StepScore {
    StepScore { step, score: Double { bits: value.to_bits() } }
}

#[test]
fn probe_outcomes_pick_the_best_step() {
    let scores = [score(1, 0.5), score(2, 0.75), score(4, 0.75)];
    assert_eq!(feature_probe_outcome(&scores).unwrap(), ProbeOutcome { baseline: 0, best: 2 });
    assert_eq!(linear_probe_outcome(&scores).unwrap(), ProbeOutcome { baseline: 0, best: 2 });
    let losses = [score(1, 0.5), score(2, 0.25), score(4, 0.25)];
    assert_eq!(decode_probe_outcome(&losses, 3).unwrap(), ProbeOutcome { baseline: 0, best: 1 });
    assert!(matches!(
        feature_probe_outcome(&[score(2, 0.5)]),
        Err(ProbeError::MissingStepOne)
    ));
    assert!(matches!(linear_probe_outcome(&[]), Err(ProbeError::NoSteps)));
    assert!(matches!(
        decode_probe_outcome(&losses, 0),
        Err(ProbeError::EmptyValidationSplit)
    ));
    assert!(matches!(
        decode_probe_outcome(&[score(3, 1.0)], 1),
        Err(ProbeError::MissingStepOne)
    ));
}

#[test]
fn feature_rows_are_exported_in_order() {
    let mut export: FeatureExport<f32> = FeatureExport::new(2);
    export.record_batch(&[sample(3, 0), sample(1, 1)], &[1.0, 2.0, 3.0, 4.0], &[5.0, 6.0, 7.0, 8.0]);
    export.record_batch(&[sample(2, 2)], &[9.0, 10.0], &[11.0, 12.0]);
    assert_eq!(export.records(), 3);
    assert_eq!(export.labels, vec![3, 1, 2]);
    assert_eq!(export.teacher_cls, vec![vec![1.0, 2.0], vec![3.0, 4.0], vec![9.0, 10.0]]);
    assert_eq!(export.student_cls, vec![vec![5.0, 6.0], vec![7.0, 8.0], vec![11.0, 12.0]]);
}

#[test]
fn decoding_goes_through_the_head_of_the_target() {
    let primary = "primary".to_string();
    let spatial = target(
        "aux",
        VisionTeacherTargetKind::PatchAndCls,
        VisionTeacherDecoderMode::DedicatedSpatialProjection,
        VisionTeacherConfig::Features(features(96, Some(49))),
    );
    let heads = vec![teacher_decoder_head(&spatial, 64).unwrap()];
    let config = distill(vec![spatial]);
    let aux = resolve_probe_teacher_spec(Some(&config), &primary, Some("aux".to_string())).unwrap();
    assert_eq!(
        plan_decode(&heads, &aux, &primary, 16, Some(49)).unwrap(),
        DecodePlan {
            head: Some(0),
            student_patches: true,
            resample_to: Some(49),
            teacher_patches: true
        }
    );
    assert!(matches!(
        plan_decode(&vec![], &aux, &primary, 16, Some(49)),
        Err(ProbeError::MissingHead(name)) if name == "aux"
    ));
    assert!(matches!(
        plan_decode(&heads, &aux, &primary, 15, Some(49)),
        Err(ProbeError::NoPatchGrid)
    ));
    let main = resolve_probe_teacher_spec(Some(&config), &primary, None).unwrap();
    assert_eq!(
        plan_decode(&heads, &main, &primary, 16, Some(16)).unwrap(),
        DecodePlan { head: None, student_patches: true, resample_to: None, teacher_patches: true }
    );
}

fn accuracy() -> ReportedAccuracy {
    ReportedAccuracy {
        teacher_acc: "0.9000".to_string(),
        step_accuracies: vec![
            ReportedStep { step: 1, acc: "0.5000".to_string() },
            ReportedStep { step: 8, acc: "0.7500".to_string() },
        ],
        best_step: 8,
        best_acc: "0.7500".to_string(),
        best_minus_s1: "0.2500".to_string(),
        teacher_minus_best_gap: "0.1500".to_string(),
    }
}

#[test]
fn feature_probe_reports_are_written() {
    let report = VisionDistillFeatureProbeReport {
        artifact: VisionArtifactHeader::new("vision_distill_feature_probe"),
        harness_version: VISION_DISTILL_FEATURE_PROBE_HARNESS_VERSION,
        config: vec!["a.toml".to_string(), "b.toml".to_string()],
        checkpoint: "runs/model".to_string(),
        steps: vec![1, 8],
        batch_size: 4,
        max_train_samples: Some(100),
        max_val_samples: None,
        subset_seed: 7,
        teacher_target: "primary".to_string(),
        image_size: 32,
        feature_dim: 64,
        num_classes: 10,
        train_records: 100,
        val_records: 50,
        accuracy: accuracy(),
    };
    assert_eq!(
        report.to_markdown(),
        "# Vision Distill Feature Probe\n\n\
         - artifact kind: `vision_distill_feature_probe`\n\
         - schema version: `1`\n\
         - checkpoint: runs/model\n\
         - harness version: vision_distill_feature_probe_v1\n\
         - config: a.toml, b.toml\n\
         - teacher target: primary\n\
         - image size: 32\n\
         - feature dim: 64\n\
         - classes: 10\n\
         - train records: 100\n\
         - val records: 50\n\
         - batch size: 4\n\
         - max train samples: 100\n\
         - subset seed: 7\n\
         - rollout steps: s1, s8\n\n\
         | source | accuracy |\n\
         |---|---:|\n\
         | teacher cls | 0.9000 |\n\
         | dragon s1 cls | 0.5000 |\n\
         | dragon s8 cls | 0.7500 |\n\n\
         - best step: s8\n\
         - best accuracy: 0.7500\n\
         - best minus s1: 0.2500\n\
         - teacher minus best gap: 0.1500\n"
    );
}

#[test]
fn linear_probe_reports_are_written() {
    let report = VisionDistillLinearProbeReport {
        artifact: VisionArtifactHeader::new("vision_distill_linear_probe"),
        harness_version: VISION_DISTILL_LINEAR_PROBE_HARNESS_VERSION,
        config: vec![],
        checkpoint: "runs/model".to_string(),
        steps: vec![1],
        batch_size: 4,
        max_train_samples: None,
        max_val_samples: Some(9),
        subset_seed: 7,
        teacher_target: "primary".to_string(),
        train_seed: 11,
        epochs: 20,
        learning_rate: "0.01000".to_string(),
        weight_decay: "0.000100".to_string(),
        image_size: 32,
        teacher_feature_dim: 96,
        student_feature_dim: 64,
        num_classes: 10,
        train_records: 100,
        val_records: 50,
        accuracy: accuracy(),
    };
    assert_eq!(
        report.to_markdown(),
        "# Vision Distill Linear Probe\n\n\
         - artifact kind: `vision_distill_linear_probe`\n\
         - schema version: `1`\n\
         - checkpoint: runs/model\n\
         - harness version: vision_distill_linear_probe_v1\n\
         - config: \n\
         - teacher target: primary\n\
         - image size: 32\n\
         - teacher feature dim: 96\n\
         - student feature dim: 64\n\
         - classes: 10\n\
         - train records: 100\n\
         - val records: 50\n\
         - feature batch size: 4\n\
         - probe epochs: 20\n\
         - probe learning rate: 0.01000\n\
         - probe weight decay: 0.000100\n\
         - subset seed: 7\n\
         - train seed: 11\n\
         - max val samples: 9\n\
         - rollout steps: s1\n\n\
         | source | top-1 acc |\n\
         |---|---:|\n\
         | teacher linear probe | 0.9000 |\n\
         | dragon s1 linear probe | 0.5000 |\n\
         | dragon s8 linear probe | 0.7500 |\n\n\
         - best step: s8\n\
         - best accuracy: 0.7500\n\
         - best minus s1: 0.2500\n\
         - teacher minus best gap: 0.1500\n"
    );
}

#[test]
fn decode_probe_reports_are_written() {
    let report = VisionDistillDecodeProbeReport {
        artifact: VisionArtifactHeader::new("vision_distill_decode_probe"),
        harness_version: VISION_DISTILL_DECODE_PROBE_HARNESS_VERSION,
        config: vec!["a.toml".to_string()],
        checkpoint: "runs/model".to_string(),
        steps: vec![1, 2],
        batch_size: 4,
        max_val_samples: None,
        subset_seed: 7,
        teacher_target: "aux".to_string(),
        teacher_weight: "0.5000".to_string(),
        teacher_target_kind: VisionTeacherTargetKind::PatchAndCls,
        teacher_decoder_mode: VisionTeacherDecoderMode::DedicatedProjection,
        image_size: 32,
        feature_dim: 64,
        val_records: 50,
        best_step: 2,
        best_total: "0.2000".to_string(),
        best_minus_s1: "-0.1000".to_string(),
        steps_report: vec![ReportedLosses {
            step: 2,
            distill_total: "0.2000".to_string(),
            distill_patch: "0.1500".to_string(),
            distill_cls: "0.0500".to_string(),
        }],
    };
    assert_eq!(
        report.to_markdown(),
        "# Vision Distill Decode Probe\n\n\
         - artifact kind: `vision_distill_decode_probe`\n\
         - schema version: `1`\n\
         - checkpoint: runs/model\n\
         - harness version: vision_distill_decode_probe_v1\n\
         - config: a.toml\n\
         - teacher target: aux\n\
         - teacher weight: 0.5000\n\
         - teacher target kind: PatchAndCls\n\
         - teacher decoder mode: DedicatedProjection\n\
         - image size: 32\n\
         - feature dim: 64\n\
         - val records: 50\n\
         - batch size: 4\n\
         - subset seed: 7\n\
         - rollout steps: s1, s2\n\n\
         | source | total | patch | cls |\n\
         |---|---:|---:|---:|\n\
         | dragon s2 -> aux | 0.2000 | 0.1500 | 0.0500 |\n\n\
         - best step: s2\n\
         - best total: 0.2000\n\
         - best minus s1: -0.1000\n"
    );
}

#[test]
fn gradient_windows_fit_the_rollout() {
    assert_eq!(step_window(8, Some(3), None), StepWindow { step: 8, backprop_steps: 3 });
    assert_eq!(step_window(8, Some(30), None), StepWindow { step: 8, backprop_steps: 8 });
    assert_eq!(step_window(8, None, Some(4)), StepWindow { step: 8, backprop_steps: 4 });
    assert_eq!(step_window(0, None, None), StepWindow { step: 1, backprop_steps: 1 });
    assert_eq!(step_window(8, Some(0), None), StepWindow { step: 8, backprop_steps: 1 });
    let plan = plan_serving_benchmark(33, 8, 8, None, 1, Some(4), 0);
    assert_eq!((plan.batch_size, plan.patch_tokens_per_image), (1, 25));
    assert_eq!(plan.serving, StepWindow { step: 8, backprop_steps: 4 });
    assert_eq!(plan.baseline, StepWindow { step: 1, backprop_steps: 1 });
}

#[test]
fn validation_probes_need_stored_features() {
    assert_eq!(validation_probe_tokens(Some(&distill(vec![])), 32, 8), Ok(16));
    assert_eq!(validation_probe_tokens(None, 32, 8), Err(ValidationProbeError::NotDistillMode));
    assert_eq!(
        validation_probe_tokens(Some(&distill(vec![])), 40, 8),
        Err(ValidationProbeError::PatchTokens { teacher: 16, student: 25 })
    );
    let mut network = distill(vec![]);
    network.teacher = VisionTeacherConfig::Model(model(None, None));
    assert_eq!(
        validation_probe_tokens(Some(&network), 32, 8),
        Err(ValidationProbeError::TeacherIsModel)
    );
}

fn metrics(step: usize) -> VisionDistillServingStepMetrics {
    VisionDistillServingStepMetrics {
        window: StepWindow { step, backprop_steps: 1 },
        forward_ms: "1.500".to_string(),
        samples_per_sec: "10.000".to_string(),
        tokens_per_sec: "160.0".to_string(),
        distill_total: "0.3000".to_string(),
        distill_patch: "0.2000".to_string(),
        distill_cls: "0.1000".to_string(),
    }
}

#[test]
fn serving_reports_are_written() {
    let report = VisionDistillServingBenchmarkReport {
        artifact: VisionArtifactHeader::new("vision_distill_serving_benchmark"),
        adapter: "cpu".to_string(),
        config: vec!["a.toml".to_string()],
        checkpoint: None,
        image_size: 32,
        patch_tokens_per_image: 16,
        batch_size: 2,
        serving: metrics(8),
        baseline: metrics(1),
        total_gain_vs_baseline: "0.1000".to_string(),
        patch_gain_vs_baseline: "0.0500".to_string(),
        cls_gain_vs_baseline: "0.0500".to_string(),
        latency_scale_vs_baseline: "2.000".to_string(),
        total_gain_per_extra_ms: Some("0.010000".to_string()),
    };
    assert_eq!(
        report.to_markdown(),
        "# Vision Distill Serving Benchmark\n\n\
         - artifact kind: `vision_distill_serving_benchmark`\n\
         - schema version: `1`\n\
         - adapter: cpu\n\
         - config: a.toml\n\
         - image size: 32\n\
         - patch tokens / image: 16\n\
         - batch size: 2\n\
         - serving step: s8 (bptt 1)\n\
         - baseline step: s1 (bptt 1)\n\
         - total gain vs baseline: 0.1000\n\
         - patch gain vs baseline: 0.0500\n\
         - cls gain vs baseline: 0.0500\n\
         - latency scale vs baseline: 2.000\n\
         - total gain / extra ms: 0.010000\n\n\
         | profile | step | bptt | forward ms | samples/s | tokens/s | total | patch | cls |\n\
         |---|---:|---:|---:|---:|---:|---:|---:|---:|\n\
         | baseline | 1 | 1 | 1.500 | 10.000 | 160.0 | 0.3000 | 0.2000 | 0.1000 |\n\
         | serving | 8 | 1 | 1.500 | 10.000 | 160.0 | 0.3000 | 0.2000 | 0.1000 |\n"
    );
}

fn measured(forward: &str) -> DeployMeasurement {
    DeployMeasurement {
        forward_ms: forward.to_string(),
        distill_total: "0.300000".to_string(),
        distill_patch: "0.200000".to_string(),
        distill_cls: "0.100000".to_string(),
    }
}

#[test]
fn deploy_reports_are_written() {
    let zero = || "0.00000000".to_string();
    let report = VisionDistillDeploySmokeReport {
        artifact: VisionArtifactHeader::new("vision_distill_deploy_smoke"),
        config: vec![],
        checkpoint: "a".to_string(),
        burnpack: "b".to_string(),
        precision: VisionDistillDeploySmokePrecision::F16,
        image_size: 32,
        batch_size: 2,
        window: StepWindow { step: 4, backprop_steps: 2 },
        checkpoint_measured: measured("2.000"),
        burnpack_measured: measured("1.000"),
        latency_scale: "0.500".to_string(),
        patch_max_abs_diff: zero(),
        cls_max_abs_diff: zero(),
        distill_total_abs_diff: zero(),
        distill_patch_abs_diff: zero(),
        distill_cls_abs_diff: zero(),
    };
    assert_eq!(
        report.to_markdown(),
        "# Vision Distill Deploy Smoke\n\n\
         - artifact kind: `vision_distill_deploy_smoke`\n\
         - schema version: `1`\n\
         - checkpoint: a\n\
         - burnpack: b\n\
         - burnpack precision: F16\n\
         - config: \n\
         - image size: 32\n\
         - batch size: 2\n\
         - rollout step: s4 (bptt 2)\n\
         - checkpoint forward: 2.000 ms\n\
         - burnpack forward: 1.000 ms\n\
         - latency scale: 0.500\n\
         - patch max abs diff: 0.00000000\n\
         - cls max abs diff: 0.00000000\n\
         - distill total abs diff: 0.00000000\n\
         - distill patch abs diff: 0.00000000\n\
         - distill cls abs diff: 0.00000000\n\n\
         | source | forward ms | total | patch | cls |\n\
         |---|---:|---:|---:|---:|\n\
         | checkpoint | 2.000 | 0.300000 | 0.200000 | 0.100000 |\n\
         | burnpack | 1.000 | 0.300000 | 0.200000 | 0.100000 |\n"
    );
}
