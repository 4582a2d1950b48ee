use burn_dragon_vision::distill_runtime::RunSettingsError;
use burn_dragon_vision::frames::{build_frames, pixel_shuffle, pixel_unshuffle, FrameBatch};
use burn_dragon_vision::imagenet::ViewFrames;
use burn_dragon_vision::input_projection::{
    cnn_block_params, conv_params, image_to_tokens, layer_norm_params, linear_params,
    linear_projection_params, merge_heads, micro_vit_block_params, plan_cnn_projection,
    plan_input_projection, plan_micro_vit_projection, radial_params, resolve_cnn_blocks,
    resolve_cnn_kernel, resolve_micro_vit_heads, resolve_micro_vit_layers,
    resolve_radial_hidden_dim, split_heads, token_grid, tokens_to_image, InputProjectionPlan,
    VisionSaccadeInputProjectionCnnConfig, VisionSaccadeInputProjectionConfig,
    VisionSaccadeInputProjectionMicroVitConfig,
};
use burn_dragon_vision::reconstruction::{
    denorm_patch_scales, eye_source, has_reconstruction, invariance_target, is_sketch_end,
    lejepa_legend, plan_cross_view, plan_lejepa_step, plan_levels, plan_mae_step,
    plan_recon_group, plan_refinement, plan_sketch, pyramid_level_at, pyramid_levels,
    recon_patch_dim, reconstruction_head_dims, BatchExtras, CrossViewSettings, EyeSource,
    InvarianceTarget, LejepaSettings, LevelPlan, MaeSettings, MapSource, ProjectionShape,
    PyramidLevel, ReconstructionHeadDims, RefinementSource, SketchPlan, TeacherViews,
    VisionReconstructionInit,
};
use burn_dragon_vision::rollout::VisionRollout;
use burn_dragon_vision::scalar::Single;
use burn_dragon_vision::train::{
    plan_diagnostics, plan_lejepa_dataset, plan_mae_dataset, plan_saccade_dataset, saccade_eyes,
    scheduler_iters, train_vision_backend, train_vision_backend_for_test,
    train_vision_backend_with_config_paths, train_vision_backend_with_planned_run,
    ArtifactSettings, DatasetPlan, FitPlan, GdpoHardGate, ModeSettingsError, PlannedRunArtifacts,
    ScheduleSource, SettingsFamily, TrainAction, TrainEvent, TrainPhase, TrainRefusal,
    TrainSchedule, TrainSession, TrainedModel, VisionCrossViewConfig, VisionGdpoConfig,
    VisionLejepaConfig, VisionLejepaLossConfig, VisionMaeConfig, VisionReconLossConfig,
    VisionSaccadeConfig, VisionTrainingConfig, VisionTrainingModeConfig, TRAINING_SEED,
};
use burn_dragon_vision::views::{
    collect_views, normalize_artifact_legend, plan_heatmap, plan_patch_mask, plan_pca,
    plan_view_artifacts, split_view, BatchViews, HeatmapPlan, MaskPlan, PcaPlan, ViewRef,
};

fn single(value: f32) -> Single {
    Single { bits: value.to_bits() }
}

fn artifacts() -> ArtifactSettings {
    ArtifactSettings { every: 10, overwrite: true, max_images: 4, fps: 12 }
}

fn recon(weight: f32, mask_ratio: f32) -> VisionReconLossConfig {
    VisionReconLossConfig { weight: single(weight), mask_ratio: single(mask_ratio) }
}

fn embedding() -> VisionLejepaLossConfig {
    VisionLejepaLossConfig {
        enabled: true,
        lambda: single(0.5),
        sigreg_knots: 17,
        sigreg_t_max: single(3.0),
        sigreg_proj_dim: 64,
    }
}

fn cross_view(enabled: bool) -> VisionCrossViewConfig {
    VisionCrossViewConfig { enabled, min_overlap: single(0.3), max_attempts: 5 }
}

fn lejepa() -> VisionLejepaConfig {
    VisionLejepaConfig {
        views: 2,
        global_views: 0,
        local_views: 0,
        local_image_size: 16,
        min_view_overlap: single(0.2),
        view_overlap_attempts: 7,
        recon: recon(1.0, 0.5),
        lejepa: embedding(),
        artifacts: artifacts(),
    }
}

fn mae() -> VisionMaeConfig {
    VisionMaeConfig {
        pyramid_levels: 2,
        recon: recon(1.0, 0.75),
        cross_view: cross_view(false),
        artifacts: artifacts(),
    }
}

fn saccade() -> VisionSaccadeConfig {
    VisionSaccadeConfig {
        num_eyes: 0,
        mip_levels: 3,
        inner_steps: 2,
        recon: recon(1.0, 0.5),
        lejepa: embedding(),
        info_reward_stride: 1,
        quantize_bins: 2,
        action_noise_std: single(0.1),
        gdpo: VisionGdpoConfig {
            enabled: true,
            group_size: 4,
            hard_weight: single(1.0),
            easy_weight: single(1.0),
            policy_weight: single(1.0),
            policy_clip_range: single(0.2),
            advantage_clip: single(5.0),
            advantage_ema_decay: single(0.9),
            hard_gate: GdpoHardGate::Percentile { quantile: single(0.5) },
        },
        cross_view: cross_view(true),
        artifacts: artifacts(),
    }
}

fn config(mode: VisionTrainingModeConfig) -> VisionTrainingConfig {
    VisionTrainingConfig {
        batch_size: 8,
        gradient_accumulation_steps: 4,
        log_frequency: 50,
        image_size: 32,
        patch_size: 8,
        in_channels: 3,
        num_eyes: 2,
        augment_image_size: 32,
        mode,
    }
}

const ROLLOUT: VisionRollout = VisionRollout { min_steps: 1, max_steps: 8, backprop_steps: 4 };

fn schedule(source: ScheduleSource) -> TrainSchedule {
    TrainSchedule { steps_per_epoch: 10, total_epochs: 3, total_steps: 30, source }
}

#[test]
fn runs_refuse_broken_settings_first() {
    let start = |change: fn(&mut VisionTrainingConfig)| {
        let mut settings = config(VisionTrainingModeConfig::Rac);
        change(&mut settings);
        let (mut session, first) = train_vision_backend(&settings, "cpu");
        assert_eq!(first, TrainAction::StartBackend { seed: 1337 });
        let action = session.advance(TrainEvent::BackendStarted);
        assert_eq!(session.phase, TrainPhase::Ended);
        action
    };
    assert_eq!(
        start(|c| c.batch_size = 0),
        TrainAction::Refuse(TrainRefusal::Run(RunSettingsError::ZeroBatchSize))
    );
    assert_eq!(
        start(|c| c.patch_size = 0),
        TrainAction::Refuse(TrainRefusal::Run(RunSettingsError::ZeroPatchSize))
    );
    assert_eq!(
        start(|c| c.augment_image_size = 30),
        TrainAction::Refuse(TrainRefusal::Run(RunSettingsError::ImageSize {
            augment: 30,
            vision: 32
        }))
    );
}

#[test]
fn runs_start_with_their_context() {
    let settings = config(VisionTrainingModeConfig::Distill);
    let (plain, action) = train_vision_backend_for_test(&settings, "cpu");
    assert_eq!(action, TrainAction::StartBackend { seed: TRAINING_SEED });
    assert_eq!((plain.backend_name.as_str(), plain.config_paths.len()), ("cpu", 0));
    assert!(plain.planned_run.is_none());
    let paths = vec!["a.toml".to_string()];
    let (with_paths, _) =
        train_vision_backend_with_config_paths(&settings, paths.clone(), "wgpu");
    assert_eq!(with_paths.config_paths, paths);
    let planned = PlannedRunArtifacts {
        run_dir: "runs/x".to_string(),
        run_name: "x".to_string(),
    };
    let (with_run, _) = train_vision_backend_with_planned_run(&settings, paths, planned, "cpu");
    assert_eq!(with_run.planned_run.map(|run| run.run_name), Some("x".to_string()));
}

fn advance_to_datasets(session: &mut TrainSession) -> TrainAction {
    assert_eq!(session.advance(TrainEvent::BackendStarted), TrainAction::ResolveRollout);
    assert_eq!(
        session.advance(TrainEvent::RolloutResolved(ROLLOUT)),
        TrainAction::DownloadDataset
    );
    session.advance(TrainEvent::DatasetReady)
}

#[test]
fn special_modes_have_their_own_trainers() {
    let dispatch = |mode: VisionTrainingModeConfig| {
        let (mut session, _) = train_vision_backend(&config(mode), "cpu");
        let action = advance_to_datasets(&mut session);
        (session.phase, action)
    };
    assert_eq!(
        dispatch(VisionTrainingModeConfig::Rac),
        (TrainPhase::Training, TrainAction::TrainRac)
    );
    assert_eq!(
        dispatch(VisionTrainingModeConfig::VideoLejepa { vjepa21: true }).1,
        TrainAction::TrainVideoVjepa21
    );
    assert_eq!(
        dispatch(VisionTrainingModeConfig::VideoLejepa { vjepa21: false }).1,
        TrainAction::TrainVideoLejepa { rollout: ROLLOUT }
    );
    assert_eq!(
        dispatch(VisionTrainingModeConfig::Distill).1,
        TrainAction::LoadDistillDatasets
    );
}

#[test]
fn a_run_goes_from_rollout_to_fit() {
    let (mut session, _) =
        train_vision_backend(&config(VisionTrainingModeConfig::Mae(mae())), "cpu");
    assert_eq!(session.advance(TrainEvent::Trained), TrainAction::Nothing);
    assert_eq!(
        advance_to_datasets(&mut session),
        TrainAction::LoadDatasets(DatasetPlan {
            views: 1,
            local_views: 0,
            local_image_size: None,
            min_view_overlap: single(0.0),
            view_overlap_attempts: 1,
        })
    );
    assert_eq!(
        session.advance(TrainEvent::DatasetsLoaded { train_steps: 12, valid_steps: 5 }),
        TrainAction::ResolveSchedule { steps_per_epoch: 12 }
    );
    assert_eq!(
        session.advance(TrainEvent::ScheduleResolved(schedule(ScheduleSource::Epochs))),
        TrainAction::ResolveValidSteps {
            total_steps: 30,
            log_frequency: 50,
            valid_steps_per_epoch: 5
        }
    );
    assert_eq!(
        session.advance(TrainEvent::ValidStepsResolved(2)),
        TrainAction::ResolveLearningRate { total_steps: 30, iters: Some(30) }
    );
    assert_eq!(session.advance(TrainEvent::LearningRateResolved), TrainAction::PlanRun);
    assert_eq!(session.advance(TrainEvent::RunPlanned), TrainAction::ActivateRun);
    assert_eq!(
        session.advance(TrainEvent::RunActivated),
        TrainAction::Fit(FitPlan {
            model: TrainedModel::Mae,
            rollout: ROLLOUT,
            epochs: 3,
            train_steps_per_epoch: 10,
            train_total_steps: 30,
            valid_steps_per_epoch: 2,
            effective_batch_size: 32,
            recon_patch_dim: 192,
            diagnostics: plan_diagnostics(&VisionTrainingModeConfig::Mae(mae())),
        })
    );
    assert_eq!(session.advance(TrainEvent::Trained), TrainAction::Complete);
    assert_eq!(session.advance(TrainEvent::Failed), TrainAction::Nothing);
}

#[test]
fn planned_runs_keep_their_directory() {
    let planned = PlannedRunArtifacts {
        run_dir: "runs/x".to_string(),
        run_name: "x".to_string(),
    };
    let (mut session, _) = train_vision_backend_with_planned_run(
        &config(VisionTrainingModeConfig::Distill),
        vec![],
        planned,
        "cpu",
    );
    advance_to_datasets(&mut session);
    session.advance(TrainEvent::DatasetsLoaded { train_steps: 1, valid_steps: 1 });
    session.advance(TrainEvent::ScheduleResolved(schedule(ScheduleSource::MaxIters)));
    assert_eq!(
        session.advance(TrainEvent::ValidStepsResolved(1)),
        TrainAction::ResolveLearningRate { total_steps: 30, iters: None }
    );
    assert_eq!(session.advance(TrainEvent::LearningRateResolved), TrainAction::ActivateRun);
}

#[test]
fn failed_actions_end_a_run() {
    let (mut session, _) = train_vision_backend(&config(VisionTrainingModeConfig::Rac), "cpu");
    assert_eq!(
        session.advance(TrainEvent::Failed),
        TrainAction::Refuse(TrainRefusal::Failed)
    );
    assert_eq!(session.phase, TrainPhase::Ended);
}

#[test]
fn refused_modes_load_nothing() {
    let mut broken = mae();
    broken.pyramid_levels = 0;
    let (mut session, _) =
        train_vision_backend(&config(VisionTrainingModeConfig::Mae(broken)), "cpu");
    assert_eq!(
        advance_to_datasets(&mut session),
        TrainAction::Refuse(TrainRefusal::Mode(ModeSettingsError::PyramidLevels))
    );
    assert_eq!(
        session.advance(TrainEvent::DatasetsLoaded { train_steps: 1, valid_steps: 1 }),
        TrainAction::Nothing
    );
}

#[test]
fn lejepa_views_are_resolved() {
    let plan = plan_lejepa_dataset(&lejepa(), 32, 8).unwrap();
    assert_eq!((plan.views, plan.local_views, plan.local_image_size), (2, 0, None));
    assert_eq!((plan.min_view_overlap, plan.view_overlap_attempts), (single(0.2), 7));
    let mut crops = lejepa();
    crops.local_views = 4;
    let plan = plan_lejepa_dataset(&crops, 32, 8).unwrap();
    assert_eq!((plan.views, plan.local_views, plan.local_image_size), (1, 4, Some(16)));
    let mut none = lejepa();
    none.views = 0;
    assert_eq!(plan_lejepa_dataset(&none, 32, 8).unwrap().views, 1);
}

#[test]
fn lejepa_settings_are_checked() {
    let family = SettingsFamily::Lejepa;
    let fault = |change: fn(&mut VisionLejepaConfig)| {
        let mut settings = lejepa();
        settings.local_views = 1;
        change(&mut settings);
        plan_lejepa_dataset(&settings, 32, 8).err()
    };
    assert_eq!(fault(|_| {}), None);
    assert_eq!(
        fault(|c| c.local_image_size = 0),
        Some(ModeSettingsError::LocalImageSizeZero)
    );
    assert_eq!(
        fault(|c| c.local_image_size = 12),
        Some(ModeSettingsError::LocalImageSizeNotDivisible { local_image_size: 12, patch_size: 8 })
    );
    assert_eq!(
        fault(|c| c.local_image_size = 40),
        Some(ModeSettingsError::LocalImageSizeTooLarge { local_image_size: 40, image_size: 32 })
    );
    assert_eq!(
        fault(|c| c.recon.weight = single(-0.1)),
        Some(ModeSettingsError::ReconWeight { family })
    );
    assert_eq!(
        fault(|c| c.recon.mask_ratio = single(1.5)),
        Some(ModeSettingsError::MaskRatio { family, mask_ratio: single(1.5) })
    );
    assert_eq!(
        fault(|c| c.recon.mask_ratio = single(f32::NAN)),
        Some(ModeSettingsError::MaskRatio { family, mask_ratio: single(f32::NAN) })
    );
    assert_eq!(
        fault(|c| c.lejepa.lambda = single(-0.5)),
        Some(ModeSettingsError::Lambda { family, lambda: single(-0.5) })
    );
    assert_eq!(
        fault(|c| c.lejepa.sigreg_knots = 0),
        Some(ModeSettingsError::SigregKnots { family })
    );
    assert_eq!(
        fault(|c| c.lejepa.sigreg_t_max = single(0.0)),
        Some(ModeSettingsError::SigregTMax { family })
    );
    assert_eq!(
        fault(|c| c.lejepa.sigreg_proj_dim = 0),
        Some(ModeSettingsError::SigregProjDim { family })
    );
    assert_eq!(
        fault(|c| {
            c.lejepa.enabled = false;
            c.lejepa.sigreg_knots = 0;
        }),
        None
    );
}

#[test]
fn mae_settings_are_checked() {
    let family = SettingsFamily::Mae;
    let fault = |change: fn(&mut VisionMaeConfig)| {
        let mut settings = mae();
        change(&mut settings);
        plan_mae_dataset(&settings, 2).err()
    };
    assert_eq!(
        fault(|c| c.recon = recon(-1.0, 2.0)),
        Some(ModeSettingsError::MaskRatio { family, mask_ratio: single(2.0) })
    );
    assert_eq!(
        fault(|c| c.recon.weight = single(-1.0)),
        Some(ModeSettingsError::ReconWeight { family })
    );
    assert_eq!(fault(|c| c.pyramid_levels = 0), Some(ModeSettingsError::PyramidLevels));
    let mut eyes = mae();
    eyes.cross_view = cross_view(true);
    let plan = plan_mae_dataset(&eyes, 3).unwrap();
    assert_eq!(
        (plan.views, plan.min_view_overlap, plan.view_overlap_attempts),
        (3, single(0.3), 5)
    );
    assert_eq!(plan_mae_dataset(&eyes, 0).unwrap().views, 1);
}

#[test]
fn saccade_settings_are_checked() {
    let family = SettingsFamily::Saccade;
    let fault = |change: fn(&mut VisionSaccadeConfig)| {
        let mut settings = saccade();
        change(&mut settings);
        plan_saccade_dataset(&settings, 2).err()
    };
    assert_eq!(fault(|_| {}), None);
    assert_eq!(fault(|c| c.mip_levels = 0), Some(ModeSettingsError::MipLevels));
    assert_eq!(fault(|c| c.inner_steps = 0), Some(ModeSettingsError::InnerSteps));
    assert_eq!(
        fault(|c| c.recon.mask_ratio = single(-1.0)),
        Some(ModeSettingsError::MaskRatio { family, mask_ratio: single(-1.0) })
    );
    assert_eq!(
        fault(|c| c.recon.weight = single(-1.0)),
        Some(ModeSettingsError::ReconWeight { family })
    );
    assert_eq!(
        fault(|c| c.lejepa.sigreg_knots = 0),
        Some(ModeSettingsError::SigregKnots { family })
    );
    assert_eq!(
        fault(|c| c.info_reward_stride = 0),
        Some(ModeSettingsError::InfoRewardStride)
    );
    assert_eq!(fault(|c| c.quantize_bins = 1), Some(ModeSettingsError::QuantizeBins));
    assert_eq!(fault(|c| c.gdpo.group_size = 0), Some(ModeSettingsError::GroupSize));
    assert_eq!(
        fault(|c| c.action_noise_std = single(0.0)),
        Some(ModeSettingsError::ActionNoise)
    );
    assert_eq!(
        fault(|c| c.gdpo.hard_weight = single(-1.0)),
        Some(ModeSettingsError::HardWeight)
    );
    assert_eq!(
        fault(|c| c.gdpo.easy_weight = single(-1.0)),
        Some(ModeSettingsError::EasyWeight)
    );
    assert_eq!(
        fault(|c| c.gdpo.policy_weight = single(-1.0)),
        Some(ModeSettingsError::PolicyWeight)
    );
    assert_eq!(
        fault(|c| c.gdpo.policy_clip_range = single(-1.0)),
        Some(ModeSettingsError::PolicyClipRange)
    );
    assert_eq!(
        fault(|c| c.gdpo.advantage_clip = single(-2.0)),
        Some(ModeSettingsError::AdvantageClip { advantage_clip: single(-2.0) })
    );
    assert_eq!(
        fault(|c| c.gdpo.advantage_ema_decay = single(1.0)),
        Some(ModeSettingsError::AdvantageEmaDecay { advantage_ema_decay: single(1.0) })
    );
    assert_eq!(
        fault(|c| c.gdpo.hard_gate = GdpoHardGate::Percentile { quantile: single(2.0) }),
        Some(ModeSettingsError::HardGateQuantile { quantile: single(2.0) })
    );
    assert_eq!(
        fault(|c| c.gdpo.hard_gate = GdpoHardGate::Fixed { threshold: single(9.0) }),
        None
    );
    assert_eq!(
        fault(|c| {
            c.gdpo.enabled = false;
            c.gdpo.group_size = 0;
        }),
        None
    );
    assert_eq!(saccade_eyes(&saccade(), 3), 3);
    assert_eq!(saccade_eyes(&saccade(), 0), 1);
    assert_eq!(plan_saccade_dataset(&saccade(), 3).unwrap().views, 3);
}

#[test]
fn diagnostics_follow_the_losses() {
    let distill = plan_diagnostics(&VisionTrainingModeConfig::Distill);
    assert!(distill.distill && distill.distill_rollout && !distill.recon);
    assert_eq!(
        distill.artifacts,
        ArtifactSettings { every: 0, overwrite: false, max_images: 0, fps: 1 }
    );
    let joint = plan_diagnostics(&VisionTrainingModeConfig::Lejepa(lejepa()));
    assert!(joint.inv && joint.sigreg && joint.recon && joint.probe && !joint.policy);
    let looking = plan_diagnostics(&VisionTrainingModeConfig::Saccade(saccade()));
    assert!(looking.policy && !looking.probe);
    assert_eq!(looking.artifacts, artifacts());
    assert_eq!(TrainedModel::Lejepa.metric_prefix(), "lejepa");
    assert_eq!(TrainedModel::Distill.metric_prefix(), "distill");
    assert_eq!(TrainedModel::Mae.metric_prefix(), "mae");
    assert_eq!(TrainedModel::Saccade.metric_prefix(), "saccade");
    assert_eq!(scheduler_iters(&schedule(ScheduleSource::Epochs)), Some(30));
    assert_eq!(scheduler_iters(&schedule(ScheduleSource::MaxIters)), None);
}

#[test]
fn patch_scales_repeat_per_channel() {
    let init = VisionReconstructionInit { patch_dim: 6, patch_size: 2, in_channels: 3 };
    assert_eq!(denorm_patch_scales(&init, &vec![1, 2, 3]), Some(vec![1, 1, 2, 2, 3, 3]));
    assert_eq!(denorm_patch_scales(&init, &vec![1, 2]), Some(vec![1, 1, 2, 2, 1, 1]));
    let empty = VisionReconstructionInit { patch_dim: 0, ..init };
    assert_eq!(denorm_patch_scales(&empty, &vec![1]), None);
    let uneven = VisionReconstructionInit { patch_dim: 10, patch_size: 1, in_channels: 3 };
    assert_eq!(
        denorm_patch_scales(&uneven, &vec![1, 2, 3]),
        Some(vec![1, 2, 3, 1, 1, 1, 1, 1, 1, 1])
    );
    assert_eq!(recon_patch_dim(8, 3), 192);
    assert_eq!(recon_patch_dim(usize::MAX, 3), usize::MAX);
}

#[test]
fn reconstruction_heads_have_two_hidden_layers() {
    assert_eq!(
        reconstruction_head_dims(64, 32, 192),
        ReconstructionHeadDims { hidden: Some(32), out_input: 32, output: 192 }
    );
    assert_eq!(
        reconstruction_head_dims(0, 0, 0),
        ReconstructionHeadDims { hidden: None, out_input: 1, output: 1 }
    );
    assert!(has_reconstruction(single(0.1), 4));
    assert!(!has_reconstruction(single(0.0), 4));
    assert!(!has_reconstruction(single(0.1), 0));
}

#[test]
fn refinements_are_drawn_step_by_step() {
    let plan = plan_refinement(true, 2, 4, 5, 0).unwrap();
    assert_eq!((plan.images, plan.steps), (2, vec![1, 2, 3, 4, 5]));
    let thin = plan_refinement(true, 9, 4, 5, 3).unwrap();
    assert_eq!((thin.images, thin.steps), (4, vec![1, 3, 5]));
    assert!(plan_refinement(false, 2, 4, 5, 0).is_none());
    assert!(plan_refinement(true, 0, 4, 5, 0).is_none());
    assert!(plan_refinement(true, 2, 0, 5, 0).is_none());
    assert!(plan_refinement(true, 2, 4, 0, 0).is_none());
}

fn crops(global: usize, local: usize) -> BatchViews {
    BatchViews { has_target: false, views: None, global: Some(global), local: Some(local) }
}

#[test]
fn lejepa_steps_prefer_global_views() {
    let settings = LejepaSettings {
        recon: true,
        embedding: true,
        has_teacher: true,
        artifact_every: 1,
        artifact_rollout_steps: 0,
    };
    let plan = plan_lejepa_step(&settings, &collect_views(&crops(2, 3)), 6, true, true);
    assert_eq!(
        (plan.heatmap, plan.pca, plan.teacher, plan.refinement),
        (MapSource::Residual, MapSource::Global, TeacherViews::Global, RefinementSource::Global)
    );
    assert_eq!((plan.probe_views, plan.refinement_steps), (2, 6));
    let local = plan_lejepa_step(&settings, &collect_views(&crops(0, 3)), 6, true, true);
    assert_eq!(
        (local.heatmap, local.pca, local.teacher, local.refinement),
        (MapSource::Local, MapSource::Local, TeacherViews::All, RefinementSource::Local)
    );
    assert_eq!(local.probe_views, 3);
    let quiet = plan_lejepa_step(&settings, &collect_views(&crops(2, 3)), 6, false, true);
    assert_eq!((quiet.heatmap, quiet.pca), (MapSource::Global, MapSource::Nothing));
    assert!(!quiet.draw && quiet.active);
    let mut off = settings;
    off.embedding = false;
    off.artifact_rollout_steps = 9;
    let plain = plan_lejepa_step(&off, &collect_views(&crops(1, 0)), 0, true, false);
    assert_eq!((plain.teacher, plain.refinement_steps), (TeacherViews::Nothing, 9));
    assert_eq!(plain.heatmap, MapSource::Global);
}

#[test]
fn projections_are_compared_like_with_like() {
    let shape = |views: usize, batch: usize, dim: usize| ProjectionShape { views, batch, dim };
    assert_eq!(invariance_target(&shape(3, 2, 8), &shape(1, 2, 8)), InvarianceTarget::View);
    assert_eq!(invariance_target(&shape(3, 2, 8), &shape(2, 2, 8)), InvarianceTarget::MeanView);
    assert_eq!(invariance_target(&shape(3, 2, 8), &shape(2, 3, 8)), InvarianceTarget::Nothing);
    assert_eq!(invariance_target(&shape(0, 2, 8), &shape(2, 2, 8)), InvarianceTarget::Nothing);
    assert!(shape(1, 0, 1).is_empty());
    let plan = plan_sketch(&shape(1, 2, 8), 0, 0).unwrap();
    assert_eq!(plan, SketchPlan { knots: 2, directions: 1 });
    assert!(is_sketch_end(&plan, 0) && is_sketch_end(&plan, 1));
    let wide = plan_sketch(&shape(1, 2, 8), 17, 64).unwrap();
    assert!(!is_sketch_end(&wide, 8));
    assert_eq!(plan_sketch(&shape(1, 2, 0), 17, 64), None);
}

#[test]
fn drawn_views_are_captioned() {
    assert_eq!(lejepa_legend(true, 0), None);
    assert_eq!(
        lejepa_legend(true, 3).unwrap(),
        vec!["input", "masked_input", "reconstruction"]
    );
    assert_eq!(lejepa_legend(true, 1).unwrap(), vec!["input"]);
    assert_eq!(lejepa_legend(false, 3).unwrap(), vec!["view_0", "view_1", "view_2"]);
}

#[test]
fn pyramids_end_where_halving_does() {
    assert_eq!(pyramid_levels(3, &[true, true, true]), 3);
    assert_eq!(pyramid_levels(5, &[true, false, true]), 2);
    assert_eq!(pyramid_levels(0, &[true]), 1);
    assert_eq!(pyramid_level_at(3, 0), 2);
    assert_eq!(pyramid_level_at(3, 2), 0);
}

fn level(batch: usize, eyes: usize, side: usize) -> PyramidLevel {
    PyramidLevel { batch, eyes, grid_h: side, grid_w: side, tokens: side * side, patch_dim: 3 }
}

#[test]
fn only_the_finest_level_is_drawn() {
    let mut broken = level(2, 1, 2);
    broken.tokens = 5;
    let plans = plan_levels(&vec![level(2, 1, 1), broken, level(2, 1, 4)], false, true);
    assert_eq!(
        plans,
        vec![
            LevelPlan { level: 0, full_count: 6, visible_count: 0, drawn: false },
            LevelPlan { level: 2, full_count: 96, visible_count: 0, drawn: true },
        ]
    );
    let empty = plan_levels(&vec![level(0, 1, 2)], false, true);
    assert!(empty.is_empty());
}

#[test]
fn masked_steps_follow_their_settings() {
    let cross = CrossViewSettings {
        masked_eye: 1,
        visible_weight: single(0.5),
        fuse_alpha: single(0.0),
    };
    let settings = MaeSettings {
        num_eyes: 3,
        cross_view_enabled: true,
        cross_view: cross,
        artifact_rollout_steps: 0,
    };
    let extras = BatchExtras { views: false, target: true };
    let plan = plan_mae_step(&settings, &extras, &vec![level(2, 3, 2)], 4, true);
    assert_eq!(plan.eyes, Some((EyeSource::ImageAndTarget, 3)));
    assert_eq!(plan.levels[0].visible_count, 2 * 2 * 4 * 3);
    assert!(plan.full_is_masked && plan.visible && plan.drawn);
    assert_eq!(plan.refinement_steps, 4);
    let mut one_by_one = settings;
    one_by_one.cross_view_enabled = false;
    let plain = plan_mae_step(&one_by_one, &extras, &vec![level(2, 1, 2)], 0, false);
    assert_eq!((plain.eyes, plain.full_is_masked, plain.drawn), (None, false, false));
    assert_eq!(plain.levels[0].visible_count, 0);
    assert_eq!(plain.refinement_steps, 1);
    assert_eq!(eye_source(true, true), EyeSource::Views);
    assert_eq!(eye_source(false, false), EyeSource::RepeatedImage);
    let seen = plan_cross_view(&cross, 3);
    assert_eq!((seen.visible_eyes, seen.fuse), (vec![0, 2], false));
    let mut fused = cross;
    fused.visible_weight = single(0.0);
    fused.fuse_alpha = single(0.3);
    let mixed = plan_cross_view(&fused, 3);
    assert_eq!((mixed.visible_eyes, mixed.fuse), (vec![], true));
}

#[test]
fn groups_without_patches_are_passed_over() {
    assert_eq!(
        plan_recon_group(true, 3, &level(2, 1, 2), true),
        Some(LevelPlan { level: 0, full_count: 3 * 2 * 4 * 3, visible_count: 0, drawn: true })
    );
    assert_eq!(plan_recon_group(false, 3, &level(2, 1, 2), true), None);
    assert_eq!(plan_recon_group(true, 0, &level(2, 1, 2), true), None);
    assert_eq!(plan_recon_group(true, 3, &level(2, 1, 0), true), None);
}

#[test]
fn views_fall_back_to_the_image() {
    let with = |has_target: bool, views: Option<usize>| {
        collect_views(&BatchViews { has_target, views, global: None, local: None })
    };
    assert_eq!(with(false, None).all, vec![ViewRef::Image]);
    assert_eq!(with(true, None).global, vec![ViewRef::Image, ViewRef::Target]);
    assert_eq!(with(true, Some(2)).global, vec![ViewRef::View(0), ViewRef::View(1)]);
    let both = collect_views(&crops(1, 2));
    assert_eq!(both.global, vec![ViewRef::Global(0)]);
    assert_eq!(both.local, vec![ViewRef::Local(0), ViewRef::Local(1)]);
    assert_eq!(both.all.len(), 3);
    assert_eq!(both.artifact_views(), vec![ViewRef::Global(0)]);
    assert_eq!(
        collect_views(&crops(0, 2)).artifact_views(),
        vec![ViewRef::Local(0), ViewRef::Local(1)]
    );
}

#[test]
fn one_view_is_cut_out_of_many() {
    let frames = FrameBatch { batch: 4, channels: 1, height: 1, width: 2, data: (0..8).collect() };
    let views = ViewFrames { views: 2, frames };
    let second = split_view(&views, 1);
    assert_eq!((second.batch, second.data), (2, vec![2, 3, 6, 7]));
}

#[test]
fn legends_are_filled_up() {
    let given = Some(vec!["a".to_string(), "b".to_string(), "c".to_string()]);
    assert_eq!(normalize_artifact_legend(given.clone(), 2).unwrap(), vec!["a", "b"]);
    assert_eq!(
        normalize_artifact_legend(given.clone(), 4).unwrap(),
        vec!["a", "b", "c", "view_3"]
    );
    let plan = plan_view_artifacts(4, 2, 3, 9, true, true, given).unwrap();
    assert_eq!((plan.image_count, plan.view_count), (4, 2));
    assert_eq!(plan.legend, vec!["a", "b", "heatmap", "pca_rgb"]);
    assert!(plan_view_artifacts(0, 2, 3, 9, true, true, None).is_none());
}

#[test]
fn masks_are_planned_by_ratio() {
    assert_eq!(plan_patch_mask(2, 4, single(0.0), true), MaskPlan::NothingMasked);
    assert_eq!(plan_patch_mask(2, 4, single(1.0), true), MaskPlan::EverythingMasked);
    assert_eq!(plan_patch_mask(2, 4, single(0.5), true), MaskPlan::Random);
    assert_eq!(plan_patch_mask(2, 4, single(0.5), false), MaskPlan::Seeded);
    assert_eq!(plan_patch_mask(0, 4, single(1.0), false), MaskPlan::NothingMasked);
}

#[test]
fn maps_need_square_grids() {
    assert_eq!(plan_pca(3, 16, 8, 2), Some(PcaPlan { grid: 4, images: 2 }));
    assert_eq!(plan_pca(3, 15, 8, 2), None);
    assert_eq!(
        plan_heatmap(3, 16, 8, 2),
        Some(HeatmapPlan::Component(PcaPlan { grid: 4, images: 2 }))
    );
    assert_eq!(plan_heatmap(3, 16, 0, 2), Some(HeatmapPlan::Norms { grid: 4 }));
    assert_eq!(plan_heatmap(3, 15, 8, 2), None);
}

#[test]
fn shuffling_undoes_unshuffling() {
    let input = FrameBatch { batch: 2, channels: 1, height: 4, width: 6, data: (0..48).collect() };
    let folded = pixel_unshuffle(&input, 2);
    assert_eq!((folded.channels, folded.height, folded.width), (4, 2, 3));
    assert_eq!(folded.get(0, 1, 0, 0), 1);
    assert_eq!(folded.get(0, 2, 0, 0), 6);
    let unfolded = pixel_shuffle(&folded, 2);
    assert_eq!(unfolded.data, input.data);
    let other = FrameBatch { batch: 1, channels: 8, height: 1, width: 2, data: (0..16).collect() };
    assert_eq!(pixel_unshuffle(&pixel_shuffle(&other, 2), 2).data, other.data);
}

#[test]
fn frames_are_built_element_by_element() {
    let frames = build_frames(1, 2, 2, 2, |b: usize, c: usize, y: usize, x: usize| {
        1000 * b + 100 * c + 10 * y + x
    });
    assert_eq!(frames.data, vec![0, 1, 10, 11, 100, 101, 110, 111]);
}

#[test]
fn token_grids_are_square_or_flat() {
    assert_eq!(token_grid(16), (4, 4));
    assert_eq!(token_grid(6), (1, 6));
    assert_eq!(token_grid(0), (1, 1));
}

#[test]
fn projection_sizes_grow_with_the_patch() {
    assert_eq!((resolve_cnn_blocks(16, 0), resolve_cnn_blocks(64, 0)), (1, 3));
    assert_eq!(resolve_cnn_blocks(64, 5), 5);
    assert_eq!((resolve_cnn_kernel(8, 0), resolve_cnn_kernel(32, 0)), (3, 5));
    assert_eq!((resolve_cnn_kernel(1024, 0), resolve_cnn_kernel(8, 9)), (7, 9));
    assert_eq!((resolve_micro_vit_layers(32, 0), resolve_micro_vit_layers(8, 4)), (2, 4));
    assert_eq!(resolve_micro_vit_heads(64, 16, 0), 2);
    assert_eq!(resolve_micro_vit_heads(64, 256, 0), 8);
    assert_eq!(resolve_micro_vit_heads(7, 16, 4), 1);
    assert_eq!(resolve_micro_vit_heads(9, 16, 4), 3);
    assert_eq!((resolve_radial_hidden_dim(64, 0), resolve_radial_hidden_dim(4, 0)), (32, 8));
    assert_eq!(resolve_radial_hidden_dim(64, 5), 5);
}

#[test]
fn parameters_are_counted() {
    assert_eq!(linear_params(3, 5), 20);
    assert_eq!(layer_norm_params(7), 14);
    assert_eq!(conv_params(8, 16, 3, 1), 8 * 16 * 9 + 16);
    assert_eq!(conv_params(8, 8, 3, 8), 8 * 9 + 8);
    assert_eq!(
        cnn_block_params(8, 3, 2),
        (8 * 9 + 8) + (8 * 16 + 16) + (16 * 8 + 8)
    );
    assert_eq!(
        micro_vit_block_params(4, 2),
        2 * 8 + (4 * 12 + 12) + (4 * 4 + 4) + (4 * 8 + 8) + (8 * 4 + 4)
    );
    assert_eq!(radial_params(4, 8), (1 * 8 + 8) + (8 * 4 + 4));
    assert_eq!(linear_projection_params(4), 20 + 8);
}

#[test]
fn projections_are_planned() {
    let cnn = plan_cnn_projection(
        16,
        16,
        &VisionSaccadeInputProjectionCnnConfig {
            channels: Some(8),
            kernel: 0,
            expansion: 2,
            blocks: 0,
        },
    );
    assert_eq!((cnn.channels, cnn.kernel, cnn.expansion, cnn.blocks), (8, 3, 2, 1));
    assert_eq!(
        cnn.param_count,
        layer_norm_params(16) + linear_params(16, 8) + cnn_block_params(8, 3, 2) + linear_params(8, 16)
    );
    let vit = plan_micro_vit_projection(
        16,
        16,
        &VisionSaccadeInputProjectionMicroVitConfig {
            layers: 2,
            heads: 4,
            mlp_ratio: 2,
            radial_hidden_dim: 0,
        },
    );
    assert_eq!((vit.layers, vit.heads, vit.head_dim, vit.mlp_dim), (2, 4, 4, 32));
    assert_eq!(vit.param_count, radial_params(16, 8) + 2 * micro_vit_block_params(16, 2));
}

#[test]
fn the_configured_projection_is_planned() {
    let linear = plan_input_projection(4, 16, &VisionSaccadeInputProjectionConfig::Linear);
    assert_eq!(linear, InputProjectionPlan::Linear { param_count: 28 });
    assert_eq!(linear.param_count(), 28);
    let config = VisionSaccadeInputProjectionCnnConfig {
        channels: None,
        kernel: 5,
        expansion: 0,
        blocks: 3,
    };
    let cnn = plan_input_projection(16, 16, &VisionSaccadeInputProjectionConfig::Cnn(config));
    assert_eq!(cnn, InputProjectionPlan::Cnn(plan_cnn_projection(16, 16, &config)));
    assert_eq!(
        cnn.param_count(),
        layer_norm_params(16) + 2 * linear_params(16, 16) + 3 * cnn_block_params(16, 5, 1)
    );
    let config = VisionSaccadeInputProjectionMicroVitConfig {
        layers: 1,
        heads: 4,
        mlp_ratio: 2,
        radial_hidden_dim: 12,
    };
    let vit =
        plan_input_projection(16, 16, &VisionSaccadeInputProjectionConfig::RadialMicroVit(config));
    assert_eq!(
        vit,
        InputProjectionPlan::RadialMicroVit(plan_micro_vit_projection(16, 16, &config))
    );
    assert_eq!(vit.param_count(), radial_params(16, 12) + micro_vit_block_params(16, 2));
}

#[test]
fn tokens_and_images_are_the_same_data() {
    let tokens = FrameBatch { batch: 1, channels: 6, height: 1, width: 2, data: (0..12).collect() };
    let image = tokens_to_image(&tokens, 2, 3);
    assert_eq!((image.channels, image.height, image.width), (2, 2, 3));
    assert_eq!(image.get(0, 1, 1, 2), 11);
    assert_eq!(image_to_tokens(&image).data, tokens.data);
}

#[test]
fn heads_are_split_and_merged() {
    let tokens = FrameBatch { batch: 1, channels: 2, height: 1, width: 4, data: (0..8).collect() };
    let split = split_heads(&tokens, 2, 2);
    assert_eq!((split.channels, split.height, split.width), (2, 2, 2));
    assert_eq!(split.data, vec![0, 1, 4, 5, 2, 3, 6, 7]);
    assert_eq!(merge_heads(&split).data, tokens.data);
}
