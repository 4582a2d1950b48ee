use burn_dragon_vision::cifar::CifarBatch;
use burn_dragon_vision::config::{
    ImageNetSplit, VisionDatasetSource, VisionRacConfig, VisionRacMemoryConfig,
    VisionRacPrecomputedLatentConfig, VisionRacSemanticTeacherConfig, VisionRacTeacherConfig,
    VisionRacTeacherKind, VisionTeacherConfig, VisionTeacherFeatureConfig,
    VisionTeacherModelConfig,
};
use burn_dragon_vision::frames::FrameBatch;
use burn_dragon_vision::imagenet::ImageNetBatch;
use burn_dragon_vision::rac::artifacts::{
    artifact_samples, count_activity, matrix_rows, plan_artifact_steps, rac_artifact_legend,
    sidecar_samples, FeaturePick, FramePick, RacArtifactStep, SidecarSample, TrajectoryLengths,
};
use burn_dragon_vision::rac::batch::VisionRacBatch;
use burn_dragon_vision::rac::eval::{
    maybe_square_grid, plan_latent_to_state, plan_patch_alignment, plan_rac_eval,
    plan_state_to_latent, LatentSource, PatchAlignment, RacArtifactRequest, RacEvalInputs,
    SemanticLoss, StateTransfer,
};
use burn_dragon_vision::rac::flow::{
    flow_window, plan_flow, randomises_time_grid, time_grid_points, FlowSettings,
};
use burn_dragon_vision::rac::report::{
    checkpoint_file_name, epoch_dir_name, epoch_order, is_report_file, metric_log_fields,
    parse_epoch_dir, parse_number, report_note_list, select_best_epoch, MetricSummary,
    RacBestCheckpointReport, RacMetric,
};
use burn_dragon_vision::rac::runtime::{
    default_export_dir_name, eval_vision_rac_checkpoint_backend, first_free_suffix,
    image_file_name, numbered_dir_name, rac_eval_source, ExportBatch, RacEvalAction, RacEvalError,
    RacEvalEvent, RacEvalRefusal, RacEvalSettings, RacEvalSource, RacExport,
    VisionRacCheckpointEvalSummary,
};
use burn_dragon_vision::rac::state::{
    align_channels, centered_subpixel_state_to_latent, copy_frames, latent_extent,
    latent_to_centered_subpixel_state, rgb_state, subpixel_plan, SubpixelPlan,
    VisionRacStateMappingKind,
};
use burn_dragon_vision::rac::teacher::{
    rac_semantic_teacher_feature_dim, rac_semantic_teacher_store, rac_teacher_latent_store,
    semantic_head_dims, semantic_patch_head_dims, ProjectionHeadDims, RacTeacherError,
};
use burn_dragon_vision::scalar::{Double, Single};

fn single(value: f32) -> Single {
    Single { bits: value.to_bits() }
}

fn features() -> VisionTeacherFeatureConfig {
    VisionTeacherFeatureConfig {
        train_cls_path: "train_cls.bin".to_string(),
        val_cls_path: "val_cls.bin".to_string(),
        train_patch_path: Some("train_patch.bin".to_string()),
        val_patch_path: None,
        feature_dim: 96,
        patch_tokens: Some(16),
    }
}

fn config() -> VisionRacConfig {
    VisionRacConfig {
        sample_steps: 4,
        random_time_grid: true,
        reverse_noise: false,
        state_channels: 12,
        probe_weight: single(0.5),
        artifact_every: 1,
        artifact_max_images: 4,
        artifact_upscale: 0,
        teacher: VisionRacTeacherConfig {
            kind: VisionRacTeacherKind::PooledImage,
            state_mapping: VisionRacStateMappingKind::ExpandNearest,
            latent_downsample: 8,
            precomputed_latent: None,
        },
        semantic_teacher: VisionRacSemanticTeacherConfig {
            weight: single(1.0),
            cls_weight: single(1.0),
            patch_weight: single(0.0),
            hidden_dim: None,
            teacher: VisionTeacherConfig::Features(features()),
        },
        memory: VisionRacMemoryConfig {
            reset_each_step: false,
            detach_each_step: false,
            flow_backprop_steps: Some(2),
            disable_writes: false,
            eval_wipe_after_step: Some(3),
        },
    }
}

const FORWARD: FlowSettings = FlowSettings {
    reverse: false,
    reverse_noise: false,
    wipe_after_step: Some(2),
    detach_each_step: false,
    flow_backprop_steps: Some(2),
};

#[test]
fn epoch_directories_are_named_and_read_back() {
    assert_eq!(epoch_dir_name(0), "epoch-0");
    assert_eq!(epoch_dir_name(120), "epoch-120");
    for epoch in [0usize, 7, 10, 99, 4096, usize::MAX] {
        assert_eq!(parse_epoch_dir(&epoch_dir_name(epoch)), Some(epoch));
    }
}

#[test]
fn metrics_have_their_log_files() {
    assert_eq!(RacMetric::Loss.log_file(), "Loss.log");
    assert_eq!(RacMetric::ForwardReconLoss.log_file(), "rac_inv_loss.log");
    assert_eq!(RacMetric::ForwardPathLoss.name(), "rac_forward_path_loss");
    assert_eq!(RacMetric::ForwardVelocityLoss.name(), "rac_forward_velocity_loss");
    assert_eq!(RacMetric::ForwardPsnr.name(), "rac_recon_psnr_masked");
    assert_eq!(RacMetric::ReverseLatentLoss.name(), "rac_reverse_latent_loss");
    assert_eq!(RacMetric::ReverseToInitLoss.name(), "rac_reverse_to_init_loss");
    assert_eq!(RacMetric::RoundtripReconLoss.name(), "rac_recon_loss");
    assert_eq!(RacMetric::RoundtripPsnr.name(), "rac_recon_psnr_full");
    assert_eq!(RacMetric::ProbeLoss.name(), "rac_probe_loss");
    assert_eq!(RacMetric::ProbeAccuracy.name(), "rac_probe_acc");
    assert_eq!(report_note_list().len(), 3);
}

#[test]
fn flows_cross_the_grid_in_order() {
    let plan = plan_flow(6, &FORWARD);
    assert_eq!(plan.len(), 5);
    let intervals: Vec<usize> = plan.iter().map(|s| s.interval).collect();
    assert_eq!(intervals, vec![0, 1, 2, 3, 4]);
    let cuts: Vec<bool> = plan.iter().map(|s| s.detach).collect();
    assert_eq!(cuts, vec![false, true, false, true, false]);
    let wipes: Vec<bool> = plan.iter().map(|s| s.wipe_memory).collect();
    assert_eq!(wipes, vec![false, true, false, false, false]);
    assert!(plan.iter().all(|s| s.noise && s.arrival_index == s.time_index + 1));
}

#[test]
fn reverse_flows_mirror_forward_ones() {
    let reverse = FlowSettings { reverse: true, ..FORWARD };
    let plan = plan_flow(4, &reverse);
    let times: Vec<(usize, usize)> = plan.iter().map(|s| (s.time_index, s.arrival_index)).collect();
    assert_eq!(times, vec![(3, 2), (2, 1), (1, 0)]);
    assert!(plan.iter().all(|s| !s.noise));
}

#[test]
fn gradient_windows_are_bounded() {
    assert_eq!(flow_window(&FORWARD, 5), 2);
    assert_eq!(flow_window(&FlowSettings { flow_backprop_steps: Some(9), ..FORWARD }, 5), 5);
    assert_eq!(flow_window(&FlowSettings { flow_backprop_steps: None, ..FORWARD }, 5), 5);
    assert_eq!(flow_window(&FlowSettings { flow_backprop_steps: Some(0), ..FORWARD }, 5), 1);
    assert_eq!(flow_window(&FlowSettings { detach_each_step: true, ..FORWARD }, 5), 1);
    assert_eq!((time_grid_points(0), time_grid_points(4)), (2, 5));
    assert!(randomises_time_grid(2, true));
    assert!(!randomises_time_grid(1, true));
    assert!(!randomises_time_grid(4, false));
}

fn inputs(capture: bool) -> RacEvalInputs {
    RacEvalInputs {
        image_height: 32,
        image_width: 20,
        has_teacher_latent: false,
        has_teacher_cls: true,
        has_teacher_patch: true,
        has_semantic_head: true,
        has_semantic_patch_head: false,
        capture_artifacts: capture,
    }
}

#[test]
fn evaluations_decode_and_encode() {
    let plan = plan_rac_eval(&config(), &inputs(true));
    assert_eq!(plan.latent, LatentSource::Pooled { height: 4, width: 3 });
    assert_eq!((plan.grid_points, plan.semantic, plan.probe_loss), (5, SemanticLoss::Cls, true));
    assert_eq!((plan.decode.reverse, plan.encode.reverse), (false, true));
    assert_eq!(
        plan.artifacts,
        Some(RacArtifactRequest { max_images: 4, upscale: 1, flow_backprop_steps: Some(2) })
    );
    assert_eq!(plan_rac_eval(&config(), &inputs(false)).artifacts, None);
    let mut silent = config();
    silent.semantic_teacher.weight = single(0.0);
    assert_eq!(plan_rac_eval(&silent, &inputs(false)).semantic, SemanticLoss::Absent);
}

#[test]
fn patch_features_are_aligned() {
    assert_eq!(plan_patch_alignment(16, 16), PatchAlignment::Keep);
    assert_eq!(
        plan_patch_alignment(16, 49),
        PatchAlignment::Interpolate { source_side: 4, target_side: 7 }
    );
    assert_eq!(plan_patch_alignment(15, 49), PatchAlignment::Truncate { tokens: 15 });
    assert_eq!((maybe_square_grid(49), maybe_square_grid(50)), (Some(7), None));
}

#[test]
fn states_and_latents_are_matched() {
    let nearest = VisionRacStateMappingKind::ExpandNearest;
    let centred = VisionRacStateMappingKind::CenteredSubpixel;
    assert_eq!(plan_latent_to_state(nearest, 4, 4, 4, 4), StateTransfer::Copy);
    assert_eq!(plan_latent_to_state(nearest, 4, 4, 8, 8), StateTransfer::Nearest);
    assert_eq!(
        plan_latent_to_state(centred, 4, 4, 8, 8),
        StateTransfer::Centres { stride: 2 }
    );
    assert_eq!(plan_latent_to_state(centred, 3, 4, 8, 8), StateTransfer::Nearest);
    assert_eq!(plan_state_to_latent(nearest, 8, 8, 4, 4), StateTransfer::Pool);
    assert_eq!(
        plan_state_to_latent(centred, 8, 8, 4, 4),
        StateTransfer::Centres { stride: 2 }
    );
    assert_eq!(subpixel_plan(4, 4, 8, 8), SubpixelPlan::Tiles(2));
    assert_eq!(subpixel_plan(4, 4, 4, 4), SubpixelPlan::Identity);
    assert_eq!(subpixel_plan(3, 3, 8, 8), SubpixelPlan::Resample);
    assert_eq!((latent_extent(32, 8), latent_extent(3, 8), latent_extent(5, 0)), (4, 1, 5));
}

fn frames(channels: usize, side: usize) -> FrameBatch<u32> {
    FrameBatch {
        batch: 1,
        channels,
        height: side,
        width: side,
        data: (1..=(channels * side * side) as u32).collect(),
    }
}

#[test]
fn channels_are_padded_and_cut() {
    let wide = align_channels(&frames(1, 2), 3, 0);
    assert_eq!(wide.data, vec![1, 2, 3, 4, 0, 0, 0, 0, 0, 0, 0, 0]);
    assert_eq!(align_channels(&wide, 1, 9).data, vec![1, 2, 3, 4]);
    assert_eq!(rgb_state(&frames(4, 1)).data, vec![1, 2, 3]);
    assert_eq!(rgb_state(&frames(2, 1)).data, vec![1, 2]);
    assert_eq!(copy_frames(&frames(2, 1)).data, vec![1, 2]);
}

#[test]
fn centres_give_the_latent_back() {
    let latent = frames(2, 2);
    let state = latent_to_centered_subpixel_state(&latent, 6, 6, 0).unwrap();
    assert_eq!((state.height, state.width), (6, 6));
    assert_eq!(state.data.iter().filter(|v| **v > 0).count(), 8);
    assert_eq!(state.get(0, 0, 1, 1), 1);
    assert_eq!(state.get(0, 1, 4, 4), 8);
    let back = centered_subpixel_state_to_latent(&state, 2, 2).unwrap();
    assert_eq!(back.data, latent.data);
    assert!(latent_to_centered_subpixel_state(&latent, 5, 6, 0).is_none());
}

#[test]
fn semantic_teachers_are_opened_per_split() {
    let mut cls_only = config();
    cls_only.semantic_teacher.patch_weight = single(0.0);
    let store = rac_semantic_teacher_store(ImageNetSplit::Val, &cls_only, 10, true)
        .unwrap()
        .unwrap();
    assert_eq!((store.cls_path.as_str(), store.feature_dim), ("val_cls.bin", 96));
    assert_eq!(store.expected_records, 10);
    let mut off = config();
    off.semantic_teacher.weight = single(0.0);
    assert!(rac_semantic_teacher_store(ImageNetSplit::Val, &off, 10, true).unwrap().is_none());
    assert_eq!(rac_semantic_teacher_feature_dim(&off, 64), None);
    assert_eq!(rac_semantic_teacher_feature_dim(&config(), 64), Some(96));
    let mut network = config();
    network.semantic_teacher.teacher = VisionTeacherConfig::Model(VisionTeacherModelConfig {
        image_size: None,
        patch_size: None,
        patch_tokens: None,
        feature_dim: None,
        variant_dim: 64,
    });
    assert_eq!(
        rac_semantic_teacher_store(ImageNetSplit::Train, &network, 10, true).err(),
        Some(RacTeacherError::SemanticTeacherIsModel)
    );
}

#[test]
fn latent_stores_need_precomputed_latents() {
    assert!(rac_teacher_latent_store(ImageNetSplit::Train, &config(), 5, false)
        .unwrap()
        .is_none());
    let mut precomputed = config();
    precomputed.teacher.kind = VisionRacTeacherKind::PrecomputedLatent;
    assert_eq!(
        rac_teacher_latent_store(ImageNetSplit::Train, &precomputed, 5, false).err(),
        Some(RacTeacherError::MissingPrecomputedLatent)
    );
    precomputed.teacher.precomputed_latent = Some(VisionRacPrecomputedLatentConfig {
        train_path: "train_latent.bin".to_string(),
        val_path: "val_latent.bin".to_string(),
        channels: 4,
        height: 8,
        width: 8,
    });
    let store = rac_teacher_latent_store(ImageNetSplit::Val, &precomputed, 5, false)
        .unwrap()
        .unwrap();
    assert_eq!((store.path.as_str(), store.channels, store.expected_records), ("val_latent.bin", 4, 5));
}

#[test]
fn semantic_heads_have_three_widths() {
    assert_eq!(
        semantic_head_dims(&config(), 64),
        Some(ProjectionHeadDims { input: 64, hidden: 192, output: 96 })
    );
    assert_eq!(semantic_patch_head_dims(&config(), 64), None);
    let mut patched = config();
    patched.semantic_teacher.patch_weight = single(1.0);
    patched.semantic_teacher.hidden_dim = Some(10);
    assert_eq!(
        semantic_patch_head_dims(&patched, 64),
        Some(ProjectionHeadDims { input: 64, hidden: 10, output: 96 })
    );
}

#[test]
fn batches_carry_their_teachers() {
    let images = FrameBatch { batch: 1, channels: 3, height: 1, width: 1, data: vec![1.0f32, 2.0, 3.0] };
    let latent = FrameBatch { batch: 1, channels: 1, height: 1, width: 1, data: vec![9.0f32] };
    let source = ImageNetBatch::new(images, None, None, None, None, None, vec![4], None, None)
        .with_rac_teacher_latent(Some(latent));
    let batch = VisionRacBatch::from(source);
    assert_eq!(batch.labels, vec![4]);
    assert_eq!(batch.teacher_latent.map(|l| l.data), Some(vec![9.0]));
    assert!(batch.teacher_cls.is_none());
    let raw = FrameBatch { batch: 1, channels: 3, height: 1, width: 1, data: vec![7u8, 8, 9] };
    let cifar = VisionRacBatch::from(CifarBatch::new(raw, vec![2]));
    assert_eq!((cifar.images.data, cifar.labels), (vec![7, 8, 9], vec![2]));
    let plain = VisionRacBatch::new(
        FrameBatch { batch: 1, channels: 1, height: 1, width: 1, data: vec![1u8] },
        vec![0],
        None,
        None,
        None,
    );
    assert!(plain.teacher_latent.is_none() && plain.teacher_patch.is_none());
}

#[test]
fn rac_forward_losses_emit_artifacts_with_expected_panels() {
    let (batch, steps) = (2, 3);
    let mut rac = config();
    rac.sample_steps = steps;
    rac.random_time_grid = false;
    rac.artifact_every = 1;
    rac.artifact_max_images = 2;
    rac.artifact_upscale = 2;
    rac.memory.flow_backprop_steps = Some(2);
    let inputs = RacEvalInputs {
        image_height: 32,
        image_width: 32,
        has_teacher_latent: false,
        has_teacher_cls: false,
        has_teacher_patch: false,
        has_semantic_head: false,
        has_semantic_patch_head: false,
        capture_artifacts: true,
    };

    let plan = plan_rac_eval(&rac, &inputs);
    assert_eq!((plan.grid_points, plan.random_grid), (4, false));
    let artifacts = plan.artifacts.expect("artifact capture should be enabled for RAC");
    let legend = rac_artifact_legend();

    assert_eq!(
        legend,
        vec![
            "forward_state_x_t".to_string(),
            "forward_velocity_patch_norm_v_t".to_string(),
            "forward_patch_pca_z_t".to_string(),
            "reverse_velocity_patch_norm_v_t".to_string(),
            "reverse_patch_pca_z_t".to_string(),
            "reverse_state_x_t_matched".to_string(),
            "roundtrip_state_x_t".to_string(),
            "forward_reference_error_patch_norm".to_string(),
        ]
    );
    let drawn = plan_artifact_steps(&TrajectoryLengths {
        forward_steps: steps,
        forward_states: steps + 1,
        forward_times: steps + 1,
        reverse_states: steps + 1,
        reverse_velocities: steps,
        reverse_tokens: steps,
        roundtrip_states: steps + 1,
    });
    assert_eq!(drawn.len(), steps);
    for (k, step) in drawn.iter().enumerate() {
        assert_eq!(
            (step.forward, step.roundtrip, step.reverse),
            (
                FramePick::Recorded(k),
                FramePick::Recorded(k),
                FramePick::Recorded(steps - k)
            ),
            "expected trajectory frames"
        );
        assert_eq!(
            (step.reverse_velocity, step.reverse_tokens),
            (
                FeaturePick::Recorded(steps - 1 - k),
                FeaturePick::Recorded(steps - 1 - k)
            ),
            "expected reverse heatmaps and PCA maps"
        );
    }
    assert_eq!(artifact_samples(drawn.len(), artifacts.max_images, &[batch; 8]), Some(2));
    assert_eq!(sidecar_samples(batch, artifacts.max_images, &[0, 1], &[0, 0]).len(), 2);
    assert_eq!(
        artifacts.flow_backprop_steps,
        Some(2),
        "expected sidecar memory mode to record flow_backprop_steps"
    );
    assert_eq!(flow_window(&plan.decode, steps), 2);
}

#[test]
fn matching_trajectories_are_drawn_in_full() {
    let steps = plan_artifact_steps(&TrajectoryLengths {
        forward_steps: 2,
        forward_states: 3,
        forward_times: 3,
        reverse_states: 3,
        reverse_velocities: 2,
        reverse_tokens: 2,
        roundtrip_states: 1,
    });
    assert_eq!(
        steps,
        vec![
            RacArtifactStep {
                forward: FramePick::Recorded(0),
                time: Some(0),
                reverse: FramePick::Recorded(2),
                roundtrip: FramePick::Recorded(0),
                reverse_velocity: FeaturePick::Recorded(1),
                reverse_tokens: FeaturePick::Recorded(1),
            },
            RacArtifactStep {
                forward: FramePick::Recorded(1),
                time: Some(1),
                reverse: FramePick::Recorded(1),
                roundtrip: FramePick::Final,
                reverse_velocity: FeaturePick::Recorded(0),
                reverse_tokens: FeaturePick::Recorded(0),
            },
        ]
    );
}

#[test]
fn drawn_samples_fit_every_stack() {
    assert_eq!(artifact_samples(3, 8, &[5, 4, 9]), Some(4));
    assert_eq!(artifact_samples(3, 0, &[5]), Some(1));
    assert_eq!(artifact_samples(3, 8, &[5, 0]), None);
    assert_eq!(artifact_samples(0, 8, &[5]), None);
    assert_eq!(
        sidecar_samples(2, 9, &[4, 7], &[4]),
        vec![
            SidecarSample { sample_index: 0, label: 4, probe_pred: 4, probe_correct: true },
            SidecarSample { sample_index: 1, label: 7, probe_pred: -1, probe_correct: false },
        ]
    );
    assert_eq!(matrix_rows(&[1, 2, 3, 4, 5, 6], 2, 3), vec![vec![1, 2, 3], vec![4, 5, 6]]);
}

#[test]
fn activity_counts_values_above_the_threshold() {
    let values = [0.0f32, 0.5, -0.5, 1.0e-3, 2.0e-3, f32::NAN].map(single);
    assert_eq!(count_activity(&values), (3, 2));
}

#[test]
fn metric_logs_are_cut_into_fields() {
    let read = |text: &str| -> Vec<String> {
        metric_log_fields(&text.chars().collect())
            .into_iter()
            .map(|field| field.into_iter().collect())
            .collect()
    };
    assert_eq!(read("1.5,extra\n\n  2.5  \r\n 3 , 4\n"), vec!["1.5", "2.5", "3"]);
    assert_eq!(read(""), Vec::<String>::new());
    assert_eq!(read("a"), vec!["a"]);
}

#[test]
fn epochs_are_read_from_directory_names() {
    assert_eq!(parse_epoch_dir("epoch-12"), Some(12));
    assert_eq!(parse_epoch_dir("epoch-+7"), Some(7));
    assert_eq!(parse_epoch_dir("epoch-"), None);
    assert_eq!(parse_epoch_dir("epoch-1x"), None);
    assert_eq!(parse_epoch_dir("epochs-1"), None);
    for text in ["0", "007", "+5", "", "+", "-1", "18446744073709551615", "18446744073709551616"] {
        assert_eq!(parse_number(text), text.parse::<usize>().ok(), "{text}");
    }
    assert_eq!(epoch_order(&[3, 1, 2]), vec![(1, 1), (2, 2), (0, 3)]);
}

#[test]
fn the_best_epoch_has_the_lowest_loss() {
    let double = |v: f64| Double { bits: v.to_bits() };
    let best = |values: &[f64]| {
        select_best_epoch(&values.iter().map(|v| double(*v)).collect::<Vec<_>>())
    };
    assert_eq!(best(&[0.5, 0.25, 0.25]), Some(1));
    assert_eq!(best(&[f64::NAN, 2.0]), Some(1));
    assert_eq!(best(&[f64::INFINITY, f64::NAN]), None);
    assert_eq!(best(&[]), None);
    assert_eq!(checkpoint_file_name(12), "model-12.bin");
    assert!(is_report_file(&"rac_best_checkpoint_report.md".to_string()));
    assert!(!is_report_file(&"other.md".to_string()));
}

fn metric(name: &str) -> Option<MetricSummary> {
    Some(MetricSummary {
        name: name.to_string(),
        path: format!("valid/{name}.log"),
        mean: "0.500000".to_string(),
        last: "0.250000".to_string(),
    })
}

#[test]
fn best_checkpoint_reports_are_written() {
    let report = RacBestCheckpointReport {
        run_name: "run".to_string(),
        run_dir: "runs/run".to_string(),
        best_epoch: Some(3),
        primary_metric: metric("Loss"),
        checkpoint: Some("checkpoint/model-3.bin".to_string()),
        forward_recon_loss: metric("rac_inv_loss"),
        forward_path_loss: None,
        forward_velocity_loss: None,
        forward_psnr: None,
        reverse_latent_loss: None,
        reverse_to_init_loss: None,
        roundtrip_recon_loss: None,
        roundtrip_psnr: None,
        probe_loss: None,
        probe_accuracy: None,
        artifacts: vec!["artifacts/a.png".to_string()],
    };
    assert_eq!(
        report.report_markdown(),
        "# RAC Best Checkpoint Report\n\n\
         - Run: `run`\n\
         - Run dir: `runs/run`\n\
         - Selection rule: lowest validation mean Loss\n\
         - Best epoch: `3`\n\
         - Primary metric: `Loss` mean `0.500000`\n\
         - Checkpoint: `checkpoint/model-3.bin`\n\n\
         ## Forward Decode\n\
         - recon loss: mean 0.500000, last 0.250000 (valid/rac_inv_loss.log)\n\
         - path loss: unavailable\n\
         - velocity loss: unavailable\n\
         - PSNR: unavailable\n\n\
         ## Reverse Encode\n\
         - latent loss: unavailable\n\
         - to-init loss: unavailable\n\n\
         ## Roundtrip\n\
         - roundtrip loss: unavailable\n\
         - roundtrip PSNR: unavailable\n\n\
         ## Probe\n\
         - probe loss: unavailable\n\
         - probe accuracy: unavailable\n\n\
         ## Artifacts\n\
         - `artifacts/a.png`\n\n\
         ## Notes\n\
         - best epoch is selected by lowest validation mean Loss across all batches in that epoch\n\
         - rac_inv_loss corresponds to forward decode reconstruction loss in the current RAC trainer\n\
         - artifact files may reflect the latest validation pass rather than the selected best epoch when artifact_overwrite=true\n"
    );
    let mut empty = report;
    empty.best_epoch = None;
    empty.primary_metric = None;
    empty.checkpoint = None;
    empty.artifacts = vec![];
    let text = empty.report_markdown();
    assert!(text.contains("- Best epoch: unavailable\n\n## Forward Decode\n"));
    assert!(text.contains("## Artifacts\n- none\n\n"));
}

#[test]
fn evaluation_sources_are_checked() {
    let source = |s: VisionDatasetSource| rac_eval_source(4, true, s);
    assert_eq!(source(VisionDatasetSource::Cifar10), Ok(RacEvalSource::Cifar { classes: 10 }));
    assert_eq!(source(VisionDatasetSource::Cifar100), Ok(RacEvalSource::Cifar { classes: 100 }));
    assert_eq!(source(VisionDatasetSource::Imagenet), Ok(RacEvalSource::ImageFolder));
    assert_eq!(
        source(VisionDatasetSource::MovingMnist),
        Err(RacEvalError::UnsupportedSource(VisionDatasetSource::MovingMnist))
    );
    assert_eq!(
        rac_eval_source(0, true, VisionDatasetSource::Cifar10),
        Err(RacEvalError::ZeroBatchSize)
    );
    assert_eq!(
        rac_eval_source(4, false, VisionDatasetSource::Cifar10),
        Err(RacEvalError::NotRacMode)
    );
}

#[test]
fn exports_are_gapless() {
    let mut export = RacExport::new(Some(5));
    assert!(export.wants_more());
    assert_eq!(
        export.record(3, true),
        ExportBatch { offset: 0, write_count: 3, cut: false }
    );
    assert_eq!(
        export.record(3, false),
        ExportBatch { offset: 3, write_count: 2, cut: true }
    );
    assert!(!export.wants_more());
    assert_eq!(export.finish(), Ok((2, Some(1))));
    assert_eq!(RacExport::new(None).finish(), Err(RacEvalError::NoBatches));
}

#[test]
fn evaluations_stop_at_the_cap() {
    let settings = RacEvalSettings {
        batch_size: 3,
        is_rac: true,
        source: VisionDatasetSource::Cifar10,
        max_images: Some(4),
    };
    let (mut session, first) = eval_vision_rac_checkpoint_backend(&settings);
    assert_eq!(first, RacEvalAction::StartBackend { seed: 1337 });
    assert_eq!(session.advance(RacEvalEvent::DatasetReady), RacEvalAction::Nothing);
    assert_eq!(session.advance(RacEvalEvent::BackendStarted), RacEvalAction::DownloadDataset);
    assert_eq!(
        session.advance(RacEvalEvent::DatasetReady),
        RacEvalAction::LoadDataset(RacEvalSource::Cifar { classes: 10 })
    );
    assert_eq!(session.advance(RacEvalEvent::DatasetLoaded), RacEvalAction::FindCheckpoint);
    let mut missing = session;
    assert_eq!(
        missing.advance(RacEvalEvent::CheckpointLooked { found: false }),
        RacEvalAction::Refuse(RacEvalRefusal::CheckpointMissing)
    );
    assert_eq!(
        session.advance(RacEvalEvent::CheckpointLooked { found: true }),
        RacEvalAction::LoadModel
    );
    assert_eq!(session.advance(RacEvalEvent::ModelLoaded), RacEvalAction::CreateExportDir);
    assert_eq!(session.advance(RacEvalEvent::ExportDirReady), RacEvalAction::NextBatch);
    let mut early = session;
    assert_eq!(
        early.advance(RacEvalEvent::SplitOver),
        RacEvalAction::Refuse(RacEvalRefusal::Eval(RacEvalError::NoBatches))
    );
    let batch = RacEvalEvent::BatchEvaluated { batch_size: 3, semantic: false };
    assert_eq!(
        session.advance(batch),
        RacEvalAction::WriteImages(ExportBatch { offset: 0, write_count: 3, cut: false })
    );
    assert_eq!(session.advance(batch), RacEvalAction::Nothing);
    assert_eq!(session.advance(RacEvalEvent::ImagesWritten), RacEvalAction::NextBatch);
    assert_eq!(
        session.advance(batch),
        RacEvalAction::WriteImages(ExportBatch { offset: 3, write_count: 1, cut: true })
    );
    let mut failing = session;
    assert_eq!(
        failing.advance(RacEvalEvent::Failed),
        RacEvalAction::Refuse(RacEvalRefusal::Failed)
    );
    assert_eq!(
        session.advance(RacEvalEvent::ImagesWritten),
        RacEvalAction::Summarize { batches: 2, images: 4, semantic_batches: None }
    );
    let nothing = RacEvalSettings { max_images: Some(0), ..settings };
    let (mut capped, _) = eval_vision_rac_checkpoint_backend(&nothing);
    capped.advance(RacEvalEvent::BackendStarted);
    capped.advance(RacEvalEvent::DatasetReady);
    capped.advance(RacEvalEvent::DatasetLoaded);
    capped.advance(RacEvalEvent::CheckpointLooked { found: true });
    capped.advance(RacEvalEvent::ModelLoaded);
    assert_eq!(
        capped.advance(RacEvalEvent::ExportDirReady),
        RacEvalAction::Refuse(RacEvalRefusal::Eval(RacEvalError::NoBatches))
    );
    let refused = |settings: RacEvalSettings| {
        eval_vision_rac_checkpoint_backend(&settings).0.advance(RacEvalEvent::BackendStarted)
    };
    assert_eq!(
        refused(RacEvalSettings { is_rac: false, ..settings }),
        RacEvalAction::Refuse(RacEvalRefusal::Eval(RacEvalError::NotRacMode))
    );
    assert_eq!(
        refused(RacEvalSettings { batch_size: 0, ..settings }),
        RacEvalAction::Refuse(RacEvalRefusal::Eval(RacEvalError::ZeroBatchSize))
    );
}

#[test]
fn export_names_are_padded() {
    assert_eq!(image_file_name(42), "000042.png");
    assert_eq!(numbered_dir_name("export", 7), "export_007");
    assert_eq!(default_export_dir_name(5, "model-5"), "rac_eval_epoch_005_model-5");
    assert_eq!(first_free_suffix(&[true, true, false]), Some(3));
    assert_eq!(first_free_suffix(&[true; 1000]), None);
}

fn summary(kind: VisionRacTeacherKind) -> VisionRacCheckpointEvalSummary {
    let value = || "0.125000".to_string();
    VisionRacCheckpointEvalSummary {
        backend: "cpu".to_string(),
        checkpoint: "model.bin".to_string(),
        export_dir: "out".to_string(),
        split: "valid".to_string(),
        teacher_kind: kind,
        teacher_state_mapping: "expand_nearest".to_string(),
        teacher_latent_downsample: 8,
        batches: 2,
        images: 4,
        forward_recon_loss: value(),
        forward_recon_psnr: value(),
        roundtrip_recon_loss: value(),
        roundtrip_recon_psnr: value(),
        forward_path_loss: value(),
        forward_velocity_loss: value(),
        reverse_latent_loss: value(),
        reverse_to_init_loss: value(),
        semantic_loss: Some(value()),
    }
}

#[test]
fn evaluation_summaries_are_written() {
    let pooled = summary(VisionRacTeacherKind::PooledImage).to_markdown();
    assert!(pooled.starts_with(
        "# RAC Checkpoint Eval\n\n\
         - Backend: `cpu`\n\
         - Checkpoint: `model.bin`\n\
         - Export dir: `out`\n\
         - Split: `valid`\n\
         - Teacher kind: `pooled_image`\n\
         - Teacher state mapping: `expand_nearest`\n\
         - Teacher latent downsample: `8`\n\
         - Batches: `2`\n\
         - Images: `4`\n\n\
         ## Comparability Note\n"
    ));
    assert!(pooled.contains(
        "## Forward Decode\n\
         - recon loss: 0.125000\n\
         - PSNR: 0.125000\n\
         - path loss: 0.125000\n\
         - velocity loss: 0.125000\n\n\
         ## Roundtrip Reconstruction\n\
         - recon loss: 0.125000\n\
         - PSNR: 0.125000\n\n\
         ## Reverse Encode\n\
         - latent loss: 0.125000\n\
         - to-init loss: 0.125000\n\
         - semantic loss: 0.125000\n\n\
         ## Exports\n\
         - real images: `real/`\n\
         - roundtrip reconstructions: `roundtrip/`\n\
         - forward decode images: `forward/`\n\n\
         Use `scripts/vision/eval_rfid.py` on `real/` vs `roundtrip/` only for legacy shortcut comparisons.\n"
    ));
    let mut latent = summary(VisionRacTeacherKind::PrecomputedLatent);
    latent.semantic_loss = None;
    let text = latent.to_markdown();
    assert!(text.contains("- Teacher kind: `precomputed_latent`\n"));
    assert!(text.contains("- to-init loss: 0.125000\n\n## Exports\n"));
    assert!(text.ends_with(
        "Do not interpret `real/` vs `roundtrip/` rFID as paper-aligned reconstruction quality unless an explicit teacher decoder is added to the export path.\n"
    ));
}
