use burn_dragon_vision::rollout::{
    improvement_pairs, merge_rollout_steps, merge_rollout_supervision_groups, plan_train_terms, position_of_step, rollout_metric_slots, rollout_supervision_explicit_steps,
    rollout_supervision_steps, sample_rollout_steps, sample_rollout_supervision_groups,
    supervised_term_positions, weighted_rollout_step, RolloutSupervisionSamplingConfig,
    VisionRollout,
};
use burn_dragon_vision::scalar::Single;
use rand::rngs::StdRng;
use rand::{Rng, SeedableRng};

fn single(value: f32) -> Single {
    Single { bits: value.to_bits() }
}

#[test]
fn rollout_supervision_stride_selects_sparse_blocks_and_keeps_final_step() {
    assert_eq!(
        rollout_supervision_steps(8, 8, 1, true),
        vec![1, 2, 3, 4, 5, 6, 7, 8]
    );
    assert_eq!(rollout_supervision_steps(8, 8, 2, true), vec![1, 3, 5, 7, 8]);
    assert_eq!(rollout_supervision_steps(8, 3, 2, true), vec![1, 5, 8]);
    assert_eq!(rollout_supervision_steps(8, 2, 4, true), vec![1, 8]);
}

#[test]
fn rollout_supervision_groups_merge_and_dedup_steps() {
    let groups = vec![vec![1, 3, 4], vec![1, 2, 4], vec![2, 4]];
    assert_eq!(merge_rollout_supervision_groups(&groups), vec![1, 2, 3, 4]);
}

#[test]
fn rollout_supervision_stride_has_no_effect_when_frames_is_one() {
    for stride in 1..=4 {
        assert_eq!(rollout_supervision_steps(8, 1, stride, true), vec![8]);
    }
    assert_eq!(rollout_supervision_steps(8, 1, 4, false), vec![8]);
}

#[test]
fn rollout_supervision_can_skip_step_one() {
    assert_eq!(rollout_supervision_steps(8, 4, 3, false), vec![4, 7, 8]);
    assert_eq!(rollout_supervision_steps(8, 2, 3, false), vec![4, 8]);
    assert_eq!(rollout_supervision_steps(4, 4, 3, false), vec![4]);
}

#[test]
fn rollout_supervision_explicit_steps_clip_and_dedup() {
    assert_eq!(
        rollout_supervision_explicit_steps(8, &[8, 4, 4, 12, 0, 2]),
        vec![2, 4, 8]
    );
    assert_eq!(rollout_supervision_explicit_steps(8, &[0, 9]), vec![8]);
    assert_eq!(
        rollout_supervision_explicit_steps(0, &[1, 2, 3]),
        Vec::<usize>::new()
    );
}

#[test]
fn rollout_supervision_explicit_steps_override_sampling_groups() {
    let rollout = VisionRollout { min_steps: 1, max_steps: 12, backprop_steps: 4 };
    let mut rng = StdRng::seed_from_u64(11);
    let spent: Vec<Vec<bool>> = vec![vec![false; 12]; 2];
    let groups = sample_rollout_supervision_groups(
        &rollout,
        &RolloutSupervisionSamplingConfig {
            frames: 4,
            stride: 3,
            groups: 2,
            explicit_steps: &[4, 8, 12],
            explicit_groups: &[],
            include_step1: true,
            sampling_power: single(1.25),
        },
        &spent,
        &mut rng,
    );
    assert_eq!(groups, vec![vec![4, 8, 12], vec![4, 8, 12]]);
}

#[test]
fn rollout_supervision_explicit_groups_sample_candidates() {
    let rollout = VisionRollout { min_steps: 1, max_steps: 12, backprop_steps: 4 };
    let mut rng = StdRng::seed_from_u64(7);
    let spent: Vec<Vec<bool>> = vec![vec![false; 12]; 4];
    let groups = sample_rollout_supervision_groups(
        &rollout,
        &RolloutSupervisionSamplingConfig {
            frames: 4,
            stride: 3,
            groups: 4,
            explicit_steps: &[],
            explicit_groups: &[vec![4, 8], vec![2, 4, 8]],
            include_step1: false,
            sampling_power: single(1.25),
        },
        &spent,
        &mut rng,
    );
    assert_eq!(groups.len(), 4);
    for group in groups {
        assert!(group == vec![4, 8] || group == vec![2, 4, 8]);
    }
}

#[test]
fn sampled_rollout_steps_stay_in_range() {
    let rollout = VisionRollout { min_steps: 3, max_steps: 6, backprop_steps: 2 };
    let mut rng = StdRng::seed_from_u64(5);
    let mut seen = [false; 8];
    for _ in 0..200 {
        let steps = sample_rollout_steps(&rollout, single(0.0), &[false; 4], &mut rng);
        assert!((3..=6).contains(&steps));
        seen[steps] = true;
    }
    assert_eq!(seen, [false, false, false, true, true, true, true, false]);
}

#[test]
fn supervision_uses_all_frames() {
    for total in 1..40usize {
        for frames in 0..45usize {
            for stride in [1usize, 2, 3, 7] {
                let all = rollout_supervision_steps(total, usize::MAX, stride, true).len();
                let kept = rollout_supervision_steps(total, frames, stride, true).len();
                assert_eq!(kept, all.min(frames.max(1)), "{total} {frames} {stride}");
            }
        }
    }
}

#[test]
fn only_a_uniform_draw_uses_the_generator() {
    let mut rng = StdRng::seed_from_u64(3);
    let untouched = rng.clone();
    let fixed = VisionRollout { min_steps: 4, max_steps: 4, backprop_steps: 2 };
    assert_eq!(sample_rollout_steps(&fixed, single(0.0), &[], &mut rng), 4);
    let open = VisionRollout { min_steps: 2, max_steps: 5, backprop_steps: 2 };
    assert_eq!(sample_rollout_steps(&open, single(1.0), &[false, true], &mut rng), 3);
    assert!(rng == untouched);
    sample_rollout_steps(&open, single(0.0), &[], &mut rng);
    assert!(rng != untouched);
}

#[test]
fn sampling_is_reproducible_for_a_seed() {
    let rollout = VisionRollout { min_steps: 1, max_steps: 50, backprop_steps: 2 };
    let draw = |seed: u64| -> Vec<usize> {
        let mut rng = StdRng::seed_from_u64(seed);
        (0..20)
            .map(|_| sample_rollout_steps(&rollout, single(0.0), &[false; 50], &mut rng))
            .collect()
    };
    assert_eq!(draw(3), draw(3));
    assert_ne!(draw(3), draw(4));
}

#[test]
fn weighted_step_is_the_first_spent_one() {
    let rollout = VisionRollout { min_steps: 2, max_steps: 5, backprop_steps: 5 };
    assert_eq!(weighted_rollout_step(&rollout, &[false, false, true, true]), 4);
    assert_eq!(weighted_rollout_step(&rollout, &[true, false, false, false]), 2);
    assert_eq!(weighted_rollout_step(&rollout, &[false; 4]), 5);
}

#[test]
fn merged_steps_are_sorted_and_within_the_final_step() {
    assert_eq!(merge_rollout_steps(&[4, 2], &[8, 4, 1], 8), vec![1, 2, 4, 8]);
    assert_eq!(position_of_step(&[1, 2, 4, 8], 4), Some(2));
    assert_eq!(position_of_step(&[1, 2, 4, 8], 3), None);
}

#[test]
fn metric_slots_point_into_the_evaluated_steps() {
    assert_eq!(
        rollout_metric_slots(&[1, 2, 3], &[1, 3]),
        vec![Some(0), None, Some(1)]
    );
    assert_eq!(supervised_term_positions(&[3, 1], &[1, 3]), vec![1, 0]);
    assert_eq!(improvement_pairs(&[0, 2, 3]), vec![(0, 2), (2, 3)]);
    assert_eq!(improvement_pairs(&[1]), Vec::<(usize, usize)>::new());
}

#[test]
fn train_terms_cover_every_group() {
    let groups = vec![vec![1, 4], vec![4], vec![2, 4]];
    let plan = plan_train_terms(&groups, single(0.5));
    assert_eq!(plan.evaluated, vec![1, 2, 4]);
    assert_eq!(plan.groups.len(), 3);
    assert_eq!(plan.groups[0].steps, vec![1, 4]);
    assert_eq!(plan.groups[0].positions, vec![0, 2]);
    assert_eq!(plan.groups[0].pairs, vec![(0, 2)]);
    assert_eq!(plan.groups[1].pairs, vec![]);
    assert_eq!(plan.groups[2].positions, vec![1, 2]);
    let unpenalised = plan_train_terms(&groups, single(0.0));
    assert_eq!(unpenalised.groups[0].pairs, vec![]);
}

#[test]
fn explicit_steps_are_stable() {
    let once = rollout_supervision_explicit_steps(8, &[9, 6, 3, 6]);
    assert_eq!(once, vec![3, 6]);
    assert_eq!(rollout_supervision_explicit_steps(8, &once), once);
}

#[test]
fn merging_depends_on_the_values_alone() {
    let a = merge_rollout_supervision_groups(&[vec![4, 1], vec![2]]);
    let b = merge_rollout_supervision_groups(&[vec![2, 2, 1], vec![], vec![4]]);
    assert_eq!(a, b);
    assert_eq!(merge_rollout_supervision_groups(&[]), Vec::<usize>::new());
}

/// A draw whose weight grows with the step, as flags that say where it is used up.
fn weighted_draw(rollout: &VisionRollout, power: f32, rng: &mut StdRng) -> Vec<bool> {
    let mut total = 0.0f32;
    for step in rollout.min_steps..=rollout.max_steps {
        total += (step.max(1) as f32).powf(power);
    }
    let mut draw: f32 = rng.gen_range(0.0..total.max(f32::EPSILON));
    (rollout.min_steps..=rollout.max_steps)
        .map(|step| {
            draw -= (step.max(1) as f32).powf(power);
            draw <= 0.0
        })
        .collect()
}

#[test]
fn rollout_sampling_power_biases_toward_deeper_steps() {
    let rollout = VisionRollout { min_steps: 1, max_steps: 4, backprop_steps: 2 };
    let mut uniform_rng = StdRng::seed_from_u64(7);
    let mut biased_rng = StdRng::seed_from_u64(7);
    let trials = 4096usize;

    let uniform_mean = (0..trials)
        .map(|_| sample_rollout_steps(&rollout, single(0.0), &[], &mut uniform_rng) as f32)
        .sum::<f32>()
        / trials as f32;
    let biased_mean = (0..trials)
        .map(|_| {
            let spent = weighted_draw(&rollout, 1.5, &mut biased_rng);
            sample_rollout_steps(&rollout, single(1.5), &spent, &mut biased_rng) as f32
        })
        .sum::<f32>()
        / trials as f32;

    assert!(biased_mean > uniform_mean + 0.35);
}
