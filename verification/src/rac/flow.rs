//! Integrating the flow: which interval each solver step crosses, and where gradients are cut.

use crate::numeric::min_of;
use crate::rollout::{at_least_one, max_one};
use vstd::arithmetic::div_mod::{lemma_fundamental_div_mod, lemma_fundamental_div_mod_converse};
use vstd::prelude::*;

verus! {

/// One solver step over the interval between two neighbouring points of the time grid.
#[derive(Clone, Copy, Debug, PartialEq, Eq, Structural)]
pub struct FlowStep {
    /// The interval is `grid[interval]..grid[interval + 1]`.
    pub interval: usize,
    /// The grid point at which the velocity is evaluated.
    pub time_index: usize,
    /// The grid point that the state has reached after the step.
    pub arrival_index: usize,
    /// Whether input noise may be added before the velocity is evaluated.
    pub noise: bool,
    /// Whether the recurrent memory is cleared after the step.
    pub wipe_memory: bool,
    /// Whether the gradient is cut after the step.
    pub detach: bool,
}

/// The settings of one integration.
#[derive(Clone, Copy, Debug, PartialEq, Eq, Structural)]
pub struct FlowSettings {
    pub reverse: bool,
    pub reverse_noise: bool,
    pub wipe_after_step: Option<usize>,
    pub detach_each_step: bool,
    pub flow_backprop_steps: Option<usize>,
}

/// After how many steps the gradient is cut.
pub open spec fn backprop_window(settings: FlowSettings, steps: int) -> int {
    if settings.detach_each_step {
        1
    } else {
        match settings.flow_backprop_steps {
            Some(window) => at_least_one(vstd::math::min(window as int, steps)),
            None => at_least_one(steps),
        }
    }
}

/// The `k`-th of `steps` solver steps. Forward integration crosses the grid upward and evaluates
/// the velocity where it starts; reverse integration crosses it downward. The gradient is cut
/// after every full window except at the end.
pub open spec fn flow_step_of(k: int, steps: int, settings: FlowSettings) -> FlowStep {
    let interval = if settings.reverse {
        steps - 1 - k
    } else {
        k
    };
    FlowStep {
        interval: interval as usize,
        time_index: if settings.reverse {
            (interval + 1) as usize
        } else {
            interval as usize
        },
        arrival_index: if settings.reverse {
            interval as usize
        } else {
            (interval + 1) as usize
        },
        noise: !settings.reverse || settings.reverse_noise,
        wipe_memory: settings.wipe_after_step == Some((k + 1) as usize),
        detach: k + 1 < steps && (k + 1) % backprop_window(settings, steps) == 0,
    }
}

/// How many points a time grid of `sample_steps` intervals has.
pub fn time_grid_points(sample_steps: usize) -> (points: usize)
    requires
        sample_steps < usize::MAX,
    ensures
        points == at_least_one(sample_steps as int) + 1,
{
    max_one(sample_steps) + 1
}

/// Whether the inner points of the time grid are drawn at random.
pub fn randomises_time_grid(sample_steps: usize, randomize: bool) -> (r: bool)
    ensures
        r == (randomize && sample_steps > 1),
{
    randomize && max_one(sample_steps) > 1
}

/// After how many solver steps the gradient is cut.
pub fn flow_window(settings: &FlowSettings, steps: usize) -> (window: usize)
    ensures
        window == backprop_window(*settings, steps as int),
        window >= 1,
{
    if settings.detach_each_step {
        1
    } else {
        match settings.flow_backprop_steps {
            Some(window) => max_one(min_of(window, steps)),
            None => max_one(steps),
        }
    }
}

/// Plans the integration over a time grid of `grid_points` points.
pub fn plan_flow(grid_points: usize, settings: &FlowSettings) -> (plan: Vec<FlowStep>)
    requires
        grid_points >= 2,
    ensures
        plan@ == Seq::new(
            (grid_points - 1) as nat,
            |k: int| flow_step_of(k, grid_points - 1, *settings),
        ),
{
    let steps: usize = grid_points - 1;
    let window: usize = flow_window(settings, steps);
    let mut plan: Vec<FlowStep> = Vec::new();
    let mut since_detach: usize = 0;
    let mut k: usize = 0;
    proof {
        assert(0int % (window as int) == 0) by (nonlinear_arith)
            requires
                window >= 1,
        ;
    }
    while k < steps
        invariant
            k <= steps < usize::MAX,
            window == backprop_window(*settings, steps as int),
            window >= 1,
            k < steps ==> since_detach as int == k as int % (window as int),
            plan@ == Seq::new(k as nat, |j: int| flow_step_of(j, steps as int, *settings)),
        decreases steps - k,
    {
        let interval: usize = if settings.reverse {
            steps - 1 - k
        } else {
            k
        };
        let wipe_memory: bool = match settings.wipe_after_step {
            Some(wipe) => wipe == k + 1,
            None => false,
        };
        proof {
            lemma_fundamental_div_mod(k as int, window as int);
            let q = k as int / window as int;
            assert(window * (q + 1) == window * q + window) by (nonlinear_arith);
            vstd::arithmetic::mul::lemma_mul_is_commutative(window as int, q);
            if since_detach + 1 >= window {
                lemma_fundamental_div_mod_converse(k + 1, window as int, q + 1, 0);
            } else {
                lemma_fundamental_div_mod_converse(
                    k + 1,
                    window as int,
                    q,
                    since_detach as int + 1,
                );
            }
        }
        since_detach += 1;
        let detach: bool = k + 1 < steps && since_detach >= window;
        if detach {
            since_detach = 0;
        }
        let step = FlowStep {
            interval,
            time_index: if settings.reverse {
                interval + 1
            } else {
                interval
            },
            arrival_index: if settings.reverse {
                interval
            } else {
                interval + 1
            },
            noise: !settings.reverse || settings.reverse_noise,
            wipe_memory,
            detach,
        };
        assert(step == flow_step_of(k as int, steps as int, *settings));
        plan.push(step);
        k += 1;
        assert(plan@ =~= Seq::new(k as nat, |j: int| flow_step_of(j, steps as int, *settings)));
    }
    plan
}

/// Each step starts at the grid point where the one before it arrived, so forward integration runs
/// from the first point to the last and reverse integration back.
pub proof fn law_flow_is_connected(k: int, steps: int, settings: FlowSettings)
    requires
        0 <= k < steps < usize::MAX,
    ensures
        k + 1 < steps ==> flow_step_of(k + 1, steps, settings).time_index == flow_step_of(
            k,
            steps,
            settings,
        ).arrival_index,
        flow_step_of(0, steps, settings).time_index == if settings.reverse {
            steps
        } else {
            0
        },
        flow_step_of(steps - 1, steps, settings).arrival_index == if settings.reverse {
            0
        } else {
            steps
        },
{
}

/// The reverse integration crosses the intervals of the forward one in opposite order.
pub proof fn law_reverse_mirrors_forward(
    k: int,
    steps: int,
    forward: FlowSettings,
    reverse: FlowSettings,
)
    requires
        0 <= k < steps < usize::MAX,
        !forward.reverse,
        reverse.reverse,
    ensures
        flow_step_of(k, steps, reverse).interval == flow_step_of(
            steps - 1 - k,
            steps,
            forward,
        ).interval,
{
}

/// At most a window of steps lies between two cuts of the gradient.
pub proof fn law_gradient_span_is_bounded(k: int, steps: int, settings: FlowSettings)
    requires
        0 <= k,
        k + backprop_window(settings, steps) < steps < usize::MAX,
    ensures
        exists|j: int|
            k <= j < k + backprop_window(settings, steps) && (#[trigger] flow_step_of(
                j,
                steps,
                settings,
            )).detach,
{
    let w = backprop_window(settings, steps);
    let q = k / w;
    lemma_fundamental_div_mod(k, w);
    let j = w * (q + 1) - 1;
    assert(w * (q + 1) == w * q + w) by (nonlinear_arith);
    lemma_fundamental_div_mod_converse(j + 1, w, q + 1, 0);
    assert(flow_step_of(j, steps, settings).detach);
}

/// Where the gradient is cut: with a cut after each step, after every step but the last; with a window
/// of `w` steps, after the `w`-th, the `2w`-th and so on, but not at the end; without either nowhere.
/// A window of none counts as one.
pub proof fn law_gradient_is_cut_window_by_window(k: int, steps: int, settings: FlowSettings)
    requires
        0 <= k < steps < usize::MAX,
    ensures
        ({
            let cut = flow_step_of(k, steps, settings).detach;
            &&& settings.detach_each_step ==> (cut <==> k + 1 < steps)
            &&& !settings.detach_each_step && settings.flow_backprop_steps is None ==> !cut
            &&& !settings.detach_each_step && settings.flow_backprop_steps == Some(0usize) ==> (cut
                <==> k + 1 < steps)
            &&& settings.flow_backprop_steps matches Some(w) ==> (!settings.detach_each_step && w
                >= 1 ==> (cut <==> k + 1 < steps && exists|m: int| #[trigger] (m * w) == k + 1))
        }),
{
    assert((k + 1) % 1 == 0);
    if let Some(w) = settings.flow_backprop_steps {
        if !settings.detach_each_step {
            if w > steps {
                assert forall|m: int| #[trigger] (m * w) != k + 1 by {
                    assert(m * w <= 0 || m * w >= w) by (nonlinear_arith)
                        requires
                            w >= 1,
                    ;
                }
                vstd::arithmetic::div_mod::lemma_small_mod((k + 1) as nat, w as nat);
                if k + 1 < steps {
                    vstd::arithmetic::div_mod::lemma_small_mod((k + 1) as nat, steps as nat);
                }
            } else if w >= 1 {
                if (k + 1) % (w as int) == 0 {
                    lemma_fundamental_div_mod(k + 1, w as int);
                    let m = (k + 1) / (w as int);
                    assert(m * w == k + 1) by (nonlinear_arith)
                        requires
                            k + 1 == w * m,
                    ;
                }
                if exists|m: int| #[trigger] (m * w) == k + 1 {
                    let m = choose|m: int| #[trigger] (m * w) == k + 1;
                    lemma_fundamental_div_mod_converse(k + 1, w as int, m, 0);
                }
            }
        }
    } else if !settings.detach_each_step && k + 1 < steps {
        vstd::arithmetic::div_mod::lemma_small_mod((k + 1) as nat, steps as nat);
    }
}

/// Between two neighbouring cuts, and before the first one, lie exactly as many steps as the window
/// has: the integration is cut after `w` steps and, from a cut on, again `w` steps later, and nowhere
/// in between.
pub proof fn law_cuts_are_a_window_apart(k: int, d: int, steps: int, settings: FlowSettings, w: usize)
    requires
        0 <= k,
        1 <= d <= w,
        k + d < steps < usize::MAX,
        !settings.detach_each_step,
        settings.flow_backprop_steps == Some(w),
        k == 0 || flow_step_of(k - 1, steps, settings).detach,
    ensures
        flow_step_of(k + d - 1, steps, settings).detach <==> d == w,
{
    if k > 0 {
        law_gradient_is_cut_window_by_window(k - 1, steps, settings);
    }
    law_gradient_is_cut_window_by_window(k + d - 1, steps, settings);
    let m = if k == 0 {
        0
    } else {
        choose|m: int| #[trigger] (m * w) == k
    };
    assert(0 * w == 0);
    assert((m + 1) * w == m * w + w) by (nonlinear_arith);
    assert forall|n: int| #[trigger] (n * w) == k + d implies d == w by {
        assert(d == w) by (nonlinear_arith)
            requires
                n * w == k + d,
                m * w == k,
                1 <= d <= w,
        ;
    }
}

/// Where the gradient is cut and where the memory is cleared does not depend on the direction of the
/// integration; the memory is cleared after the one step that was asked for, counted from one.
pub proof fn law_direction_does_not_move_the_cuts(
    k: int,
    steps: int,
    settings: FlowSettings,
    reverse: bool,
    reverse_noise: bool,
)
    requires
        0 <= k < steps < usize::MAX,
    ensures
        ({
            let step = flow_step_of(k, steps, settings);
            let other = flow_step_of(k, steps, FlowSettings { reverse, reverse_noise, ..settings });
            &&& step.detach == other.detach
            &&& step.wipe_memory == other.wipe_memory
            &&& step.wipe_memory <==> settings.wipe_after_step is Some
                && settings.wipe_after_step->0 == k + 1
        }),
{
}

/// A step crosses its interval from end to end: forward from the lower end, where the velocity is
/// evaluated, to the upper one, and in reverse the other way. Forward integration may be noisy,
/// reverse integration only where that is asked for.
pub proof fn law_steps_cross_their_interval(k: int, steps: int, settings: FlowSettings)
    requires
        0 <= k < steps < usize::MAX,
    ensures
        ({
            let step = flow_step_of(k, steps, settings);
            &&& 0 <= step.interval < steps
            &&& !settings.reverse ==> step.time_index == k && step.interval == k
                && step.arrival_index == k + 1 && step.noise
            &&& settings.reverse ==> step.time_index + k == steps && step.arrival_index + k + 1
                == steps && step.interval == step.arrival_index && step.noise
                == settings.reverse_noise
        }),
{
}

} // verus!
