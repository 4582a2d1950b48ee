//! Benchmarks and smoke tests of a distilled encoder in service: what they run, and their reports.

use crate::artifact::{
    markdown_prelude, push_vision_artifact_markdown_prelude, VisionArtifactHeader,
};
use crate::config::{VisionDistillConfig, VisionTeacherConfig};
use crate::distill_runtime::student_tokens_of;
use crate::numeric::{ceil_div, ceil_div_of, min_of};
use crate::probe::{list_line, push_list_line};
use crate::rollout::{at_least_one, max_one};
use crate::text::{
    bare_line, decimal, line, push_bare_line, push_decimal, push_line, push_number_line,
};
use vstd::prelude::*;
use vstd::string::StringExecFns;

verus! {

/// The precision of an exported model.
#[derive(Clone, Copy, Debug, PartialEq, Eq, Structural)]
pub enum VisionDistillDeploySmokePrecision {
    F16,
    F32,
}

/// A rollout length and how many of its steps carry gradients.
#[derive(Clone, Copy, Debug, PartialEq, Eq, Structural)]
pub struct StepWindow {
    pub step: usize,
    pub backprop_steps: usize,
}

/// The window of a rollout of `step` steps: the asked-for window, else the configured one, else all
/// steps; never more than the rollout has, and at least one.
pub open spec fn step_window_of(
    step: int,
    asked: Option<usize>,
    configured: Option<usize>,
) -> StepWindow {
    let steps = at_least_one(step);
    let wanted = match asked {
        Some(window) => window as int,
        None => match configured {
            Some(window) => window as int,
            None => steps,
        },
    };
    StepWindow {
        step: steps as usize,
        backprop_steps: at_least_one(vstd::math::min(wanted, steps)) as usize,
    }
}

/// The window of a rollout of `step` steps.
pub fn step_window(step: usize, asked: Option<usize>, configured: Option<usize>) -> (r: StepWindow)
    ensures
        r == step_window_of(step as int, asked, configured),
{
    let steps: usize = max_one(step);
    let wanted: usize = match asked {
        Some(window) => window,
        None => {
            let window: usize = match configured {
                Some(window) => window,
                None => steps,
            };
            max_one(min_of(window, steps))
        },
    };
    StepWindow { step: steps, backprop_steps: max_one(min_of(wanted, steps)) }
}

/// A window never exceeds its rollout, and asking for the whole rollout changes nothing.
pub proof fn law_window_fits_the_rollout(
    step: int,
    asked: Option<usize>,
    configured: Option<usize>,
)
    requires
        0 <= step <= usize::MAX,
    ensures
        1 <= step_window_of(step, asked, configured).backprop_steps <= step_window_of(
            step,
            asked,
            configured,
        ).step,
        step_window_of(
            step,
            Some(step_window_of(step, asked, configured).backprop_steps),
            configured,
        ) == step_window_of(step, asked, configured),
{
}

/// What a serving benchmark runs.
#[derive(Clone, Copy, Debug, PartialEq, Eq, Structural)]
pub struct ServingPlan {
    pub batch_size: usize,
    pub patch_tokens_per_image: usize,
    pub serving: StepWindow,
    pub baseline: StepWindow,
}

/// Along one side of an image, the patches that cover it: at least one.
pub open spec fn patch_side(image_size: int, patch_size: int) -> int {
    at_least_one(ceil_div_of(image_size, at_least_one(patch_size)))
}

/// Plans a serving benchmark. The baseline goes by the configured window alone.
pub fn plan_serving_benchmark(
    image_size: usize,
    patch_size: usize,
    step: usize,
    backprop_steps: Option<usize>,
    baseline_step: usize,
    rollout_backprop_steps: Option<usize>,
    batch_size: usize,
) -> (plan: ServingPlan)
    requires
        patch_side(image_size as int, patch_size as int) * patch_side(
            image_size as int,
            patch_size as int,
        ) <= usize::MAX,
    ensures
        plan.batch_size == at_least_one(batch_size as int),
        plan.patch_tokens_per_image == patch_side(image_size as int, patch_size as int)
            * patch_side(image_size as int, patch_size as int),
        plan.serving == step_window_of(step as int, backprop_steps, rollout_backprop_steps),
        plan.baseline == step_window_of(baseline_step as int, None, rollout_backprop_steps),
{
    let side: usize = max_one(ceil_div(image_size, max_one(patch_size)));
    ServingPlan {
        batch_size: max_one(batch_size),
        patch_tokens_per_image: side * side,
        serving: step_window(step, backprop_steps, rollout_backprop_steps),
        baseline: step_window(baseline_step, None, rollout_backprop_steps),
    }
}

/// Why no batch can be drawn to compare with.
#[derive(Clone, Copy, Debug, PartialEq, Eq, Structural)]
pub enum ValidationProbeError {
    NotDistillMode,
    TeacherIsModel,
    PatchTokens { teacher: usize, student: usize },
}

/// How many patch vectors the teacher's features have in a validation batch. Only stored features
/// whose token count agrees with the student's are taken.
pub fn validation_probe_tokens(
    distill: Option<&VisionDistillConfig>,
    image_size: usize,
    patch_size: usize,
) -> (result: Result<usize, ValidationProbeError>)
    requires
        student_tokens_of(image_size as int, at_least_one(patch_size as int)) <= usize::MAX,
    ensures
        ({
            let student = student_tokens_of(image_size as int, at_least_one(patch_size as int));
            match distill {
                None => result == Err::<usize, ValidationProbeError>(
                    ValidationProbeError::NotDistillMode,
                ),
                Some(config) => match config.teacher {
                    VisionTeacherConfig::Model(_) => result == Err::<usize, ValidationProbeError>(
                        ValidationProbeError::TeacherIsModel,
                    ),
                    VisionTeacherConfig::Features(teacher) => if teacher.patch_tokens is Some
                        && teacher.patch_tokens->0 != student {
                        result == Err::<usize, ValidationProbeError>(
                            ValidationProbeError::PatchTokens {
                                teacher: teacher.patch_tokens->0,
                                student: student as usize,
                            },
                        )
                    } else {
                        result == Ok::<usize, ValidationProbeError>(student as usize)
                    },
                },
            }
        }),
{
    let config = match distill {
        Some(config) => config,
        None => {
            return Err(ValidationProbeError::NotDistillMode);
        },
    };
    match &config.teacher {
        VisionTeacherConfig::Model(_) => Err(ValidationProbeError::TeacherIsModel),
        VisionTeacherConfig::Features(teacher) => {
            let student: usize = crate::distill_runtime::student_patch_tokens(
                image_size,
                max_one(patch_size),
            );
            if let Some(tokens) = teacher.patch_tokens {
                if tokens != student {
                    return Err(ValidationProbeError::PatchTokens { teacher: tokens, student });
                }
            }
            Ok(student)
        },
    }
}

/// What a benchmark measured for one rollout, as it is printed.
#[derive(Debug)]
pub struct VisionDistillServingStepMetrics {
    pub window: StepWindow,
    pub forward_ms: String,
    pub samples_per_sec: String,
    pub tokens_per_sec: String,
    pub distill_total: String,
    pub distill_patch: String,
    pub distill_cls: String,
}

/// The report of a serving benchmark. Measured numbers are given as they are printed.
#[derive(Debug)]
pub struct VisionDistillServingBenchmarkReport {
    pub artifact: VisionArtifactHeader,
    pub adapter: String,
    pub config: Vec<String>,
    pub checkpoint: Option<String>,
    pub image_size: usize,
    pub patch_tokens_per_image: usize,
    pub batch_size: usize,
    pub serving: VisionDistillServingStepMetrics,
    pub baseline: VisionDistillServingStepMetrics,
    pub total_gain_vs_baseline: String,
    pub patch_gain_vs_baseline: String,
    pub cls_gain_vs_baseline: String,
    pub latency_scale_vs_baseline: String,
    pub total_gain_per_extra_ms: Option<String>,
}

/// A line with a text, present only where there is one.
pub open spec fn optional_line(label: Seq<char>, value: Option<String>) -> Seq<char> {
    match value {
        Some(text) => line(label, text@),
        None => Seq::empty(),
    }
}

fn push_optional_line(out: &mut String, label: &str, value: &Option<String>)
    ensures
        final(out)@ == old(out)@ + optional_line(label@, *value),
{
    match value {
        Some(text) => push_line(out, label, text.as_str()),
        None => {
            assert(out@ =~= old(out)@ + Seq::<char>::empty());
        },
    }
}

/// A line with a rollout window.
pub open spec fn window_line(label: Seq<char>, window: StepWindow) -> Seq<char> {
    label + decimal(window.step as nat) + " (bptt "@ + decimal(window.backprop_steps as nat)
        + ")\n"@
}

fn push_window_line(out: &mut String, label: &str, window: &StepWindow)
    ensures
        final(out)@ == old(out)@ + window_line(label@, *window),
{
    out.append(label);
    push_decimal(out, window.step as u64);
    out.append(" (bptt ");
    push_decimal(out, window.backprop_steps as u64);
    out.append(")\n");
    assert(out@ =~= old(out)@ + window_line(label@, *window));
}

/// The table row of one measured rollout.
pub open spec fn metrics_row(label: Seq<char>, metrics: VisionDistillServingStepMetrics) -> Seq<char> {
    "| "@ + label + " | "@ + decimal(metrics.window.step as nat) + " | "@ + decimal(
        metrics.window.backprop_steps as nat,
    ) + " | "@ + metrics.forward_ms@ + " | "@ + metrics.samples_per_sec@ + " | "@
        + metrics.tokens_per_sec@ + " | "@ + metrics.distill_total@ + " | "@
        + metrics.distill_patch@ + " | "@ + metrics.distill_cls@ + " |\n"@
}

fn push_metrics_row(out: &mut String, label: &str, metrics: &VisionDistillServingStepMetrics)
    ensures
        final(out)@ == old(out)@ + metrics_row(label@, *metrics),
{
    out.append("| ");
    out.append(label);
    out.append(" | ");
    push_decimal(out, metrics.window.step as u64);
    out.append(" | ");
    push_decimal(out, metrics.window.backprop_steps as u64);
    out.append(" | ");
    out.append(metrics.forward_ms.as_str());
    out.append(" | ");
    out.append(metrics.samples_per_sec.as_str());
    out.append(" | ");
    out.append(metrics.tokens_per_sec.as_str());
    out.append(" | ");
    out.append(metrics.distill_total.as_str());
    out.append(" | ");
    out.append(metrics.distill_patch.as_str());
    out.append(" | ");
    out.append(metrics.distill_cls.as_str());
    out.append(" |\n");
    assert(out@ =~= old(out)@ + metrics_row(label@, *metrics));
}

impl VisionDistillServingBenchmarkReport {
    /// The report as text.
    pub open spec fn markdown(&self) -> Seq<char> {
        Seq::<char>::empty() + markdown_prelude("Vision Distill Serving Benchmark"@, self.artifact)
            + line("- adapter: "@, self.adapter@) + list_line("- config: "@, self.config@)
            + optional_line("- checkpoint: "@, self.checkpoint) + line(
            "- image size: "@,
            decimal(self.image_size as nat),
        ) + line("- patch tokens / image: "@, decimal(self.patch_tokens_per_image as nat)) + line(
            "- batch size: "@,
            decimal(self.batch_size as nat),
        ) + window_line("- serving step: s"@, self.serving.window) + window_line(
            "- baseline step: s"@,
            self.baseline.window,
        ) + line("- total gain vs baseline: "@, self.total_gain_vs_baseline@) + line(
            "- patch gain vs baseline: "@,
            self.patch_gain_vs_baseline@,
        ) + line("- cls gain vs baseline: "@, self.cls_gain_vs_baseline@) + line(
            "- latency scale vs baseline: "@,
            self.latency_scale_vs_baseline@,
        ) + optional_line("- total gain / extra ms: "@, self.total_gain_per_extra_ms) + bare_line(
            ""@,
        ) + bare_line(
            "| profile | step | bptt | forward ms | samples/s | tokens/s | total | patch | cls |"@,
        ) + bare_line("|---|---:|---:|---:|---:|---:|---:|---:|---:|"@) + metrics_row(
            "baseline"@,
            self.baseline,
        ) + metrics_row("serving"@, self.serving)
    }

    /// The report as text.
    pub fn to_markdown(&self) -> (out: String)
        ensures
            out@ == self.markdown(),
    {
        let mut out = String::new();
        push_vision_artifact_markdown_prelude(
            &mut out,
            "Vision Distill Serving Benchmark",
            &self.artifact,
        );
        push_line(&mut out, "- adapter: ", self.adapter.as_str());
        push_list_line(&mut out, "- config: ", &self.config);
        push_optional_line(&mut out, "- checkpoint: ", &self.checkpoint);
        push_number_line(&mut out, "- image size: ", self.image_size);
        push_number_line(&mut out, "- patch tokens / image: ", self.patch_tokens_per_image);
        push_number_line(&mut out, "- batch size: ", self.batch_size);
        push_window_line(&mut out, "- serving step: s", &self.serving.window);
        push_window_line(&mut out, "- baseline step: s", &self.baseline.window);
        push_line(&mut out, "- total gain vs baseline: ", self.total_gain_vs_baseline.as_str());
        push_line(&mut out, "- patch gain vs baseline: ", self.patch_gain_vs_baseline.as_str());
        push_line(&mut out, "- cls gain vs baseline: ", self.cls_gain_vs_baseline.as_str());
        push_line(
            &mut out,
            "- latency scale vs baseline: ",
            self.latency_scale_vs_baseline.as_str(),
        );
        push_optional_line(&mut out, "- total gain / extra ms: ", &self.total_gain_per_extra_ms);
        push_bare_line(&mut out, "");
        push_bare_line(
            &mut out,
            "| profile | step | bptt | forward ms | samples/s | tokens/s | total | patch | cls |",
        );
        push_bare_line(&mut out, "|---|---:|---:|---:|---:|---:|---:|---:|---:|");
        push_metrics_row(&mut out, "baseline", &self.baseline);
        push_metrics_row(&mut out, "serving", &self.serving);
        out
    }
}

/// What a smoke test measured for one form of the model, as it is printed.
#[derive(Debug)]
pub struct DeployMeasurement {
    pub forward_ms: String,
    pub distill_total: String,
    pub distill_patch: String,
    pub distill_cls: String,
}

/// The report of a deployment smoke test. Measured numbers are given as they are printed.
#[derive(Debug)]
pub struct VisionDistillDeploySmokeReport {
    pub artifact: VisionArtifactHeader,
    pub config: Vec<String>,
    pub checkpoint: String,
    pub burnpack: String,
    pub precision: VisionDistillDeploySmokePrecision,
    pub image_size: usize,
    pub batch_size: usize,
    pub window: StepWindow,
    pub checkpoint_measured: DeployMeasurement,
    pub burnpack_measured: DeployMeasurement,
    pub latency_scale: String,
    pub patch_max_abs_diff: String,
    pub cls_max_abs_diff: String,
    pub distill_total_abs_diff: String,
    pub distill_patch_abs_diff: String,
    pub distill_cls_abs_diff: String,
}

/// The name of a precision.
pub open spec fn precision_name(precision: VisionDistillDeploySmokePrecision) -> Seq<char> {
    match precision {
        VisionDistillDeploySmokePrecision::F16 => "F16"@,
        VisionDistillDeploySmokePrecision::F32 => "F32"@,
    }
}

fn precision_text(precision: VisionDistillDeploySmokePrecision) -> (r: &'static str)
    ensures
        r@ == precision_name(precision),
{
    match precision {
        VisionDistillDeploySmokePrecision::F16 => "F16",
        VisionDistillDeploySmokePrecision::F32 => "F32",
    }
}

/// A line with a time.
pub open spec fn time_line(label: Seq<char>, value: Seq<char>) -> Seq<char> {
    label + value + " ms\n"@
}

fn push_time_line(out: &mut String, label: &str, value: &str)
    ensures
        final(out)@ == old(out)@ + time_line(label@, value@),
{
    out.append(label);
    out.append(value);
    out.append(" ms\n");
    assert(out@ =~= old(out)@ + time_line(label@, value@));
}

/// The table row of one form of the model.
pub open spec fn deploy_row(label: Seq<char>, measured: DeployMeasurement) -> Seq<char> {
    "| "@ + label + " | "@ + measured.forward_ms@ + " | "@ + measured.distill_total@ + " | "@
        + measured.distill_patch@ + " | "@ + measured.distill_cls@ + " |\n"@
}

fn push_deploy_row(out: &mut String, label: &str, measured: &DeployMeasurement)
    ensures
        final(out)@ == old(out)@ + deploy_row(label@, *measured),
{
    out.append("| ");
    out.append(label);
    out.append(" | ");
    out.append(measured.forward_ms.as_str());
    out.append(" | ");
    out.append(measured.distill_total.as_str());
    out.append(" | ");
    out.append(measured.distill_patch.as_str());
    out.append(" | ");
    out.append(measured.distill_cls.as_str());
    out.append(" |\n");
    assert(out@ =~= old(out)@ + deploy_row(label@, *measured));
}

impl VisionDistillDeploySmokeReport {
    /// The report as text.
    pub open spec fn markdown(&self) -> Seq<char> {
        Seq::<char>::empty() + markdown_prelude("Vision Distill Deploy Smoke"@, self.artifact)
            + line("- checkpoint: "@, self.checkpoint@) + line("- burnpack: "@, self.burnpack@)
            + line("- burnpack precision: "@, precision_name(self.precision)) + list_line(
            "- config: "@,
            self.config@,
        ) + line("- image size: "@, decimal(self.image_size as nat)) + line(
            "- batch size: "@,
            decimal(self.batch_size as nat),
        ) + window_line("- rollout step: s"@, self.window) + time_line(
            "- checkpoint forward: "@,
            self.checkpoint_measured.forward_ms@,
        ) + time_line("- burnpack forward: "@, self.burnpack_measured.forward_ms@) + line(
            "- latency scale: "@,
            self.latency_scale@,
        ) + line("- patch max abs diff: "@, self.patch_max_abs_diff@) + line(
            "- cls max abs diff: "@,
            self.cls_max_abs_diff@,
        ) + line("- distill total abs diff: "@, self.distill_total_abs_diff@) + line(
            "- distill patch abs diff: "@,
            self.distill_patch_abs_diff@,
        ) + line("- distill cls abs diff: "@, self.distill_cls_abs_diff@) + bare_line(""@)
            + bare_line("| source | forward ms | total | patch | cls |"@) + bare_line(
            "|---|---:|---:|---:|---:|"@,
        ) + deploy_row("checkpoint"@, self.checkpoint_measured) + deploy_row(
            "burnpack"@,
            self.burnpack_measured,
        )
    }

    /// The report as text.
    pub fn to_markdown(&self) -> (out: String)
        ensures
            out@ == self.markdown(),
    {
        let mut out = String::new();
        push_vision_artifact_markdown_prelude(
            &mut out,
            "Vision Distill Deploy Smoke",
            &self.artifact,
        );
        push_line(&mut out, "- checkpoint: ", self.checkpoint.as_str());
        push_line(&mut out, "- burnpack: ", self.burnpack.as_str());
        push_line(&mut out, "- burnpack precision: ", precision_text(self.precision));
        push_list_line(&mut out, "- config: ", &self.config);
        push_number_line(&mut out, "- image size: ", self.image_size);
        push_number_line(&mut out, "- batch size: ", self.batch_size);
        push_window_line(&mut out, "- rollout step: s", &self.window);
        push_time_line(
            &mut out,
            "- checkpoint forward: ",
            self.checkpoint_measured.forward_ms.as_str(),
        );
        push_time_line(
            &mut out,
            "- burnpack forward: ",
            self.burnpack_measured.forward_ms.as_str(),
        );
        push_line(&mut out, "- latency scale: ", self.latency_scale.as_str());
        push_line(&mut out, "- patch max abs diff: ", self.patch_max_abs_diff.as_str());
        push_line(&mut out, "- cls max abs diff: ", self.cls_max_abs_diff.as_str());
        push_line(&mut out, "- distill total abs diff: ", self.distill_total_abs_diff.as_str());
        push_line(&mut out, "- distill patch abs diff: ", self.distill_patch_abs_diff.as_str());
        push_line(&mut out, "- distill cls abs diff: ", self.distill_cls_abs_diff.as_str());
        push_bare_line(&mut out, "");
        push_bare_line(&mut out, "| source | forward ms | total | patch | cls |");
        push_bare_line(&mut out, "|---|---:|---:|---:|---:|");
        push_deploy_row(&mut out, "checkpoint", &self.checkpoint_measured);
        push_deploy_row(&mut out, "burnpack", &self.burnpack_measured);
        out
    }
}

/// The window asked for comes before the configured one, and the whole rollout is taken where neither
/// says anything. A window within the rollout is taken as it is.
pub proof fn law_windows_are_those_asked_for(
    step: usize,
    asked: Option<usize>,
    configured: Option<usize>,
    other: Option<usize>,
)
    ensures
        ({
            let w = step_window_of(step as int, asked, configured);
            &&& step >= 1 ==> w.step == step
            &&& step == 0 ==> w.step == 1
            &&& asked is Some ==> w == step_window_of(step as int, asked, other)
            &&& asked is None ==> w == step_window_of(step as int, configured, other)
                || configured is None
            &&& asked is None && configured is None ==> w.backprop_steps == w.step
            &&& asked matches Some(window) ==> {
                &&& 1 <= window <= w.step ==> w.backprop_steps == window
                &&& window > w.step ==> w.backprop_steps == w.step
                &&& window == 0 ==> w.backprop_steps == 1
            }
        }),
{
}

/// The patches along a side cover it, and one fewer would not; there is always one.
pub proof fn law_patches_cover_the_side(image_size: usize, patch_size: usize)
    requires
        patch_size >= 1,
    ensures
        ({
            let side = patch_side(image_size as int, patch_size as int);
            &&& side >= 1
            &&& side * patch_size >= image_size
            &&& side == 1 || (side - 1) * patch_size < image_size
        }),
{
    let (n, d) = (image_size as int, patch_size as int);
    let side = ceil_div_of(n, d);
    crate::numeric::law_ceil_div_is_tight(n, d);
    if n == 0 {
        vstd::arithmetic::div_mod::lemma_fundamental_div_mod_converse(n + d - 1, d, 0, d - 1);
    }
    assert(side < 1 ==> side * d <= 0) by (nonlinear_arith)
        requires
            d >= 1,
    ;
}

} // verus!
