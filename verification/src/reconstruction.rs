//! Masked reconstruction and joint embedding: what a training step evaluates and what it draws.

use crate::numeric::{min_of, sat_mul, saturated};
use crate::rollout::{at_least_one, max_one};
use crate::scalar::Single;
use crate::text::texts;
use crate::trajectory::{is_trajectory_index, select_trajectory_indices};
use crate::views::{view_caption, CollectedViews};
use vstd::prelude::*;

verus! {

/// The sizes that reconstructed patches are measured by.
#[derive(Clone, Copy, Debug, PartialEq, Eq, Structural)]
pub struct VisionReconstructionInit {
    pub patch_dim: usize,
    pub patch_size: usize,
    pub in_channels: usize,
}

/// How many values of a patch belong to one channel: an equal share where the patch divides evenly,
/// else the pixels of the patch.
pub open spec fn channel_area(init: VisionReconstructionInit) -> int {
    let channels = at_least_one(init.in_channels as int);
    if init.patch_dim as int % channels == 0 {
        init.patch_dim as int / channels
    } else {
        at_least_one(
            saturated(at_least_one(init.patch_size as int) * at_least_one(init.patch_size as int)),
        )
    }
}

/// The scale of value `i` of a patch: that of its channel, and that of the first channel beyond the
/// channels or the given scales.
pub open spec fn patch_scale_at<T>(init: VisionReconstructionInit, scales: Seq<T>, i: int) -> T {
    let channel = i / channel_area(init);
    if channel < at_least_one(init.in_channels as int) && channel < scales.len() {
        scales[channel]
    } else {
        scales[0]
    }
}

/// The scales by which the values of a patch are denormalised; none for an empty patch.
pub fn denorm_patch_scales<T: Copy>(init: &VisionReconstructionInit, scales: &Vec<T>) -> (result:
    Option<Vec<T>>)
    requires
        scales@.len() > 0,
        init.patch_dim > 0 ==> at_least_one(init.in_channels as int) * channel_area(*init)
            <= init.patch_dim,
    ensures
        match result {
            Some(values) => init.patch_dim > 0 && values@ == Seq::new(
                init.patch_dim as nat,
                |i: int| patch_scale_at(*init, scales@, i),
            ),
            None => init.patch_dim == 0,
        },
{
    if init.patch_dim == 0 {
        return None;
    }
    let channels: usize = max_one(init.in_channels);
    let side: usize = max_one(init.patch_size);
    let area: usize = if init.patch_dim % channels == 0 {
        init.patch_dim / channels
    } else {
        max_one(sat_mul(side, side))
    };
    proof {
        if init.patch_dim % channels == 0 {
            vstd::arithmetic::div_mod::lemma_fundamental_div_mod(
                init.patch_dim as int,
                channels as int,
            );
            if area == 0 {
                assert(channels * area == 0) by (nonlinear_arith)
                    requires
                        area == 0,
                ;
            }
        }
    }
    assert(area >= 1);
    let mut values: Vec<T> = Vec::new();
    let mut i: usize = 0;
    while i < init.patch_dim
        invariant
            i <= init.patch_dim,
            area >= 1,
            area == channel_area(*init),
            channels == at_least_one(init.in_channels as int),
            scales@.len() > 0,
            values@ == Seq::new(i as nat, |k: int| patch_scale_at(*init, scales@, k)),
        decreases init.patch_dim - i,
    {
        let channel: usize = i / area;
        let value: T = if channel < channels && channel < scales.len() {
            scales[channel]
        } else {
            scales[0]
        };
        values.push(value);
        i += 1;
        assert(values@ =~= Seq::new(i as nat, |k: int| patch_scale_at(*init, scales@, k)));
    }
    Some(values)
}

/// How many values a patch has: one per pixel and channel, saturating.
pub fn recon_patch_dim(patch_size: usize, in_channels: usize) -> (dim: usize)
    ensures
        dim == saturated(saturated(patch_size * patch_size) * in_channels),
{
    sat_mul(sat_mul(patch_size, patch_size), in_channels)
}

/// The widths of a reconstruction head.
#[derive(Clone, Copy, Debug, PartialEq, Eq, Structural)]
pub struct ReconstructionHeadDims {
    /// The two hidden layers, where there are any.
    pub hidden: Option<usize>,
    pub out_input: usize,
    pub output: usize,
}

/// The widths of a reconstruction head. Without a hidden width it is a single layer.
pub fn reconstruction_head_dims(embed_dim: usize, hidden_dim: usize, patch_dim: usize) -> (dims:
    ReconstructionHeadDims)
    ensures
        dims == (ReconstructionHeadDims {
            hidden: if hidden_dim > 0 {
                Some(hidden_dim)
            } else {
                None
            },
            out_input: if hidden_dim > 0 {
                hidden_dim
            } else {
                at_least_one(embed_dim as int) as usize
            },
            output: at_least_one(patch_dim as int) as usize,
        }),
{
    if hidden_dim > 0 {
        ReconstructionHeadDims {
            hidden: Some(hidden_dim),
            out_input: max_one(hidden_dim),
            output: max_one(patch_dim),
        }
    } else {
        ReconstructionHeadDims {
            hidden: None,
            out_input: max_one(embed_dim),
            output: max_one(patch_dim),
        }
    }
}

/// Whether a reconstruction head exists: it needs a positive weight and patches to reconstruct.
pub fn has_reconstruction(weight: Single, patch_dim: usize) -> (r: bool)
    ensures
        r == (Single::zero().lt(weight) && patch_dim > 0),
{
    weight.is_positive() && patch_dim > 0
}

/// Whether masked patches can be compared: the grid is not empty and holds exactly the tokens.
pub open spec fn grid_matches(grid_h: int, grid_w: int, tokens: int) -> bool {
    grid_h > 0 && grid_w > 0 && grid_h * grid_w == tokens
}

/// Whether rollout step `step` is drawn: all of them, or as many as there are frames.
pub open spec fn is_drawn_step(step: usize, rollout_steps: usize, frames: usize) -> bool {
    &&& step >= 1
    &&& if frames == 0 {
        step <= rollout_steps
    } else {
        is_trajectory_index((step - 1) as usize, rollout_steps as nat, frames as nat)
    }
}

/// What is drawn of a refinement.
#[derive(Debug)]
pub struct RefinementPlan {
    pub images: usize,
    pub steps: Vec<usize>,
}

/// Plans the drawing of a refinement: its steps, each evaluated from the start. Nothing is drawn
/// without a source, without images or without steps.
pub fn plan_refinement(
    has_source: bool,
    batch: usize,
    image_count: usize,
    rollout_steps: usize,
    rollout_frames: usize,
) -> (plan: Option<RefinementPlan>)
    requires
        rollout_steps < usize::MAX,
    ensures
        match plan {
            Some(p) => {
                &&& has_source && batch > 0 && image_count > 0 && rollout_steps > 0
                &&& p.images == vstd::math::min(image_count as int, batch as int)
                &&& forall|k: int|
                    0 <= k < p.steps@.len() ==> is_drawn_step(
                        #[trigger] p.steps@[k],
                        rollout_steps,
                        rollout_frames,
                    )
                &&& forall|step: usize|
                    is_drawn_step(step, rollout_steps, rollout_frames) ==> #[trigger] p.steps@.contains(
                        step,
                    )
                &&& forall|i: int, j: int| 0 <= i < j < p.steps@.len() ==> p.steps@[i] < p.steps@[j]
            },
            None => !has_source || batch == 0 || image_count == 0 || rollout_steps == 0 || forall|
                step: usize,
            | !#[trigger] is_drawn_step(step, rollout_steps, rollout_frames),
        },
{
    if !has_source || image_count == 0 || rollout_steps == 0 || batch == 0 {
        return None;
    }
    let frames: usize = if rollout_frames == 0 {
        rollout_steps
    } else {
        rollout_frames
    };
    let indices = select_trajectory_indices(rollout_steps, frames);
    proof {
        assert forall|x: usize| #[trigger] indices@.contains(x) <==> (x < usize::MAX
            && is_drawn_step((x + 1) as usize, rollout_steps, rollout_frames)) by {
            if indices@.contains(x) {
                let k = choose|k: int| 0 <= k < indices@.len() && indices@[k] == x;
                assert(indices@[k] < rollout_steps);
            }
        }
    }
    if indices.len() == 0 {
        assert forall|step: usize| !#[trigger] is_drawn_step(step, rollout_steps, rollout_frames) by {
            if is_drawn_step(step, rollout_steps, rollout_frames) {
                assert(indices@.contains((step - 1) as usize));
            }
        }
        return None;
    }
    let mut steps: Vec<usize> = Vec::new();
    let mut k: usize = 0;
    while k < indices.len()
        invariant
            k <= indices@.len(),
            rollout_steps < usize::MAX,
            forall|j: int| 0 <= j < indices@.len() ==> (#[trigger] indices@[j]) < rollout_steps,
            steps@.len() == k,
            forall|j: int| 0 <= j < k ==> #[trigger] steps@[j] == indices@[j] + 1,
        decreases indices@.len() - k,
    {
        steps.push(indices[k] + 1);
        k += 1;
    }
    proof {
        assert forall|j: int| 0 <= j < steps@.len() implies is_drawn_step(
            #[trigger] steps@[j],
            rollout_steps,
            rollout_frames,
        ) by {
            assert(indices@.contains(indices@[j]));
        }
        assert forall|step: usize|
            is_drawn_step(step, rollout_steps, rollout_frames) implies #[trigger] steps@.contains(
            step,
        ) by {
            let x = (step - 1) as usize;
            assert(indices@.contains(x));
            let j = choose|j: int| 0 <= j < indices@.len() && indices@[j] == x;
            assert(steps@[j] == step);
        }
    }
    Some(RefinementPlan { images: min_of(image_count, batch), steps })
}

/// The settings of joint embedding that decide what a step evaluates.
#[derive(Clone, Copy, Debug, PartialEq, Eq, Structural)]
pub struct LejepaSettings {
    pub recon: bool,
    pub embedding: bool,
    pub has_teacher: bool,
    pub artifact_every: usize,
    pub artifact_rollout_steps: usize,
}

/// Which patch features a map is drawn from.
#[derive(Clone, Copy, Debug, PartialEq, Eq, Structural)]
pub enum MapSource {
    Nothing,
    /// Those of the first global view.
    Global,
    /// Those of the first local view.
    Local,
    /// What the reconstruction got wrong.
    Residual,
}

/// Which views the teacher sees.
#[derive(Clone, Copy, Debug, PartialEq, Eq, Structural)]
pub enum TeacherViews {
    Nothing,
    Global,
    All,
}

/// Which view a refinement is drawn of.
#[derive(Clone, Copy, Debug, PartialEq, Eq, Structural)]
pub enum RefinementSource {
    Nothing,
    Global,
    Local,
}

/// What a step of joint embedding evaluates and draws.
#[derive(Clone, Copy, Debug, PartialEq, Eq, Structural)]
pub struct LejepaPlan {
    /// Whether there is any view at all; without one every loss is zero.
    pub active: bool,
    pub global_group: bool,
    pub local_group: bool,
    /// Whether the groups are reconstructed, and whether that of the global views is drawn.
    pub reconstruct: bool,
    pub draw_reconstruction: bool,
    pub heatmap: MapSource,
    pub pca: MapSource,
    pub teacher: TeacherViews,
    /// How many views the probe reads: the global ones, else all.
    pub probe_views: usize,
    pub draw: bool,
    pub refinement: RefinementSource,
    pub refinement_steps: usize,
}

/// The plan of a step. `drawn` says that the reconstruction of the global views could be drawn.
pub open spec fn lejepa_plan_of(
    settings: LejepaSettings,
    global: nat,
    local: nat,
    steps: int,
    capture: bool,
    drawn: bool,
) -> LejepaPlan {
    let draw = capture && settings.artifact_every > 0;
    let residual = global > 0 && settings.recon && draw && drawn;
    LejepaPlan {
        active: global + local > 0,
        global_group: global > 0,
        local_group: local > 0,
        reconstruct: settings.recon,
        draw_reconstruction: global > 0 && settings.recon && draw,
        heatmap: if residual {
            MapSource::Residual
        } else if global > 0 {
            MapSource::Global
        } else if local > 0 && draw {
            MapSource::Local
        } else {
            MapSource::Nothing
        },
        pca: if !draw {
            MapSource::Nothing
        } else if global > 0 {
            MapSource::Global
        } else if local > 0 {
            MapSource::Local
        } else {
            MapSource::Nothing
        },
        teacher: if !settings.embedding || !settings.has_teacher || global + local == 0 {
            TeacherViews::Nothing
        } else if global > 0 {
            TeacherViews::Global
        } else {
            TeacherViews::All
        },
        probe_views: (if global > 0 {
            global
        } else {
            local
        }) as usize,
        draw,
        refinement: if !draw {
            RefinementSource::Nothing
        } else if global > 0 {
            RefinementSource::Global
        } else if local > 0 {
            RefinementSource::Local
        } else {
            RefinementSource::Nothing
        },
        refinement_steps: if settings.artifact_rollout_steps > 0 {
            settings.artifact_rollout_steps
        } else {
            at_least_one(steps) as usize
        },
    }
}

/// Plans a step of joint embedding over the collected views.
pub fn plan_lejepa_step(
    settings: &LejepaSettings,
    collected: &CollectedViews,
    steps: usize,
    capture: bool,
    drawn: bool,
) -> (plan: LejepaPlan)
    ensures
        plan == lejepa_plan_of(
            *settings,
            collected.global@.len(),
            collected.local@.len(),
            steps as int,
            capture,
            drawn,
        ),
{
    let global: usize = collected.global.len();
    let local: usize = collected.local.len();
    let draw: bool = capture && settings.artifact_every > 0;
    let has_global: bool = global > 0;
    let has_local: bool = local > 0;
    let draw_reconstruction: bool = has_global && settings.recon && draw;
    let heatmap = if draw_reconstruction && drawn {
        MapSource::Residual
    } else if has_global {
        MapSource::Global
    } else if has_local && draw {
        MapSource::Local
    } else {
        MapSource::Nothing
    };
    let pca = if !draw {
        MapSource::Nothing
    } else if has_global {
        MapSource::Global
    } else if has_local {
        MapSource::Local
    } else {
        MapSource::Nothing
    };
    let teacher = if !settings.embedding || !settings.has_teacher || (!has_global && !has_local) {
        TeacherViews::Nothing
    } else if has_global {
        TeacherViews::Global
    } else {
        TeacherViews::All
    };
    let refinement = if !draw {
        RefinementSource::Nothing
    } else if has_global {
        RefinementSource::Global
    } else if has_local {
        RefinementSource::Local
    } else {
        RefinementSource::Nothing
    };
    LejepaPlan {
        active: has_global || has_local,
        global_group: has_global,
        local_group: has_local,
        reconstruct: settings.recon,
        draw_reconstruction,
        heatmap,
        pca,
        teacher,
        probe_views: if has_global {
            global
        } else {
            local
        },
        draw,
        refinement,
        refinement_steps: if settings.artifact_rollout_steps > 0 {
            settings.artifact_rollout_steps
        } else {
            max_one(steps)
        },
    }
}

/// The shape of projected views.
#[derive(Clone, Copy, Debug, PartialEq, Eq, Structural)]
pub struct ProjectionShape {
    pub views: usize,
    pub batch: usize,
    pub dim: usize,
}

impl ProjectionShape {
    /// Nothing was projected.
    pub open spec fn empty(self) -> bool {
        self.views == 0 || self.batch == 0 || self.dim == 0
    }

    /// Whether nothing was projected, so that losses over the projections are zero.
    pub fn is_empty(&self) -> (r: bool)
        ensures
            r == self.empty(),
    {
        self.views == 0 || self.batch == 0 || self.dim == 0
    }
}

/// What the student's projections are compared with.
#[derive(Clone, Copy, Debug, PartialEq, Eq, Structural)]
pub enum InvarianceTarget {
    /// Nothing: the loss is zero.
    Nothing,
    /// The teacher's only view.
    View,
    /// The mean of the teacher's views.
    MeanView,
}

/// Decides what the student's projections are compared with. Projections of other samples or of
/// another width are not compared.
pub fn invariance_target(student: &ProjectionShape, teacher: &ProjectionShape) -> (target:
    InvarianceTarget)
    ensures
        target == (if student.empty() || teacher.views == 0 || teacher.batch != student.batch
            || teacher.dim != student.dim {
            InvarianceTarget::Nothing
        } else if teacher.views == 1 {
            InvarianceTarget::View
        } else {
            InvarianceTarget::MeanView
        }),
{
    if student.is_empty() || teacher.views == 0 || teacher.batch != student.batch || teacher.dim
        != student.dim {
        InvarianceTarget::Nothing
    } else if teacher.views == 1 {
        InvarianceTarget::View
    } else {
        InvarianceTarget::MeanView
    }
}

/// How the distribution of projections is sketched.
#[derive(Clone, Copy, Debug, PartialEq, Eq, Structural)]
pub struct SketchPlan {
    /// How many points the characteristic function is read at.
    pub knots: usize,
    /// Onto how many directions the projections are thrown.
    pub directions: usize,
}

/// Plans the sketch of projections: at least two points and one direction; nothing where nothing was
/// projected.
pub fn plan_sketch(shape: &ProjectionShape, knots: usize, directions: usize) -> (plan: Option<
    SketchPlan,
>)
    ensures
        plan == (if shape.empty() {
            None
        } else {
            Some(
                SketchPlan {
                    knots: vstd::math::max(knots as int, 2) as usize,
                    directions: at_least_one(directions as int) as usize,
                },
            )
        }),
{
    if shape.is_empty() {
        return None;
    }
    Some(
        SketchPlan {
            knots: if knots < 2 {
                2
            } else {
                knots
            },
            directions: max_one(directions),
        },
    )
}

/// Whether point `k` of the sketch counts half: the two ends do.
pub fn is_sketch_end(plan: &SketchPlan, k: usize) -> (r: bool)
    requires
        k < plan.knots,
    ensures
        r == (k == 0 || k == plan.knots - 1),
{
    k == 0 || k == plan.knots - 1
}

/// The captions of the drawn views: those of a reconstruction, that of a single input, or numbers.
pub open spec fn view_legend(recon: bool, views: nat) -> Seq<Seq<char>> {
    if recon && views == 3 {
        seq!["input"@, "masked_input"@, "reconstruction"@]
    } else if views == 1 {
        seq!["input"@]
    } else {
        Seq::new(views, |k: int| view_caption(k as nat))
    }
}

/// The captions of the drawn views; none where nothing is drawn.
pub fn lejepa_legend(recon: bool, views: usize) -> (legend: Option<Vec<String>>)
    ensures
        match legend {
            Some(captions) => views > 0 && texts(captions@) == view_legend(recon, views as nat),
            None => views == 0,
        },
{
    if views == 0 {
        return None;
    }
    let mut captions: Vec<String> = Vec::new();
    if recon && views == 3 {
        captions.push("input".to_owned());
        captions.push("masked_input".to_owned());
        captions.push("reconstruction".to_owned());
        assert(texts(captions@) =~= view_legend(recon, views as nat));
        return Some(captions);
    }
    if views == 1 {
        captions.push("input".to_owned());
        assert(texts(captions@) =~= view_legend(recon, views as nat));
        return Some(captions);
    }
    let numbered = crate::views::normalize_artifact_legend(None, views);
    proof {
        if let Some(list) = &numbered {
            assert(texts(list@) =~= view_legend(recon, views as nat));
        }
    }
    numbered
}

/// How many levels an image pyramid has. `halves[k]` says that level `k` can be halved once more.
pub open spec fn pyramid_depth(levels: int, halves: Seq<bool>) -> int
    decreases halves.len(),
{
    if levels <= 1 || halves.len() == 0 || !halves[0] {
        1
    } else {
        1 + pyramid_depth(levels - 1, halves.skip(1))
    }
}

/// How many levels an image pyramid has: the asked-for number (at least one), or fewer where a level
/// cannot be halved.
pub fn pyramid_levels(levels: usize, halves: &[bool]) -> (depth: usize)
    ensures
        depth == pyramid_depth(at_least_one(levels as int), halves@),
        1 <= depth <= at_least_one(levels as int),
{
    let wanted: usize = max_one(levels);
    let mut depth: usize = 1;
    assert(halves@.skip(0) =~= halves@);
    while depth < wanted && depth - 1 < halves.len() && halves[depth - 1]
        invariant
            1 <= depth <= wanted,
            depth - 1 <= halves@.len(),
            wanted == at_least_one(levels as int),
            pyramid_depth(wanted as int, halves@) == depth - 1 + pyramid_depth(
                wanted - (depth - 1),
                halves@.skip(depth - 1),
            ),
        decreases wanted - depth,
    {
        proof {
            let rest = halves@.skip(depth - 1);
            assert(rest[0] == halves@[depth - 1]);
            assert(rest.skip(1) =~= halves@.skip(depth as int));
        }
        depth += 1;
    }
    proof {
        let rest = halves@.skip(depth - 1);
        if depth - 1 < halves@.len() {
            assert(rest[0] == halves@[depth - 1]);
        }
        assert(pyramid_depth(wanted - (depth - 1), rest) == 1);
    }
    depth
}

/// The pyramid is read from the coarsest level up: which level comes at place `k` of `depth`.
pub fn pyramid_level_at(depth: usize, k: usize) -> (level: usize)
    requires
        k < depth,
    ensures
        level == depth - 1 - k,
{
    depth - 1 - k
}

/// Where the views of a cross-view reconstruction come from.
#[derive(Clone, Copy, Debug, PartialEq, Eq, Structural)]
pub enum EyeSource {
    /// The views of the batch.
    Views,
    /// The image and its target.
    ImageAndTarget,
    /// The image, once for each eye.
    RepeatedImage,
}

/// Where the views come from: those of the batch before all else, then a target.
pub open spec fn eye_source_of(has_views: bool, has_target: bool) -> EyeSource {
    if has_views {
        EyeSource::Views
    } else if has_target {
        EyeSource::ImageAndTarget
    } else {
        EyeSource::RepeatedImage
    }
}

/// Finds the views of a cross-view reconstruction.
pub fn eye_source(has_views: bool, has_target: bool) -> (source: EyeSource)
    ensures
        source == eye_source_of(has_views, has_target),
{
    if has_views {
        EyeSource::Views
    } else if has_target {
        EyeSource::ImageAndTarget
    } else {
        EyeSource::RepeatedImage
    }
}

/// The settings of cross-view reconstruction.
#[derive(Clone, Copy, Debug, PartialEq, Eq, Structural)]
pub struct CrossViewSettings {
    pub masked_eye: usize,
    pub visible_weight: Single,
    pub fuse_alpha: Single,
}

/// What a cross-view reconstruction evaluates.
#[derive(Debug)]
pub struct CrossViewPlan {
    /// The eyes whose own patches are compared as well.
    pub visible_eyes: Vec<usize>,
    /// Whether the prediction is mixed with the mean of the other eyes.
    pub fuse: bool,
}

/// The eyes below `n` that are not masked, in order.
pub open spec fn unmasked_eyes(masked_eye: int, n: nat) -> Seq<usize>
    decreases n,
{
    if n == 0 {
        Seq::empty()
    } else {
        let earlier = unmasked_eyes(masked_eye, (n - 1) as nat);
        if n - 1 == masked_eye {
            earlier
        } else {
            earlier.push((n - 1) as usize)
        }
    }
}

/// Whether `plan` is that of a cross-view reconstruction of `eyes` views.
pub open spec fn is_cross_view_plan(
    settings: CrossViewSettings,
    eyes: usize,
    plan: CrossViewPlan,
) -> bool {
    &&& plan.visible_eyes@ == (if Single::zero().lt(settings.visible_weight) && eyes > 1 {
        unmasked_eyes(settings.masked_eye as int, eyes as nat)
    } else {
        Seq::empty()
    })
    &&& plan.fuse == (eyes > 1 && Single::zero().lt(settings.fuse_alpha))
}

/// Plans a cross-view reconstruction of `eyes` views, of which one is masked.
pub fn plan_cross_view(settings: &CrossViewSettings, eyes: usize) -> (plan: CrossViewPlan)
    requires
        settings.masked_eye < eyes,
    ensures
        is_cross_view_plan(*settings, eyes, plan),
{
    let mut visible_eyes: Vec<usize> = Vec::new();
    if settings.visible_weight.is_positive() && eyes > 1 {
        let mut eye: usize = 0;
        while eye < eyes
            invariant
                eye <= eyes,
                visible_eyes@ == unmasked_eyes(settings.masked_eye as int, eye as nat),
            decreases eyes - eye,
        {
            if eye != settings.masked_eye {
                visible_eyes.push(eye);
            }
            eye += 1;
        }
    }
    CrossViewPlan { visible_eyes, fuse: eyes > 1 && settings.fuse_alpha.is_positive() }
}

/// What one level of a pyramid of images turned out to hold. An image has one eye unless the
/// reconstruction is a cross-view one.
#[derive(Clone, Copy, Debug, PartialEq, Eq, Structural)]
pub struct PyramidLevel {
    pub batch: usize,
    pub eyes: usize,
    pub grid_h: usize,
    pub grid_w: usize,
    pub tokens: usize,
    pub patch_dim: usize,
}

impl PyramidLevel {
    /// Whether the level counts: nothing of it is empty, and its grid holds its tokens.
    pub open spec fn counts(self) -> bool {
        &&& self.batch > 0
        &&& self.eyes > 0
        &&& grid_matches(self.grid_h as int, self.grid_w as int, self.tokens as int)
        &&& self.patch_dim > 0
    }

    /// The products of the level's sizes fit in a machine word.
    pub open spec fn fits(self) -> bool {
        &&& self.grid_h * self.grid_w <= usize::MAX
        &&& (self.eyes * self.batch) * self.tokens <= usize::MAX
        &&& self.eyes * self.batch <= usize::MAX
        &&& ((self.eyes * self.batch) * self.tokens) * self.patch_dim <= usize::MAX
    }

    /// Whether the level counts.
    pub fn is_counted(&self) -> (r: bool)
        requires
            self.grid_h * self.grid_w <= usize::MAX,
        ensures
            r == self.counts(),
    {
        self.batch > 0 && self.eyes > 0 && self.grid_h > 0 && self.grid_w > 0 && self.grid_h
            * self.grid_w == self.tokens && self.patch_dim > 0
    }

    /// How many values the visible eyes have between them.
    pub open spec fn visible_values(self) -> int {
        (((self.eyes - 1) * self.batch) * self.tokens) * self.patch_dim
    }

    fn count_visible(&self) -> (count: usize)
        requires
            self.fits(),
            self.eyes > 0,
        ensures
            count == self.visible_values(),
    {
        let others: usize = self.eyes - 1;
        proof {
            let (e, b, t, d) = (
                self.eyes as int,
                self.batch as int,
                self.tokens as int,
                self.patch_dim as int,
            );
            assert(0 <= (e - 1) * b <= e * b) by (nonlinear_arith)
                requires
                    e >= 1,
                    b >= 0,
            ;
            let (p, q) = ((e - 1) * b, e * b);
            assert(0 <= p * t <= q * t) by (nonlinear_arith)
                requires
                    0 <= p <= q,
                    t >= 0,
            ;
            let (m, n) = (p * t, q * t);
            assert(0 <= m * d <= n * d) by (nonlinear_arith)
                requires
                    0 <= m <= n,
                    d >= 0,
            ;
        }
        others * self.batch * self.tokens * self.patch_dim
    }
}

/// What a level that counts adds to the losses.
#[derive(Clone, Copy, Debug, PartialEq, Eq, Structural)]
pub struct LevelPlan {
    pub level: usize,
    /// How many values of the reconstructed images are compared, saturating.
    pub full_count: usize,
    /// How many values of the visible eyes are compared.
    pub visible_count: usize,
    /// Whether the level's reconstruction is drawn.
    pub drawn: bool,
}

/// What level `k` of a pyramid, from the coarsest up, adds: only the finest one is drawn.
pub open spec fn level_plan_of(
    levels: Seq<PyramidLevel>,
    k: int,
    visible: bool,
    capture: bool,
) -> LevelPlan {
    let level = levels[k];
    LevelPlan {
        level: k as usize,
        full_count: saturated(saturated(level.batch * level.tokens) * level.patch_dim) as usize,
        visible_count: if visible && level.eyes > 1 {
            level.visible_values() as usize
        } else {
            0
        },
        drawn: capture && k + 1 == levels.len(),
    }
}

/// What the first `n` levels add: those that do not count are passed over.
pub open spec fn level_plans_of(
    levels: Seq<PyramidLevel>,
    n: nat,
    visible: bool,
    capture: bool,
) -> Seq<LevelPlan>
    decreases n,
{
    if n == 0 {
        Seq::empty()
    } else {
        let earlier = level_plans_of(levels, (n - 1) as nat, visible, capture);
        if levels[n - 1].counts() {
            earlier.push(level_plan_of(levels, n - 1, visible, capture))
        } else {
            earlier
        }
    }
}

/// Plans the levels of a pyramid, given from the coarsest up.
pub fn plan_levels(levels: &Vec<PyramidLevel>, visible: bool, capture: bool) -> (plans: Vec<
    LevelPlan,
>)
    requires
        forall|k: int| 0 <= k < levels@.len() ==> (#[trigger] levels@[k]).fits(),
    ensures
        plans@ == level_plans_of(levels@, levels@.len(), visible, capture),
{
    let mut plans: Vec<LevelPlan> = Vec::new();
    let count: usize = levels.len();
    let mut k: usize = 0;
    while k < count
        invariant
            k <= count == levels@.len(),
            forall|k: int| 0 <= k < levels@.len() ==> (#[trigger] levels@[k]).fits(),
            plans@ == level_plans_of(levels@, k as nat, visible, capture),
        decreases count - k,
    {
        let level: PyramidLevel = levels[k];
        assert(level.fits());
        if level.is_counted() {
            let visible_count: usize = if visible && level.eyes > 1 {
                level.count_visible()
            } else {
                0
            };
            plans.push(
                LevelPlan {
                    level: k,
                    full_count: sat_mul(sat_mul(level.batch, level.tokens), level.patch_dim),
                    visible_count,
                    drawn: capture && k + 1 == count,
                },
            );
        }
        k += 1;
    }
    plans
}

/// What a batch holds beside its images.
#[derive(Clone, Copy, Debug, PartialEq, Eq, Structural)]
pub struct BatchExtras {
    pub views: bool,
    pub target: bool,
}

/// The settings of masked reconstruction that decide what a step evaluates.
#[derive(Clone, Copy, Debug, PartialEq, Eq, Structural)]
pub struct MaeSettings {
    pub num_eyes: usize,
    /// Whether the views of an image are reconstructed together.
    pub cross_view_enabled: bool,
    pub cross_view: CrossViewSettings,
    pub artifact_rollout_steps: usize,
}

/// What a step of masked reconstruction evaluates and draws.
#[derive(Debug)]
pub struct MaePlan {
    /// The views of the eyes, and how many of them; none where views are reconstructed one by one.
    pub eyes: Option<(EyeSource, usize)>,
    pub levels: Vec<LevelPlan>,
    /// Whether the full comparison is reported as the masked one.
    pub full_is_masked: bool,
    /// Whether the visible eyes enter the total.
    pub visible: bool,
    /// Whether the finest level is drawn.
    pub drawn: bool,
    /// How many steps a drawn refinement has.
    pub refinement_steps: usize,
}

/// Whether `plan` is that of a step of masked reconstruction over the levels of a pyramid.
pub open spec fn is_mae_plan(
    settings: MaeSettings,
    extras: BatchExtras,
    levels: Seq<PyramidLevel>,
    steps: usize,
    capture: bool,
    plan: MaePlan,
) -> bool {
    &&& plan.eyes == (if settings.cross_view_enabled {
        Some(
            (
                eye_source_of(extras.views, extras.target),
                at_least_one(settings.num_eyes as int) as usize,
            ),
        )
    } else {
        None
    })
    &&& plan.levels@ == level_plans_of(
        levels,
        levels.len(),
        settings.cross_view_enabled && Single::zero().lt(settings.cross_view.visible_weight),
        capture,
    )
    &&& plan.full_is_masked == settings.cross_view_enabled
    &&& plan.visible == Single::zero().lt(settings.cross_view.visible_weight)
    &&& plan.drawn == (capture && levels.len() > 0 && levels.last().counts())
    &&& plan.refinement_steps == (if settings.artifact_rollout_steps > 0 {
        settings.artifact_rollout_steps as int
    } else {
        at_least_one(steps as int)
    })
}

/// Plans a step of masked reconstruction over the levels of its pyramid, from the coarsest up.
pub fn plan_mae_step(
    settings: &MaeSettings,
    extras: &BatchExtras,
    levels: &Vec<PyramidLevel>,
    steps: usize,
    capture: bool,
) -> (plan: MaePlan)
    requires
        forall|k: int| 0 <= k < levels@.len() ==> (#[trigger] levels@[k]).fits(),
    ensures
        is_mae_plan(*settings, *extras, levels@, steps, capture, plan),
{
    let weighted: bool = settings.cross_view.visible_weight.is_positive();
    let eyes = if settings.cross_view_enabled {
        Some((eye_source(extras.views, extras.target), max_one(settings.num_eyes)))
    } else {
        None
    };
    let count: usize = levels.len();
    let drawn: bool = if capture && count > 0 {
        let finest: PyramidLevel = levels[count - 1];
        assert(finest.fits());
        finest.is_counted()
    } else {
        false
    };
    MaePlan {
        eyes,
        levels: plan_levels(levels, settings.cross_view_enabled && weighted, capture),
        full_is_masked: settings.cross_view_enabled,
        visible: weighted,
        drawn,
        refinement_steps: if settings.artifact_rollout_steps > 0 {
            settings.artifact_rollout_steps
        } else {
            max_one(steps)
        },
    }
}

/// Plans the reconstruction of a group of views, of which the first is drawn. Nothing is
/// reconstructed without a head, without views, or where the group holds nothing to compare.
pub fn plan_recon_group(
    has_head: bool,
    views: usize,
    level: &PyramidLevel,
    capture: bool,
) -> (plan: Option<LevelPlan>)
    requires
        level.fits(),
        level.eyes == 1,
        views * level.batch <= usize::MAX,
    ensures
        match plan {
            Some(p) => {
                &&& has_head && views > 0 && level.counts()
                &&& p == (LevelPlan {
                    level: 0,
                    full_count: saturated(
                        saturated((views * level.batch) * level.tokens) * level.patch_dim,
                    ) as usize,
                    visible_count: 0,
                    drawn: capture,
                })
            },
            None => !has_head || views == 0 || !level.counts(),
        },
{
    if !has_head || views == 0 || !level.is_counted() {
        return None;
    }
    let total: usize = views * level.batch;
    Some(
        LevelPlan {
            level: 0,
            full_count: sat_mul(sat_mul(total, level.tokens), level.patch_dim),
            visible_count: 0,
            drawn: capture,
        },
    )
}

/// At most the finest level is drawn, and where it is, it is the last one that counts.
pub proof fn law_only_the_finest_level_is_drawn(
    levels: Seq<PyramidLevel>,
    visible: bool,
    capture: bool,
    k: int,
)
    requires
        levels.len() <= usize::MAX,
        0 <= k < level_plans_of(levels, levels.len(), visible, capture).len(),
    ensures
        ({
            let plans = level_plans_of(levels, levels.len(), visible, capture);
            plans[k].drawn <==> capture && k == plans.len() - 1 && levels.last().counts()
        }),
{
    lemma_level_plans(levels, levels.len(), visible, capture);
    let n = levels.len();
    let earlier = level_plans_of(levels, (n - 1) as nat, visible, capture);
    lemma_level_plans(levels, (n - 1) as nat, visible, capture);
    let plans = level_plans_of(levels, n, visible, capture);
    if k < earlier.len() {
        assert(plans[k] == earlier[k]);
    }
}

proof fn lemma_level_plans(levels: Seq<PyramidLevel>, n: nat, visible: bool, capture: bool)
    requires
        n <= levels.len() <= usize::MAX,
    ensures
        forall|k: int|
            #![trigger level_plans_of(levels, n, visible, capture)[k]]
            0 <= k < level_plans_of(levels, n, visible, capture).len() ==> {
                let plan = level_plans_of(levels, n, visible, capture)[k];
                plan.level < n && levels[plan.level as int].counts() && plan.drawn == (capture
                    && plan.level + 1 == levels.len())
            },
    decreases n,
{
    if n > 0 {
        lemma_level_plans(levels, (n - 1) as nat, visible, capture);
        let earlier = level_plans_of(levels, (n - 1) as nat, visible, capture);
        let all = level_plans_of(levels, n, visible, capture);
        assert forall|k: int| #![trigger all[k]] 0 <= k < all.len() implies {
            let plan = all[k];
            plan.level < n && levels[plan.level as int].counts() && plan.drawn == (capture
                && plan.level + 1 == levels.len())
        } by {
            if k < earlier.len() {
                assert(all[k] == earlier[k]);
            }
        }
    }
}

/// Exactly the masked eye is left out.
pub proof fn law_visible_eyes_are_the_others(masked_eye: int, n: nat, eye: usize)
    requires
        0 <= masked_eye < n <= usize::MAX,
    ensures
        unmasked_eyes(masked_eye, n).contains(eye) <==> eye < n && eye != masked_eye,
        unmasked_eyes(masked_eye, n).len() == n - 1,
{
    lemma_unmasked(masked_eye, n, eye);
}

proof fn lemma_unmasked(masked_eye: int, n: nat, eye: usize)
    requires
        n <= usize::MAX,
        0 <= masked_eye,
    ensures
        unmasked_eyes(masked_eye, n).contains(eye) <==> eye < n && eye != masked_eye,
        unmasked_eyes(masked_eye, n).len() == (if masked_eye < n {
            n - 1
        } else {
            n as int
        }),
    decreases n,
{
    if n > 0 {
        lemma_unmasked(masked_eye, (n - 1) as nat, eye);
        let earlier = unmasked_eyes(masked_eye, (n - 1) as nat);
        let all = unmasked_eyes(masked_eye, n);
        if earlier.contains(eye) {
            let k = choose|k: int| 0 <= k < earlier.len() && earlier[k] == eye;
            assert(all[k] == eye);
        }
        if eye == n - 1 && eye != masked_eye {
            assert(all[earlier.len() as int] == eye);
        }
        if all.contains(eye) {
            let k = choose|k: int| 0 <= k < all.len() && all[k] == eye;
            if k < earlier.len() {
                assert(earlier[k] == eye);
            }
        }
    }
}

/// What is drawn does not change what is trained: whether a step draws, how often and how long, leaves
/// alone which views are evaluated, which the teacher sees, and whether the views are reconstructed,
/// which is so on every step of a model that reconstructs.
pub proof fn law_drawing_does_not_change_the_training(
    settings: LejepaSettings,
    other: LejepaSettings,
    global: nat,
    local: nat,
    steps: int,
    captures: (bool, bool),
    drawn: (bool, bool),
)
    requires
        settings.recon == other.recon,
        settings.embedding == other.embedding,
        settings.has_teacher == other.has_teacher,
        global <= usize::MAX,
        local <= usize::MAX,
    ensures
        ({
            let a = lejepa_plan_of(settings, global, local, steps, captures.0, drawn.0);
            let b = lejepa_plan_of(other, global, local, steps, captures.1, drawn.1);
            &&& a.active == b.active
            &&& a.global_group == b.global_group
            &&& a.local_group == b.local_group
            &&& a.reconstruct == b.reconstruct
            &&& a.teacher == b.teacher
            &&& a.probe_views == b.probe_views
            &&& a.reconstruct == settings.recon
        }),
{
}

/// What a step of joint embedding trains on: each kind of view exactly where the batch has one, the
/// probe and the teacher on the global views, and on the local ones where there are no others. There
/// is a teacher only for embeddings, and only where the model has one.
pub proof fn law_global_views_come_first(
    settings: LejepaSettings,
    global: nat,
    local: nat,
    steps: int,
    capture: bool,
    drawn: bool,
)
    requires
        global <= usize::MAX,
        local <= usize::MAX,
    ensures
        ({
            let plan = lejepa_plan_of(settings, global, local, steps, capture, drawn);
            let taught = settings.embedding && settings.has_teacher;
            &&& plan.global_group <==> global >= 1
            &&& plan.local_group <==> local >= 1
            &&& plan.active <==> global >= 1 || local >= 1
            &&& global >= 1 ==> plan.probe_views == global
            &&& global == 0 ==> plan.probe_views == local
            &&& plan.teacher == TeacherViews::Global <==> taught && global >= 1
            &&& plan.teacher == TeacherViews::All <==> taught && global == 0 && local >= 1
            &&& !taught ==> plan.teacher == TeacherViews::Nothing
        }),
{
}

/// A step draws only where it is captured and drawing is on at all. Then maps and refinements are
/// drawn of the global views where there are any, and of the local ones otherwise; where the global
/// views were reconstructed and could be drawn, the heat map shows what that got wrong.
pub proof fn law_drawings_need_a_capture(
    settings: LejepaSettings,
    global: nat,
    local: nat,
    steps: int,
    capture: bool,
    drawn: bool,
)
    requires
        0 <= steps <= usize::MAX,
    ensures
        ({
            let plan = lejepa_plan_of(settings, global, local, steps, capture, drawn);
            &&& plan.draw <==> capture && settings.artifact_every >= 1
            &&& plan.draw_reconstruction <==> plan.draw && settings.recon && global >= 1
            &&& !plan.draw ==> plan.pca == MapSource::Nothing && plan.refinement
                == RefinementSource::Nothing && plan.heatmap != MapSource::Residual && plan.heatmap
                != MapSource::Local
            &&& plan.draw && global >= 1 ==> plan.pca == MapSource::Global && plan.refinement
                == RefinementSource::Global
            &&& plan.draw && global == 0 && local >= 1 ==> plan.pca == MapSource::Local
                && plan.refinement == RefinementSource::Local && plan.heatmap == MapSource::Local
            &&& global == 0 && local == 0 ==> plan.pca == MapSource::Nothing && plan.refinement
                == RefinementSource::Nothing && plan.heatmap == MapSource::Nothing
            &&& plan.heatmap == MapSource::Residual <==> plan.draw_reconstruction && drawn
            &&& global >= 1 && !(plan.draw_reconstruction && drawn) ==> plan.heatmap
                == MapSource::Global
            &&& plan.refinement_steps >= 1
            &&& settings.artifact_rollout_steps >= 1 ==> plan.refinement_steps
                == settings.artifact_rollout_steps
            &&& settings.artifact_rollout_steps == 0 && steps >= 1 ==> plan.refinement_steps == steps
        }),
{
}

/// The scales of a patch go by channel: where the patch divides evenly among its channels, the values
/// of channel `c` stand together in its place and have the scale of that channel, or the first scale
/// where there is none for it.
pub proof fn law_patch_scales_go_by_channel<T>(
    init: VisionReconstructionInit,
    scales: Seq<T>,
    c: int,
    area: int,
    j: int,
)
    requires
        init.in_channels >= 1,
        init.patch_dim == init.in_channels * area,
        area >= 1,
        0 <= c < init.in_channels,
        0 <= j < area,
        scales.len() >= 1,
    ensures
        c < scales.len() ==> patch_scale_at(init, scales, c * area + j) == scales[c],
        c >= scales.len() ==> patch_scale_at(init, scales, c * area + j) == scales[0],
{
    let n = init.in_channels as int;
    vstd::arithmetic::mul::lemma_mul_is_commutative(n, area);
    vstd::arithmetic::div_mod::lemma_fundamental_div_mod_converse(
        init.patch_dim as int,
        n,
        area,
        0,
    );
    vstd::arithmetic::div_mod::lemma_fundamental_div_mod_converse(c * area + j, area, c, j);
}

/// The steps of a refinement that are drawn lie in it. Without a limit on frames, or with as many as
/// steps, all of them are drawn; with two or more the first one is, and with one the last alone.
pub proof fn law_drawn_steps_lie_in_the_refinement(step: usize, steps: usize, frames: usize)
    requires
        1 <= steps,
    ensures
        is_drawn_step(step, steps, frames) ==> 1 <= step <= steps,
        frames == 0 || frames >= steps ==> (is_drawn_step(step, steps, frames) <==> 1 <= step
            <= steps),
        frames == 1 ==> (is_drawn_step(step, steps, frames) <==> step == steps),
        frames >= 2 ==> is_drawn_step(1, steps, frames),
        frames >= 2 && steps <= 0x80_0001 ==> is_drawn_step(steps, steps, frames),
{
    if 2 <= frames < steps {
        crate::trajectory::law_spread_keeps_both_ends(steps as nat, frames as nat);
    }
}

/// A pyramid goes as deep as asked, or as far as every level above can be halved, and no less.
pub proof fn law_pyramid_goes_as_deep_as_it_can(levels: int, halves: Seq<bool>)
    requires
        levels >= 1,
    ensures
        ({
            let depth = pyramid_depth(levels, halves);
            &&& 1 <= depth <= levels
            &&& depth <= halves.len() + 1
            &&& forall|k: int| 0 <= k < depth - 1 ==> #[trigger] halves[k]
            &&& depth == levels || depth == halves.len() + 1 || !halves[depth - 1]
        }),
    decreases halves.len(),
{
    if levels > 1 && halves.len() > 0 && halves[0] {
        let rest = halves.skip(1);
        law_pyramid_goes_as_deep_as_it_can(levels - 1, rest);
        let depth = pyramid_depth(levels, halves);
        assert forall|k: int| 0 <= k < depth - 1 implies #[trigger] halves[k] by {
            if k > 0 {
                assert(rest[k - 1]);
            }
        }
        if depth != levels && depth != halves.len() + 1 {
            assert(!rest[depth - 2]);
        }
    }
}

/// Views of the batch are used where it has any; a target only without views; the image is repeated
/// only without either.
pub proof fn law_eyes_prefer_views(has_views: bool, has_target: bool)
    ensures
        eye_source_of(has_views, has_target) == EyeSource::Views <==> has_views,
        eye_source_of(has_views, has_target) == EyeSource::ImageAndTarget <==> has_target
            && !has_views,
        eye_source_of(has_views, has_target) == EyeSource::RepeatedImage <==> !has_target
            && !has_views,
{
}

/// The visible eyes stand in their own order.
pub proof fn law_visible_eyes_are_in_order(masked_eye: int, n: nat, i: int, j: int)
    requires
        n <= usize::MAX,
        0 <= i < j < unmasked_eyes(masked_eye, n).len(),
    ensures
        unmasked_eyes(masked_eye, n)[i] < unmasked_eyes(masked_eye, n)[j] < n,
    decreases n,
{
    let earlier = unmasked_eyes(masked_eye, (n - 1) as nat);
    if j < earlier.len() {
        law_visible_eyes_are_in_order(masked_eye, (n - 1) as nat, i, j);
    } else {
        lemma_eyes_below(masked_eye, (n - 1) as nat, i);
    }
}

proof fn lemma_eyes_below(masked_eye: int, n: nat, i: int)
    requires
        n <= usize::MAX,
        0 <= i < unmasked_eyes(masked_eye, n).len(),
    ensures
        unmasked_eyes(masked_eye, n)[i] < n,
    decreases n,
{
    if i < unmasked_eyes(masked_eye, (n - 1) as nat).len() {
        lemma_eyes_below(masked_eye, (n - 1) as nat, i);
    }
}

/// A level counts exactly where nothing of it is empty and its grid holds its tokens.
pub proof fn law_empty_levels_do_not_count(level: PyramidLevel)
    ensures
        level.counts() <==> level.batch >= 1 && level.eyes >= 1 && level.patch_dim >= 1
            && level.grid_h >= 1 && level.grid_w >= 1 && level.tokens == level.grid_h
            * level.grid_w,
{
}

/// Each level that counts is compared once, from the coarsest up, and no other one is. A level is
/// compared over all its values, and over those of the other eyes where they are asked for and there
/// are any.
pub proof fn law_counting_levels_are_compared_once(
    levels: Seq<PyramidLevel>,
    n: nat,
    visible: bool,
    capture: bool,
)
    requires
        n <= levels.len() <= usize::MAX,
        forall|k: int| 0 <= k < levels.len() ==> (#[trigger] levels[k]).fits(),
    ensures
        ({
            let plans = level_plans_of(levels, n, visible, capture);
            &&& forall|j: int|
                0 <= j < plans.len() ==> {
                    let p = #[trigger] plans[j];
                    let l = levels[p.level as int];
                    &&& p.level < n
                    &&& l.counts()
                    &&& p.full_count == l.batch * l.tokens * l.patch_dim
                    &&& visible ==> p.visible_count + p.full_count == l.eyes * l.batch * l.tokens
                        * l.patch_dim
                    &&& !visible ==> p.visible_count == 0
                }
            &&& forall|i: int, j: int| 0 <= i < j < plans.len() ==> plans[i].level < plans[j].level
            &&& forall|k: int|
                0 <= k < n && (#[trigger] levels[k]).counts() ==> exists|j: int|
                    0 <= j < plans.len() && (#[trigger] plans[j]).level == k
        }),
    decreases n,
{
    if n > 0 {
        let m = (n - 1) as nat;
        law_counting_levels_are_compared_once(levels, m, visible, capture);
        let earlier = level_plans_of(levels, m, visible, capture);
        let plans = level_plans_of(levels, n, visible, capture);
        let l = levels[n - 1];
        assert(l.fits());
        if l.counts() {
            let (e, b, t, d) = (l.eyes as int, l.batch as int, l.tokens as int, l.patch_dim as int);
            assert(t >= 1) by (nonlinear_arith)
                requires
                    l.grid_h >= 1,
                    l.grid_w >= 1,
                    t == l.grid_h * l.grid_w,
            ;
            assert(0 <= b * t && b * t <= (e * b) * t && 0 <= (b * t) * d && (b * t) * d <= ((e * b)
                * t) * d && (((e - 1) * b) * t) * d + (b * t) * d == ((e * b) * t) * d && 0 <= (((e
                - 1) * b) * t) * d) by (nonlinear_arith)
                requires
                    e >= 1,
                    b >= 1,
                    t >= 1,
                    d >= 1,
            ;
            if e == 1 {
                assert((((e - 1) * b) * t) * d == 0) by (nonlinear_arith)
                    requires
                        e == 1,
                ;
            }
            assert(plans[plans.len() - 1].level == n - 1);
        }
        assert forall|k: int| 0 <= k < n && (#[trigger] levels[k]).counts() implies exists|j: int|
            0 <= j < plans.len() && (#[trigger] plans[j]).level == k by {
            if k < m {
                let j = choose|j: int| 0 <= j < earlier.len() && (#[trigger] earlier[j]).level == k;
                assert(plans[j].level == k);
            } else {
                assert(plans[plans.len() - 1].level == k);
            }
        }
        assert forall|i: int, j: int| 0 <= i < j < plans.len() implies plans[i].level
            < plans[j].level by {
            assert(plans[i] == earlier[i]);
            if j < earlier.len() {
                assert(plans[j] == earlier[j]);
            }
        }
        assert forall|j: int| 0 <= j < plans.len() implies {
            let p = #[trigger] plans[j];
            let l = levels[p.level as int];
            &&& p.level < n
            &&& l.counts()
            &&& p.full_count == l.batch * l.tokens * l.patch_dim
            &&& visible ==> p.visible_count + p.full_count == l.eyes * l.batch * l.tokens
                * l.patch_dim
            &&& !visible ==> p.visible_count == 0
        } by {
            if j < earlier.len() {
                assert(plans[j] == earlier[j]);
            }
        }
    }
}

/// Drawing a pyramid does not change what is compared of it.
pub proof fn law_drawing_does_not_change_the_levels(
    levels: Seq<PyramidLevel>,
    n: nat,
    visible: bool,
    j: int,
)
    requires
        n <= levels.len(),
        0 <= j < level_plans_of(levels, n, visible, true).len(),
    ensures
        level_plans_of(levels, n, visible, false).len() == level_plans_of(
            levels,
            n,
            visible,
            true,
        ).len(),
        level_plans_of(levels, n, visible, false)[j] == (LevelPlan {
            drawn: false,
            ..level_plans_of(levels, n, visible, true)[j]
        }),
    decreases n,
{
    if n > 0 {
        let m = (n - 1) as nat;
        lemma_same_level_count(levels, m, visible);
        if j < level_plans_of(levels, m, visible, true).len() {
            law_drawing_does_not_change_the_levels(levels, m, visible, j);
        }
    }
}

proof fn lemma_same_level_count(levels: Seq<PyramidLevel>, n: nat, visible: bool)
    ensures
        level_plans_of(levels, n, visible, false).len() == level_plans_of(
            levels,
            n,
            visible,
            true,
        ).len(),
    decreases n,
{
    if n > 0 {
        lemma_same_level_count(levels, (n - 1) as nat, visible);
    }
}

/// Projections are empty exactly where they hold no value.
pub proof fn law_empty_projections_hold_no_value(shape: ProjectionShape)
    ensures
        shape.empty() <==> shape.views * shape.batch * shape.dim == 0,
{
    assert(shape.views >= 1 && shape.batch >= 1 ==> shape.views * shape.batch >= 1)
        by (nonlinear_arith);
    let n = shape.views * shape.batch;
    assert(n >= 1 && shape.dim >= 1 ==> n * shape.dim >= 1) by (nonlinear_arith);
    assert(shape.views == 0 || shape.batch == 0 ==> n == 0) by (nonlinear_arith)
        requires
            n == shape.views * shape.batch,
    ;
    assert(n == 0 || shape.dim == 0 ==> n * shape.dim == 0) by (nonlinear_arith);
}

/// There is a caption for every view.
pub proof fn law_every_view_has_a_caption(recon: bool, views: nat)
    ensures
        view_legend(recon, views).len() == views,
{
}

/// The other eyes are compared exactly where they carry weight, all of them but the masked one; the
/// prediction is fused exactly where that carries weight. With one eye there is neither.
pub proof fn law_other_eyes_are_compared_where_they_weigh(
    settings: CrossViewSettings,
    eyes: usize,
    plan: CrossViewPlan,
    eye: usize,
)
    requires
        settings.masked_eye < eyes,
        is_cross_view_plan(settings, eyes, plan),
    ensures
        ({
            let weighs = !settings.visible_weight.is_nan() && settings.visible_weight.rank() > 0;
            let fuses = !settings.fuse_alpha.is_nan() && settings.fuse_alpha.rank() > 0;
            &&& plan.visible_eyes@.contains(eye) <==> weighs && eye < eyes && eye
                != settings.masked_eye
            &&& plan.visible_eyes@.len() == (if weighs {
                eyes - 1
            } else {
                0
            })
            &&& plan.fuse <==> fuses && eyes >= 2
        }),
{
    law_visible_eyes_are_the_others(settings.masked_eye as int, eyes as nat, eye);
}

/// Drawing a step of masked reconstruction does not change what it trains: only what is drawn differs.
/// The finest level is drawn where it holds something to compare.
pub proof fn law_drawing_does_not_change_the_masked_step(
    settings: MaeSettings,
    extras: BatchExtras,
    levels: Seq<PyramidLevel>,
    steps: usize,
    drawn: MaePlan,
    plain: MaePlan,
    j: int,
)
    requires
        is_mae_plan(settings, extras, levels, steps, true, drawn),
        is_mae_plan(settings, extras, levels, steps, false, plain),
    ensures
        drawn.eyes == plain.eyes,
        drawn.levels@.len() == plain.levels@.len(),
        0 <= j < drawn.levels@.len() ==> plain.levels@[j] == (LevelPlan {
            drawn: false,
            ..drawn.levels@[j]
        }),
        drawn.full_is_masked == plain.full_is_masked,
        drawn.visible == plain.visible,
        drawn.refinement_steps == plain.refinement_steps,
        !plain.drawn,
        drawn.drawn <==> levels.len() > 0 && levels.last().counts(),
{
    let visible = settings.cross_view_enabled && Single::zero().lt(
        settings.cross_view.visible_weight,
    );
    lemma_same_level_count(levels, levels.len(), visible);
    if 0 <= j < drawn.levels@.len() {
        law_drawing_does_not_change_the_levels(levels, levels.len(), visible, j);
    }
}

/// Views are reconstructed together, by an eye each, exactly where that is enabled; then the full
/// comparison stands for the masked one. Other eyes enter the total where they carry weight. A drawn
/// refinement has the steps configured for it, else those of the rollout, and always one.
pub proof fn law_eyes_see_together_where_views_cross(
    settings: MaeSettings,
    extras: BatchExtras,
    levels: Seq<PyramidLevel>,
    steps: usize,
    capture: bool,
    plan: MaePlan,
)
    requires
        is_mae_plan(settings, extras, levels, steps, capture, plan),
    ensures
        plan.eyes is Some <==> settings.cross_view_enabled,
        plan.full_is_masked <==> settings.cross_view_enabled,
        plan.eyes matches Some((source, eyes)) ==> {
            &&& eyes >= 1 && (settings.num_eyes >= 1 ==> eyes == settings.num_eyes)
            &&& source == EyeSource::Views <==> extras.views
            &&& source == EyeSource::ImageAndTarget <==> extras.target && !extras.views
        },
        plan.visible <==> !settings.cross_view.visible_weight.is_nan()
            && settings.cross_view.visible_weight.rank() > 0,
        plan.refinement_steps >= 1,
        settings.artifact_rollout_steps >= 1 ==> plan.refinement_steps
            == settings.artifact_rollout_steps,
        settings.artifact_rollout_steps == 0 && steps >= 1 ==> plan.refinement_steps == steps,
{
}

} // verus!
