//! The views of a batch: which of them are compared, and how they are drawn and captioned.

use crate::frames::{build_frames, volume, within, FrameBatch};
use crate::imagenet::ViewFrames;
use crate::numeric::{min_of, square_side};
use crate::rollout::max_one;
use crate::scalar::Single;
use crate::text::{decimal, push_decimal, texts};
use vstd::prelude::*;
use vstd::string::StringExecFns;

verus! {

/// One view of every image of a batch.
#[derive(Clone, Copy, Debug, PartialEq, Eq, Structural)]
pub enum ViewRef {
    /// The image itself.
    Image,
    /// Its target.
    Target,
    /// One of several views without local ones.
    View(usize),
    /// One of the global views.
    Global(usize),
    /// One of the local views.
    Local(usize),
}

/// What views a batch brings: how many of each kind, where it brings that kind at all.
#[derive(Clone, Copy, Debug, PartialEq, Eq, Structural)]
pub struct BatchViews {
    pub has_target: bool,
    pub views: Option<usize>,
    pub global: Option<usize>,
    pub local: Option<usize>,
}

/// The views of a batch that are compared.
#[derive(Debug)]
pub struct CollectedViews {
    pub global: Vec<ViewRef>,
    pub local: Vec<ViewRef>,
    pub all: Vec<ViewRef>,
}

/// The number of views of a kind.
pub open spec fn count_of(views: Option<usize>) -> nat {
    match views {
        Some(n) => n as nat,
        None => 0,
    }
}

/// The first `n` global views.
pub open spec fn global_refs(n: nat) -> Seq<ViewRef> {
    Seq::new(n, |k: int| ViewRef::Global(k as usize))
}

/// The first `n` local views.
pub open spec fn local_refs(n: nat) -> Seq<ViewRef> {
    Seq::new(n, |k: int| ViewRef::Local(k as usize))
}

/// The first `n` views.
pub open spec fn view_refs(n: nat) -> Seq<ViewRef> {
    Seq::new(n, |k: int| ViewRef::View(k as usize))
}

/// The views that stand in where a batch has neither global nor local ones.
pub open spec fn plain_refs(batch: BatchViews) -> Seq<ViewRef> {
    match batch.views {
        Some(n) => view_refs(n as nat),
        None => if batch.has_target {
            seq![ViewRef::Image, ViewRef::Target]
        } else {
            seq![ViewRef::Image]
        },
    }
}

/// Whether a batch brings global or local views.
pub open spec fn has_crops(batch: BatchViews) -> bool {
    count_of(batch.global) + count_of(batch.local) > 0
}

/// The global views that are compared.
pub open spec fn compared_global(batch: BatchViews) -> Seq<ViewRef> {
    if has_crops(batch) {
        global_refs(count_of(batch.global))
    } else {
        plain_refs(batch)
    }
}

/// The local views that are compared.
pub open spec fn compared_local(batch: BatchViews) -> Seq<ViewRef> {
    local_refs(count_of(batch.local))
}

fn push_global(out: &mut Vec<ViewRef>, n: usize)
    ensures
        final(out)@ == old(out)@ + global_refs(n as nat),
{
    let mut k: usize = 0;
    assert(out@ =~= old(out)@ + global_refs(0));
    while k < n
        invariant
            k <= n,
            out@ == old(out)@ + global_refs(k as nat),
        decreases n - k,
    {
        out.push(ViewRef::Global(k));
        k += 1;
        assert(out@ =~= old(out)@ + global_refs(k as nat));
    }
}

fn push_local(out: &mut Vec<ViewRef>, n: usize)
    ensures
        final(out)@ == old(out)@ + local_refs(n as nat),
{
    let mut k: usize = 0;
    assert(out@ =~= old(out)@ + local_refs(0));
    while k < n
        invariant
            k <= n,
            out@ == old(out)@ + local_refs(k as nat),
        decreases n - k,
    {
        out.push(ViewRef::Local(k));
        k += 1;
        assert(out@ =~= old(out)@ + local_refs(k as nat));
    }
}

fn push_plain(out: &mut Vec<ViewRef>, batch: &BatchViews)
    ensures
        final(out)@ == old(out)@ + plain_refs(*batch),
{
    match batch.views {
        Some(n) => {
            let mut k: usize = 0;
            assert(out@ =~= old(out)@ + view_refs(0));
            while k < n
                invariant
                    k <= n,
                    out@ == old(out)@ + view_refs(k as nat),
                decreases n - k,
            {
                out.push(ViewRef::View(k));
                k += 1;
                assert(out@ =~= old(out)@ + view_refs(k as nat));
            }
        },
        None => {
            out.push(ViewRef::Image);
            if batch.has_target {
                out.push(ViewRef::Target);
            }
            assert(out@ =~= old(out)@ + plain_refs(*batch));
        },
    }
}

/// Collects the views of a batch: its global and local ones; without any, its several views; without
/// those, the image with its target where it has one.
pub fn collect_views(batch: &BatchViews) -> (collected: CollectedViews)
    ensures
        collected.global@ == compared_global(*batch),
        collected.local@ == compared_local(*batch),
        collected.all@ == compared_global(*batch) + compared_local(*batch),
{
    let global_count: usize = match batch.global {
        Some(n) => n,
        None => 0,
    };
    let local_count: usize = match batch.local {
        Some(n) => n,
        None => 0,
    };
    let mut global: Vec<ViewRef> = Vec::new();
    let mut local: Vec<ViewRef> = Vec::new();
    let mut all: Vec<ViewRef> = Vec::new();
    push_global(&mut global, global_count);
    push_global(&mut all, global_count);
    push_local(&mut local, local_count);
    push_local(&mut all, local_count);
    assert(all@.len() == global_count + local_count);
    if all.len() == 0 {
        push_plain(&mut global, batch);
        push_plain(&mut all, batch);
    }
    assert(global@ =~= compared_global(*batch));
    assert(local@ =~= compared_local(*batch));
    assert(all@ =~= compared_global(*batch) + compared_local(*batch));
    CollectedViews { global, local, all }
}

/// A batch always has a view to compare, unless it brings an empty list of views.
pub proof fn law_there_is_a_view(batch: BatchViews)
    requires
        batch.views != Some(0usize),
    ensures
        (compared_global(batch) + compared_local(batch)).len() > 0,
{
}

impl CollectedViews {
    /// The views that are drawn: the global ones, and all of them where there are none.
    pub fn artifact_views(&self) -> (views: Vec<ViewRef>)
        ensures
            views@ == (if self.global@.len() > 0 {
                self.global@
            } else {
                self.all@
            }),
    {
        let source = if self.global.len() > 0 {
            &self.global
        } else {
            &self.all
        };
        let mut views: Vec<ViewRef> = Vec::new();
        let mut k: usize = 0;
        while k < source.len()
            invariant
                k <= source@.len(),
                views@ == source@.take(k as int),
            decreases source@.len() - k,
        {
            views.push(source[k]);
            k += 1;
            assert(views@ =~= source@.take(k as int));
        }
        assert(views@ =~= source@);
        views
    }
}

/// Whether `out` holds view `view` of every image.
pub open spec fn is_split_view<T>(out: &FrameBatch<T>, views: &ViewFrames<T>, view: int) -> bool {
    &&& out.wf()
    &&& out.batch * views.views == views.frames.batch
    &&& out.channels == views.frames.channels
    &&& out.height == views.frames.height
    &&& out.width == views.frames.width
    &&& forall|b: int, c: int, y: int, x: int|
        out.in_bounds(b, c, y, x) ==> #[trigger] out.at(b, c, y, x) == views.frames.at(
            b * views.views + view,
            c,
            y,
            x,
        )
}

/// View `view` of every image.
pub fn split_view<T: Copy>(views: &ViewFrames<T>, view: usize) -> (out: FrameBatch<T>)
    requires
        views.frames.wf(),
        view < views.views,
        views.frames.batch as int % views.views as int == 0,
    ensures
        is_split_view(&out, views, view as int),
{
    let n: usize = views.views;
    let batch: usize = views.frames.batch / n;
    let ghost total = views.frames.batch as int;
    let count: usize = views.frames.data.len();
    proof {
        vstd::arithmetic::div_mod::lemma_fundamental_div_mod(total, n as int);
        assert(batch * n == total) by (nonlinear_arith)
            requires
                total == n * batch,
        ;
        let (c, h, w) = (
            views.frames.channels as int,
            views.frames.height as int,
            views.frames.width as int,
        );
        assert(volume(batch as int, c, h, w) <= count) by (nonlinear_arith)
            requires
                volume(batch as int, c, h, w) == batch * c * h * w,
                count == total * c * h * w,
                total == n * batch,
                n >= 1,
                batch >= 0,
                c >= 0,
                h >= 0,
                w >= 0,
        ;
    }
    let out = build_frames(
        batch,
        views.frames.channels,
        views.frames.height,
        views.frames.width,
        |b: usize, c: usize, y: usize, x: usize| -> (r: T)
            requires
                within(
                    b,
                    c,
                    y,
                    x,
                    batch,
                    views.frames.channels,
                    views.frames.height,
                    views.frames.width,
                ),
            ensures
                r == views.frames.at(b * n + view, c as int, y as int, x as int)
            {
                assert(0 <= b * n && b * n + view < batch * n) by (nonlinear_arith)
                    requires
                        b + 1 <= batch,
                        view < n,
                        b >= 0,
                        view >= 0,
                ;
                views.frames.get(b * n + view, c, y, x)
            },
    );
    assert forall|b: int, c: int, y: int, x: int| out.in_bounds(b, c, y, x) implies #[trigger] out.at(
        b,
        c,
        y,
        x,
    ) == views.frames.at(b * n + view, c, y, x) by {
        let (bu, cu, yu, xu) = (b as usize, c as usize, y as usize, x as usize);
        assert(out.at(bu as int, cu as int, yu as int, xu as int) == out.at(b, c, y, x));
    }
    out
}

/// The caption of view `k`.
pub open spec fn view_caption(k: nat) -> Seq<char> {
    "view_"@ + decimal(k)
}

fn caption_of(k: usize) -> (text: String)
    ensures
        text@ == view_caption(k as nat),
{
    let mut text = String::new();
    text.append("view_");
    push_decimal(&mut text, k as u64);
    assert(text@ =~= view_caption(k as nat));
    text
}

/// The captions of `count` views: the given ones as far as they go, numbered ones after that.
pub open spec fn settled_legend(given: Seq<Seq<char>>, count: nat) -> Seq<Seq<char>> {
    Seq::new(
        count,
        |k: int|
            if k < given.len() {
                given[k]
            } else {
                view_caption(k as nat)
            },
    )
}

/// The given captions; none stands for an empty list.
pub open spec fn given_captions(legend: Option<Vec<String>>) -> Seq<Seq<char>> {
    match legend {
        Some(captions) => texts(captions@),
        None => Seq::empty(),
    }
}

/// Brings captions to the number of views; there are none where there is no view.
pub fn normalize_artifact_legend(legend: Option<Vec<String>>, view_count: usize) -> (result: Option<
    Vec<String>,
>)
    ensures
        match result {
            Some(captions) => view_count > 0 && texts(captions@) == settled_legend(
                given_captions(legend),
                view_count as nat,
            ),
            None => view_count == 0,
        },
{
    if view_count == 0 {
        return None;
    }
    let ghost given = given_captions(legend);
    let mut captions: Vec<String> = match legend {
        Some(captions) => captions,
        None => Vec::new(),
    };
    assert(texts(captions@) =~= given);
    if captions.len() > view_count {
        let ghost before = captions@;
        captions.truncate(view_count);
        assert(captions@ =~= before.take(view_count as int));
    }
    let ghost kept = captions@;
    assert(texts(kept) =~= settled_legend(given, kept.len()));
    while captions.len() < view_count
        invariant
            captions@.len() <= view_count,
            kept.len() <= captions@.len(),
            given.len() <= kept.len() || kept.len() == view_count,
            texts(captions@) == settled_legend(given, captions@.len()),
        decreases view_count - captions@.len(),
    {
        let k: usize = captions.len();
        let ghost before = captions@;
        captions.push(caption_of(k));
        assert(texts(captions@) =~= texts(before).push(view_caption(k as nat)));
        assert(settled_legend(given, (k + 1) as nat) =~= settled_legend(given, k as nat).push(
            view_caption(k as nat),
        ));
    }
    Some(captions)
}

/// How a patch mask comes about.
#[derive(Clone, Copy, Debug, PartialEq, Eq, Structural)]
pub enum MaskPlan {
    NothingMasked,
    EverythingMasked,
    /// Drawn anew for every batch.
    Random,
    /// Drawn from a fixed seed.
    Seeded,
}

/// Decides how a mask over `batch` by `tokens` patches comes about.
pub fn plan_patch_mask(batch: usize, tokens: usize, mask_ratio: Single, randomize: bool) -> (plan:
    MaskPlan)
    ensures
        plan == (if batch == 0 || tokens == 0 || mask_ratio.le(Single::zero()) {
            MaskPlan::NothingMasked
        } else if Single::one().le(mask_ratio) {
            MaskPlan::EverythingMasked
        } else if randomize {
            MaskPlan::Random
        } else {
            MaskPlan::Seeded
        }),
{
    if batch == 0 || tokens == 0 || mask_ratio.is_at_most_zero() {
        MaskPlan::NothingMasked
    } else if (Single { bits: crate::scalar::SINGLE_ONE }).at_most(mask_ratio) {
        MaskPlan::EverythingMasked
    } else if randomize {
        MaskPlan::Random
    } else {
        MaskPlan::Seeded
    }
}

/// A principal-component drawing of patch features.
#[derive(Clone, Copy, Debug, PartialEq, Eq, Structural)]
pub struct PcaPlan {
    pub grid: usize,
    pub images: usize,
}

/// Whether patch features can be drawn on a square grid.
pub open spec fn is_pca_plan(
    plan: PcaPlan,
    batch: int,
    tokens: int,
    dim: int,
    image_count: int,
) -> bool {
    &&& batch > 0 && tokens > 0 && dim > 0
    &&& plan.grid * plan.grid == tokens
    &&& plan.images == vstd::math::min(image_count, batch)
    &&& plan.images > 0
}

/// Plans a principal-component drawing; `None` where there is nothing to draw or no square grid.
pub fn plan_pca(batch: usize, tokens: usize, dim: usize, image_count: usize) -> (plan: Option<
    PcaPlan,
>)
    ensures
        match plan {
            Some(p) => is_pca_plan(
                p,
                batch as int,
                tokens as int,
                dim as int,
                image_count as int,
            ),
            None => batch == 0 || tokens == 0 || dim == 0 || image_count == 0 || forall|s: nat|
                #[trigger] (s * s) != tokens as nat,
        },
{
    if batch == 0 || tokens == 0 || dim == 0 {
        return None;
    }
    match square_side(tokens) {
        None => None,
        Some(grid) => {
            let images: usize = min_of(image_count, batch);
            if images == 0 {
                return None;
            }
            Some(PcaPlan { grid, images })
        },
    }
}

/// How patch features are drawn as one map.
#[derive(Clone, Copy, Debug, PartialEq, Eq, Structural)]
pub enum HeatmapPlan {
    /// By their first principal component.
    Component(PcaPlan),
    /// By their norms, on a grid of this side.
    Norms { grid: usize },
}

/// Plans a heat map: by principal component where there is one, else by norms, where the patches
/// form a grid.
pub fn plan_heatmap(batch: usize, tokens: usize, dim: usize, image_count: usize) -> (plan: Option<
    HeatmapPlan,
>)
    ensures
        match plan {
            Some(HeatmapPlan::Component(p)) => is_pca_plan(
                p,
                batch as int,
                tokens as int,
                dim as int,
                image_count as int,
            ),
            Some(HeatmapPlan::Norms { grid }) => batch > 0 && tokens > 0 && (dim == 0
                || image_count == 0) && grid * grid == tokens,
            None => batch == 0 || tokens == 0 || forall|s: nat|
                #[trigger] (s * s) != tokens as nat,
        },
{
    if let Some(p) = plan_pca(batch, tokens, dim, image_count) {
        return Some(HeatmapPlan::Component(p));
    }
    if batch == 0 || tokens == 0 {
        return None;
    }
    match square_side(tokens) {
        Some(grid) => {
            assert((grid as nat) * (grid as nat) == tokens as nat);
            Some(HeatmapPlan::Norms { grid })
        },
        None => None,
    }
}

/// What is drawn of a batch.
#[derive(Debug)]
pub struct ViewArtifactPlan {
    pub image_count: usize,
    pub view_count: usize,
    pub legend: Vec<String>,
}

/// The captions of a drawing: those of its views, then those of its maps.
pub open spec fn drawing_legend(
    given: Seq<Seq<char>>,
    view_count: nat,
    heatmap: bool,
    pca: bool,
) -> Seq<Seq<char>> {
    let views = settled_legend(given, view_count);
    let with_heatmap = if heatmap {
        views.push("heatmap"@)
    } else {
        views
    };
    if pca {
        with_heatmap.push("pca_rgb"@)
    } else {
        with_heatmap
    }
}

/// Plans the drawing of a batch of `batch` images with `views` views. Nothing is drawn where no
/// image or no view is wanted or there.
pub fn plan_view_artifacts(
    max_images: usize,
    max_views: usize,
    views: usize,
    batch: usize,
    heatmap: bool,
    pca: bool,
    legend: Option<Vec<String>>,
) -> (plan: Option<ViewArtifactPlan>)
    ensures
        match plan {
            Some(p) => {
                &&& max_images > 0 && max_views > 0 && views > 0 && batch > 0
                &&& p.image_count == vstd::math::min(max_images as int, batch as int)
                &&& p.view_count == vstd::math::min(max_views as int, views as int)
                &&& texts(p.legend@) == drawing_legend(
                    given_captions(legend),
                    p.view_count as nat,
                    heatmap,
                    pca,
                )
            },
            None => max_images == 0 || max_views == 0 || views == 0 || batch == 0,
        },
{
    if max_images == 0 || max_views == 0 || views == 0 {
        return None;
    }
    let image_count: usize = min_of(max_images, batch);
    if image_count == 0 {
        return None;
    }
    let view_count: usize = max_one(min_of(max_views, views));
    let ghost given = given_captions(legend);
    match normalize_artifact_legend(legend, view_count) {
        None => None,
        Some(settled) => {
            let mut captions = settled;
            let ghost base = captions@;
            if heatmap {
                captions.push("heatmap".to_owned());
                assert(texts(captions@) =~= texts(base).push("heatmap"@));
            }
            let ghost middle = captions@;
            if pca {
                captions.push("pca_rgb".to_owned());
                assert(texts(captions@) =~= texts(middle).push("pca_rgb"@));
            }
            Some(ViewArtifactPlan { image_count, view_count, legend: captions })
        },
    }
}

/// Every crop of a batch is compared, each once: the global ones among the global, the local ones
/// among the local. Plain views, the image and its target stand in only where there is no crop.
pub proof fn law_every_crop_is_compared(batch: BatchViews, k: usize)
    ensures
        ({
            let (global, local) = (compared_global(batch), compared_local(batch));
            let globals = if batch.global is Some {
                batch.global->0
            } else {
                0
            };
            let locals = if batch.local is Some {
                batch.local->0
            } else {
                0
            };
            &&& local.len() == locals && (k < locals ==> local[k as int] == ViewRef::Local(k))
            &&& globals + locals > 0 ==> global.len() == globals && (k < globals
                ==> global[k as int] == ViewRef::Global(k))
            &&& globals + locals == 0 && batch.views is Some ==> global.len() == batch.views->0 && (k
                < batch.views->0 ==> global[k as int] == ViewRef::View(k))
            &&& globals + locals == 0 && batch.views is None ==> {
                &&& global[0] == ViewRef::Image
                &&& batch.has_target ==> global.len() == 2 && global[1] == ViewRef::Target
                &&& !batch.has_target ==> global.len() == 1
            }
        }),
{
}

/// The views of an image stand together: view `view` of image `b` is the frame that comes `view`
/// frames after the first one of that image. Each frame is a view of one image.
pub proof fn law_views_of_an_image_stand_together<T>(
    out: &FrameBatch<T>,
    views: &ViewFrames<T>,
    view: int,
    first: int,
    b: int,
    c: int,
    y: int,
    x: int,
)
    requires
        is_split_view(out, views, view),
        0 <= view < views.views,
        first == b * views.views,
        out.in_bounds(b, c, y, x),
    ensures
        out.at(b, c, y, x) == views.frames.at(first + view, c, y, x),
        views.frames.in_bounds(first + view, c, y, x),
{
    let (n, v) = (out.batch as int, views.views as int);
    assert(0 <= b * v && b * v + v <= n * v) by (nonlinear_arith)
        requires
            0 <= b < n,
            v >= 0,
    ;
}

/// There is a caption for each view. Given captions come first and stay as they are; those that are
/// missing are numbered by the view.
pub proof fn law_given_captions_stay(given: Seq<Seq<char>>, count: nat, k: int)
    requires
        0 <= k < count,
    ensures
        settled_legend(given, count).len() == count,
        k < given.len() ==> settled_legend(given, count)[k] == given[k],
        k >= given.len() ==> settled_legend(given, count)[k] == "view_"@ + decimal(k as nat),
        given.len() == count ==> settled_legend(given, count) == given,
{
    if given.len() == count {
        assert(settled_legend(given, count) =~= given);
    }
}

/// A drawing has one more caption for each map, behind those of its views, the heat map first.
pub proof fn law_maps_are_captioned_behind_the_views(given: Seq<Seq<char>>, view_count: nat)
    ensures
        drawing_legend(given, view_count, false, false) == settled_legend(given, view_count),
        drawing_legend(given, view_count, true, false) == settled_legend(given, view_count)
            + seq!["heatmap"@],
        drawing_legend(given, view_count, false, true) == settled_legend(given, view_count)
            + seq!["pca_rgb"@],
        drawing_legend(given, view_count, true, true) == settled_legend(given, view_count)
            + seq!["heatmap"@, "pca_rgb"@],
{
    let views = settled_legend(given, view_count);
    assert(views.push("heatmap"@) =~= views + seq!["heatmap"@]);
    assert(views.push("pca_rgb"@) =~= views + seq!["pca_rgb"@]);
    assert(views.push("heatmap"@).push("pca_rgb"@) =~= views + seq!["heatmap"@, "pca_rgb"@]);
}

/// A drawing of patch features shows images of the batch on a square grid, no more than there are and
/// no more than wanted.
pub proof fn law_pca_drawings_fit_the_batch(
    plan: PcaPlan,
    batch: int,
    tokens: int,
    dim: int,
    image_count: int,
)
    requires
        is_pca_plan(plan, batch, tokens, dim, image_count),
    ensures
        1 <= plan.images <= batch,
        plan.images <= image_count,
        plan.images == batch || plan.images == image_count,
        plan.grid >= 1,
        plan.grid * plan.grid == tokens,
        dim >= 1,
{
    if plan.grid == 0 {
        assert(plan.grid * plan.grid == 0);
    }
}

} // verus!
