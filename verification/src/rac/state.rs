//! The shared image-state space: matching channels and moving latents into it and back.

use crate::frames::{
    build_frames, lemma_frames_equal, volume, within, FrameBatch,
};
use crate::numeric::{ceil_div, ceil_div_of};
use crate::rollout::{at_least_one, max_one};
use vstd::arithmetic::div_mod::{lemma_fundamental_div_mod, lemma_fundamental_div_mod_converse};
use vstd::prelude::*;

verus! {

/// How a teacher latent is laid out in the image-state space.
#[derive(Clone, Copy, Debug, PartialEq, Eq, Structural)]
pub enum VisionRacStateMappingKind {
    ExpandNearest,
    CenteredSubpixel,
}

/// Whether `out` is `input` brought to `channels` planes: the first ones kept, missing ones filled
/// with `pad`.
pub open spec fn is_channel_aligned<T>(
    out: &FrameBatch<T>,
    input: &FrameBatch<T>,
    channels: int,
    pad: T,
) -> bool {
    &&& out.wf()
    &&& out.batch == input.batch
    &&& out.channels == channels
    &&& out.height == input.height
    &&& out.width == input.width
    &&& forall|b: int, c: int, y: int, x: int|
        out.in_bounds(b, c, y, x) ==> #[trigger] out.at(b, c, y, x) == (if c < input.channels {
            input.at(b, c, y, x)
        } else {
            pad
        })
}

/// Brings a batch to `state_channels` planes (at least one).
pub fn align_channels<T: Copy>(input: &FrameBatch<T>, state_channels: usize, pad: T) -> (out:
    FrameBatch<T>)
    requires
        input.wf(),
        volume(
            input.batch as int,
            at_least_one(state_channels as int),
            input.height as int,
            input.width as int,
        ) <= usize::MAX,
    ensures
        is_channel_aligned(&out, input, at_least_one(state_channels as int), pad),
{
    let channels: usize = max_one(state_channels);
    let out = build_frames(
        input.batch,
        channels,
        input.height,
        input.width,
        |b: usize, c: usize, y: usize, x: usize| -> (r: T)
            requires
                within(b, c, y, x, input.batch, channels, input.height, input.width),
            ensures
                r == (if c < input.channels {
                    input.at(b as int, c as int, y as int, x as int)
                } else {
                    pad
                })
            {
                if c < input.channels {
                    input.get(b, c, y, x)
                } else {
                    pad
                }
            },
    );
    assert forall|b: int, c: int, y: int, x: int| out.in_bounds(b, c, y, x) implies #[trigger] out.at(
        b,
        c,
        y,
        x,
    ) == (if c < input.channels {
        input.at(b, c, y, x)
    } else {
        pad
    }) by {
        let (bu, cu, yu, xu) = (b as usize, c as usize, y as usize, x as usize);
        assert(out.at(bu as int, cu as int, yu as int, xu as int) == out.at(b, c, y, x));
    }
    out
}

/// Aligning to the channel count that a batch already has changes nothing.
pub proof fn law_alignment_is_stable<T>(input: &FrameBatch<T>, out: &FrameBatch<T>, pad: T)
    requires
        input.wf(),
        is_channel_aligned(out, input, input.channels as int, pad),
    ensures
        out.same_shape(input),
        out.data@ == input.data@,
{
    lemma_frames_equal(out, input);
}

/// Padding to more channels and cutting back to the original count gives the batch back.
pub proof fn law_cutting_undoes_padding<T>(
    input: &FrameBatch<T>,
    padded: &FrameBatch<T>,
    back: &FrameBatch<T>,
    channels: int,
    pad: T,
)
    requires
        input.wf(),
        channels >= input.channels,
        is_channel_aligned(padded, input, channels, pad),
        is_channel_aligned(back, padded, input.channels as int, pad),
    ensures
        back.same_shape(input),
        back.data@ == input.data@,
{
    assert forall|b: int, c: int, y: int, x: int| back.in_bounds(b, c, y, x) implies #[trigger] back.at(
        b,
        c,
        y,
        x,
    ) == input.at(b, c, y, x) by {
        assert(padded.in_bounds(b, c, y, x));
        assert(padded.at(b, c, y, x) == input.at(b, c, y, x));
    }
    lemma_frames_equal(back, input);
}

/// How many leading planes make up the visible image: at most three.
pub fn rgb_channels(channels: usize) -> (r: usize)
    ensures
        r == vstd::math::min(channels as int, 3),
{
    if channels < 3 {
        channels
    } else {
        3
    }
}

/// The first three planes of a batch, or all where it has fewer.
pub fn rgb_state<T: Copy>(input: &FrameBatch<T>) -> (out: FrameBatch<T>)
    requires
        input.wf(),
    ensures
        out.wf(),
        out.batch == input.batch,
        out.channels == vstd::math::min(input.channels as int, 3),
        out.height == input.height,
        out.width == input.width,
        forall|b: int, c: int, y: int, x: int|
            out.in_bounds(b, c, y, x) ==> #[trigger] out.at(b, c, y, x) == input.at(b, c, y, x),
{
    let channels: usize = rgb_channels(input.channels);
    let total: usize = input.data.len();
    assert(volume(
        input.batch as int,
        channels as int,
        input.height as int,
        input.width as int,
    ) <= total) by (nonlinear_arith)
        requires
            total == input.batch * input.channels * input.height * input.width,
            volume(input.batch as int, channels as int, input.height as int, input.width as int)
                == input.batch * channels * input.height * input.width,
            channels <= input.channels,
            input.batch >= 0,
            input.height >= 0,
            input.width >= 0,
    ;
    let out = build_frames(
        input.batch,
        channels,
        input.height,
        input.width,
        |b: usize, c: usize, y: usize, x: usize| -> (r: T)
            requires
                within(b, c, y, x, input.batch, channels, input.height, input.width),
            ensures
                r == input.at(b as int, c as int, y as int, x as int)
            { input.get(b, c, y, x) },
    );
    assert forall|b: int, c: int, y: int, x: int| out.in_bounds(b, c, y, x) implies #[trigger] out.at(
        b,
        c,
        y,
        x,
    ) == input.at(b, c, y, x) by {
        let (bu, cu, yu, xu) = (b as usize, c as usize, y as usize, x as usize);
        assert(out.at(bu as int, cu as int, yu as int, xu as int) == out.at(b, c, y, x));
    }
    out
}

/// How a frame of one size goes over into the other.
#[derive(Clone, Copy, Debug, PartialEq, Eq, Structural)]
pub enum SubpixelPlan {
    /// The sizes agree.
    Identity,
    /// One latent pixel per square tile of this side.
    Tiles(usize),
    /// No square tiling: the sizes have to be interpolated.
    Resample,
}

/// The plan for a latent of `latent_h` by `latent_w` in a state of `height` by `width`.
pub open spec fn subpixel_plan_of(latent_h: int, latent_w: int, height: int, width: int) -> SubpixelPlan {
    if latent_h == height && latent_w == width {
        SubpixelPlan::Identity
    } else if height % latent_h != 0 || width % latent_w != 0 {
        SubpixelPlan::Resample
    } else if height / latent_h != width / latent_w || height / latent_h == 0 {
        SubpixelPlan::Resample
    } else {
        SubpixelPlan::Tiles((height / latent_h) as usize)
    }
}

/// Decides whether square tiles of one side carry a latent of this size.
pub fn subpixel_plan(latent_h: usize, latent_w: usize, height: usize, width: usize) -> (plan:
    SubpixelPlan)
    requires
        (latent_h > 0 && latent_w > 0) || (latent_h == height && latent_w == width),
    ensures
        plan == subpixel_plan_of(latent_h as int, latent_w as int, height as int, width as int),
        match plan {
            SubpixelPlan::Identity => latent_h == height && latent_w == width,
            SubpixelPlan::Tiles(stride) => stride >= 1 && height == latent_h * stride && width
                == latent_w * stride,
            SubpixelPlan::Resample => true,
        },
{
    if latent_h == height && latent_w == width {
        return SubpixelPlan::Identity;
    }
    if height % latent_h != 0 || width % latent_w != 0 {
        return SubpixelPlan::Resample;
    }
    let stride_h: usize = height / latent_h;
    let stride_w: usize = width / latent_w;
    if stride_h != stride_w || stride_h == 0 {
        return SubpixelPlan::Resample;
    }
    proof {
        lemma_fundamental_div_mod(height as int, latent_h as int);
        lemma_fundamental_div_mod(width as int, latent_w as int);
    }
    SubpixelPlan::Tiles(stride_h)
}

/// Whether `out` holds each latent pixel at the centre of its own `stride` by `stride` tile, and
/// `pad` everywhere else.
pub open spec fn is_centered_state<T>(
    out: &FrameBatch<T>,
    latent: &FrameBatch<T>,
    stride: int,
    pad: T,
) -> bool {
    &&& out.wf()
    &&& out.batch == latent.batch
    &&& out.channels == latent.channels
    &&& out.height == latent.height * stride
    &&& out.width == latent.width * stride
    &&& forall|b: int, c: int, y: int, x: int|
        out.in_bounds(b, c, y, x) ==> #[trigger] out.at(b, c, y, x) == (if y % stride == stride / 2
            && x % stride == stride / 2 {
            latent.at(b, c, y / stride, x / stride)
        } else {
            pad
        })
}

/// Whether `out` holds the centre pixel of each `stride` by `stride` tile of `state`.
pub open spec fn is_centre_of_tiles<T>(
    out: &FrameBatch<T>,
    state: &FrameBatch<T>,
    stride: int,
) -> bool {
    &&& out.wf()
    &&& out.batch == state.batch
    &&& out.channels == state.channels
    &&& out.height * stride == state.height
    &&& out.width * stride == state.width
    &&& forall|b: int, c: int, y: int, x: int|
        out.in_bounds(b, c, y, x) ==> #[trigger] out.at(b, c, y, x) == state.at(
            b,
            c,
            y * stride + stride / 2,
            x * stride + stride / 2,
        )
}

fn spread_to_centres<T: Copy>(latent: &FrameBatch<T>, stride: usize, pad: T) -> (out: FrameBatch<T>)
    requires
        latent.wf(),
        stride >= 1,
        latent.height * stride <= usize::MAX,
        latent.width * stride <= usize::MAX,
        volume(
            latent.batch as int,
            latent.channels as int,
            latent.height * stride,
            latent.width * stride,
        ) <= usize::MAX,
    ensures
        is_centered_state(&out, latent, stride as int, pad),
{
    let ghost s = stride as int;
    let half: usize = stride / 2;
    let height: usize = latent.height * stride;
    let width: usize = latent.width * stride;
    let out = build_frames(
        latent.batch,
        latent.channels,
        height,
        width,
        |b: usize, c: usize, y: usize, x: usize| -> (r: T)
            requires
                within(b, c, y, x, latent.batch, latent.channels, height, width),
            ensures
                r == (if y as int % s == s / 2 && x as int % s == s / 2 {
                    latent.at(b as int, c as int, y as int / s, x as int / s)
                } else {
                    pad
                })
            {
                if y % stride == half && x % stride == half {
                    assert(y as int / s < latent.height && x as int / s < latent.width)
                        by (nonlinear_arith)
                        requires
                            0 <= y < latent.height * s,
                            0 <= x < latent.width * s,
                            s >= 1,
                    ;
                    latent.get(b, c, y / stride, x / stride)
                } else {
                    pad
                }
            },
    );
    assert forall|b: int, c: int, y: int, x: int| out.in_bounds(b, c, y, x) implies #[trigger] out.at(
        b,
        c,
        y,
        x,
    ) == (if y % s == s / 2 && x % s == s / 2 {
        latent.at(b, c, y / s, x / s)
    } else {
        pad
    }) by {
        let (bu, cu, yu, xu) = (b as usize, c as usize, y as usize, x as usize);
        assert(out.at(bu as int, cu as int, yu as int, xu as int) == out.at(b, c, y, x));
    }
    out
}

proof fn lemma_centre_in_range(k: int, n: int, s: int)
    requires
        0 <= k < n,
        s >= 1,
    ensures
        0 <= k * s,
        0 <= s / 2 < s,
        0 <= k * s + s / 2 < n * s,
        (k * s + s / 2) % s == s / 2,
        (k * s + s / 2) / s == k,
{
    let h = s / 2;
    assert(0 <= k * s && k * s + h < n * s) by (nonlinear_arith)
        requires
            0 <= k < n,
            0 <= h < s,
    ;
    lemma_fundamental_div_mod_converse(k * s + h, s, k, h);
}

fn pick_centres<T: Copy>(
    state: &FrameBatch<T>,
    latent_h: usize,
    latent_w: usize,
    stride: usize,
) -> (out: FrameBatch<T>)
    requires
        state.wf(),
        stride >= 1,
        state.height == latent_h * stride,
        state.width == latent_w * stride,
    ensures
        is_centre_of_tiles(&out, state, stride as int),
        out.height == latent_h,
        out.width == latent_w,
{
    let ghost s = stride as int;
    let half: usize = stride / 2;
    let total: usize = state.data.len();
    assert(volume(
        state.batch as int,
        state.channels as int,
        latent_h as int,
        latent_w as int,
    ) <= total) by (nonlinear_arith)
        requires
            total == state.batch * state.channels * state.height * state.width,
            volume(state.batch as int, state.channels as int, latent_h as int, latent_w as int)
                == state.batch * state.channels * latent_h * latent_w,
            state.height == latent_h * stride,
            state.width == latent_w * stride,
            stride >= 1,
            state.batch >= 0,
            state.channels >= 0,
            latent_h >= 0,
            latent_w >= 0,
    ;
    let out = build_frames(
        state.batch,
        state.channels,
        latent_h,
        latent_w,
        |b: usize, c: usize, y: usize, x: usize| -> (r: T)
            requires
                within(b, c, y, x, state.batch, state.channels, latent_h, latent_w),
            ensures
                r == state.at(b as int, c as int, y * s + s / 2, x * s + s / 2)
            {
                proof {
                    lemma_centre_in_range(y as int, latent_h as int, s);
                    lemma_centre_in_range(x as int, latent_w as int, s);
                }
                state.get(b, c, y * stride + half, x * stride + half)
            },
    );
    assert forall|b: int, c: int, y: int, x: int| out.in_bounds(b, c, y, x) implies #[trigger] out.at(
        b,
        c,
        y,
        x,
    ) == state.at(b, c, y * s + s / 2, x * s + s / 2) by {
        let (bu, cu, yu, xu) = (b as usize, c as usize, y as usize, x as usize);
        assert(out.at(bu as int, cu as int, yu as int, xu as int) == out.at(b, c, y, x));
    }
    out
}

/// A copy of a batch.
pub fn copy_frames<T: Copy>(input: &FrameBatch<T>) -> (out: FrameBatch<T>)
    requires
        input.wf(),
    ensures
        out.wf(),
        out.same_shape(input),
        out.data@ == input.data@,
{
    let total: usize = input.data.len();
    let out = build_frames(
        input.batch,
        input.channels,
        input.height,
        input.width,
        |b: usize, c: usize, y: usize, x: usize| -> (r: T)
            requires
                within(b, c, y, x, input.batch, input.channels, input.height, input.width),
            ensures
                r == input.at(b as int, c as int, y as int, x as int)
            { input.get(b, c, y, x) },
    );
    assert forall|b: int, c: int, y: int, x: int| out.in_bounds(b, c, y, x) implies #[trigger] out.at(
        b,
        c,
        y,
        x,
    ) == input.at(b, c, y, x) by {
        let (bu, cu, yu, xu) = (b as usize, c as usize, y as usize, x as usize);
        assert(out.at(bu as int, cu as int, yu as int, xu as int) == out.at(b, c, y, x));
    }
    proof {
        lemma_frames_equal(&out, input);
    }
    out
}

/// Lays a latent out in a state of `height` by `width`, each pixel at the centre of its tile.
/// `None` where no square tiling exists and the latent has to be interpolated.
pub fn latent_to_centered_subpixel_state<T: Copy>(
    latent: &FrameBatch<T>,
    height: usize,
    width: usize,
    pad: T,
) -> (out: Option<FrameBatch<T>>)
    requires
        latent.wf(),
        (latent.height > 0 && latent.width > 0) || (latent.height == height && latent.width
            == width),
        volume(latent.batch as int, latent.channels as int, height as int, width as int)
            <= usize::MAX,
    ensures
        match subpixel_plan_of(
            latent.height as int,
            latent.width as int,
            height as int,
            width as int,
        ) {
            SubpixelPlan::Identity => out is Some && out->0.wf() && out->0.same_shape(latent)
                && out->0.data@ == latent.data@,
            SubpixelPlan::Tiles(stride) => out is Some && out->0.height == height && out->0.width
                == width && is_centered_state(&out->0, latent, stride as int, pad),
            SubpixelPlan::Resample => out is None,
        },
{
    match subpixel_plan(latent.height, latent.width, height, width) {
        SubpixelPlan::Identity => Some(copy_frames(latent)),
        SubpixelPlan::Tiles(stride) => Some(spread_to_centres(latent, stride, pad)),
        SubpixelPlan::Resample => None,
    }
}

/// Reads a latent of `latent_h` by `latent_w` off the tile centres of a state. `None` where no
/// square tiling exists and the state has to be pooled.
pub fn centered_subpixel_state_to_latent<T: Copy>(
    state: &FrameBatch<T>,
    latent_h: usize,
    latent_w: usize,
) -> (out: Option<FrameBatch<T>>)
    requires
        state.wf(),
        (latent_h > 0 && latent_w > 0) || (latent_h == state.height && latent_w == state.width),
    ensures
        match subpixel_plan_of(
            latent_h as int,
            latent_w as int,
            state.height as int,
            state.width as int,
        ) {
            SubpixelPlan::Identity => out is Some && out->0.wf() && out->0.same_shape(state)
                && out->0.data@ == state.data@,
            SubpixelPlan::Tiles(stride) => out is Some && out->0.height == latent_h && out->0.width
                == latent_w && is_centre_of_tiles(&out->0, state, stride as int),
            SubpixelPlan::Resample => out is None,
        },
{
    match subpixel_plan(latent_h, latent_w, state.height, state.width) {
        SubpixelPlan::Identity => Some(copy_frames(state)),
        SubpixelPlan::Tiles(stride) => Some(pick_centres(state, latent_h, latent_w, stride)),
        SubpixelPlan::Resample => None,
    }
}

/// Reading the tile centres gives back the latent that was laid out there, whatever the padding.
pub proof fn law_centres_give_the_latent_back<T>(
    latent: &FrameBatch<T>,
    state: &FrameBatch<T>,
    back: &FrameBatch<T>,
    stride: int,
    pad: T,
)
    requires
        latent.wf(),
        stride >= 1,
        is_centered_state(state, latent, stride, pad),
        is_centre_of_tiles(back, state, stride),
    ensures
        back.same_shape(latent),
        back.data@ == latent.data@,
{
    assert(back.height == latent.height && back.width == latent.width) by (nonlinear_arith)
        requires
            back.height * stride == latent.height * stride,
            back.width * stride == latent.width * stride,
            stride >= 1,
    ;
    assert forall|b: int, c: int, y: int, x: int| back.in_bounds(b, c, y, x) implies #[trigger] back.at(
        b,
        c,
        y,
        x,
    ) == latent.at(b, c, y, x) by {
        lemma_centre_in_range(y, latent.height as int, stride);
        lemma_centre_in_range(x, latent.width as int, stride);
        let yy = y * stride + stride / 2;
        let xx = x * stride + stride / 2;
        assert(state.in_bounds(b, c, yy, xx));
        assert(state.at(b, c, yy, xx) == latent.at(b, c, y, x));
    }
    lemma_frames_equal(back, latent);
}

/// The side of a latent along an axis of `extent` pixels.
pub open spec fn latent_extent_of(extent: int, downsample: int) -> int {
    at_least_one(ceil_div_of(extent, at_least_one(downsample)))
}

/// The side of a pooled latent: the extent divided by the downsampling, rounded up, at least one.
pub fn latent_extent(extent: usize, latent_downsample: usize) -> (r: usize)
    ensures
        r == latent_extent_of(extent as int, latent_downsample as int),
{
    max_one(ceil_div(extent, max_one(latent_downsample)))
}

/// Square tiles carry a latent exactly where some whole number of pixels per side takes both its
/// sides to those of the state.
pub proof fn law_tiles_are_square_and_fill_the_state(
    latent_h: usize,
    latent_w: usize,
    height: usize,
    width: usize,
    stride: usize,
)
    requires
        latent_h > 0,
        latent_w > 0,
    ensures
        ({
            let plan = subpixel_plan_of(
                latent_h as int,
                latent_w as int,
                height as int,
                width as int,
            );
            let same = latent_h == height && latent_w == width;
            &&& plan == SubpixelPlan::Identity <==> same
            &&& plan == SubpixelPlan::Tiles(stride) <==> !same && stride >= 1 && latent_h * stride
                == height && latent_w * stride == width
            &&& plan == SubpixelPlan::Resample ==> stride >= 1 ==> latent_h * stride != height
                || latent_w * stride != width
        }),
{
    let (s, lh, lw) = (stride as int, latent_h as int, latent_w as int);
    vstd::arithmetic::mul::lemma_mul_is_commutative(s, lh);
    vstd::arithmetic::mul::lemma_mul_is_commutative(s, lw);
    if lh * s == height && lw * s == width {
        lemma_fundamental_div_mod_converse(height as int, lh, s, 0);
        lemma_fundamental_div_mod_converse(width as int, lw, s, 0);
        if latent_h == height {
            assert(s == 1) by (nonlinear_arith)
                requires
                    lh * s == lh,
                    lh > 0,
            ;
        }
    }
    lemma_fundamental_div_mod(height as int, lh);
    lemma_fundamental_div_mod(width as int, lw);
    vstd::arithmetic::div_mod::lemma_div_pos_is_pos(height as int, lh);
    vstd::arithmetic::div_mod::lemma_div_is_ordered_by_denominator(height as int, 1, lh);
}

/// A pooled latent covers the image, and one pixel fewer along an axis would not.
pub proof fn law_pooled_latent_covers_the_image(extent: int, downsample: int)
    requires
        extent >= 0,
        downsample >= 0,
    ensures
        ({
            let side = latent_extent_of(extent, downsample);
            let step = if downsample == 0 {
                1
            } else {
                downsample
            };
            &&& side >= 1
            &&& side * step >= extent
            &&& side == 1 || (side - 1) * step < extent
        }),
{
    let step = if downsample == 0 {
        1
    } else {
        downsample
    };
    crate::numeric::law_ceil_div_is_tight(extent, step);
    let side = ceil_div_of(extent, step);
    if extent == 0 {
        lemma_fundamental_div_mod_converse(extent + step - 1, step, 0, step - 1);
    }
    assert(side < 1 ==> side * step <= 0) by (nonlinear_arith)
        requires
            step >= 1,
    ;
}

/// The leading planes keep their place, and what is added behind them is padding.
pub proof fn law_alignment_keeps_the_leading_planes<T>(
    out: &FrameBatch<T>,
    input: &FrameBatch<T>,
    channels: int,
    pad: T,
    b: int,
    c: int,
    y: int,
    x: int,
)
    requires
        is_channel_aligned(out, input, channels, pad),
        out.in_bounds(b, c, y, x),
    ensures
        input.in_bounds(b, c, y, x) ==> out.at(b, c, y, x) == input.at(b, c, y, x),
        c >= input.channels ==> out.at(b, c, y, x) == pad,
{
}

/// A latent pixel stands in the middle of its tile, where its tile stands among the tiles: with an
/// odd side as many pixels lie before it as behind it, with an even side one more. All the others
/// are padding.
pub proof fn law_latent_stands_in_the_middle<T>(
    latent: &FrameBatch<T>,
    state: &FrameBatch<T>,
    stride: int,
    pad: T,
    b: int,
    c: int,
    y: int,
    x: int,
    i: int,
    j: int,
)
    requires
        stride >= 1,
        is_centered_state(state, latent, stride, pad),
        latent.in_bounds(b, c, y, x),
        0 <= i < stride,
        0 <= j < stride,
    ensures
        state.in_bounds(b, c, y * stride + i, x * stride + j),
        (i == j && (2 * i == stride || 2 * i + 1 == stride)) ==> state.at(
            b,
            c,
            y * stride + i,
            x * stride + j,
        ) == latent.at(b, c, y, x),
        !(i == j && (2 * i == stride || 2 * i + 1 == stride)) ==> state.at(
            b,
            c,
            y * stride + i,
            x * stride + j,
        ) == pad,
{
    lemma_fundamental_div_mod_converse(y * stride + i, stride, y, i);
    lemma_fundamental_div_mod_converse(x * stride + j, stride, x, j);
    lemma_tile_inside(y, i, latent.height as int, stride);
    lemma_tile_inside(x, j, latent.width as int, stride);
    let _ = state.at(b, c, y * stride + i, x * stride + j);
}

/// A tile is read in its middle: with an odd side as many pixels lie before the one that is read as
/// behind it, with an even side one more.
pub proof fn law_tiles_are_read_in_the_middle<T>(
    out: &FrameBatch<T>,
    state: &FrameBatch<T>,
    stride: int,
    b: int,
    c: int,
    y: int,
    x: int,
    i: int,
)
    requires
        stride >= 1,
        is_centre_of_tiles(out, state, stride),
        out.in_bounds(b, c, y, x),
        2 * i == stride || 2 * i + 1 == stride,
    ensures
        out.at(b, c, y, x) == state.at(b, c, y * stride + i, x * stride + i),
{
}

proof fn lemma_tile_inside(y: int, i: int, n: int, stride: int)
    requires
        0 <= y < n,
        0 <= i < stride,
    ensures
        0 <= y * stride + i < n * stride,
{
    assert(0 <= y * stride && (y + 1) * stride <= n * stride && (y + 1) * stride == y * stride
        + stride) by (nonlinear_arith)
        requires
            0 <= y < n,
            stride > 0,
    ;
}

} // verus!
