//! Crops of an image, and rearrangements of its pixels.

use crate::binary32::{
    law_equal_numbers_divide_to_one, quotient_bits, round_to_single, single_quotient,
};
use crate::config::ImageNetSplit;
use crate::frames::FrameBatch;
use crate::rollout::draw_inclusive;
use crate::scalar::Single;
use rand::rngs::StdRng;
use vstd::prelude::*;

verus! {

/// How many channels an image has.
pub const IMAGE_CHANNELS: usize = 3;

/// A rectangle of an image.
#[derive(Clone, Copy, Debug, PartialEq, Eq, Structural)]
pub struct CropParams {
    pub x: u32,
    pub y: u32,
    pub width: u32,
    pub height: u32,
}

/// The rectangle lies in an image of `width` by `height`, and is not empty.
pub open spec fn fits(crop: CropParams, width: int, height: int) -> bool {
    &&& crop.width >= 1
    &&& crop.height >= 1
    &&& crop.x + crop.width <= width
    &&& crop.y + crop.height <= height
}

/// Whether the pixel at `(px, py)` lies in the rectangle.
pub open spec fn covers(crop: CropParams, px: int, py: int) -> bool {
    crop.x <= px < crop.x + crop.width && crop.y <= py < crop.y + crop.height
}

/// The length of the overlap of two intervals.
pub open spec fn overlap_length(a: int, a_len: int, b: int, b_len: int) -> int {
    let from = vstd::math::max(a, b);
    let to = vstd::math::min(a + a_len, b + b_len);
    if to < from {
        0
    } else {
        to - from
    }
}

/// The area that two rectangles share.
pub open spec fn shared_area(a: CropParams, b: CropParams) -> int {
    overlap_length(a.x as int, a.width as int, b.x as int, b.width as int) * overlap_length(
        a.y as int,
        a.height as int,
        b.y as int,
        b.height as int,
    )
}

/// The area of the smaller rectangle, but at least one.
pub open spec fn smaller_area(a: CropParams, b: CropParams) -> int {
    crate::rollout::at_least_one(
        vstd::math::min(a.width * a.height, b.width * b.height),
    )
}

fn overlap_of(a: u32, a_len: u32, b: u32, b_len: u32) -> (r: u32)
    requires
        a + a_len <= u32::MAX,
        b + b_len <= u32::MAX,
    ensures
        r == overlap_length(a as int, a_len as int, b as int, b_len as int),
        r <= a_len,
        r <= b_len,
{
    let from: u32 = if a < b {
        b
    } else {
        a
    };
    let a_end: u32 = a + a_len;
    let b_end: u32 = b + b_len;
    let to: u32 = if a_end < b_end {
        a_end
    } else {
        b_end
    };
    if to < from {
        0
    } else {
        to - from
    }
}

/// The shared area of two crops and the area it is measured against. Their quotient is the overlap
/// ratio.
pub fn crop_overlap_areas(a: &CropParams, b: &CropParams) -> (r: (u32, u32))
    requires
        is_measurable(*a),
        is_measurable(*b),
    ensures
        r.0 == shared_area(*a, *b),
        r.1 == smaller_area(*a, *b),
        r.0 <= a.width * a.height,
        r.0 <= b.width * b.height,
{
    let w: u32 = overlap_of(a.x, a.width, b.x, b.width);
    let h: u32 = overlap_of(a.y, a.height, b.y, b.height);
    assert(w * h <= a.width * a.height && w * h <= b.width * b.height) by (nonlinear_arith)
        requires
            0 <= w <= a.width,
            0 <= h <= a.height,
            w <= b.width,
            h <= b.height,
    ;
    let area_a: u32 = a.width * a.height;
    let area_b: u32 = b.width * b.height;
    let smaller: u32 = if area_a < area_b {
        area_a
    } else {
        area_b
    };
    (
        w * h,
        if smaller < 1 {
            1
        } else {
            smaller
        },
    )
}

/// The bit pattern of the share that two crops have of the smaller one, in binary32 arithmetic.
pub open spec fn overlap_bits(a: CropParams, b: CropParams) -> nat {
    quotient_bits(
        round_to_single(shared_area(a, b) as nat),
        round_to_single(smaller_area(a, b) as nat),
    )
}

/// The share that two crops have of the smaller one.
pub fn crop_overlap_ratio(a: &CropParams, b: &CropParams) -> (ratio: Single)
    requires
        is_measurable(*a),
        is_measurable(*b),
    ensures
        ratio.bits as nat == overlap_bits(*a, *b),
{
    let (shared, smaller) = crop_overlap_areas(a, b);
    single_quotient(shared, smaller)
}

/// A crop overlaps itself fully, whatever its size.
pub proof fn law_a_crop_overlaps_itself_fully(a: CropParams)
    requires
        a.width >= 1,
        a.height >= 1,
        a.width * a.height <= u32::MAX,
    ensures
        overlap_bits(a, a) == Single::one().bits,
{
    let area = (a.width * a.height) as nat;
    law_overlap_is_symmetric(a, a);
    assert(area >= 1) by (nonlinear_arith)
        requires
            area == a.width * a.height,
            a.width >= 1,
            a.height >= 1,
    ;
    law_equal_numbers_divide_to_one(area);
}

/// The position and the size of a crop, in shares of an image's width and height.
pub fn push_crop_normalized(buffer: &mut Vec<Single>, crop: &CropParams, width: u32, height: u32)
    ensures
        final(buffer)@.len() == old(buffer)@.len() + 4,
        final(buffer)@.take(old(buffer)@.len() as int) == old(buffer)@,
        ({
            let w = round_to_single(crate::rollout::at_least_one(width as int) as nat);
            let h = round_to_single(crate::rollout::at_least_one(height as int) as nat);
            let n = old(buffer)@.len() as int;
            &&& final(buffer)@[n].bits as nat == quotient_bits(round_to_single(crop.x as nat), w)
            &&& final(buffer)@[n + 1].bits as nat == quotient_bits(
                round_to_single(crop.y as nat),
                h,
            )
            &&& final(buffer)@[n + 2].bits as nat == quotient_bits(
                round_to_single(crop.width as nat),
                w,
            )
            &&& final(buffer)@[n + 3].bits as nat == quotient_bits(
                round_to_single(crop.height as nat),
                h,
            )
        }),
{
    let w: u32 = if width < 1 {
        1
    } else {
        width
    };
    let h: u32 = if height < 1 {
        1
    } else {
        height
    };
    buffer.push(single_quotient(crop.x, w));
    buffer.push(single_quotient(crop.y, h));
    buffer.push(single_quotient(crop.width, w));
    buffer.push(single_quotient(crop.height, h));
    assert(buffer@.take(old(buffer)@.len() as int) =~= old(buffer)@);
}

/// The shared area does not depend on the order of the crops, a crop shares all of itself with
/// itself, and crops that share no pixel share no area.
pub proof fn law_overlap_is_symmetric(a: CropParams, b: CropParams)
    ensures
        shared_area(a, b) == shared_area(b, a),
        smaller_area(a, b) == smaller_area(b, a),
        shared_area(a, a) == a.width * a.height,
        shared_area(a, b) > 0 ==> exists|px: int, py: int| #[trigger]
            covers(a, px, py) && covers(b, px, py),
{
    if shared_area(a, b) > 0 {
        let w = overlap_length(a.x as int, a.width as int, b.x as int, b.width as int);
        let h = overlap_length(a.y as int, a.height as int, b.y as int, b.height as int);
        assert(w > 0 && h > 0) by (nonlinear_arith)
            requires
                w * h > 0,
                w >= 0,
                h >= 0,
        ;
        let px = vstd::math::max(a.x as int, b.x as int);
        let py = vstd::math::max(a.y as int, b.y as int);
        assert(covers(a, px, py) && covers(b, px, py));
    }
}

/// A crop of the proposed size at a random place; `None` where it does not fit the image.
pub fn place_crop(
    width: u32,
    height: u32,
    crop_width: u32,
    crop_height: u32,
    rng: &mut StdRng,
) -> (crop: Option<CropParams>)
    ensures
        match crop {
            Some(c) => c.width == crop_width && c.height == crop_height && fits(
                c,
                width as int,
                height as int,
            ),
            None => crop_width == 0 || crop_height == 0 || crop_width > width || crop_height
                > height,
        },
        crop is None ==> *final(rng) == *old(rng),
{
    if crop_width > 0 && crop_height > 0 && crop_width <= width && crop_height <= height {
        let x: u32 = draw_inclusive(rng, 0, (width - crop_width) as usize) as u32;
        let y: u32 = draw_inclusive(rng, 0, (height - crop_height) as usize) as u32;
        Some(CropParams { x, y, width: crop_width, height: crop_height })
    } else {
        None
    }
}

/// The largest centred square.
pub open spec fn centre_crop_of(width: u32, height: u32) -> CropParams {
    let side = if width < height {
        width
    } else {
        height
    };
    CropParams {
        x: ((width - side) / 2) as u32,
        y: ((height - side) / 2) as u32,
        width: side,
        height: side,
    }
}

/// The centred square that is taken where no proposal fits.
pub fn centre_crop(width: u32, height: u32) -> (crop: CropParams)
    requires
        width >= 1,
        height >= 1,
    ensures
        fits(crop, width as int, height as int),
        crop == centre_crop_of(width, height),
{
    let side: u32 = if width < height {
        width
    } else {
        height
    };
    CropParams { x: (width - side) / 2, y: (height - side) / 2, width: side, height: side }
}

/// How many sizes are proposed before the centred square is taken.
pub const CROP_ATTEMPTS: usize = 10;

/// What becomes of a proposed crop size.
#[derive(Clone, Copy, Debug, PartialEq, Eq, Structural)]
pub enum CropProposal {
    Taken(CropParams),
    /// Propose another size, for this attempt.
    Again { attempt: usize },
}

/// Places a crop of the proposed size. Where it does not fit, another size is asked for, and the
/// centred square is taken after the last attempt.
pub fn propose_crop(
    attempt: usize,
    width: u32,
    height: u32,
    crop_width: u32,
    crop_height: u32,
    rng: &mut StdRng,
) -> (proposal: CropProposal)
    requires
        width >= 1,
        height >= 1,
        attempt < CROP_ATTEMPTS,
    ensures
        ({
            let placeable = 1 <= crop_width <= width && 1 <= crop_height <= height;
            match proposal {
                CropProposal::Taken(c) => fits(c, width as int, height as int) && if placeable {
                    c.width == crop_width && c.height == crop_height
                } else {
                    attempt + 1 == CROP_ATTEMPTS && c == centre_crop_of(width, height)
                },
                CropProposal::Again { attempt: next } => !placeable && next == attempt + 1 && next
                    < CROP_ATTEMPTS,
            }
        }),
        !(1 <= crop_width <= width && 1 <= crop_height <= height) ==> *final(rng) == *old(rng),
{
    match place_crop(width, height, crop_width, crop_height, rng) {
        Some(crop) => CropProposal::Taken(crop),
        None => if attempt + 1 < CROP_ATTEMPTS {
            CropProposal::Again { attempt: attempt + 1 }
        } else {
            CropProposal::Taken(centre_crop(width, height))
        },
    }
}

/// The corner of a centred square of `image_size` in a resized image.
pub fn centre_offset(extent: u32, image_size: u32) -> (offset: u32)
    ensures
        offset == (if extent < image_size {
            0
        } else {
            (extent - image_size) / 2
        }),
{
    if extent < image_size {
        0
    } else {
        (extent - image_size) / 2
    }
}

/// Whether two crops overlap by at least the given share of the smaller one.
pub open spec fn overlaps_enough(a: CropParams, b: CropParams, min_overlap: Single) -> bool {
    min_overlap.le(Single { bits: overlap_bits(a, b) as u32 })
}

/// Whether `crop` is right for a further view: the first candidate that overlaps the primary crop
/// enough, and the primary crop again where none does.
pub open spec fn is_view_crop(
    crop: CropParams,
    primary: CropParams,
    candidates: Seq<CropParams>,
    min_overlap: Single,
) -> bool {
    ||| exists|k: int|
        0 <= k < candidates.len() && overlaps_enough(primary, #[trigger] candidates[k], min_overlap)
            && crop == candidates[k] && forall|j: int|
            0 <= j < k ==> !overlaps_enough(primary, #[trigger] candidates[j], min_overlap)
    ||| crop == primary && forall|j: int|
        0 <= j < candidates.len() ==> !overlaps_enough(
            primary,
            #[trigger] candidates[j],
            min_overlap,
        )
}

/// The far corner and the area of a crop are 32-bit numbers.
pub open spec fn is_measurable(crop: CropParams) -> bool {
    &&& crop.x + crop.width <= u32::MAX
    &&& crop.y + crop.height <= u32::MAX
    &&& crop.width * crop.height <= u32::MAX
}

/// The crop of a further view: the first candidate whose overlap ratio with the primary crop reaches
/// `min_overlap`.
pub fn select_view_crop(
    primary: CropParams,
    candidates: &[CropParams],
    min_overlap: Single,
) -> (crop: CropParams)
    requires
        is_measurable(primary),
        forall|k: int| 0 <= k < candidates@.len() ==> is_measurable(#[trigger] candidates@[k]),
    ensures
        is_view_crop(crop, primary, candidates@, min_overlap),
{
    let mut k: usize = 0;
    while k < candidates.len()
        invariant
            k <= candidates@.len(),
            is_measurable(primary),
            forall|j: int| 0 <= j < candidates@.len() ==> is_measurable(#[trigger] candidates@[j]),
            forall|j: int|
                0 <= j < k ==> !overlaps_enough(primary, #[trigger] candidates@[j], min_overlap),
        decreases candidates@.len() - k,
    {
        let candidate: CropParams = candidates[k];
        assert(is_measurable(candidates@[k as int]));
        if min_overlap.at_most(crop_overlap_ratio(&primary, &candidate)) {
            return candidate;
        }
        k += 1;
    }
    primary
}

/// The crops of all views of one image, the primary one first. `candidates` holds what was tried for
/// each further view.
pub fn select_view_crops(
    primary: CropParams,
    candidates: &Vec<Vec<CropParams>>,
    min_overlap: Single,
) -> (crops: Vec<CropParams>)
    requires
        is_measurable(primary),
        forall|v: int, k: int|
            0 <= v < candidates@.len() && 0 <= k < candidates@[v]@.len() ==> is_measurable(
                #[trigger] candidates@[v]@[k],
            ),
    ensures
        crops@.len() == candidates@.len() + 1,
        crops@[0] == primary,
        forall|v: int|
            0 <= v < candidates@.len() ==> is_view_crop(
                #[trigger] crops@[v + 1],
                primary,
                candidates@[v]@,
                min_overlap,
            ),
{
    let mut crops: Vec<CropParams> = Vec::new();
    crops.push(primary);
    let mut v: usize = 0;
    while v < candidates.len()
        invariant
            v <= candidates@.len(),
            is_measurable(primary),
            forall|v: int, k: int|
                0 <= v < candidates@.len() && 0 <= k < candidates@[v]@.len() ==> is_measurable(
                    #[trigger] candidates@[v]@[k],
                ),
            crops@.len() == v + 1,
            crops@[0] == primary,
            forall|j: int|
                0 <= j < v ==> is_view_crop(
                    #[trigger] crops@[j + 1],
                    primary,
                    candidates@[j]@,
                    min_overlap,
                ),
        decreases candidates@.len() - v,
    {
        let crop = select_view_crop(primary, candidates[v].as_slice(), min_overlap);
        let ghost before = crops@;
        crops.push(crop);
        v += 1;
        assert forall|j: int| 0 <= j < v implies is_view_crop(
            #[trigger] crops@[j + 1],
            primary,
            candidates@[j]@,
            min_overlap,
        ) by {
            if j < v - 1 {
                assert(crops@[j + 1] == before[j + 1]);
            }
        }
    }
    crops
}

/// The settings of the image augmentations.
#[derive(Clone, Copy, Debug, PartialEq, Eq, Structural)]
pub struct ImageNetAugmentations {
    pub split: ImageNetSplit,
    pub image_size: u32,
    pub resize_short: u32,
    pub min_scale: Single,
    pub max_scale: Single,
    pub min_aspect_ratio: Single,
    pub max_aspect_ratio: Single,
    pub flip_prob: Single,
    pub color_jitter_prob: Single,
    pub brightness: Single,
    pub contrast: Single,
    pub saturation: Single,
    pub hue: Single,
    pub grayscale_prob: Single,
    pub blur_prob: Single,
    pub blur_sigma_min: Single,
    pub blur_sigma_max: Single,
    pub solarize_prob: Single,
    pub solarize_threshold: u8,
}

/// Whether a number differs from one by at most one unit in the last place of numbers above one.
pub open spec fn is_nearly_one(value: Single) -> bool {
    0x3f7f_fffe <= value.bits <= 0x3f80_0001
}

fn nearly_one(value: Single) -> (r: bool)
    ensures
        r == is_nearly_one(value),
{
    0x3f7f_fffe <= value.bits && value.bits <= 0x3f80_0001
}

/// The low 32 bits of a number.
pub open spec fn low_word(n: int) -> u32 {
    (n % 0x1_0000_0000) as u32
}

impl ImageNetAugmentations {
    /// The settings of a split. Of sizes the low 32 bits are kept.
    pub fn new(
        split: ImageNetSplit,
        image_size: usize,
        resize_short: usize,
        min_scale: Single,
        max_scale: Single,
        min_aspect_ratio: Single,
        max_aspect_ratio: Single,
        flip_prob: Single,
        color_jitter_prob: Single,
        brightness: Single,
        contrast: Single,
        saturation: Single,
        hue: Single,
        grayscale_prob: Single,
        blur_prob: Single,
        blur_sigma_min: Single,
        blur_sigma_max: Single,
        solarize_prob: Single,
        solarize_threshold: u8,
    ) -> (augmentations: Self)
        ensures
            augmentations == (ImageNetAugmentations {
                split,
                image_size: low_word(image_size as int),
                resize_short: low_word(resize_short as int),
                min_scale,
                max_scale,
                min_aspect_ratio,
                max_aspect_ratio,
                flip_prob,
                color_jitter_prob,
                brightness,
                contrast,
                saturation,
                hue,
                grayscale_prob,
                blur_prob,
                blur_sigma_min,
                blur_sigma_max,
                solarize_prob,
                solarize_threshold,
            }),
    {
        ImageNetAugmentations {
            split,
            image_size: (image_size as u64 % 0x1_0000_0000) as u32,
            resize_short: (resize_short as u64 % 0x1_0000_0000) as u32,
            min_scale,
            max_scale,
            min_aspect_ratio,
            max_aspect_ratio,
            flip_prob,
            color_jitter_prob,
            brightness,
            contrast,
            saturation,
            hue,
            grayscale_prob,
            blur_prob,
            blur_sigma_min,
            blur_sigma_max,
            solarize_prob,
            solarize_threshold,
        }
    }

    /// Nothing is drawn at random: validation images, and training images with every random change
    /// switched off.
    pub open spec fn deterministic(self) -> bool {
        self.split == ImageNetSplit::Val || {
            &&& self.flip_prob.le(Single::zero())
            &&& self.color_jitter_prob.le(Single::zero())
            &&& self.grayscale_prob.le(Single::zero())
            &&& self.blur_prob.le(Single::zero())
            &&& self.solarize_prob.le(Single::zero())
            &&& is_nearly_one(self.min_scale)
            &&& is_nearly_one(self.max_scale)
            &&& is_nearly_one(self.min_aspect_ratio)
            &&& is_nearly_one(self.max_aspect_ratio)
        }
    }

    /// Whether nothing is drawn at random.
    pub fn is_deterministic(&self) -> (r: bool)
        ensures
            r == self.deterministic(),
    {
        match self.split {
            ImageNetSplit::Val => true,
            ImageNetSplit::Train => self.flip_prob.is_at_most_zero()
                && self.color_jitter_prob.is_at_most_zero()
                && self.grayscale_prob.is_at_most_zero() && self.blur_prob.is_at_most_zero()
                && self.solarize_prob.is_at_most_zero() && nearly_one(self.min_scale)
                && nearly_one(self.max_scale) && nearly_one(self.min_aspect_ratio) && nearly_one(
                self.max_aspect_ratio,
            ),
        }
    }

    /// The side of an augmented image.
    pub fn image_size(&self) -> (n: usize)
        ensures
            n == self.image_size,
    {
        self.image_size as usize
    }
}

/// A channel value after solarisation: values above the threshold are inverted.
pub open spec fn solarized(value: u8, threshold: u8) -> u8 {
    if value > threshold {
        (255 - value) as u8
    } else {
        value
    }
}

/// Inverts every channel value above the threshold.
pub fn solarize(pixels: &mut Vec<u8>, threshold: u8)
    ensures
        final(pixels)@ == old(pixels)@.map_values(|v: u8| solarized(v, threshold)),
{
    let mut i: usize = 0;
    while i < pixels.len()
        invariant
            i <= pixels@.len(),
            pixels@.len() == old(pixels)@.len(),
            forall|j: int|
                0 <= j < i ==> #[trigger] pixels@[j] == solarized(old(pixels)@[j], threshold),
            forall|j: int| i <= j < pixels@.len() ==> #[trigger] pixels@[j] == old(pixels)@[j],
        decreases pixels@.len() - i,
    {
        let value: u8 = pixels[i];
        if value > threshold {
            pixels.set(i, 255 - value);
        }
        i += 1;
    }
    assert(pixels@ =~= old(pixels)@.map_values(|v: u8| solarized(v, threshold)));
}

/// Solarising again with a threshold of at least half the range changes nothing more.
pub proof fn law_solarize_is_stable_above_half(value: u8, threshold: u8)
    requires
        threshold >= 127,
    ensures
        solarized(solarized(value, threshold), threshold) == solarized(value, threshold),
{
}

/// Whether `planes` holds the channels of `pixels` as one plane after the other.
pub open spec fn is_planar(planes: Seq<u8>, pixels: Seq<u8>, count: int) -> bool {
    &&& planes.len() == count * IMAGE_CHANNELS
    &&& forall|c: int, i: int|
        0 <= c < IMAGE_CHANNELS && 0 <= i < count ==> #[trigger] planes[c * count + i]
            == pixels[i * IMAGE_CHANNELS + c]
}

/// Separates interleaved pixels into planes.
pub fn split_planes(pixels: &[u8]) -> (planes: Vec<u8>)
    requires
        pixels@.len() % IMAGE_CHANNELS as nat == 0,
    ensures
        is_planar(planes@, pixels@, pixels@.len() as int / IMAGE_CHANNELS as int),
{
    let total: usize = pixels.len();
    let count: usize = total / IMAGE_CHANNELS;
    let mut planes: Vec<u8> = Vec::new();
    let mut c: usize = 0;
    assert(0 * count == 0) by (nonlinear_arith);
    while c < IMAGE_CHANNELS
        invariant
            c <= IMAGE_CHANNELS,
            count * IMAGE_CHANNELS == pixels@.len(),
            total == pixels@.len(),
            planes@.len() == c * count,
            forall|d: int, i: int|
                0 <= d < c && 0 <= i < count ==> #[trigger] planes@[d * count + i] == pixels@[i
                    * IMAGE_CHANNELS + d],
        decreases IMAGE_CHANNELS - c,
    {
        let mut i: usize = 0;
        while i < count
            invariant
                i <= count,
                c < IMAGE_CHANNELS,
                count * IMAGE_CHANNELS == pixels@.len(),
                total == pixels@.len(),
                planes@.len() == c * count + i,
                forall|d: int, k: int|
                    0 <= d < c && 0 <= k < count ==> #[trigger] planes@[d * count + k] == pixels@[k
                        * IMAGE_CHANNELS + d],
                forall|k: int|
                    0 <= k < i ==> #[trigger] planes@[c * count + k] == pixels@[k * IMAGE_CHANNELS
                        + c],
            decreases count - i,
        {
            let ghost before = planes@;
            planes.push(pixels[i * IMAGE_CHANNELS + c]);
            assert forall|d: int, k: int| 0 <= d < c && 0 <= k < count implies #[trigger] planes@[d
                * count + k] == pixels@[k * IMAGE_CHANNELS + d] by {
                assert(0 <= d * count + k < c * count) by (nonlinear_arith)
                    requires
                        0 <= d < c,
                        0 <= k < count,
                ;
                assert(before[d * count + k] == pixels@[k * IMAGE_CHANNELS + d]);
            }
            i += 1;
        }
        c += 1;
        assert(c * count == (c - 1) * count + count) by (nonlinear_arith);
    }
    assert(c * count == count * IMAGE_CHANNELS) by (nonlinear_arith)
        requires
            c == IMAGE_CHANNELS,
    ;
    planes
}

/// Whether `pixels` interleaves a frame for display: red, green and blue from the first three
/// planes, where a missing plane repeats the one before it and no plane at all is black.
pub open spec fn is_interleaved(pixels: Seq<u8>, frames: &FrameBatch<u8>, b: int) -> bool {
    &&& pixels.len() == frames.height * frames.width * 3
    &&& forall|y: int, x: int, c: int|
        0 <= y < frames.height && 0 <= x < frames.width && 0 <= c < 3 ==> #[trigger] pixels[(y
            * frames.width + x) * 3 + c] == display_value(frames, b, c, y, x)
}

/// The value that channel `c` of a displayed pixel has.
pub open spec fn display_value(frames: &FrameBatch<u8>, b: int, c: int, y: int, x: int) -> u8 {
    if frames.channels == 0 {
        0
    } else if c < frames.channels {
        frames.at(b, c, y, x)
    } else {
        frames.at(b, frames.channels - 1, y, x)
    }
}

fn display_channel(frames: &FrameBatch<u8>, b: usize, c: usize, y: usize, x: usize) -> (value: u8)
    requires
        frames.wf(),
        b < frames.batch,
        y < frames.height,
        x < frames.width,
    ensures
        value == display_value(frames, b as int, c as int, y as int, x as int),
{
    if frames.channels == 0 {
        0
    } else if c < frames.channels {
        frames.get(b, c, y, x)
    } else {
        frames.get(b, frames.channels - 1, y, x)
    }
}

/// The interleaved pixels of frame `b`, for display.
pub fn interleave_frame(frames: &FrameBatch<u8>, b: usize) -> (pixels: Vec<u8>)
    requires
        frames.wf(),
        b < frames.batch,
        frames.height * frames.width * 3 <= usize::MAX,
    ensures
        is_interleaved(pixels@, frames, b as int),
{
    let mut pixels: Vec<u8> = Vec::new();
    let ghost w = frames.width as int;
    let mut y: usize = 0;
    assert(0 * w * 3 == 0) by (nonlinear_arith);
    while y < frames.height
        invariant
            y <= frames.height,
            w == frames.width,
            frames.wf(),
            b < frames.batch,
            pixels@.len() == y * w * 3,
            forall|j: int, i: int, c: int|
                0 <= j < y && 0 <= i < w && 0 <= c < 3 ==> #[trigger] pixels@[(j * w + i) * 3 + c]
                    == display_value(frames, b as int, c, j, i),
        decreases frames.height - y,
    {
        let mut x: usize = 0;
        assert((y * w + 0) * 3 == y * w * 3) by (nonlinear_arith);
        while x < frames.width
            invariant
                x <= frames.width,
                y < frames.height,
                w == frames.width,
                frames.wf(),
                b < frames.batch,
                pixels@.len() == (y * w + x) * 3,
                forall|j: int, i: int, c: int|
                    ((0 <= j < y && 0 <= i < w) || (j == y && 0 <= i < x)) && 0 <= c < 3
                        ==> #[trigger] pixels@[(j * w + i) * 3 + c] == display_value(
                        frames,
                        b as int,
                        c,
                        j,
                        i,
                    ),
            decreases frames.width - x,
        {
            let ghost before = pixels@;
            pixels.push(display_channel(frames, b, 0, y, x));
            pixels.push(display_channel(frames, b, 1, y, x));
            pixels.push(display_channel(frames, b, 2, y, x));
            assert forall|j: int, i: int, c: int|
                ((0 <= j < y && 0 <= i < w) || (j == y && 0 <= i < x + 1)) && 0 <= c
                    < 3 implies #[trigger] pixels@[(j * w + i) * 3 + c] == display_value(
                frames,
                b as int,
                c,
                j,
                i,
            ) by {
                if j == y && i == x {
                } else {
                    assert(0 <= j * w + i < y * w + x) by (nonlinear_arith)
                        requires
                            (0 <= j < y && 0 <= i < w) || (j == y && 0 <= i < x),
                            w >= 0,
                            x >= 0,
                            y >= 0,
                    ;
                    assert(before[(j * w + i) * 3 + c] == display_value(frames, b as int, c, j, i));
                }
            }
            x += 1;
        }
        y += 1;
        assert(((y - 1) * w + w) * 3 == y * w * 3) by (nonlinear_arith);
    }
    assert(y * w * 3 == frames.height * frames.width * 3);
    pixels
}

/// The overlap of two intervals is what both cover: from the later start on, as long as it is.
pub proof fn law_overlaps_are_what_both_cover(a: int, a_len: int, b: int, b_len: int, p: int)
    requires
        a_len >= 0,
        b_len >= 0,
    ensures
        ({
            let from = if a < b {
                b
            } else {
                a
            };
            &&& overlap_length(a, a_len, b, b_len) >= 0
            &&& from <= p < from + overlap_length(a, a_len, b, b_len) <==> a <= p < a + a_len && b
                <= p < b + b_len
        }),
{
}

/// The area that two crops are measured against is that of one of them, and no larger than that of
/// the other; only of an empty one it is one.
pub proof fn law_overlap_is_measured_against_the_smaller_crop(a: CropParams, b: CropParams)
    ensures
        smaller_area(a, b) >= 1,
        a.width >= 1 && a.height >= 1 && b.width >= 1 && b.height >= 1 ==> {
            &&& smaller_area(a, b) <= a.width * a.height
            &&& smaller_area(a, b) <= b.width * b.height
            &&& smaller_area(a, b) == a.width * a.height || smaller_area(a, b) == b.width * b.height
        },
{
    assert(a.width >= 1 && a.height >= 1 ==> a.width * a.height >= 1) by (nonlinear_arith);
    assert(b.width >= 1 && b.height >= 1 ==> b.width * b.height >= 1) by (nonlinear_arith);
}

/// The centred square is as large as the image allows. As much of the image is left on one side of it
/// as on the other, or one pixel more behind it.
pub proof fn law_centred_squares_are_centred(width: u32, height: u32)
    ensures
        ({
            let crop = centre_crop_of(width, height);
            let (right, below) = (width - crop.x - crop.width, height - crop.y - crop.height);
            &&& crop.width == crop.height
            &&& crop.width == width || crop.height == height
            &&& crop.width <= width && crop.height <= height
            &&& right == crop.x || right == crop.x + 1
            &&& below == crop.y || below == crop.y + 1
        }),
{
}

/// A further view is the primary crop or a candidate that overlaps it enough; it is the primary one
/// again only where no other candidate does, and no earlier candidate does than the one taken.
pub proof fn law_further_views_overlap_enough(
    crop: CropParams,
    primary: CropParams,
    candidates: Seq<CropParams>,
    min_overlap: Single,
    j: int,
)
    requires
        is_view_crop(crop, primary, candidates, min_overlap),
    ensures
        crop == primary || (candidates.contains(crop) && overlaps_enough(
            primary,
            crop,
            min_overlap,
        )),
        0 <= j < candidates.len() && overlaps_enough(primary, candidates[j], min_overlap)
            ==> overlaps_enough(primary, crop, min_overlap) && exists|k: int|
            0 <= k <= j && #[trigger] candidates[k] == crop,
        is_view_crop(crop, primary, candidates, min_overlap) && candidates.len() == 0 ==> crop
            == primary,
{
}

/// Nothing is random of validation images. Of training images nothing is, exactly where no change has
/// a positive probability and every scale and aspect ratio is one, up to rounding.
pub proof fn law_training_is_random_where_anything_may_change(settings: ImageNetAugmentations)
    ensures
        settings.split == ImageNetSplit::Val ==> settings.deterministic(),
        settings.split == ImageNetSplit::Train && settings.deterministic() ==> {
            &&& settings.flip_prob.rank() <= 0 && !settings.flip_prob.is_nan()
            &&& settings.color_jitter_prob.rank() <= 0 && !settings.color_jitter_prob.is_nan()
            &&& settings.grayscale_prob.rank() <= 0 && !settings.grayscale_prob.is_nan()
            &&& settings.blur_prob.rank() <= 0 && !settings.blur_prob.is_nan()
            &&& settings.solarize_prob.rank() <= 0 && !settings.solarize_prob.is_nan()
            &&& -2 <= settings.min_scale.rank() - 0x3f80_0000 <= 1
            &&& -2 <= settings.max_scale.rank() - 0x3f80_0000 <= 1
            &&& -2 <= settings.min_aspect_ratio.rank() - 0x3f80_0000 <= 1
            &&& -2 <= settings.max_aspect_ratio.rank() - 0x3f80_0000 <= 1
        },
        settings.flip_prob.bits == 0 && settings.color_jitter_prob.bits == 0
            && settings.grayscale_prob.bits == 0 && settings.blur_prob.bits == 0
            && settings.solarize_prob.bits == 0 && settings.min_scale.bits == 0x3f80_0000
            && settings.max_scale.bits == 0x3f80_0000 && settings.min_aspect_ratio.bits
            == 0x3f80_0000 && settings.max_aspect_ratio.bits == 0x3f80_0000
            ==> settings.deterministic(),
{
}

/// A number nearly one differs from one by no more than the distance of numbers above one.
pub proof fn law_nearly_one_is_within_a_unit(value: Single)
    ensures
        is_nearly_one(value) <==> !value.is_nan() && -2 <= value.rank() - 0x3f80_0000 <= 1,
{
}

/// A value above the threshold and what it becomes make up the whole range; any other one stays.
pub proof fn law_solarizing_inverts_above_the_threshold(value: u8, threshold: u8)
    ensures
        value > threshold ==> value + solarized(value, threshold) == 255,
        value <= threshold ==> solarized(value, threshold) == value,
{
}

/// Each plane holds one channel of all pixels in their order; put together again, the planes give the
/// pixels back.
pub proof fn law_planes_hold_one_channel_each(planes: Seq<u8>, pixels: Seq<u8>, count: int, i: int)
    requires
        is_planar(planes, pixels, count),
        0 <= i < count,
        pixels.len() == 3 * count,
    ensures
        planes.len() == pixels.len(),
        planes[i] == pixels[3 * i],
        planes[count + i] == pixels[3 * i + 1],
        planes[2 * count + i] == pixels[3 * i + 2],
        seq![planes[i], planes[count + i], planes[2 * count + i]] == pixels.subrange(
            3 * i,
            3 * i + 3,
        ),
{
    assert(planes[0 * count + i] == pixels[i * 3]);
    assert(planes[1 * count + i] == pixels[i * 3 + 1]);
    assert(planes[2 * count + i] == pixels[i * 3 + 2]);
    assert(seq![planes[i], planes[count + i], planes[2 * count + i]] =~= pixels.subrange(
        3 * i,
        3 * i + 3,
    ));
}

/// A displayed pixel has red, green and blue from the first three planes, whatever further ones there
/// are. With two planes blue repeats green, with one all three are the same, and with none it is
/// black.
pub proof fn law_pixels_display_the_first_planes(
    pixels: Seq<u8>,
    frames: &FrameBatch<u8>,
    b: int,
    y: int,
    x: int,
)
    requires
        is_interleaved(pixels, frames, b),
        0 <= y < frames.height,
        0 <= x < frames.width,
    ensures
        ({
            let at = (y * frames.width + x) * 3;
            let (red, green, blue) = (pixels[at], pixels[at + 1], pixels[at + 2]);
            &&& frames.channels >= 1 ==> red == frames.at(b, 0, y, x)
            &&& frames.channels >= 2 ==> green == frames.at(b, 1, y, x)
            &&& frames.channels >= 3 ==> blue == frames.at(b, 2, y, x)
            &&& frames.channels == 2 ==> blue == green
            &&& frames.channels == 1 ==> blue == red && green == red
            &&& frames.channels == 0 ==> red == 0 && green == 0 && blue == 0
        }),
{
    assert(pixels[(y * frames.width + x) * 3 + 0] == display_value(frames, b, 0, y, x));
    assert(pixels[(y * frames.width + x) * 3 + 1] == display_value(frames, b, 1, y, x));
    assert(pixels[(y * frames.width + x) * 3 + 2] == display_value(frames, b, 2, y, x));
}

/// Of a size that does not fit, what is kept differs by whole multiples of the range.
pub proof fn law_low_words_keep_small_sizes(n: nat)
    ensures
        n <= u32::MAX ==> low_word(n as int) == n,
        low_word(n as int + 0x1_0000_0000) == low_word(n as int),
{
}

/// A crop fits exactly where it covers a pixel and none outside the image.
pub proof fn law_crops_that_fit_cover_only_the_image(crop: CropParams, width: int, height: int)
    ensures
        fits(crop, width, height) <==> {
            &&& covers(crop, crop.x as int, crop.y as int)
            &&& forall|px: int, py: int| #[trigger]
                covers(crop, px, py) ==> 0 <= px < width && 0 <= py < height
        },
{
    if covers(crop, crop.x as int, crop.y as int) && forall|px: int, py: int| #[trigger]
        covers(crop, px, py) ==> 0 <= px < width && 0 <= py < height {
        assert(covers(crop, crop.x + crop.width - 1, crop.y + crop.height - 1));
    }
}

/// A share that is just reached is enough, and so is any lower one.
pub proof fn law_reached_shares_are_enough(a: CropParams, b: CropParams, asked: Single, less: Single)
    requires
        !asked.is_nan(),
        !less.is_nan(),
        less.rank() <= asked.rank(),
        overlap_bits(a, b) <= 0x7f80_0000,
    ensures
        overlap_bits(a, b) == asked.bits ==> overlaps_enough(a, b, asked),
        overlaps_enough(a, b, asked) <==> asked.rank() <= overlap_bits(a, b),
        overlaps_enough(a, b, asked) ==> overlaps_enough(a, b, less),
{
}

/// The first candidate that overlaps enough is taken.
pub proof fn law_first_fitting_candidate_is_taken(
    crop: CropParams,
    primary: CropParams,
    candidates: Seq<CropParams>,
    min_overlap: Single,
    k: int,
)
    requires
        0 <= k < candidates.len(),
        overlaps_enough(primary, candidates[k], min_overlap),
        forall|j: int|
            0 <= j < k ==> !overlaps_enough(primary, #[trigger] candidates[j], min_overlap),
    ensures
        is_view_crop(crop, primary, candidates, min_overlap) <==> crop == candidates[k],
{
}

/// Without a candidate that overlaps enough the primary crop is taken again.
pub proof fn law_primary_crop_stands_in(
    crop: CropParams,
    primary: CropParams,
    candidates: Seq<CropParams>,
    min_overlap: Single,
)
    requires
        forall|j: int|
            0 <= j < candidates.len() ==> !overlaps_enough(
                primary,
                #[trigger] candidates[j],
                min_overlap,
            ),
    ensures
        is_view_crop(crop, primary, candidates, min_overlap) <==> crop == primary,
{
}

} // verus!
