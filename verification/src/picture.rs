//! Decoded images: cropping, resizing and reduction to red, green and blue.

use crate::augment::{centre_offset_of, val_size_of};
use crate::bitmap::{
    brighten_eight, brighten_sixteen, crop_imm_eight, crop_imm_sixteen, fliph_eight,
    fliph_sixteen, grayscale_eight, grayscale_sixteen, huerotate_eight, huerotate_sixteen,
    is_whole, resize_exact_eight, resize_exact_sixteen, to_rgb8_eight, to_rgb8_sixteen,
};
use crate::pixels::{centre_offset, solarize, solarized, CropParams, ImageNetAugmentations};
use crate::rollout::at_least_one;
use vstd::prelude::*;

verus! {

/// The longest side that is resampled, and the longest that it is resampled to. Up to them the
/// single-precision coordinates of the filter are off by less than half a pixel; past them its
/// weights may sum to nothing, on which it fails.
pub const MAX_SIDE: u32 = 0x20_0000;

pub const MAX_NEW_SIDE: u32 = 0x100_0000;

/// The highest samples of eight and of sixteen bits.
pub const BYTE_TOP: i32 = 0xff;

pub const WORD_TOP: i32 = 0xffff;

/// What the samples of a pixel are.
#[derive(Clone, Copy, Debug, PartialEq, Eq, Structural)]
pub enum PixelKind {
    Luma,
    LumaAlpha,
    Rgb,
    Rgba,
}

impl PixelKind {
    /// How many samples a pixel has.
    pub open spec fn channels(self) -> int {
        match self {
            PixelKind::Luma => 1,
            PixelKind::LumaAlpha => 2,
            PixelKind::Rgb => 3,
            PixelKind::Rgba => 4,
        }
    }
}

/// Samples of eight or of sixteen bits.
#[derive(Debug, PartialEq, Eq)]
pub enum Samples {
    Eight(Vec<u8>),
    Sixteen(Vec<u16>),
}

/// The values of samples of eight bits.
pub open spec fn byte_levels(samples: Seq<u8>) -> Seq<int> {
    samples.map_values(|v: u8| v as int)
}

/// The values of samples of sixteen bits.
pub open spec fn word_levels(samples: Seq<u16>) -> Seq<int> {
    samples.map_values(|v: u16| v as int)
}

/// A decoded image, row after row, pixel after pixel.
#[derive(Debug)]
pub struct Picture {
    pub kind: PixelKind,
    pub width: u32,
    pub height: u32,
    pub samples: Samples,
}

impl Picture {
    /// The values of the samples.
    pub open spec fn levels(&self) -> Seq<int> {
        match self.samples {
            Samples::Eight(samples) => byte_levels(samples@),
            Samples::Sixteen(samples) => word_levels(samples@),
        }
    }

    /// Whether the samples have sixteen bits.
    pub open spec fn deep(&self) -> bool {
        self.samples is Sixteen
    }

    /// The highest sample.
    pub open spec fn top(&self) -> int {
        if self.deep() {
            WORD_TOP as int
        } else {
            BYTE_TOP as int
        }
    }

    /// The samples are those of all pixels.
    pub open spec fn wf(&self) -> bool {
        is_whole(self.kind, self.width as int, self.height as int, self.levels().len())
    }

    /// Whether an image has the kind of pixels, the size and the depth of this one.
    pub open spec fn same_form(&self, other: &Picture) -> bool {
        &&& self.kind == other.kind
        &&& self.width == other.width
        &&& self.height == other.height
        &&& self.deep() == other.deep()
    }
}

/// An image of red, green and blue of eight bits each.
#[derive(Debug)]
pub struct RgbPicture {
    pub width: u32,
    pub height: u32,
    pub bytes: Vec<u8>,
}

impl RgbPicture {
    /// The bytes are those of all pixels.
    pub open spec fn wf(&self) -> bool {
        is_whole(PixelKind::Rgb, self.width as int, self.height as int, self.bytes@.len())
    }
}

/// How much of a side is left from `from` on, up to `wanted`.
pub open spec fn side_left(extent: int, from: int, wanted: int) -> int {
    vstd::math::min(wanted, extent - vstd::math::min(from, extent))
}

/// The samples of a rectangle of an image, cut off at the image's edges.
pub open spec fn cropped(
    channels: int,
    width: int,
    height: int,
    levels: Seq<int>,
    x: int,
    y: int,
    crop_width: int,
    crop_height: int,
) -> Seq<int> {
    let w = side_left(width, x, crop_width);
    let h = side_left(height, y, crop_height);
    let row = w * channels;
    Seq::new(
        (row * h) as nat,
        |i: int| levels[((y + i / row) * width + x) * channels + i % row],
    )
}

/// A sample in eight bits: one of sixteen is scaled down and rounded.
pub open spec fn eight_bit(level: int, deep: bool) -> int {
    if deep {
        (level + 128) / 257
    } else {
        level
    }
}

/// The red, green and blue of an image in eight bits: grey counts three times, and opacity is
/// dropped.
pub open spec fn rgb_levels(kind: PixelKind, deep: bool, pixels: nat, levels: Seq<int>) -> Seq<int> {
    Seq::new(
        3 * pixels,
        |i: int|
            eight_bit(
                match kind {
                    PixelKind::Luma => levels[i / 3],
                    PixelKind::LumaAlpha => levels[2 * (i / 3)],
                    PixelKind::Rgb => levels[i],
                    PixelKind::Rgba => levels[4 * (i / 3) + i % 3],
                },
                deep,
            ),
    )
}

/// Where sample `i` of a mirrored image comes from: the pixel as far from the right edge as its own
/// is from the left one.
pub open spec fn mirrored_index(channels: int, width: int, i: int) -> int {
    let row = width * channels;
    let pixel = (i % row) / channels;
    (i / row) * row + (width - 1 - pixel) * channels + (i % row) % channels
}

/// The samples of an image, mirrored left to right.
pub open spec fn flipped(channels: int, width: int, levels: Seq<int>) -> Seq<int> {
    Seq::new(levels.len(), |i: int| levels[mirrored_index(channels, width, i)])
}

/// Whether sample `i` of an image is an opacity.
pub open spec fn is_opacity(kind: PixelKind, i: int) -> bool {
    match kind {
        PixelKind::Luma => false,
        PixelKind::LumaAlpha => i % 2 == 1,
        PixelKind::Rgb => false,
        PixelKind::Rgba => i % 4 == 3,
    }
}

/// The nearest number from zero to `top`.
pub open spec fn clamped(value: int, top: int) -> int {
    if value < 0 {
        0
    } else if value > top {
        top
    } else {
        value
    }
}

/// The samples of an image, brightened by `value` within their range; opacities stay.
pub open spec fn brightened(kind: PixelKind, levels: Seq<int>, value: int, top: int) -> Seq<int> {
    Seq::new(
        levels.len(),
        |i: int|
            if is_opacity(kind, i) {
                levels[i]
            } else {
                clamped(levels[i] + value, top)
            },
    )
}

/// The luminance of a colour.
pub open spec fn luminance(red: int, green: int, blue: int) -> int {
    (2126 * red + 7152 * green + 722 * blue) / 10000
}

/// The kind of the pixels of a grey image.
pub open spec fn grey_kind(kind: PixelKind) -> PixelKind {
    match kind {
        PixelKind::Luma => PixelKind::Luma,
        PixelKind::LumaAlpha => PixelKind::LumaAlpha,
        PixelKind::Rgb => PixelKind::Luma,
        PixelKind::Rgba => PixelKind::LumaAlpha,
    }
}

/// The samples of an image in grey; opacities stay.
pub open spec fn grey(kind: PixelKind, pixels: nat, levels: Seq<int>) -> Seq<int> {
    match kind {
        PixelKind::Luma => levels,
        PixelKind::LumaAlpha => levels,
        PixelKind::Rgb => Seq::new(
            pixels,
            |i: int| luminance(levels[3 * i], levels[3 * i + 1], levels[3 * i + 2]),
        ),
        PixelKind::Rgba => Seq::new(
            2 * pixels,
            |i: int|
                if i % 2 == 0 {
                    luminance(levels[2 * i], levels[2 * i + 1], levels[2 * i + 2])
                } else {
                    levels[2 * i + 1]
                },
        ),
    }
}

/// Whether an image can be resized to the given size: to its own always, to another one within the
/// reach of the filter and of the memory.
pub open spec fn can_resize(width: int, height: int, new_width: int, new_height: int) -> bool {
    ||| width == new_width && height == new_height
    ||| {
        &&& 1 <= width <= MAX_SIDE
        &&& 1 <= height <= MAX_SIDE
        &&& 0 <= new_width <= MAX_NEW_SIDE
        &&& 0 <= new_height <= MAX_NEW_SIDE
        &&& width * new_height * 16 <= isize::MAX
        &&& new_width * new_height * 8 <= isize::MAX
    }
}

/// Whether `resized` is an image of the given size that an image was resized to: of the same kind and
/// depth, and the same image where it has that size already.
pub open spec fn is_resized(
    resized: Picture,
    kind: PixelKind,
    deep: bool,
    width: int,
    height: int,
    levels: Seq<int>,
    new_width: int,
    new_height: int,
) -> bool {
    &&& resized.wf()
    &&& resized.kind == kind
    &&& resized.deep() == deep
    &&& resized.width == new_width
    &&& resized.height == new_height
    &&& width == new_width && height == new_height ==> resized.levels() == levels
}

fn copy_bytes(samples: &Vec<u8>) -> (out: Vec<u8>)
    ensures
        out@ == samples@,
{
    let out = samples.clone();
    assert(out@ =~= samples@);
    out
}

fn copy_words(samples: &Vec<u16>) -> (out: Vec<u16>)
    ensures
        out@ == samples@,
{
    let out = samples.clone();
    assert(out@ =~= samples@);
    out
}

/// Resizes an image, within the reach of the filter.
fn resize_exact(picture: &Picture, new_width: u32, new_height: u32) -> (resized: Picture)
    requires
        picture.wf(),
        can_resize(
            picture.width as int,
            picture.height as int,
            new_width as int,
            new_height as int,
        ),
    ensures
        is_resized(
            resized,
            picture.kind,
            picture.deep(),
            picture.width as int,
            picture.height as int,
            picture.levels(),
            new_width as int,
            new_height as int,
        ),
{
    let (kind, w, h) = (picture.kind, picture.width, picture.height);
    let samples = match &picture.samples {
        Samples::Eight(s) => Samples::Eight(
            resize_exact_eight(kind, w, h, copy_bytes(s), new_width, new_height),
        ),
        Samples::Sixteen(s) => Samples::Sixteen(
            resize_exact_sixteen(kind, w, h, copy_words(s), new_width, new_height),
        ),
    };
    Picture { kind, width: new_width, height: new_height, samples }
}

fn length_left(extent: u32, from: u32, wanted: u32) -> (r: u32)
    ensures
        r == side_left(extent as int, from as int, wanted as int),
{
    let left: u32 = if from < extent {
        extent - from
    } else {
        0
    };
    if wanted < left {
        wanted
    } else {
        left
    }
}

/// Cuts a rectangle out of an image, as far as it lies in it.
fn crop_imm(picture: &Picture, x: u32, y: u32, width: u32, height: u32) -> (crop: Picture)
    requires
        picture.wf(),
    ensures
        crop.wf(),
        crop.kind == picture.kind,
        crop.deep() == picture.deep(),
        crop.width == side_left(picture.width as int, x as int, width as int),
        crop.height == side_left(picture.height as int, y as int, height as int),
        crop.levels() == cropped(
            picture.kind.channels(),
            picture.width as int,
            picture.height as int,
            picture.levels(),
            x as int,
            y as int,
            width as int,
            height as int,
        ),
{
    let (kind, w, h) = (picture.kind, picture.width, picture.height);
    let samples = match &picture.samples {
        Samples::Eight(s) => Samples::Eight(
            crop_imm_eight(kind, w, h, copy_bytes(s), x, y, width, height),
        ),
        Samples::Sixteen(s) => Samples::Sixteen(
            crop_imm_sixteen(kind, w, h, copy_words(s), x, y, width, height),
        ),
    };
    let (left_w, left_h) = (length_left(w, x, width), length_left(h, y, height));
    proof {
        let (a, b, c) = (left_w as int, left_h as int, kind.channels());
        assert((a * c) * b == a * b * c && 0 <= a * b * c) by (nonlinear_arith)
            requires
                a >= 0,
                b >= 0,
                c >= 1,
        ;
    }
    Picture { kind, width: left_w, height: left_h, samples }
}

/// The red, green and blue of an image.
pub fn to_rgb8(picture: &Picture) -> (rgb: RgbPicture)
    requires
        picture.wf(),
        picture.width * picture.height * 3 <= isize::MAX,
    ensures
        rgb.wf(),
        rgb.width == picture.width,
        rgb.height == picture.height,
        byte_levels(rgb.bytes@) == rgb_levels(
            picture.kind,
            picture.deep(),
            (picture.width * picture.height) as nat,
            picture.levels(),
        ),
{
    let (kind, width, height) = (picture.kind, picture.width, picture.height);
    let bytes: Vec<u8> = match &picture.samples {
        Samples::Eight(s) => to_rgb8_eight(kind, width, height, copy_bytes(s)),
        Samples::Sixteen(s) => to_rgb8_sixteen(kind, width, height, copy_words(s)),
    };
    assert(width * height >= 0) by (nonlinear_arith);
    assert(byte_levels(bytes@).len() == 3 * (width * height));
    RgbPicture { width, height, bytes }
}

/// A change to an image whose amount is a whole number.
#[derive(Clone, Copy, Debug, PartialEq, Eq, Structural)]
pub enum PictureChange {
    FlipHorizontally,
    Brighten { value: i32 },
    RotateHue { degrees: i32 },
    Grayscale,
    Solarize { threshold: u8 },
}

/// Whether `after` is `before` with a change made to it. Solarising leaves red, green and blue of
/// eight bits. Of a rotated hue only this is said: the form stays, the samples fit in eight bits, and
/// colours keep their opacities as far as those do.
pub open spec fn is_changed(before: Picture, change: PictureChange, after: Picture) -> bool {
    let pixels = (before.width * before.height) as nat;
    let levels = before.levels();
    &&& after.wf()
    &&& after.width == before.width
    &&& after.height == before.height
    &&& match change {
        PictureChange::FlipHorizontally => after.same_form(&before) && after.levels() == flipped(
            before.kind.channels(),
            before.width as int,
            levels,
        ),
        PictureChange::Brighten { value } => after.same_form(&before) && after.levels()
            == brightened(before.kind, levels, value as int, before.top()),
        PictureChange::RotateHue { .. } => {
            &&& after.same_form(&before)
            &&& forall|i: int|
                0 <= i < after.levels().len() ==> (#[trigger] after.levels()[i]) <= BYTE_TOP
            &&& before.kind == PixelKind::Rgba ==> forall|i: int|
                0 <= i < after.levels().len() && is_opacity(before.kind, i)
                    ==> #[trigger] after.levels()[i] == vstd::math::min(levels[i], BYTE_TOP as int)
        },
        PictureChange::Grayscale => {
            &&& after.kind == grey_kind(before.kind)
            &&& after.deep() == before.deep()
            &&& after.levels() == grey(before.kind, pixels, levels)
        },
        PictureChange::Solarize { threshold } => {
            &&& after.kind == PixelKind::Rgb
            &&& !after.deep()
            &&& after.levels() == rgb_levels(before.kind, before.deep(), pixels, levels).map_values(
                |v: int| solarized(v as u8, threshold) as int,
            )
        },
    }
}

/// Makes a change to an image.
pub fn change_picture(picture: &Picture, change: PictureChange) -> (changed: Picture)
    requires
        picture.wf(),
        picture.width * picture.height * 3 <= isize::MAX,
        change matches PictureChange::Brighten { value } ==> value <= i32::MAX - picture.top(),
    ensures
        is_changed(*picture, change, changed),
{
    let (kind, w, h) = (picture.kind, picture.width, picture.height);
    let ghost pixels = (w * h) as nat;
    assert(w * h >= 0) by (nonlinear_arith);
    let mut changed_kind = kind;
    let samples = match change {
        PictureChange::FlipHorizontally => match &picture.samples {
            Samples::Eight(s) => Samples::Eight(fliph_eight(kind, w, h, copy_bytes(s))),
            Samples::Sixteen(s) => Samples::Sixteen(fliph_sixteen(kind, w, h, copy_words(s))),
        },
        PictureChange::Brighten { value } => match &picture.samples {
            Samples::Eight(s) => Samples::Eight(brighten_eight(kind, w, h, copy_bytes(s), value)),
            Samples::Sixteen(s) => Samples::Sixteen(
                brighten_sixteen(kind, w, h, copy_words(s), value),
            ),
        },
        PictureChange::RotateHue { degrees } => match &picture.samples {
            Samples::Eight(s) => Samples::Eight(
                huerotate_eight(kind, w, h, copy_bytes(s), degrees),
            ),
            Samples::Sixteen(s) => Samples::Sixteen(
                huerotate_sixteen(kind, w, h, copy_words(s), degrees),
            ),
        },
        PictureChange::Grayscale => {
            changed_kind = match kind {
                PixelKind::Luma | PixelKind::Rgb => PixelKind::Luma,
                PixelKind::LumaAlpha | PixelKind::Rgba => PixelKind::LumaAlpha,
            };
            match &picture.samples {
                Samples::Eight(s) => Samples::Eight(grayscale_eight(kind, w, h, copy_bytes(s))),
                Samples::Sixteen(s) => Samples::Sixteen(
                    grayscale_sixteen(kind, w, h, copy_words(s)),
                ),
            }
        },
        PictureChange::Solarize { threshold } => {
            changed_kind = PixelKind::Rgb;
            let mut bytes: Vec<u8> = to_rgb8(picture).bytes;
            let ghost rgb = bytes@;
            solarize(&mut bytes, threshold);
            assert(byte_levels(bytes@) =~= byte_levels(rgb).map_values(
                |v: int| solarized(v as u8, threshold) as int,
            ));
            Samples::Eight(bytes)
        },
    };
    let changed = Picture { kind: changed_kind, width: w, height: h, samples };
    assert(is_changed(*picture, change, changed));
    changed
}

/// Mirroring an image twice gives it back.
pub proof fn law_flipping_twice_changes_nothing(
    channels: int,
    width: int,
    height: nat,
    levels: Seq<int>,
)
    requires
        channels >= 1,
        width >= 0,
        levels.len() == width * height * channels,
    ensures
        flipped(channels, width, flipped(channels, width, levels)) == levels,
{
    let row = width * channels;
    let once = flipped(channels, width, levels);
    let twice = flipped(channels, width, once);
    assert(width * height * channels == row * height) by (nonlinear_arith)
        requires
            row == width * channels,
    ;
    assert forall|i: int| 0 <= i < levels.len() implies twice[i] == levels[i] by {
        if width == 0 {
            assert(row * height == 0) by (nonlinear_arith)
                requires
                    row == 0 * channels,
            ;
        }
        lemma_mirrored(channels, width, height as int, i);
        let j = mirrored_index(channels, width, i);
        assert(once[j] == levels[mirrored_index(channels, width, j)]);
    }
    assert(twice =~= levels);
}

proof fn lemma_mirrored(channels: int, width: int, height: int, i: int)
    requires
        channels >= 1,
        width >= 1,
        0 <= i < (width * channels) * height,
    ensures
        0 <= mirrored_index(channels, width, i) < (width * channels) * height,
        mirrored_index(channels, width, mirrored_index(channels, width, i)) == i,
{
    let row = width * channels;
    assert(row >= 1) by (nonlinear_arith)
        requires
            row == width * channels,
            width >= 1,
            channels >= 1,
    ;
    let (y, col) = (i / row, i % row);
    let (pixel, channel) = (col / channels, col % channels);
    vstd::arithmetic::div_mod::lemma_fundamental_div_mod(i, row);
    vstd::arithmetic::div_mod::lemma_fundamental_div_mod(col, channels);
    vstd::arithmetic::div_mod::lemma_mod_bound(i, row);
    vstd::arithmetic::div_mod::lemma_mod_bound(col, channels);
    assert(0 <= y < height) by (nonlinear_arith)
        requires
            i == row * y + col,
            0 <= col < row,
            0 <= i < row * height,
            row >= 1,
    ;
    assert(0 <= pixel < width) by (nonlinear_arith)
        requires
            col == channels * pixel + channel,
            0 <= channel < channels,
            0 <= col < width * channels,
            channels >= 1,
    ;
    let back = width - 1 - pixel;
    let other = back * channels + channel;
    assert(0 <= other < row) by (nonlinear_arith)
        requires
            other == back * channels + channel,
            0 <= back < width,
            0 <= channel < channels,
            row == width * channels,
    ;
    let j = y * row + other;
    assert(j == mirrored_index(channels, width, i));
    assert(0 <= j < row * height) by (nonlinear_arith)
        requires
            j == y * row + other,
            0 <= y < height,
            0 <= other < row,
    ;
    vstd::arithmetic::div_mod::lemma_fundamental_div_mod_converse(j, row, y, other);
    vstd::arithmetic::div_mod::lemma_fundamental_div_mod_converse(other, channels, back, channel);
    vstd::arithmetic::mul::lemma_mul_is_commutative(row, y);
    vstd::arithmetic::mul::lemma_mul_is_commutative(channels, pixel);
}

/// Whether `view` is the centred square of a resized image, in red, green and blue.
pub open spec fn is_centre_view(view: RgbPicture, resized: Picture, image_size: int) -> bool {
    let x = centre_offset_of(resized.width as int, image_size);
    let y = centre_offset_of(resized.height as int, image_size);
    let w = side_left(resized.width as int, x, image_size);
    let h = side_left(resized.height as int, y, image_size);
    &&& view.wf()
    &&& view.width == w
    &&& view.height == h
    &&& byte_levels(view.bytes@) == rgb_levels(
        resized.kind,
        resized.deep(),
        (w * h) as nat,
        cropped(
            resized.kind.channels(),
            resized.width as int,
            resized.height as int,
            resized.levels(),
            x,
            y,
            image_size,
            image_size,
        ),
    )
}

impl ImageNetAugmentations {
    /// The centred square of a resized image, in red, green and blue.
    pub fn centre_view(&self, resized: &Picture) -> (view: RgbPicture)
        requires
            resized.wf(),
            resized.width * resized.height * 3 <= isize::MAX,
        ensures
            is_centre_view(view, *resized, self.image_size as int),
    {
        let x: u32 = centre_offset(resized.width, self.image_size);
        let y: u32 = centre_offset(resized.height, self.image_size);
        let crop = crop_imm(resized, x, y, self.image_size, self.image_size);
        assert(crop.width * crop.height * 3 <= isize::MAX) by {
            let (a, b, c, d) = (
                crop.width as int,
                crop.height as int,
                resized.width as int,
                resized.height as int,
            );
            assert(0 <= a * b <= c * d) by (nonlinear_arith)
                requires
                    0 <= a <= c,
                    0 <= b <= d,
            ;
        }
        to_rgb8(&crop)
    }

    /// A validation image: the shorter side is resized, and the centred square is taken. What
    /// [`Self::centre_view`] makes of the resized image is stated there for each one.
    pub fn apply_val(&self, picture: &Picture) -> (view: RgbPicture)
        requires
            picture.wf(),
            ({
                let (new_width, new_height) = val_size_of(
                    picture.width,
                    picture.height,
                    at_least_one(self.resize_short as int) as nat,
                );
                &&& picture.width >= 1
                &&& picture.height >= 1
                &&& new_width * new_height * 3 <= isize::MAX
                &&& can_resize(
                    picture.width as int,
                    picture.height as int,
                    new_width as int,
                    new_height as int,
                )
            }),
        ensures
            ({
                let (new_width, new_height) = val_size_of(
                    picture.width,
                    picture.height,
                    at_least_one(self.resize_short as int) as nat,
                );
                exists|resized: Picture| #[trigger]
                    is_centre_view(view, resized, self.image_size as int) && is_resized(
                        resized,
                        picture.kind,
                        picture.deep(),
                        picture.width as int,
                        picture.height as int,
                        picture.levels(),
                        new_width as int,
                        new_height as int,
                    )
            }),
    {
        let (new_width, new_height) = self.val_size(picture.width, picture.height);
        let resized = resize_exact(picture, new_width, new_height);
        let view = self.centre_view(&resized);
        assert(is_centre_view(view, resized, self.image_size as int));
        view
    }

    /// A crop of an image, resized to the square of the augmented images.
    pub fn apply_crop(&self, picture: &Picture, crop: &CropParams) -> (view: Picture)
        requires
            picture.wf(),
            can_resize(
                side_left(picture.width as int, crop.x as int, crop.width as int),
                side_left(picture.height as int, crop.y as int, crop.height as int),
                self.image_size as int,
                self.image_size as int,
            ),
        ensures
            is_resized(
                view,
                picture.kind,
                picture.deep(),
                side_left(picture.width as int, crop.x as int, crop.width as int),
                side_left(picture.height as int, crop.y as int, crop.height as int),
                cropped(
                    picture.kind.channels(),
                    picture.width as int,
                    picture.height as int,
                    picture.levels(),
                    crop.x as int,
                    crop.y as int,
                    crop.width as int,
                    crop.height as int,
                ),
                self.image_size as int,
                self.image_size as int,
            ),
    {
        let cut = crop_imm(picture, crop.x, crop.y, crop.width, crop.height);
        resize_exact(&cut, self.image_size, self.image_size)
    }
}

/// As much of a side is left as is wanted and there is, and no more.
pub proof fn law_sides_are_cut_at_the_edge(extent: int, from: int, wanted: int, n: int)
    requires
        extent >= 0,
        from >= 0,
        wanted >= 0,
        n >= 0,
    ensures
        0 <= side_left(extent, from, wanted),
        n <= side_left(extent, from, wanted) <==> n <= wanted && (n == 0 || from + n <= extent),
{
}

/// A crop holds the pixels of its rectangle where they stand in it: that in column `px` and row `py`
/// of the crop is the one `px` to the right of and `py` below the corner, with all its samples.
pub proof fn law_crops_hold_the_pixels_of_their_rectangle(
    channels: int,
    width: int,
    height: int,
    levels: Seq<int>,
    x: int,
    y: int,
    crop_width: int,
    crop_height: int,
    w: int,
    h: int,
    px: int,
    py: int,
    c: int,
)
    requires
        0 <= x,
        0 <= y,
        x + w <= width,
        y + h <= height,
        w == side_left(width, x, crop_width),
        h == side_left(height, y, crop_height),
        0 <= px < w,
        0 <= py < h,
        0 <= c < channels,
    ensures
        ({
            let crop = cropped(channels, width, height, levels, x, y, crop_width, crop_height);
            &&& crop.len() == w * h * channels
            &&& 0 <= (py * w + px) * channels + c < crop.len()
            &&& crop[(py * w + px) * channels + c] == levels[((y + py) * width + (x + px)) * channels
                + c]
        }),
{
    let row = w * channels;
    let col = px * channels + c;
    let i = (py * w + px) * channels + c;
    assert(0 <= px * channels && px * channels + channels <= w * channels) by (nonlinear_arith)
        requires
            0 <= px < w,
            channels >= 1,
    ;
    assert(i == py * row + col) by (nonlinear_arith)
        requires
            i == (py * w + px) * channels + c,
            col == px * channels + c,
            row == w * channels,
    ;
    assert(0 <= py * row && py * row + row <= row * h && row * h == w * h * channels)
        by (nonlinear_arith)
        requires
            0 <= py < h,
            row >= 0,
            row == w * channels,
    ;
    vstd::arithmetic::div_mod::lemma_fundamental_div_mod_converse(i, row, py, col);
    let (top, left) = (y + py, x + px);
    assert((top * width + x) * channels + col == (top * width + left) * channels + c)
        by (nonlinear_arith)
        requires
            col == px * channels + c,
            left == x + px,
    ;
}

/// A sample of eight bits stays; one of sixteen becomes the nearest of the levels that lie evenly
/// spread over its range.
pub proof fn law_deep_samples_go_to_the_nearest_level(level: int)
    requires
        0 <= level <= WORD_TOP,
    ensures
        eight_bit(level, false) == level,
        0 <= eight_bit(level, true) <= BYTE_TOP,
        -128 <= 257 * eight_bit(level, true) - level <= 128,
        257 * BYTE_TOP == WORD_TOP,
{
}

/// Each pixel keeps its colours: red, green and blue of a coloured one, and its grey three times of a
/// grey one, wherever it stands.
pub proof fn law_pixels_keep_their_colours(
    kind: PixelKind,
    deep: bool,
    pixels: nat,
    levels: Seq<int>,
    p: int,
    c: int,
)
    requires
        0 <= p < pixels,
        0 <= c < 3,
    ensures
        ({
            let rgb = rgb_levels(kind, deep, pixels, levels);
            let value = rgb[3 * p + c];
            &&& rgb.len() == 3 * pixels
            &&& kind == PixelKind::Luma ==> value == eight_bit(levels[p], deep)
            &&& kind == PixelKind::LumaAlpha ==> value == eight_bit(levels[2 * p], deep)
            &&& kind == PixelKind::Rgb ==> value == eight_bit(levels[3 * p + c], deep)
            &&& kind == PixelKind::Rgba ==> value == eight_bit(levels[4 * p + c], deep)
        }),
{
    assert((3 * p + c) / 3 == p && (3 * p + c) % 3 == c);
}

/// The pixel in column `x` of a mirrored image is the one that stands as far from the right edge, in
/// the same row, with its samples in their order.
pub proof fn law_mirrored_pixels_change_columns(
    channels: int,
    width: int,
    height: int,
    levels: Seq<int>,
    x: int,
    y: int,
    other: int,
    c: int,
)
    requires
        levels.len() == width * height * channels,
        0 <= x < width,
        0 <= y < height,
        0 <= c < channels,
        x + other == width - 1,
    ensures
        flipped(channels, width, levels).len() == levels.len(),
        flipped(channels, width, levels)[(y * width + x) * channels + c] == levels[(y * width
            + other) * channels + c],
{
    let row = width * channels;
    let col = x * channels + c;
    let i = (y * width + x) * channels + c;
    assert(0 <= x * channels && x * channels + channels <= row) by (nonlinear_arith)
        requires
            0 <= x < width,
            channels >= 1,
            row == width * channels,
    ;
    assert(i == y * row + col) by (nonlinear_arith)
        requires
            i == (y * width + x) * channels + c,
            col == x * channels + c,
            row == width * channels,
    ;
    assert(0 <= y * row && y * row + row <= row * height && row * height == width * height
        * channels) by (nonlinear_arith)
        requires
            0 <= y < height,
            row >= 0,
            row == width * channels,
    ;
    vstd::arithmetic::div_mod::lemma_fundamental_div_mod_converse(i, row, y, col);
    vstd::arithmetic::div_mod::lemma_fundamental_div_mod_converse(col, channels, x, c);
    assert(y * row + other * channels + c == (y * width + other) * channels + c)
        by (nonlinear_arith)
        requires
            row == width * channels,
    ;
}

/// The last sample of a pixel is an opacity exactly where the kind has one.
pub proof fn law_opacities_come_last(kind: PixelKind, p: int, c: int)
    requires
        p >= 0,
        0 <= c < kind.channels(),
    ensures
        is_opacity(kind, p * kind.channels() + c) <==> c == kind.channels() - 1 && (kind
            == PixelKind::LumaAlpha || kind == PixelKind::Rgba),
{
    match kind {
        PixelKind::LumaAlpha => {
            assert((p * 2 + c) % 2 == c);
        },
        PixelKind::Rgba => {
            assert((p * 4 + c) % 4 == c);
        },
        _ => {},
    }
}

/// Brightening moves a colour by the given amount, but not out of the range; it leaves opacities.
pub proof fn law_brightening_moves_colours(
    kind: PixelKind,
    levels: Seq<int>,
    value: int,
    top: int,
    i: int,
)
    requires
        0 <= i < levels.len(),
        0 <= levels[i] <= top,
    ensures
        ({
            let after = brightened(kind, levels, value, top);
            &&& after.len() == levels.len()
            &&& is_opacity(kind, i) ==> after[i] == levels[i]
            &&& !is_opacity(kind, i) ==> {
                &&& 0 <= after[i] <= top
                &&& after[i] - levels[i] == value || (value > 0 && after[i] == top && levels[i]
                    + value > top) || (value < 0 && after[i] == 0 && levels[i] + value < 0)
            }
        }),
{
}

/// Green counts most towards the luminance and blue least, each by its own weight; a grey has its own
/// value as its luminance, which never leaves the range of the colours.
pub proof fn law_luminance_weighs_the_colours(red: int, green: int, blue: int, top: int)
    requires
        0 <= red <= top,
        0 <= green <= top,
        0 <= blue <= top,
    ensures
        luminance(red + 10000, green, blue) == luminance(red, green, blue) + 2126,
        luminance(red, green + 10000, blue) == luminance(red, green, blue) + 7152,
        luminance(red, green, blue + 10000) == luminance(red, green, blue) + 722,
        luminance(red, red, red) == red,
        0 <= luminance(red, green, blue) <= top,
{
}

/// In a grey image every pixel has the luminance of its colours, or its own grey, and the opacity
/// that it had.
pub proof fn law_grey_pixels_have_the_luminance(
    kind: PixelKind,
    pixels: nat,
    levels: Seq<int>,
    p: int,
)
    requires
        0 <= p < pixels,
        levels.len() == pixels * kind.channels(),
    ensures
        ({
            let after = grey(kind, pixels, levels);
            &&& after.len() == pixels * grey_kind(kind).channels()
            &&& kind == PixelKind::Luma || kind == PixelKind::LumaAlpha ==> after == levels
            &&& kind == PixelKind::Rgb ==> after[p] == luminance(
                levels[3 * p],
                levels[3 * p + 1],
                levels[3 * p + 2],
            )
            &&& kind == PixelKind::Rgba ==> {
                &&& after[2 * p] == luminance(levels[4 * p], levels[4 * p + 1], levels[4 * p + 2])
                &&& after[2 * p + 1] == levels[4 * p + 3]
            }
        }),
        grey_kind(kind) == PixelKind::Luma || grey_kind(kind) == PixelKind::LumaAlpha,
        grey_kind(kind) == PixelKind::LumaAlpha <==> kind == PixelKind::LumaAlpha || kind
            == PixelKind::Rgba,
{
}

/// Every change keeps the size. Mirroring, brightening and turning the hue keep the kind and depth of
/// the pixels, and grey keeps their depth.
pub proof fn law_changes_keep_the_size(before: Picture, change: PictureChange, after: Picture)
    requires
        is_changed(before, change, after),
    ensures
        after.wf(),
        after.width == before.width,
        after.height == before.height,
        change is FlipHorizontally || change is Brighten || change is RotateHue ==> after.kind
            == before.kind && (after.deep() <==> before.deep()),
        change is Grayscale ==> (after.deep() <==> before.deep()) && after.kind == grey_kind(
            before.kind,
        ),
        change is Solarize ==> after.kind == PixelKind::Rgb && !after.deep(),
        change is FlipHorizontally ==> after.levels().len() == before.levels().len(),
{
}

/// A resized image has the size asked for, and is the image itself where it had that size.
pub proof fn law_resizing_to_the_own_size_changes_nothing(
    resized: Picture,
    kind: PixelKind,
    deep: bool,
    width: int,
    height: int,
    levels: Seq<int>,
    new_width: int,
    new_height: int,
)
    requires
        is_resized(resized, kind, deep, width, height, levels, new_width, new_height),
    ensures
        resized.width == new_width,
        resized.height == new_height,
        resized.kind == kind,
        resized.deep() <==> deep,
        width == new_width && height == new_height ==> resized.levels() == levels,
{
}

/// Samples reach up to what their bits can hold, and images of one form have as many of them.
pub proof fn law_samples_reach_to_their_top(picture: Picture, other: Picture)
    requires
        picture.wf(),
        other.wf(),
    ensures
        !picture.deep() ==> picture.top() + 1 == 0x100,
        picture.deep() ==> picture.top() + 1 == 0x100 * 0x100,
        picture.same_form(&other) ==> {
            &&& picture.width == other.width && picture.height == other.height
            &&& picture.kind == other.kind && picture.top() == other.top()
            &&& picture.levels().len() == other.levels().len()
        },
        picture.width == other.width && picture.height == other.height && picture.kind == other.kind
            && (picture.deep() <==> other.deep()) ==> picture.same_form(&other),
{
}

/// A validation view is no larger than asked for, and shows the middle of the resized image: its
/// pixels with their colours, as much of the image left on one side as on the other, or one pixel
/// more behind it.
pub proof fn law_centred_views_show_the_middle(
    view: RgbPicture,
    resized: Picture,
    image_size: int,
    x: int,
    y: int,
    px: int,
    py: int,
    c: int,
)
    requires
        is_centre_view(view, resized, image_size),
        resized.width >= image_size >= 0,
        resized.height >= image_size,
        2 * x == resized.width - image_size || 2 * x + 1 == resized.width - image_size,
        2 * y == resized.height - image_size || 2 * y + 1 == resized.height - image_size,
        0 <= px < image_size,
        0 <= py < image_size,
        0 <= c < 3,
    ensures
        view.width == image_size,
        view.height == image_size,
        ({
            let n = resized.kind.channels();
            let from = ((y + py) * resized.width + (x + px)) * n;
            let own = if n >= 3 {
                c
            } else {
                0
            };
            view.bytes@[3 * (py * image_size + px) + c] == eight_bit(
                resized.levels()[from + own],
                resized.deep(),
            )
        }),
{
    let (w, h) = (image_size, image_size);
    let n = resized.kind.channels();
    let levels = cropped(
        n,
        resized.width as int,
        resized.height as int,
        resized.levels(),
        x,
        y,
        image_size,
        image_size,
    );
    let p = py * w + px;
    let own = if n >= 3 {
        c
    } else {
        0
    };
    assert(centre_offset_of(resized.width as int, image_size) == x);
    assert(centre_offset_of(resized.height as int, image_size) == y);
    law_crops_hold_the_pixels_of_their_rectangle(
        n,
        resized.width as int,
        resized.height as int,
        resized.levels(),
        x,
        y,
        image_size,
        image_size,
        w,
        h,
        px,
        py,
        own,
    );
    assert(0 <= py * w && py * w + w <= w * h) by (nonlinear_arith)
        requires
            0 <= py < h,
            w >= 0,
    ;
    law_pixels_keep_their_colours(resized.kind, resized.deep(), (w * h) as nat, levels, p, c);
    vstd::arithmetic::mul::lemma_mul_is_commutative(p, n);
    let rgb = rgb_levels(resized.kind, resized.deep(), (w * h) as nat, levels);
    assert(byte_levels(view.bytes@) == rgb);
    assert(byte_levels(view.bytes@)[3 * p + c] == view.bytes@[3 * p + c] as int);
}

/// A change does to every sample what it says: mirroring moves the pixels, brightening moves the
/// colours, grey takes the luminance, solarising inverts what is bright, and a turned hue fits in
/// eight bits and leaves the opacity of colours as far as that does.
pub proof fn law_changes_do_what_they_say(
    before: Picture,
    change: PictureChange,
    after: Picture,
    i: int,
)
    requires
        is_changed(before, change, after),
        0 <= i < after.levels().len(),
    ensures
        ({
            let (was, now) = (before.levels(), after.levels());
            &&& change is FlipHorizontally ==> now == flipped(
                before.kind.channels(),
                before.width as int,
                was,
            )
            &&& change matches PictureChange::Brighten { value } ==> now[i] == brightened(
                before.kind,
                was,
                value as int,
                before.top(),
            )[i]
            &&& change is RotateHue ==> now[i] <= 255 && (before.kind == PixelKind::Rgba && i % 4
                == 3 && was[i] <= 255 ==> now[i] == was[i])
            &&& change is Grayscale ==> now == grey(
                before.kind,
                (before.width * before.height) as nat,
                was,
            )
            &&& change matches PictureChange::Solarize { threshold } ==> {
                let rgb = rgb_levels(
                    before.kind,
                    before.deep(),
                    (before.width * before.height) as nat,
                    was,
                );
                &&& now.len() == rgb.len()
                &&& now[i] == solarized(rgb[i] as u8, threshold)
            }
        }),
{
}

} // verus!
