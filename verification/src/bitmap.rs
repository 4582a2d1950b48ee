//! Calls into the `image` crate, on samples of eight and of sixteen bits. An image is given by the
//! kind of its pixels, its width and height, and its samples.

use crate::picture::{
    brightened, byte_levels, can_resize, cropped, flipped, grey, is_opacity, rgb_levels, word_levels,
    PixelKind, BYTE_TOP, WORD_TOP,
};
use image::imageops::FilterType;
use image::{DynamicImage, GrayAlphaImage, GrayImage, ImageBuffer, RgbImage, RgbaImage};
use vstd::prelude::*;

verus! {

/// Whether `len` samples are those of all pixels.
pub open spec fn is_whole(kind: PixelKind, w: int, h: int, len: nat) -> bool {
    len == w * h * kind.channels()
}

/// Calls `image::DynamicImage::resize_exact` with `FilterType::CatmullRom` on samples of eight bits.
/// The result has the new size, and is the image itself where that is its own. What else its samples
/// are is left unsaid: the filter computes powers whose precision is open between machines.
#[verifier::external_body]
pub(crate) fn resize_exact_eight(
    kind: PixelKind,
    w: u32,
    h: u32,
    s: Vec<u8>,
    new_w: u32,
    new_h: u32,
) -> (out: Vec<u8>)
    requires
        is_whole(kind, w as int, h as int, s@.len()),
        can_resize(w as int, h as int, new_w as int, new_h as int),
    ensures
        is_whole(kind, new_w as int, new_h as int, out@.len()),
        new_w == w && new_h == h ==> out@ == s@,
{
    let image: DynamicImage = match kind {
        PixelKind::Luma => GrayImage::from_raw(w, h, s).unwrap().into(),
        PixelKind::LumaAlpha => GrayAlphaImage::from_raw(w, h, s).unwrap().into(),
        PixelKind::Rgb => RgbImage::from_raw(w, h, s).unwrap().into(),
        PixelKind::Rgba => RgbaImage::from_raw(w, h, s).unwrap().into(),
    };
    image.resize_exact(new_w, new_h, FilterType::CatmullRom).into_bytes()
}

/// Calls `image::DynamicImage::resize_exact` with `FilterType::CatmullRom` on samples of sixteen
/// bits. It claims as much as [`resize_exact_eight`] does.
#[verifier::external_body]
pub(crate) fn resize_exact_sixteen(
    kind: PixelKind,
    w: u32,
    h: u32,
    s: Vec<u16>,
    new_w: u32,
    new_h: u32,
) -> (out: Vec<u16>)
    requires
        is_whole(kind, w as int, h as int, s@.len()),
        can_resize(w as int, h as int, new_w as int, new_h as int),
    ensures
        is_whole(kind, new_w as int, new_h as int, out@.len()),
        new_w == w && new_h == h ==> out@ == s@,
{
    let image = match kind {
        PixelKind::Luma => DynamicImage::ImageLuma16(ImageBuffer::from_raw(w, h, s).unwrap()),
        PixelKind::LumaAlpha => DynamicImage::ImageLumaA16(ImageBuffer::from_raw(w, h, s).unwrap()),
        PixelKind::Rgb => DynamicImage::ImageRgb16(ImageBuffer::from_raw(w, h, s).unwrap()),
        PixelKind::Rgba => DynamicImage::ImageRgba16(ImageBuffer::from_raw(w, h, s).unwrap()),
    };
    match image.resize_exact(new_w, new_h, FilterType::CatmullRom) {
        DynamicImage::ImageLuma16(out) => out.into_raw(),
        DynamicImage::ImageLumaA16(out) => out.into_raw(),
        DynamicImage::ImageRgb16(out) => out.into_raw(),
        DynamicImage::ImageRgba16(out) => out.into_raw(),
        _ => Vec::new(),
    }
}

/// Calls `image::DynamicImage::crop_imm` on samples of eight bits. The result is the rectangle, as far
/// as it lies in the image.
#[verifier::external_body]
pub(crate) fn crop_imm_eight(
    kind: PixelKind,
    w: u32,
    h: u32,
    s: Vec<u8>,
    x: u32,
    y: u32,
    crop_w: u32,
    crop_h: u32,
) -> (out: Vec<u8>)
    requires
        is_whole(kind, w as int, h as int, s@.len()),
    ensures
        byte_levels(out@) == cropped(
            kind.channels(),
            w as int,
            h as int,
            byte_levels(s@),
            x as int,
            y as int,
            crop_w as int,
            crop_h as int,
        ),
{
    let image: DynamicImage = match kind {
        PixelKind::Luma => GrayImage::from_raw(w, h, s).unwrap().into(),
        PixelKind::LumaAlpha => GrayAlphaImage::from_raw(w, h, s).unwrap().into(),
        PixelKind::Rgb => RgbImage::from_raw(w, h, s).unwrap().into(),
        PixelKind::Rgba => RgbaImage::from_raw(w, h, s).unwrap().into(),
    };
    image.crop_imm(x, y, crop_w, crop_h).into_bytes()
}

/// Calls `image::DynamicImage::crop_imm` on samples of sixteen bits. It claims the same as
/// [`crop_imm_eight`] does.
#[verifier::external_body]
pub(crate) fn crop_imm_sixteen(
    kind: PixelKind,
    w: u32,
    h: u32,
    s: Vec<u16>,
    x: u32,
    y: u32,
    crop_w: u32,
    crop_h: u32,
) -> (out: Vec<u16>)
    requires
        is_whole(kind, w as int, h as int, s@.len()),
    ensures
        word_levels(out@) == cropped(
            kind.channels(),
            w as int,
            h as int,
            word_levels(s@),
            x as int,
            y as int,
            crop_w as int,
            crop_h as int,
        ),
{
    let image = match kind {
        PixelKind::Luma => DynamicImage::ImageLuma16(ImageBuffer::from_raw(w, h, s).unwrap()),
        PixelKind::LumaAlpha => DynamicImage::ImageLumaA16(ImageBuffer::from_raw(w, h, s).unwrap()),
        PixelKind::Rgb => DynamicImage::ImageRgb16(ImageBuffer::from_raw(w, h, s).unwrap()),
        PixelKind::Rgba => DynamicImage::ImageRgba16(ImageBuffer::from_raw(w, h, s).unwrap()),
    };
    match image.crop_imm(x, y, crop_w, crop_h) {
        DynamicImage::ImageLuma16(out) => out.into_raw(),
        DynamicImage::ImageLumaA16(out) => out.into_raw(),
        DynamicImage::ImageRgb16(out) => out.into_raw(),
        DynamicImage::ImageRgba16(out) => out.into_raw(),
        _ => Vec::new(),
    }
}

/// Calls `image::DynamicImage::to_rgb8` on samples of eight bits. The result holds red, green and blue
/// of every pixel.
#[verifier::external_body]
pub(crate) fn to_rgb8_eight(kind: PixelKind, w: u32, h: u32, s: Vec<u8>) -> (out: Vec<u8>)
    requires
        is_whole(kind, w as int, h as int, s@.len()),
        w * h * 3 <= isize::MAX,
    ensures
        byte_levels(out@) == rgb_levels(kind, false, (w * h) as nat, byte_levels(s@)),
{
    let image: DynamicImage = match kind {
        PixelKind::Luma => GrayImage::from_raw(w, h, s).unwrap().into(),
        PixelKind::LumaAlpha => GrayAlphaImage::from_raw(w, h, s).unwrap().into(),
        PixelKind::Rgb => RgbImage::from_raw(w, h, s).unwrap().into(),
        PixelKind::Rgba => RgbaImage::from_raw(w, h, s).unwrap().into(),
    };
    image.to_rgb8().into_raw()
}

/// Calls `image::DynamicImage::to_rgb8` on samples of sixteen bits. The result holds red, green and
/// blue of every pixel, brought to eight bits by rounding.
#[verifier::external_body]
pub(crate) fn to_rgb8_sixteen(kind: PixelKind, w: u32, h: u32, s: Vec<u16>) -> (out: Vec<u8>)
    requires
        is_whole(kind, w as int, h as int, s@.len()),
        w * h * 3 <= isize::MAX,
    ensures
        byte_levels(out@) == rgb_levels(kind, true, (w * h) as nat, word_levels(s@)),
{
    let image = match kind {
        PixelKind::Luma => DynamicImage::ImageLuma16(ImageBuffer::from_raw(w, h, s).unwrap()),
        PixelKind::LumaAlpha => DynamicImage::ImageLumaA16(ImageBuffer::from_raw(w, h, s).unwrap()),
        PixelKind::Rgb => DynamicImage::ImageRgb16(ImageBuffer::from_raw(w, h, s).unwrap()),
        PixelKind::Rgba => DynamicImage::ImageRgba16(ImageBuffer::from_raw(w, h, s).unwrap()),
    };
    image.to_rgb8().into_raw()
}

/// Calls `image::DynamicImage::fliph` on samples of eight bits. The result is mirrored left to right.
#[verifier::external_body]
pub(crate) fn fliph_eight(kind: PixelKind, w: u32, h: u32, s: Vec<u8>) -> (out: Vec<u8>)
    requires
        is_whole(kind, w as int, h as int, s@.len()),
    ensures
        byte_levels(out@) == flipped(kind.channels(), w as int, byte_levels(s@)),
{
    let image: DynamicImage = match kind {
        PixelKind::Luma => GrayImage::from_raw(w, h, s).unwrap().into(),
        PixelKind::LumaAlpha => GrayAlphaImage::from_raw(w, h, s).unwrap().into(),
        PixelKind::Rgb => RgbImage::from_raw(w, h, s).unwrap().into(),
        PixelKind::Rgba => RgbaImage::from_raw(w, h, s).unwrap().into(),
    };
    image.fliph().into_bytes()
}

/// Calls `image::DynamicImage::fliph` on samples of sixteen bits. It claims the same as
/// [`fliph_eight`] does.
#[verifier::external_body]
pub(crate) fn fliph_sixteen(kind: PixelKind, w: u32, h: u32, s: Vec<u16>) -> (out: Vec<u16>)
    requires
        is_whole(kind, w as int, h as int, s@.len()),
    ensures
        word_levels(out@) == flipped(kind.channels(), w as int, word_levels(s@)),
{
    let image = match kind {
        PixelKind::Luma => DynamicImage::ImageLuma16(ImageBuffer::from_raw(w, h, s).unwrap()),
        PixelKind::LumaAlpha => DynamicImage::ImageLumaA16(ImageBuffer::from_raw(w, h, s).unwrap()),
        PixelKind::Rgb => DynamicImage::ImageRgb16(ImageBuffer::from_raw(w, h, s).unwrap()),
        PixelKind::Rgba => DynamicImage::ImageRgba16(ImageBuffer::from_raw(w, h, s).unwrap()),
    };
    match image.fliph() {
        DynamicImage::ImageLuma16(out) => out.into_raw(),
        DynamicImage::ImageLumaA16(out) => out.into_raw(),
        DynamicImage::ImageRgb16(out) => out.into_raw(),
        DynamicImage::ImageRgba16(out) => out.into_raw(),
        _ => Vec::new(),
    }
}

/// Calls `image::DynamicImage::brighten` on samples of eight bits. The result is brightened within
/// their range.
#[verifier::external_body]
pub(crate) fn brighten_eight(
    kind: PixelKind,
    w: u32,
    h: u32,
    s: Vec<u8>,
    value: i32,
) -> (out: Vec<u8>)
    requires
        is_whole(kind, w as int, h as int, s@.len()),
        value <= i32::MAX - BYTE_TOP,
    ensures
        byte_levels(out@) == brightened(kind, byte_levels(s@), value as int, BYTE_TOP as int),
{
    let image: DynamicImage = match kind {
        PixelKind::Luma => GrayImage::from_raw(w, h, s).unwrap().into(),
        PixelKind::LumaAlpha => GrayAlphaImage::from_raw(w, h, s).unwrap().into(),
        PixelKind::Rgb => RgbImage::from_raw(w, h, s).unwrap().into(),
        PixelKind::Rgba => RgbaImage::from_raw(w, h, s).unwrap().into(),
    };
    image.brighten(value).into_bytes()
}

/// Calls `image::DynamicImage::brighten` on samples of sixteen bits. It claims the same as
/// [`brighten_eight`] does.
#[verifier::external_body]
pub(crate) fn brighten_sixteen(
    kind: PixelKind,
    w: u32,
    h: u32,
    s: Vec<u16>,
    value: i32,
) -> (out: Vec<u16>)
    requires
        is_whole(kind, w as int, h as int, s@.len()),
        value <= i32::MAX - WORD_TOP,
    ensures
        word_levels(out@) == brightened(kind, word_levels(s@), value as int, WORD_TOP as int),
{
    let image = match kind {
        PixelKind::Luma => DynamicImage::ImageLuma16(ImageBuffer::from_raw(w, h, s).unwrap()),
        PixelKind::LumaAlpha => DynamicImage::ImageLumaA16(ImageBuffer::from_raw(w, h, s).unwrap()),
        PixelKind::Rgb => DynamicImage::ImageRgb16(ImageBuffer::from_raw(w, h, s).unwrap()),
        PixelKind::Rgba => DynamicImage::ImageRgba16(ImageBuffer::from_raw(w, h, s).unwrap()),
    };
    match image.brighten(value) {
        DynamicImage::ImageLuma16(out) => out.into_raw(),
        DynamicImage::ImageLumaA16(out) => out.into_raw(),
        DynamicImage::ImageRgb16(out) => out.into_raw(),
        DynamicImage::ImageRgba16(out) => out.into_raw(),
        _ => Vec::new(),
    }
}

/// Calls `image::DynamicImage::grayscale` on samples of eight bits. The result is grey, with the
/// opacities of the image.
#[verifier::external_body]
pub(crate) fn grayscale_eight(kind: PixelKind, w: u32, h: u32, s: Vec<u8>) -> (out: Vec<u8>)
    requires
        is_whole(kind, w as int, h as int, s@.len()),
    ensures
        byte_levels(out@) == grey(kind, (w * h) as nat, byte_levels(s@)),
{
    let image: DynamicImage = match kind {
        PixelKind::Luma => GrayImage::from_raw(w, h, s).unwrap().into(),
        PixelKind::LumaAlpha => GrayAlphaImage::from_raw(w, h, s).unwrap().into(),
        PixelKind::Rgb => RgbImage::from_raw(w, h, s).unwrap().into(),
        PixelKind::Rgba => RgbaImage::from_raw(w, h, s).unwrap().into(),
    };
    image.grayscale().into_bytes()
}

/// Calls `image::DynamicImage::grayscale` on samples of sixteen bits. It claims the same as
/// [`grayscale_eight`] does.
#[verifier::external_body]
pub(crate) fn grayscale_sixteen(kind: PixelKind, w: u32, h: u32, s: Vec<u16>) -> (out: Vec<u16>)
    requires
        is_whole(kind, w as int, h as int, s@.len()),
    ensures
        word_levels(out@) == grey(kind, (w * h) as nat, word_levels(s@)),
{
    let image = match kind {
        PixelKind::Luma => DynamicImage::ImageLuma16(ImageBuffer::from_raw(w, h, s).unwrap()),
        PixelKind::LumaAlpha => DynamicImage::ImageLumaA16(ImageBuffer::from_raw(w, h, s).unwrap()),
        PixelKind::Rgb => DynamicImage::ImageRgb16(ImageBuffer::from_raw(w, h, s).unwrap()),
        PixelKind::Rgba => DynamicImage::ImageRgba16(ImageBuffer::from_raw(w, h, s).unwrap()),
    };
    match image.grayscale() {
        DynamicImage::ImageLuma16(out) => out.into_raw(),
        DynamicImage::ImageLumaA16(out) => out.into_raw(),
        DynamicImage::ImageRgb16(out) => out.into_raw(),
        DynamicImage::ImageRgba16(out) => out.into_raw(),
        _ => Vec::new(),
    }
}

/// Calls `image::DynamicImage::huerotate` on samples of eight bits. The result has the same size, no
/// sample above 255, and keeps the opacities of colours. What else its samples are is left unsaid:
/// they rest on sine and cosine, whose precision is open between machines.
#[verifier::external_body]
pub(crate) fn huerotate_eight(
    kind: PixelKind,
    w: u32,
    h: u32,
    s: Vec<u8>,
    degrees: i32,
) -> (out: Vec<u8>)
    requires
        is_whole(kind, w as int, h as int, s@.len()),
    ensures
        is_whole(kind, w as int, h as int, out@.len()),
        forall|i: int| 0 <= i < out@.len() ==> (#[trigger] out@[i]) <= 255,
        kind == PixelKind::Rgba ==> forall|i: int|
            0 <= i < out@.len() && is_opacity(kind, i) ==> #[trigger] out@[i] == vstd::math::min(
                s@[i] as int,
                255,
            ),
{
    let image: DynamicImage = match kind {
        PixelKind::Luma => GrayImage::from_raw(w, h, s).unwrap().into(),
        PixelKind::LumaAlpha => GrayAlphaImage::from_raw(w, h, s).unwrap().into(),
        PixelKind::Rgb => RgbImage::from_raw(w, h, s).unwrap().into(),
        PixelKind::Rgba => RgbaImage::from_raw(w, h, s).unwrap().into(),
    };
    image.huerotate(degrees).into_bytes()
}

/// Calls `image::DynamicImage::huerotate` on samples of sixteen bits, which come out no higher than
/// those of eight. It claims the same as [`huerotate_eight`] does.
#[verifier::external_body]
pub(crate) fn huerotate_sixteen(
    kind: PixelKind,
    w: u32,
    h: u32,
    s: Vec<u16>,
    degrees: i32,
) -> (out: Vec<u16>)
    requires
        is_whole(kind, w as int, h as int, s@.len()),
    ensures
        is_whole(kind, w as int, h as int, out@.len()),
        forall|i: int| 0 <= i < out@.len() ==> (#[trigger] out@[i]) <= 255,
        kind == PixelKind::Rgba ==> forall|i: int|
            0 <= i < out@.len() && is_opacity(kind, i) ==> #[trigger] out@[i] == vstd::math::min(
                s@[i] as int,
                255,
            ),
{
    let image = match kind {
        PixelKind::Luma => DynamicImage::ImageLuma16(ImageBuffer::from_raw(w, h, s).unwrap()),
        PixelKind::LumaAlpha => DynamicImage::ImageLumaA16(ImageBuffer::from_raw(w, h, s).unwrap()),
        PixelKind::Rgb => DynamicImage::ImageRgb16(ImageBuffer::from_raw(w, h, s).unwrap()),
        PixelKind::Rgba => DynamicImage::ImageRgba16(ImageBuffer::from_raw(w, h, s).unwrap()),
    };
    match image.huerotate(degrees) {
        DynamicImage::ImageLuma16(out) => out.into_raw(),
        DynamicImage::ImageLumaA16(out) => out.into_raw(),
        DynamicImage::ImageRgb16(out) => out.into_raw(),
        DynamicImage::ImageRgba16(out) => out.into_raw(),
        _ => Vec::new(),
    }
}

} // verus!
