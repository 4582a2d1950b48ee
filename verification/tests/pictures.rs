use burn_dragon_vision::augment::{AugmentChange, AugmentStage};
use burn_dragon_vision::config::ImageNetSplit;
use burn_dragon_vision::frames::FrameBatch;
use burn_dragon_vision::picture::{
    change_picture, to_rgb8, Picture, PictureChange, PixelKind, Samples,
};
use burn_dragon_vision::pixels::{
    centre_crop, centre_offset, crop_overlap_areas, crop_overlap_ratio, interleave_frame,
    place_crop, propose_crop, push_crop_normalized, select_view_crop, select_view_crops, solarize,
    split_planes, CropParams, CropProposal, ImageNetAugmentations, CROP_ATTEMPTS,
};
use burn_dragon_vision::scalar::Single;
use image::imageops::FilterType;
use image::{DynamicImage, GrayAlphaImage, GrayImage, ImageBuffer, RgbImage, RgbaImage};
use rand::rngs::StdRng;
use rand::SeedableRng;

fn single(value: f32) -> Single {
    Single { bits: value.to_bits() }
}

fn crop(x: u32, y: u32, width: u32, height: u32) -> CropParams {
    CropParams { x, y, width, height }
}

fn settings(split: ImageNetSplit) -> ImageNetAugmentations {
    ImageNetAugmentations::new(
        split,
        8,
        10,
        single(0.2),
        single(1.0),
        single(0.75),
        single(1.333),
        single(0.5),
        single(0.8),
        single(0.4),
        single(0.0),
        single(0.2),
        single(0.1),
        single(0.2),
        single(0.5),
        single(0.1),
        single(2.0),
        single(0.2),
        128,
    )
}

#[test]
fn settings_keep_their_places() {
    let kept = settings(ImageNetSplit::Train);
    assert_eq!((kept.image_size, kept.resize_short, kept.image_size()), (8, 10, 8));
    assert_eq!((kept.min_scale, kept.max_scale), (single(0.2), single(1.0)));
    assert_eq!((kept.min_aspect_ratio, kept.max_aspect_ratio), (single(0.75), single(1.333)));
    assert_eq!((kept.flip_prob, kept.color_jitter_prob), (single(0.5), single(0.8)));
    assert_eq!((kept.brightness, kept.contrast), (single(0.4), single(0.0)));
    assert_eq!((kept.saturation, kept.hue), (single(0.2), single(0.1)));
    assert_eq!((kept.grayscale_prob, kept.blur_prob), (single(0.2), single(0.5)));
    assert_eq!((kept.blur_sigma_min, kept.blur_sigma_max), (single(0.1), single(2.0)));
    assert_eq!((kept.solarize_prob, kept.solarize_threshold), (single(0.2), 128));
}

fn bytes(count: usize) -> Vec<u8> {
    (0..count).map(|i| (i * 37 % 251) as u8).collect()
}

fn eight(kind: PixelKind, width: u32, height: u32, bytes: Vec<u8>) -> Picture {
    Picture { kind, width, height, samples: Samples::Eight(bytes) }
}

fn sixteen(kind: PixelKind, width: u32, height: u32, words: Vec<u16>) -> Picture {
    Picture { kind, width, height, samples: Samples::Sixteen(words) }
}

/// The same image in both depths.
fn pictures(kind: PixelKind, width: u32, height: u32) -> [Picture; 2] {
    let channels = match kind {
        PixelKind::Luma => 1,
        PixelKind::LumaAlpha => 2,
        PixelKind::Rgb => 3,
        PixelKind::Rgba => 4,
    };
    let count = (width * height) as usize * channels;
    let words = (0..count).map(|i| (i * 7919 % 65521) as u16).collect();
    [eight(kind, width, height, bytes(count)), sixteen(kind, width, height, words)]
}

fn dynamic(picture: &Picture) -> DynamicImage {
    let (w, h) = (picture.width, picture.height);
    match (&picture.samples, picture.kind) {
        (Samples::Eight(s), PixelKind::Luma) => {
            GrayImage::from_raw(w, h, s.clone()).unwrap().into()
        }
        (Samples::Eight(s), PixelKind::LumaAlpha) => {
            GrayAlphaImage::from_raw(w, h, s.clone()).unwrap().into()
        }
        (Samples::Eight(s), PixelKind::Rgb) => {
            RgbImage::from_raw(w, h, s.clone()).unwrap().into()
        }
        (Samples::Eight(s), PixelKind::Rgba) => {
            RgbaImage::from_raw(w, h, s.clone()).unwrap().into()
        }
        (Samples::Sixteen(s), PixelKind::Luma) => {
            DynamicImage::ImageLuma16(ImageBuffer::from_raw(w, h, s.clone()).unwrap())
        }
        (Samples::Sixteen(s), PixelKind::LumaAlpha) => {
            DynamicImage::ImageLumaA16(ImageBuffer::from_raw(w, h, s.clone()).unwrap())
        }
        (Samples::Sixteen(s), PixelKind::Rgb) => {
            DynamicImage::ImageRgb16(ImageBuffer::from_raw(w, h, s.clone()).unwrap())
        }
        (Samples::Sixteen(s), PixelKind::Rgba) => {
            DynamicImage::ImageRgba16(ImageBuffer::from_raw(w, h, s.clone()).unwrap())
        }
    }
}

fn bytes_of(picture: &Picture) -> &Vec<u8> {
    match &picture.samples {
        Samples::Eight(bytes) => bytes,
        Samples::Sixteen(_) => panic!("samples of eight bits"),
    }
}

const KINDS: [PixelKind; 4] =
    [PixelKind::Luma, PixelKind::LumaAlpha, PixelKind::Rgb, PixelKind::Rgba];

#[test]
fn overlap_areas_count_shared_pixels() {
    let a = crop(0, 0, 4, 4);
    let b = crop(2, 1, 4, 2);
    assert_eq!(crop_overlap_areas(&a, &b), (4, 8));
    assert_eq!(crop_overlap_areas(&b, &a), (4, 8));
    assert_eq!(crop_overlap_areas(&a, &a), (16, 16));
    assert_eq!(crop_overlap_areas(&a, &crop(4, 0, 3, 3)), (0, 9));
    assert_eq!(crop_overlap_areas(&a, &crop(0, 0, 0, 5)), (0, 1));
}

#[test]
fn overlap_ratio_is_the_share_of_the_smaller_crop() {
    let a = crop(0, 0, 3, 3);
    let b = crop(1, 1, 7, 9);
    assert_eq!(crop_overlap_ratio(&a, &b).bits, (4.0f32 / 9.0).to_bits());
    assert_eq!(crop_overlap_ratio(&b, &b).bits, 1.0f32.to_bits());
    assert_eq!(crop_overlap_ratio(&a, &crop(5, 5, 1, 1)).bits, 0);
}

#[test]
fn normalised_crops_are_shares_of_the_image() {
    let mut buffer = vec![single(9.0)];
    push_crop_normalized(&mut buffer, &crop(1, 2, 3, 4), 10, 7);
    let expected = [9.0, 1.0 / 10.0, 2.0 / 7.0, 3.0 / 10.0, 4.0 / 7.0];
    assert_eq!(buffer, expected.map(single).to_vec());
    let mut empty = Vec::new();
    push_crop_normalized(&mut empty, &crop(3, 0, 2, 1), 0, 0);
    assert_eq!(empty, [3.0, 0.0, 2.0, 1.0].map(single).to_vec());
}

#[test]
fn placed_crops_fit_the_image() {
    let mut rng = StdRng::seed_from_u64(3);
    for _ in 0..50 {
        let placed = place_crop(9, 6, 4, 5, &mut rng).unwrap();
        assert_eq!((placed.width, placed.height), (4, 5));
        assert!(placed.x <= 5 && placed.y <= 1);
    }
    assert_eq!(place_crop(9, 6, 0, 5, &mut rng), None);
    assert_eq!(place_crop(9, 6, 10, 5, &mut rng), None);
    assert_eq!(place_crop(9, 6, 4, 7, &mut rng), None);
    assert_eq!(place_crop(9, 6, 9, 6, &mut rng), Some(crop(0, 0, 9, 6)));
}

#[test]
fn centred_squares_are_taken_last() {
    assert_eq!(centre_crop(9, 6), crop(1, 0, 6, 6));
    assert_eq!(centre_crop(4, 9), crop(0, 2, 4, 4));
    let mut rng = StdRng::seed_from_u64(1);
    assert_eq!(
        propose_crop(0, 9, 6, 10, 1, &mut rng),
        CropProposal::Again { attempt: 1 }
    );
    assert_eq!(
        propose_crop(CROP_ATTEMPTS - 1, 9, 6, 10, 1, &mut rng),
        CropProposal::Taken(crop(1, 0, 6, 6))
    );
    assert_eq!(
        propose_crop(4, 9, 6, 9, 6, &mut rng),
        CropProposal::Taken(crop(0, 0, 9, 6))
    );
}

#[test]
fn centre_offsets_round_down() {
    assert_eq!(centre_offset(11, 8), 1);
    assert_eq!(centre_offset(8, 8), 0);
    assert_eq!(centre_offset(5, 8), 0);
}

#[test]
fn view_crops_overlap_the_primary_one() {
    let primary = crop(0, 0, 4, 4);
    let far = crop(10, 10, 4, 4);
    let near = crop(1, 0, 4, 4);
    assert_eq!(select_view_crop(primary, &[far, near], single(0.5)), near);
    assert_eq!(select_view_crop(primary, &[far], single(0.5)), primary);
    assert_eq!(select_view_crop(primary, &[near], single(0.75)), near);
    assert_eq!(select_view_crop(primary, &[near], single(0.76)), primary);
    assert_eq!(
        select_view_crops(primary, &vec![vec![far, near], vec![]], single(0.1)),
        vec![primary, near, primary]
    );
}

#[test]
fn deterministic_settings_are_recognised() {
    assert!(settings(ImageNetSplit::Val).is_deterministic());
    assert!(!settings(ImageNetSplit::Train).is_deterministic());
    let mut plain = settings(ImageNetSplit::Train);
    plain.flip_prob = single(0.0);
    plain.color_jitter_prob = single(-1.0);
    plain.grayscale_prob = single(0.0);
    plain.blur_prob = single(0.0);
    plain.solarize_prob = single(0.0);
    plain.min_scale = single(1.0 - f32::EPSILON);
    plain.max_scale = single(1.0);
    plain.min_aspect_ratio = single(1.0);
    plain.max_aspect_ratio = single(1.0 + f32::EPSILON);
    assert!(plain.is_deterministic());
    assert_eq!(plain.image_size(), 8);
    for candidate in [0.999f32, 1.001, f32::NAN, -1.0] {
        plain.max_scale = single(candidate);
        assert!(!plain.is_deterministic());
    }
    for bits in 0x3f7f_fff0u32..0x3f80_0010 {
        plain.max_scale = Single { bits };
        let near = (f32::from_bits(bits) - 1.0).abs() <= f32::EPSILON;
        assert_eq!(plain.is_deterministic(), near);
    }
}

#[test]
fn deterministic_settings_change_nothing() {
    let mut plain = settings(ImageNetSplit::Train);
    plain.flip_prob = single(0.0);
    plain.color_jitter_prob = single(0.0);
    plain.grayscale_prob = single(0.0);
    plain.blur_prob = single(0.0);
    plain.solarize_prob = single(0.0);
    let mut stage = AugmentStage::Flip;
    while stage != AugmentStage::Done {
        assert!(!plain.asks(stage));
        let (change, next) = plain.apply_stage(stage, single(0.0));
        assert_eq!(change, AugmentChange::Keep);
        stage = next;
    }
}

#[test]
fn stages_follow_the_draws() {
    let aug = settings(ImageNetSplit::Train);
    assert!(aug.asks(AugmentStage::Flip));
    assert!(!aug.asks(AugmentStage::Hue));
    assert_eq!(
        aug.apply_stage(AugmentStage::Flip, single(0.49)),
        (AugmentChange::FlipHorizontally, AugmentStage::Jitter)
    );
    assert_eq!(
        aug.apply_stage(AugmentStage::Flip, single(0.5)),
        (AugmentChange::Keep, AugmentStage::Jitter)
    );
    assert_eq!(
        aug.apply_stage(AugmentStage::Jitter, single(0.9)),
        (AugmentChange::Keep, AugmentStage::Grayscale)
    );
    assert_eq!(
        aug.apply_stage(AugmentStage::Jitter, single(0.1)),
        (AugmentChange::Keep, AugmentStage::Brightness)
    );
    assert_eq!(
        aug.apply_stage(AugmentStage::Brightness, single(0.0)),
        (AugmentChange::Brighten { amount: single(0.4) }, AugmentStage::Contrast)
    );
    assert_eq!(
        aug.apply_stage(AugmentStage::Contrast, single(0.0)),
        (AugmentChange::Keep, AugmentStage::Saturation)
    );
    assert_eq!(
        aug.apply_stage(AugmentStage::Saturation, single(0.0)).0,
        AugmentChange::AdjustSaturation { amount: single(0.2) }
    );
    assert_eq!(
        aug.apply_stage(AugmentStage::Hue, single(0.0)),
        (AugmentChange::RotateHue { amount: single(0.1) }, AugmentStage::Grayscale)
    );
    assert_eq!(
        aug.apply_stage(AugmentStage::Grayscale, single(0.1)),
        (AugmentChange::Grayscale, AugmentStage::Blur)
    );
    assert_eq!(
        aug.apply_stage(AugmentStage::Blur, single(0.1)),
        (
            AugmentChange::Blur { sigma_min: single(0.1), sigma_max: single(2.0) },
            AugmentStage::Solarize
        )
    );
    assert_eq!(
        aug.apply_stage(AugmentStage::Solarize, single(0.1)),
        (AugmentChange::Solarize { threshold: 128 }, AugmentStage::Done)
    );
    let mut flat = aug;
    flat.blur_sigma_min = single(-3.0);
    flat.blur_sigma_max = single(-1.0);
    assert_eq!(
        flat.apply_stage(AugmentStage::Blur, single(0.1)),
        (AugmentChange::Keep, AugmentStage::Solarize)
    );
}

#[test]
fn validation_sizes_match_single_precision() {
    let mut aug = settings(ImageNetSplit::Val);
    for (resize_short, image_size) in [(256u32, 224u32), (10, 8), (1, 64), (0, 5)] {
        aug.resize_short = resize_short;
        aug.image_size = image_size;
        for (width, height) in [(500u32, 375u32), (375, 500), (33, 1000), (7, 7), (1, 1), (40000, 3)] {
            let target = resize_short.max(1);
            let (new_width, new_height) = if width < height {
                (target, (height as f32 * (target as f32 / width as f32)).round() as u32)
            } else {
                ((width as f32 * (target as f32 / height as f32)).round() as u32, target)
            };
            assert_eq!(aug.val_size(width, height), (new_width, new_height));

            let scale = target as f32 / width.min(height).max(1) as f32;
            let crop_x = (new_width.saturating_sub(image_size)) / 2;
            let crop_y = (new_height.saturating_sub(image_size)) / 2;
            let side = (image_size as f32 / scale).round().max(1.0);
            let x = (crop_x as f32 / scale).round().max(0.0);
            let y = (crop_y as f32 / scale).round().max(0.0);
            let (max_w, max_h) = (width as f32, height as f32);
            let expected = crop(
                x.min(max_w - 1.0).max(0.0) as u32,
                y.min(max_h - 1.0).max(0.0) as u32,
                side.min(max_w).max(1.0) as u32,
                side.min(max_h).max(1.0) as u32,
            );
            assert_eq!(aug.val_crop_params(width, height), expected);
        }
    }
}

#[test]
fn validation_views_match_the_image_library() {
    let aug = settings(ImageNetSplit::Val);
    for kind in KINDS {
        for (width, height) in [(17u32, 12u32), (9, 20), (10, 10)] {
            for source in pictures(kind, width, height) {
                let (new_width, new_height) = aug.val_size(width, height);
                let expected = dynamic(&source)
                    .resize_exact(new_width, new_height, FilterType::CatmullRom)
                    .crop_imm((new_width - 8) / 2, (new_height - 8) / 2, 8, 8)
                    .to_rgb8();
                let view = aug.apply_val(&source);
                assert_eq!((view.width, view.height), (8, 8));
                assert_eq!(view.bytes, expected.into_raw());
            }
        }
    }
}

#[test]
fn centre_views_are_cut_off_at_the_edges() {
    let mut aug = settings(ImageNetSplit::Val);
    aug.image_size = 2;
    let source = vec![1, 2, 3, 9, 4, 5, 6, 9, 7, 8, 10, 9, 11, 12, 13, 9];
    let view = aug.centre_view(&eight(PixelKind::Rgba, 4, 1, source.clone()));
    assert_eq!((view.width, view.height), (2, 1));
    assert_eq!(view.bytes, vec![4, 5, 6, 7, 8, 10]);
    let deep = source.iter().map(|v| *v as u16 * 257).collect();
    let view = aug.centre_view(&sixteen(PixelKind::Rgba, 4, 1, deep));
    assert_eq!(view.bytes, vec![4, 5, 6, 7, 8, 10]);
}

#[test]
fn crops_are_resized_to_the_square() {
    let aug = settings(ImageNetSplit::Train);
    for kind in KINDS {
        for source in pictures(kind, 13, 11) {
            let area = crop(2, 3, 20, 5);
            let expected = dynamic(&source)
                .crop_imm(2, 3, 20, 5)
                .resize_exact(8, 8, FilterType::CatmullRom);
            let view = aug.apply_crop(&source, &area);
            assert_eq!(view.kind, kind);
            assert_eq!((view.width, view.height), (8, 8));
            assert_eq!(dynamic(&view), expected);
        }
    }
}

#[test]
fn a_crop_of_the_right_size_is_kept() {
    let aug = settings(ImageNetSplit::Train);
    let [_, source] = pictures(PixelKind::Luma, 9, 8);
    let view = aug.apply_crop(&source, &crop(1, 0, 8, 8));
    let Samples::Sixteen(words) = &source.samples else { panic!("samples of sixteen bits") };
    let expected: Vec<u16> = words.chunks(9).flat_map(|row| row[1..].to_vec()).collect();
    assert_eq!(view.samples, Samples::Sixteen(expected));
}

#[test]
fn changes_match_the_image_library() {
    for kind in KINDS {
        for source in pictures(kind, 7, 5) {
            let image = dynamic(&source);
            let check = |change: PictureChange, expected: DynamicImage| {
                let changed = change_picture(&source, change);
                assert_eq!(dynamic(&changed), expected, "{kind:?} {change:?}");
            };
            check(PictureChange::FlipHorizontally, image.fliph());
            for value in [-300, -40, 0, 40, 300, 70000, i32::MAX - 0xffff, i32::MIN] {
                check(PictureChange::Brighten { value }, image.brighten(value));
            }
            for degrees in [0, 90, -45, 1000] {
                check(PictureChange::RotateHue { degrees }, image.huerotate(degrees));
            }
            check(PictureChange::Grayscale, image.grayscale());
            let rgb = to_rgb8(&source);
            assert_eq!(rgb.bytes, image.to_rgb8().into_raw());
        }
    }
}

#[test]
fn flips_mirror_rows() {
    let b = bytes(12);
    let source = eight(PixelKind::LumaAlpha, 3, 2, b.clone());
    let flipped = change_picture(&source, PictureChange::FlipHorizontally);
    assert_eq!(
        bytes_of(&flipped),
        &vec![b[4], b[5], b[2], b[3], b[0], b[1], b[10], b[11], b[8], b[9], b[6], b[7]]
    );
    let twice = change_picture(&flipped, PictureChange::FlipHorizontally);
    assert_eq!(bytes_of(&twice), &b);
}

#[test]
fn brightening_stays_in_range_and_keeps_opacity() {
    let source = eight(PixelKind::Rgba, 1, 2, vec![250, 10, 100, 7, 0, 255, 128, 200]);
    let brighter = change_picture(&source, PictureChange::Brighten { value: 20 });
    assert_eq!(bytes_of(&brighter), &vec![255, 30, 120, 7, 20, 255, 148, 200]);
    let darker = change_picture(&source, PictureChange::Brighten { value: -120 });
    assert_eq!(bytes_of(&darker), &vec![130, 0, 0, 7, 0, 135, 8, 200]);
    let deep = sixteen(PixelKind::LumaAlpha, 2, 1, vec![65530, 7, 100, 9]);
    let brighter = change_picture(&deep, PictureChange::Brighten { value: 20 });
    assert_eq!(brighter.samples, Samples::Sixteen(vec![65535, 7, 120, 9]));
}

#[test]
fn rotated_hues_keep_the_form_and_the_opacity() {
    let source = eight(PixelKind::Rgba, 1, 1, vec![200, 10, 60, 7]);
    let turned = change_picture(&source, PictureChange::RotateHue { degrees: 120 });
    assert_eq!((turned.kind, turned.width, turned.height), (PixelKind::Rgba, 1, 1));
    assert_eq!(bytes_of(&turned)[3], 7);
    assert_ne!(bytes_of(&turned)[..3], [200, 10, 60]);
    let deep = sixteen(PixelKind::Rgba, 1, 1, vec![40000, 300, 200, 9000]);
    let turned = change_picture(&deep, PictureChange::RotateHue { degrees: 120 });
    let Samples::Sixteen(words) = turned.samples else { panic!("samples of sixteen bits") };
    assert_eq!(words[3], 255);
    assert!(words.iter().all(|word| *word <= 255));
}

#[test]
fn grey_images_hold_the_luminance() {
    let source = eight(PixelKind::Rgba, 2, 1, vec![255, 0, 0, 7, 10, 20, 30, 9]);
    let grey = change_picture(&source, PictureChange::Grayscale);
    assert_eq!(grey.kind, PixelKind::LumaAlpha);
    assert_eq!(bytes_of(&grey), &vec![54, 7, 18, 9]);
    let luma = change_picture(
        &sixteen(PixelKind::Rgb, 1, 1, vec![0, 65535, 65535]),
        PictureChange::Grayscale,
    );
    assert_eq!((luma.kind, luma.samples), (PixelKind::Luma, Samples::Sixteen(vec![51602])));
}

#[test]
fn sixteen_bits_are_rounded_to_eight() {
    let words: Vec<u16> = (0..=u16::MAX).collect();
    let expected: Vec<u8> = words.iter().map(|w| ((*w as u32 + 128) / 257) as u8).collect();
    let grey = to_rgb8(&sixteen(PixelKind::Luma, 256, 256, words.clone()));
    let opaque = words.iter().flat_map(|w| [*w, 5]).collect();
    let opaque = to_rgb8(&sixteen(PixelKind::LumaAlpha, 256, 256, opaque));
    for view in [grey, opaque] {
        assert!(view.bytes.chunks(3).zip(&expected).all(|(pixel, level)| pixel == [*level; 3]));
    }
    let colours = words.iter().flat_map(|w| [*w, 0, 65535 - *w]).collect();
    let colours = to_rgb8(&sixteen(PixelKind::Rgb, 256, 256, colours));
    for (k, pixel) in colours.bytes.chunks(3).enumerate() {
        assert_eq!(pixel, [expected[k], 0, expected[65535 - k]]);
    }
}

#[test]
fn solarised_images_are_rgb() {
    let levels: Vec<u8> = (0..=255).collect();
    let grey = eight(PixelKind::Luma, 256, 1, levels.clone());
    let changed = change_picture(&grey, PictureChange::Solarize { threshold: 127 });
    assert_eq!(changed.kind, PixelKind::Rgb);
    for level in levels {
        let expected = if level > 127 { 255 - level } else { level };
        let at = 3 * level as usize;
        assert_eq!(&bytes_of(&changed)[at..at + 3], &[expected; 3]);
    }
    let opaque = eight(PixelKind::LumaAlpha, 2, 1, vec![5, 1, 9, 2]);
    let plain = change_picture(&opaque, PictureChange::Solarize { threshold: 255 });
    assert_eq!(bytes_of(&plain), &vec![5, 5, 5, 9, 9, 9]);
    let deep = sixteen(PixelKind::Luma, 1, 1, vec![257 * 200]);
    let changed = change_picture(&deep, PictureChange::Solarize { threshold: 127 });
    assert_eq!(bytes_of(&changed), &vec![55; 3]);
}

#[test]
fn solarising_twice_above_half_changes_nothing_more() {
    let mut values: Vec<u8> = (0..=255).collect();
    solarize(&mut values, 200);
    assert_eq!((values[200], values[201], values[255]), (200, 54, 0));
    let once = values.clone();
    solarize(&mut values, 200);
    assert_eq!(values, once);
}

#[test]
fn planes_hold_one_channel_each() {
    assert_eq!(split_planes(&[1, 2, 3, 4, 5, 6]), vec![1, 4, 2, 5, 3, 6]);
    assert_eq!(split_planes(&[]), Vec::<u8>::new());
}

#[test]
fn frames_are_interleaved_for_display() {
    let frames = FrameBatch { batch: 2, channels: 3, height: 1, width: 2, data: (0..12).collect() };
    assert_eq!(interleave_frame(&frames, 1), vec![6, 8, 10, 7, 9, 11]);
    let grey = FrameBatch { batch: 1, channels: 1, height: 1, width: 2, data: vec![5u8, 6] };
    assert_eq!(interleave_frame(&grey, 0), vec![5, 5, 5, 6, 6, 6]);
    let two = FrameBatch { batch: 1, channels: 2, height: 1, width: 1, data: vec![5u8, 6] };
    assert_eq!(interleave_frame(&two, 0), vec![5, 6, 6]);
    let none = FrameBatch { batch: 1, channels: 0, height: 1, width: 1, data: Vec::<u8>::new() };
    assert_eq!(interleave_frame(&none, 0), vec![0, 0, 0]);
}
