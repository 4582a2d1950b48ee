//! Augmentations: the geometry of validation images, and which changes a training image gets.

use crate::binary32::{
    fixed_quotient, round_to_single, scale_factor, scaled_extent, scaled_extent_of,
    single_predecessor, single_rounded, unscaled_extent, unscaled_extent_of,
};
use crate::config::ImageNetSplit;
use crate::pixels::{centre_offset, CropParams, ImageNetAugmentations};
use crate::rollout::at_least_one;
use crate::scalar::Single;
use vstd::prelude::*;

verus! {

/// The number as a 32-bit one.
pub open spec fn as_u32(n: int) -> int {
    vstd::math::min(n, u32::MAX as int)
}

/// The size to which a validation image is resized: its shorter side becomes `target`.
pub open spec fn val_size_of(width: u32, height: u32, target: nat) -> (nat, nat) {
    if width < height {
        (target, scaled_extent_of(height as nat, target, width as nat))
    } else {
        (scaled_extent_of(width as nat, target, height as nat), target)
    }
}

/// Where the centred square begins along one side.
pub open spec fn centre_offset_of(extent: int, image_size: int) -> int {
    if extent < image_size {
        0
    } else {
        (extent - image_size) / 2
    }
}

/// The rectangle of the original image that a validation image shows, in binary32 arithmetic.
pub open spec fn val_crop_of(
    augmentations: ImageNetAugmentations,
    width: u32,
    height: u32,
) -> CropParams {
    let target = at_least_one(augmentations.resize_short as int) as nat;
    let (new_width, new_height) = val_size_of(width, height, target);
    let shorter = vstd::math::min(width as int, height as int) as nat;
    let factor = fixed_quotient(round_to_single(target), round_to_single(shorter));
    let size = augmentations.image_size as int;
    let x = unscaled_extent_of(centre_offset_of(new_width as int, size) as nat, factor);
    let y = unscaled_extent_of(centre_offset_of(new_height as int, size) as nat, factor);
    let side = at_least_one(unscaled_extent_of(size as nat, factor) as int);
    let max_w = round_to_single(width as nat);
    let max_h = round_to_single(height as nat);
    CropParams {
        x: as_u32(vstd::math::min(x as int, round_to_single((max_w - 1) as nat) as int)) as u32,
        y: as_u32(vstd::math::min(y as int, round_to_single((max_h - 1) as nat) as int)) as u32,
        width: as_u32(vstd::math::min(side, max_w as int)) as u32,
        height: as_u32(vstd::math::min(side, max_h as int)) as u32,
    }
}

fn at_least_one_of(n: u32) -> (r: u32)
    ensures
        r == at_least_one(n as int),
{
    if n < 1 {
        1
    } else {
        n
    }
}

impl ImageNetAugmentations {
    /// The size to which a validation image is resized.
    pub fn val_size(&self, width: u32, height: u32) -> (size: (u32, u32))
        requires
            width >= 1,
            height >= 1,
        ensures
            (size.0 as nat, size.1 as nat) == val_size_of(
                width,
                height,
                at_least_one(self.resize_short as int) as nat,
            ),
    {
        let target: u32 = at_least_one_of(self.resize_short);
        if width < height {
            (target, scaled_extent(height, target, width))
        } else {
            (scaled_extent(width, target, height), target)
        }
    }

    /// The rectangle of the original image that a validation image shows.
    pub fn val_crop_params(&self, width: u32, height: u32) -> (crop: CropParams)
        requires
            width >= 1,
            height >= 1,
        ensures
            crop == val_crop_of(*self, width, height),
    {
        let target: u32 = at_least_one_of(self.resize_short);
        let (new_width, new_height) = self.val_size(width, height);
        let shorter: u32 = if width < height {
            width
        } else {
            height
        };
        let factor: u128 = scale_factor(target, shorter);
        let crop_x: u32 = centre_offset(new_width, self.image_size);
        let crop_y: u32 = centre_offset(new_height, self.image_size);
        let max_w: u32 = single_rounded(width);
        let max_h: u32 = single_rounded(height);
        proof {
            crate::binary32::lemma_single_is_positive(width as nat);
            crate::binary32::lemma_single_is_positive(height as nat);
        }
        CropParams {
            x: unscaled_extent(crop_x, factor, single_predecessor(width)),
            y: unscaled_extent(crop_y, factor, single_predecessor(height)),
            width: at_least_one_of(unscaled_extent(self.image_size, factor, max_w)),
            height: at_least_one_of(unscaled_extent(self.image_size, factor, max_h)),
        }
    }
}

/// A point in the fixed order of changes to a training image.
#[derive(Clone, Copy, Debug, PartialEq, Eq, Structural)]
pub enum AugmentStage {
    Flip,
    Jitter,
    Brightness,
    Contrast,
    Saturation,
    Hue,
    Grayscale,
    Blur,
    Solarize,
    Done,
}

/// A change to a training image. Amounts are drawn from the given range.
#[derive(Clone, Copy, Debug, PartialEq, Eq, Structural)]
pub enum AugmentChange {
    Keep,
    FlipHorizontally,
    /// By a share of the value range drawn from minus to plus `amount`.
    Brighten { amount: Single },
    AdjustContrast { amount: Single },
    AdjustSaturation { amount: Single },
    /// By a share of the half circle drawn from minus to plus `amount`.
    RotateHue { amount: Single },
    Grayscale,
    Blur { sigma_min: Single, sigma_max: Single },
    Solarize { threshold: u8 },
}

impl AugmentStage {
    /// The place of the stage in the order.
    pub open spec fn rank(self) -> int {
        match self {
            AugmentStage::Flip => 0,
            AugmentStage::Jitter => 1,
            AugmentStage::Brightness => 2,
            AugmentStage::Contrast => 3,
            AugmentStage::Saturation => 4,
            AugmentStage::Hue => 5,
            AugmentStage::Grayscale => 6,
            AugmentStage::Blur => 7,
            AugmentStage::Solarize => 8,
            AugmentStage::Done => 9,
        }
    }
}

/// The probability that guards a stage, where one does.
pub open spec fn guard_of(
    augmentations: ImageNetAugmentations,
    stage: AugmentStage,
) -> Option<Single> {
    match stage {
        AugmentStage::Flip => Some(augmentations.flip_prob),
        AugmentStage::Jitter => Some(augmentations.color_jitter_prob),
        AugmentStage::Grayscale => Some(augmentations.grayscale_prob),
        AugmentStage::Blur => Some(augmentations.blur_prob),
        AugmentStage::Solarize => Some(augmentations.solarize_prob),
        _ => None,
    }
}

/// Whether a stage asks for a draw: its probability is positive.
pub open spec fn asks_for_draw(augmentations: ImageNetAugmentations, stage: AugmentStage) -> bool {
    match guard_of(augmentations, stage) {
        Some(probability) => Single::zero().lt(probability),
        None => false,
    }
}

/// Whether a guarded stage happens: it asked for a draw, and the draw is below its probability.
pub open spec fn happens(
    augmentations: ImageNetAugmentations,
    stage: AugmentStage,
    draw: Single,
) -> bool {
    asks_for_draw(augmentations, stage) && draw.lt(guard_of(augmentations, stage)->0)
}

/// The range of the blur's width: its lower end is not negative, its upper end not below that.
pub open spec fn blur_range(augmentations: ImageNetAugmentations) -> (Single, Single) {
    let low = augmentations.blur_sigma_min.clamped_at_zero();
    (
        low,
        if low.lt(augmentations.blur_sigma_max) {
            augmentations.blur_sigma_max
        } else {
            low
        },
    )
}

/// The change of an amount that is drawn, where the amount is positive.
pub open spec fn if_positive(amount: Single, change: AugmentChange) -> AugmentChange {
    if Single::zero().lt(amount) {
        change
    } else {
        AugmentChange::Keep
    }
}

/// What a stage does, and which one follows. Without jitter its four changes are passed over.
pub open spec fn stage_step(
    augmentations: ImageNetAugmentations,
    stage: AugmentStage,
    draw: Single,
) -> (AugmentChange, AugmentStage) {
    let yes = happens(augmentations, stage, draw);
    match stage {
        AugmentStage::Flip => (
            if yes {
                AugmentChange::FlipHorizontally
            } else {
                AugmentChange::Keep
            },
            AugmentStage::Jitter,
        ),
        AugmentStage::Jitter => (
            AugmentChange::Keep,
            if yes {
                AugmentStage::Brightness
            } else {
                AugmentStage::Grayscale
            },
        ),
        AugmentStage::Brightness => (
            if_positive(
                augmentations.brightness,
                AugmentChange::Brighten { amount: augmentations.brightness },
            ),
            AugmentStage::Contrast,
        ),
        AugmentStage::Contrast => (
            if_positive(
                augmentations.contrast,
                AugmentChange::AdjustContrast { amount: augmentations.contrast },
            ),
            AugmentStage::Saturation,
        ),
        AugmentStage::Saturation => (
            if_positive(
                augmentations.saturation,
                AugmentChange::AdjustSaturation { amount: augmentations.saturation },
            ),
            AugmentStage::Hue,
        ),
        AugmentStage::Hue => (
            if_positive(
                augmentations.hue,
                AugmentChange::RotateHue { amount: augmentations.hue },
            ),
            AugmentStage::Grayscale,
        ),
        AugmentStage::Grayscale => (
            if yes {
                AugmentChange::Grayscale
            } else {
                AugmentChange::Keep
            },
            AugmentStage::Blur,
        ),
        AugmentStage::Blur => {
            let (sigma_min, sigma_max) = blur_range(augmentations);
            (
                if yes {
                    if_positive(sigma_max, AugmentChange::Blur { sigma_min, sigma_max })
                } else {
                    AugmentChange::Keep
                },
                AugmentStage::Solarize,
            )
        },
        AugmentStage::Solarize => (
            if yes {
                AugmentChange::Solarize { threshold: augmentations.solarize_threshold }
            } else {
                AugmentChange::Keep
            },
            AugmentStage::Done,
        ),
        AugmentStage::Done => (AugmentChange::Keep, AugmentStage::Done),
    }
}

fn amount_or_keep(amount: Single, change: AugmentChange) -> (r: AugmentChange)
    ensures
        r == if_positive(amount, change),
{
    if amount.is_positive() {
        change
    } else {
        AugmentChange::Keep
    }
}

impl ImageNetAugmentations {
    fn guard(&self, stage: AugmentStage) -> (r: Option<Single>)
        ensures
            r == guard_of(*self, stage),
    {
        match stage {
            AugmentStage::Flip => Some(self.flip_prob),
            AugmentStage::Jitter => Some(self.color_jitter_prob),
            AugmentStage::Grayscale => Some(self.grayscale_prob),
            AugmentStage::Blur => Some(self.blur_prob),
            AugmentStage::Solarize => Some(self.solarize_prob),
            _ => None,
        }
    }

    /// Whether a stage asks for a draw.
    pub fn asks(&self, stage: AugmentStage) -> (r: bool)
        ensures
            r == asks_for_draw(*self, stage),
    {
        match self.guard(stage) {
            Some(probability) => probability.is_positive(),
            None => false,
        }
    }

    /// What a stage does, and which one follows. The draw is read only where the stage asks for one.
    pub fn apply_stage(&self, stage: AugmentStage, draw: Single) -> (r: (
        AugmentChange,
        AugmentStage,
    ))
        ensures
            r == stage_step(*self, stage, draw),
    {
        let yes: bool = match self.guard(stage) {
            Some(probability) => probability.is_positive() && draw.less_than(probability),
            None => false,
        };
        match stage {
            AugmentStage::Flip => (
                if yes {
                    AugmentChange::FlipHorizontally
                } else {
                    AugmentChange::Keep
                },
                AugmentStage::Jitter,
            ),
            AugmentStage::Jitter => (
                AugmentChange::Keep,
                if yes {
                    AugmentStage::Brightness
                } else {
                    AugmentStage::Grayscale
                },
            ),
            AugmentStage::Brightness => (
                amount_or_keep(
                    self.brightness,
                    AugmentChange::Brighten { amount: self.brightness },
                ),
                AugmentStage::Contrast,
            ),
            AugmentStage::Contrast => (
                amount_or_keep(
                    self.contrast,
                    AugmentChange::AdjustContrast { amount: self.contrast },
                ),
                AugmentStage::Saturation,
            ),
            AugmentStage::Saturation => (
                amount_or_keep(
                    self.saturation,
                    AugmentChange::AdjustSaturation { amount: self.saturation },
                ),
                AugmentStage::Hue,
            ),
            AugmentStage::Hue => (
                amount_or_keep(self.hue, AugmentChange::RotateHue { amount: self.hue }),
                AugmentStage::Grayscale,
            ),
            AugmentStage::Grayscale => (
                if yes {
                    AugmentChange::Grayscale
                } else {
                    AugmentChange::Keep
                },
                AugmentStage::Blur,
            ),
            AugmentStage::Blur => {
                let sigma_min = self.blur_sigma_min.or_zero();
                let sigma_max = if sigma_min.less_than(self.blur_sigma_max) {
                    self.blur_sigma_max
                } else {
                    sigma_min
                };
                (
                    if yes {
                        amount_or_keep(sigma_max, AugmentChange::Blur { sigma_min, sigma_max })
                    } else {
                        AugmentChange::Keep
                    },
                    AugmentStage::Solarize,
                )
            },
            AugmentStage::Solarize => (
                if yes {
                    AugmentChange::Solarize { threshold: self.solarize_threshold }
                } else {
                    AugmentChange::Keep
                },
                AugmentStage::Done,
            ),
            AugmentStage::Done => (AugmentChange::Keep, AugmentStage::Done),
        }
    }
}

/// The stages are passed in one order: every stage but the last leads to a later one.
pub proof fn law_stages_advance(
    augmentations: ImageNetAugmentations,
    stage: AugmentStage,
    draw: Single,
)
    ensures
        stage != AugmentStage::Done ==> stage_step(augmentations, stage, draw).1.rank()
            > stage.rank(),
        stage == AugmentStage::Done ==> stage_step(augmentations, stage, draw) == (
            AugmentChange::Keep,
            AugmentStage::Done,
        ),
{
}

/// The stage reached after a list of draws.
pub open spec fn stage_after(augmentations: ImageNetAugmentations, draws: Seq<Single>) -> AugmentStage
    decreases draws.len(),
{
    if draws.len() == 0 {
        AugmentStage::Flip
    } else {
        stage_step(
            augmentations,
            stage_after(augmentations, draws.drop_last()),
            draws.last(),
        ).1
    }
}

/// Training settings under which nothing is drawn at random change no image: whatever the draws, no
/// stage that is reached asks for one or changes anything.
pub proof fn law_deterministic_settings_keep_images(
    augmentations: ImageNetAugmentations,
    draws: Seq<Single>,
    draw: Single,
)
    requires
        augmentations.split == ImageNetSplit::Train,
        augmentations.deterministic(),
    ensures
        ({
            let stage = stage_after(augmentations, draws);
            &&& !asks_for_draw(augmentations, stage)
            &&& stage_step(augmentations, stage, draw).0 == AugmentChange::Keep
        }),
    decreases draws.len(),
{
    if draws.len() > 0 {
        law_deterministic_settings_keep_images(augmentations, draws.drop_last(), draws.last());
        lemma_jitter_is_skipped(augmentations, draws.drop_last());
    }
    lemma_jitter_is_skipped(augmentations, draws);
}

proof fn lemma_jitter_is_skipped(augmentations: ImageNetAugmentations, draws: Seq<Single>)
    requires
        augmentations.color_jitter_prob.le(Single::zero()),
    ensures
        ({
            let stage = stage_after(augmentations, draws);
            !(stage is Brightness) && !(stage is Contrast) && !(stage is Saturation)
                && !(stage is Hue)
        }),
    decreases draws.len(),
{
    if draws.len() > 0 {
        lemma_jitter_is_skipped(augmentations, draws.drop_last());
    }
}

/// The changes that a stage guards by a probability happen exactly where the probability is positive
/// and the draw is below it; each stage makes its own change, with the settings of its own.
pub proof fn law_guarded_stages_make_their_change(
    augmentations: ImageNetAugmentations,
    draw: Single,
)
    ensures
        ({
            let change = |stage: AugmentStage| stage_step(augmentations, stage, draw).0;
            let below = |p: Single| p.rank() > 0 && !p.is_nan() && !draw.is_nan() && draw.rank()
                < p.rank();
            let a = augmentations;
            let widest = if a.blur_sigma_min.rank() < a.blur_sigma_max.rank() {
                a.blur_sigma_max.rank()
            } else {
                a.blur_sigma_min.rank()
            };
            &&& change(AugmentStage::Flip) == if below(a.flip_prob) {
                AugmentChange::FlipHorizontally
            } else {
                AugmentChange::Keep
            }
            &&& change(AugmentStage::Grayscale) == if below(a.grayscale_prob) {
                AugmentChange::Grayscale
            } else {
                AugmentChange::Keep
            }
            &&& change(AugmentStage::Solarize) == if below(a.solarize_prob) {
                AugmentChange::Solarize { threshold: a.solarize_threshold }
            } else {
                AugmentChange::Keep
            }
            &&& change(AugmentStage::Jitter) == AugmentChange::Keep
            &&& stage_step(a, AugmentStage::Jitter, draw).1 == AugmentStage::Brightness <==> below(
                a.color_jitter_prob,
            )
            &&& !below(a.blur_prob) ==> change(AugmentStage::Blur) == AugmentChange::Keep
            &&& below(a.blur_prob) && !a.blur_sigma_min.is_nan() && !a.blur_sigma_max.is_nan() ==> (
            change(AugmentStage::Blur) is Blur <==> widest > 0)
            &&& change(AugmentStage::Blur) matches AugmentChange::Blur { sigma_min, sigma_max } ==> {
                &&& sigma_min.rank() >= 0
                &&& sigma_max.rank() >= sigma_min.rank()
                &&& a.blur_sigma_min.rank() >= 0 && !a.blur_sigma_min.is_nan() ==> sigma_min.rank()
                    == a.blur_sigma_min.rank()
                &&& a.blur_sigma_max.rank() > sigma_min.rank() && !a.blur_sigma_max.is_nan()
                    ==> sigma_max.rank() == a.blur_sigma_max.rank()
            }
        }),
{
}

/// Where the jitter happens, each of its four changes with a positive amount is made, with its own
/// amount, whatever is drawn; one without is not.
pub proof fn law_jitter_makes_every_change(augmentations: ImageNetAugmentations, draw: Single)
    ensures
        ({
            let change = |stage: AugmentStage| stage_step(augmentations, stage, draw).0;
            let positive = |p: Single| p.rank() > 0 && !p.is_nan();
            let a = augmentations;
            &&& positive(a.brightness) ==> change(AugmentStage::Brightness)
                == (AugmentChange::Brighten { amount: a.brightness })
            &&& positive(a.contrast) ==> change(AugmentStage::Contrast)
                == (AugmentChange::AdjustContrast { amount: a.contrast })
            &&& positive(a.saturation) ==> change(AugmentStage::Saturation)
                == (AugmentChange::AdjustSaturation { amount: a.saturation })
            &&& positive(a.hue) ==> change(AugmentStage::Hue) == (AugmentChange::RotateHue {
                amount: a.hue,
            })
            &&& !positive(a.brightness) ==> change(AugmentStage::Brightness) == AugmentChange::Keep
            &&& !positive(a.contrast) ==> change(AugmentStage::Contrast) == AugmentChange::Keep
            &&& !positive(a.saturation) ==> change(AugmentStage::Saturation) == AugmentChange::Keep
            &&& !positive(a.hue) ==> change(AugmentStage::Hue) == AugmentChange::Keep
        }),
{
}

/// No stage is skipped: from the flip on the stages follow each other one by one to the last, but for
/// the four changes of the jitter, which are passed over together where it does not happen.
pub proof fn law_no_stage_is_skipped(
    augmentations: ImageNetAugmentations,
    stage: AugmentStage,
    draw: Single,
)
    ensures
        ({
            let next = stage_step(augmentations, stage, draw).1;
            &&& stage != AugmentStage::Jitter && stage != AugmentStage::Done ==> (match stage {
                AugmentStage::Flip => next == AugmentStage::Jitter,
                AugmentStage::Brightness => next == AugmentStage::Contrast,
                AugmentStage::Contrast => next == AugmentStage::Saturation,
                AugmentStage::Saturation => next == AugmentStage::Hue,
                AugmentStage::Hue => next == AugmentStage::Grayscale,
                AugmentStage::Grayscale => next == AugmentStage::Blur,
                AugmentStage::Blur => next == AugmentStage::Solarize,
                _ => next == AugmentStage::Done,
            })
            &&& stage == AugmentStage::Jitter ==> next == AugmentStage::Brightness || next
                == AugmentStage::Grayscale
        }),
{
}

/// A draw is asked for exactly where its outcome can matter: at a stage whose probability is positive.
pub proof fn law_draws_are_asked_for_where_they_matter(
    augmentations: ImageNetAugmentations,
    stage: AugmentStage,
    a: Single,
    b: Single,
)
    ensures
        !asks_for_draw(augmentations, stage) ==> stage_step(augmentations, stage, a) == stage_step(
            augmentations,
            stage,
            b,
        ),
        asks_for_draw(augmentations, stage) ==> ({
            let p = match stage {
                AugmentStage::Flip => augmentations.flip_prob,
                AugmentStage::Jitter => augmentations.color_jitter_prob,
                AugmentStage::Grayscale => augmentations.grayscale_prob,
                AugmentStage::Blur => augmentations.blur_prob,
                _ => augmentations.solarize_prob,
            };
            p.rank() > 0 && !p.is_nan()
        }),
        augmentations.flip_prob.rank() > 0 && !augmentations.flip_prob.is_nan() ==> asks_for_draw(
            augmentations,
            AugmentStage::Flip,
        ),
        augmentations.color_jitter_prob.rank() > 0 && !augmentations.color_jitter_prob.is_nan()
            ==> asks_for_draw(augmentations, AugmentStage::Jitter),
        augmentations.grayscale_prob.rank() > 0 && !augmentations.grayscale_prob.is_nan()
            ==> asks_for_draw(augmentations, AugmentStage::Grayscale),
        augmentations.blur_prob.rank() > 0 && !augmentations.blur_prob.is_nan() ==> asks_for_draw(
            augmentations,
            AugmentStage::Blur,
        ),
        augmentations.solarize_prob.rank() > 0 && !augmentations.solarize_prob.is_nan()
            ==> asks_for_draw(augmentations, AugmentStage::Solarize),
{
}

/// The shorter side of a validation image becomes the target, the centred square lies in the middle,
/// and both offsets leave the same margin on either side, up to one pixel.
pub proof fn law_shorter_side_becomes_the_target(
    width: u32,
    height: u32,
    target: nat,
    extent: int,
    image_size: int,
)
    requires
        extent >= 0,
        image_size >= 0,
    ensures
        width < height ==> val_size_of(width, height, target).0 == target,
        width >= height ==> val_size_of(width, height, target).1 == target,
        width < height ==> val_size_of(width, height, target).1 == val_size_of(
            height,
            width,
            target,
        ).0,
        ({
            let offset = centre_offset_of(extent, image_size);
            let after = extent - offset - image_size;
            &&& extent >= image_size ==> 0 <= offset <= after <= offset + 1
            &&& extent < image_size ==> offset == 0
        }),
{
}

/// A number that fits stays, and a larger one becomes the largest that does.
pub proof fn law_sizes_are_cut_to_their_range(n: int, m: int)
    ensures
        m <= as_u32(n) <==> m <= n && m <= u32::MAX,
{
}

} // verus!
