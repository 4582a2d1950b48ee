//! The batches that a reversible autoencoder is trained on.

use crate::cifar::CifarBatch;
use crate::frames::FrameBatch;
use crate::imagenet::ImageNetBatch;
use vstd::prelude::*;

verus! {

/// Images with their labels and whatever teachers there are.
#[derive(Debug)]
pub struct VisionRacBatch<T> {
    pub images: FrameBatch<T>,
    pub labels: Vec<i64>,
    pub teacher_latent: Option<FrameBatch<T>>,
    pub teacher_patch: Option<FrameBatch<T>>,
    pub teacher_cls: Option<FrameBatch<T>>,
}

impl<T> VisionRacBatch<T> {
    /// A batch of the given parts.
    pub fn new(
        images: FrameBatch<T>,
        labels: Vec<i64>,
        teacher_latent: Option<FrameBatch<T>>,
        teacher_patch: Option<FrameBatch<T>>,
        teacher_cls: Option<FrameBatch<T>>,
    ) -> (batch: Self)
        ensures
            batch.images == images,
            batch.labels == labels,
            batch.teacher_latent == teacher_latent,
            batch.teacher_patch == teacher_patch,
            batch.teacher_cls == teacher_cls,
    {
        Self { images, labels, teacher_latent, teacher_patch, teacher_cls }
    }
}

/// CIFAR batches come without teachers.
impl From<CifarBatch> for VisionRacBatch<u8> {
    fn from(batch: CifarBatch) -> (r: Self) {
        Self::new(batch.images, batch.labels, None, None, None)
    }
}

impl vstd::std_specs::convert::FromSpecImpl<CifarBatch> for VisionRacBatch<u8> {
    open spec fn obeys_from_spec() -> bool {
        true
    }

    open spec fn from_spec(batch: CifarBatch) -> Self {
        VisionRacBatch {
            images: batch.images,
            labels: batch.labels,
            teacher_latent: None,
            teacher_patch: None,
            teacher_cls: None,
        }
    }
}

/// Image-folder batches bring their latents and their primary teacher along.
impl<T> From<ImageNetBatch<T>> for VisionRacBatch<T> {
    fn from(batch: ImageNetBatch<T>) -> (r: Self) {
        Self::new(
            batch.images,
            batch.labels,
            batch.rac_teacher_latent,
            batch.teacher_patch,
            batch.teacher_cls,
        )
    }
}

impl<T> vstd::std_specs::convert::FromSpecImpl<ImageNetBatch<T>> for VisionRacBatch<T> {
    open spec fn obeys_from_spec() -> bool {
        true
    }

    open spec fn from_spec(batch: ImageNetBatch<T>) -> Self {
        VisionRacBatch {
            images: batch.images,
            labels: batch.labels,
            teacher_latent: batch.rac_teacher_latent,
            teacher_patch: batch.teacher_patch,
            teacher_cls: batch.teacher_cls,
        }
    }
}

/// A batch keeps its images and labels. Of a CIFAR batch there are no teachers; of an image folder
/// each teacher is the one the batch brought along.
pub proof fn law_batches_keep_what_they_bring<T>(cifar: CifarBatch, folder: ImageNetBatch<T>)
    ensures
        ({
            let a = <VisionRacBatch<u8> as vstd::std_specs::convert::FromSpec<CifarBatch>>::from_spec(
                cifar,
            );
            &&& a.images == cifar.images && a.labels == cifar.labels
            &&& a.teacher_latent is None && a.teacher_patch is None && a.teacher_cls is None
        }),
        ({
            let b = <VisionRacBatch<T> as vstd::std_specs::convert::FromSpec<
                ImageNetBatch<T>,
            >>::from_spec(folder);
            &&& b.images == folder.images && b.labels == folder.labels
            &&& b.teacher_latent == folder.rac_teacher_latent
            &&& b.teacher_patch == folder.teacher_patch && b.teacher_cls == folder.teacher_cls
        }),
{
}

} // verus!
