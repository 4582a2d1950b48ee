//! Image-folder datasets: their settings, and batches put together from processed images.

use crate::config::{ImageNetSplit, VisionTeacherTargetKind};
use crate::frames::{volume, FrameBatch};
use crate::loader::{epoch_steps, steps_per_epoch, LoaderSchedule};
use crate::numeric::{max_of, min_of, sat_add, sat_mul, saturated};
use crate::pixels::IMAGE_CHANNELS;
use crate::rollout::{at_least_one, draw_inclusive, max_one};
use crate::samples::{
    balanced_positions, class_buckets, is_class_count, is_fair_limit, labels_of,
    limit_samples_balanced, picked, ImageSample,
};
use crate::scalar::Single;
use rand::rngs::StdRng;
use vstd::prelude::*;

verus! {

/// Why a dataset cannot be built, or a batch not be drawn from it.
#[derive(Clone, Copy, Debug, PartialEq, Eq, Structural)]
pub enum ImageNetError {
    /// Local views were asked for without settings for them.
    MissingLocalAugmentations,
    ZeroBatchSize,
    EmptyDataset,
}

/// The settings of a dataset.
#[derive(Clone, Copy, Debug, PartialEq, Eq, Structural)]
pub struct ImageNetDatasetConfig {
    pub split: ImageNetSplit,
    pub max_records: Option<usize>,
    /// Whether nothing of the global augmentations is drawn at random.
    pub deterministic: bool,
    pub has_local_augmentations: bool,
    pub views: usize,
    pub local_views: usize,
    pub min_view_overlap: Single,
    pub view_overlap_attempts: usize,
    pub cache_decoded: bool,
    pub cache_capacity: usize,
    pub cache_preprocessed: bool,
}

/// A dataset of labelled images.
#[derive(Debug)]
pub struct ImageNetDataset {
    pub samples: Vec<ImageSample>,
    pub num_classes: usize,
    pub split: ImageNetSplit,
    pub deterministic: bool,
    pub global_views: usize,
    pub local_views: usize,
    pub min_view_overlap: Single,
    pub view_overlap_attempts: usize,
    /// How many decoded images are cached, where they are.
    pub cache_capacity: Option<usize>,
    /// Whether every image is processed once, ahead of training.
    pub preprocessed: bool,
}

/// Whether `kept` is what a limit on the records leaves: a limit of zero or of at least all records
/// is none, and a smaller one keeps the classes balanced.
pub open spec fn is_limited(
    kept: Seq<ImageSample>,
    samples: Seq<ImageSample>,
    max_records: Option<usize>,
) -> bool {
    match max_records {
        Some(limit) => if 0 < limit < samples.len() {
            is_fair_limit(kept, samples, limit as nat) && exists|classes: nat| #[trigger]
                is_class_count(labels_of(samples), classes as int) && kept == picked(
                    samples,
                    balanced_positions(
                        class_buckets(labels_of(samples), classes),
                        samples.len(),
                        limit as nat,
                    ),
                )
        } else {
            kept == samples
        },
        None => kept == samples,
    }
}

/// How the crops of the global views of an image come about.
#[derive(Clone, Copy, Debug, PartialEq, Eq, Structural)]
pub enum ViewCrops {
    /// The image was processed ahead of training.
    Preprocessed,
    /// A single view.
    Single,
    /// Random crops that must overlap the first one.
    Overlapping,
    /// A random crop for each view.
    Random,
    /// The fixed validation crop for each view.
    Fixed,
}

impl ImageNetDataset {
    /// There is a global view, at least one overlap attempt, and labels fit a batch.
    pub open spec fn wf(&self) -> bool {
        &&& self.global_views >= 1
        &&& self.view_overlap_attempts >= 1
        &&& forall|i: int|
            0 <= i < self.samples@.len() ==> (#[trigger] self.samples@[i]).label <= i64::MAX
    }

    /// A dataset over the given samples.
    pub fn new(samples: Vec<ImageSample>, num_classes: usize, config: &ImageNetDatasetConfig) -> (
    result: Result<Self, ImageNetError>)
        requires
            forall|i: int|
                0 <= i < samples@.len() ==> (#[trigger] samples@[i]).label < i64::MAX
                    && samples@[i].label < usize::MAX,
        ensures
            match result {
                Ok(dataset) => {
                    &&& config.local_views == 0 || config.has_local_augmentations
                    &&& dataset.wf()
                    &&& is_limited(dataset.samples@, samples@, config.max_records)
                    &&& dataset.num_classes == num_classes
                    &&& dataset.split == config.split
                    &&& dataset.deterministic == config.deterministic
                    &&& dataset.global_views == at_least_one(config.views as int)
                    &&& dataset.local_views == config.local_views
                    &&& dataset.min_view_overlap == config.min_view_overlap.clamped_at_zero()
                    &&& dataset.view_overlap_attempts == at_least_one(
                        config.view_overlap_attempts as int,
                    )
                    &&& dataset.cache_capacity == (if config.cache_decoded && config.cache_capacity
                        > 0 {
                        Some(config.cache_capacity)
                    } else {
                        None
                    })
                    &&& dataset.preprocessed == (config.cache_preprocessed && config.views <= 1
                        && config.local_views == 0 && config.deterministic && config.cache_capacity
                        >= dataset.samples@.len())
                },
                Err(error) => {
                    &&& error == ImageNetError::MissingLocalAugmentations
                    &&& config.local_views > 0
                    &&& !config.has_local_augmentations
                },
            },
    {
        let ghost given = samples@;
        let total: usize = samples.len();
        let kept: Vec<ImageSample> = match config.max_records {
            Some(limit) => if limit > 0 && limit < total {
                limit_samples_balanced(samples.as_slice(), limit)
            } else {
                samples
            },
            None => samples,
        };
        let global_views: usize = max_one(config.views);
        if config.local_views > 0 && !config.has_local_augmentations {
            return Err(ImageNetError::MissingLocalAugmentations);
        }
        let cache_capacity = if config.cache_decoded && config.cache_capacity > 0 {
            Some(config.cache_capacity)
        } else {
            None
        };
        let preprocessed: bool = config.cache_preprocessed && global_views == 1
            && config.local_views == 0 && config.deterministic && config.cache_capacity
            >= kept.len();
        proof {
            lemma_limited_labels(kept@, given, config.max_records);
        }
        Ok(
            Self {
                samples: kept,
                num_classes,
                split: config.split,
                deterministic: config.deterministic,
                global_views,
                local_views: config.local_views,
                min_view_overlap: config.min_view_overlap.or_zero(),
                view_overlap_attempts: max_one(config.view_overlap_attempts),
                cache_capacity,
                preprocessed,
            },
        )
    }

    /// How many images the dataset has.
    pub fn len(&self) -> (n: usize)
        ensures
            n == self.samples@.len(),
    {
        self.samples.len()
    }

    /// Whether the dataset has no image.
    pub fn is_empty(&self) -> (r: bool)
        ensures
            r == (self.samples@.len() == 0),
    {
        self.samples.len() == 0
    }

    /// How many classes the dataset has.
    pub fn num_classes(&self) -> (n: usize)
        ensures
            n == self.num_classes,
    {
        self.num_classes
    }

    /// How many batches cover the dataset.
    pub fn steps_per_epoch(&self, batch_size: usize) -> (steps: usize)
        ensures
            steps == epoch_steps(self.samples@.len() as int, batch_size as int),
    {
        steps_per_epoch(self.len(), batch_size)
    }

    /// How the crops of the global views of an image come about.
    pub open spec fn view_crops_of(&self) -> ViewCrops {
        if self.global_views == 1 && self.local_views == 0 {
            if self.preprocessed {
                ViewCrops::Preprocessed
            } else {
                ViewCrops::Single
            }
        } else if Single::zero().lt(self.min_view_overlap) && self.split == ImageNetSplit::Train {
            ViewCrops::Overlapping
        } else if self.split == ImageNetSplit::Train && !self.deterministic {
            ViewCrops::Random
        } else {
            ViewCrops::Fixed
        }
    }

    /// How the crops of the global views of an image come about.
    pub fn view_crops(&self) -> (kind: ViewCrops)
        ensures
            kind == self.view_crops_of(),
    {
        if self.global_views == 1 && self.local_views == 0 {
            if self.preprocessed {
                ViewCrops::Preprocessed
            } else {
                ViewCrops::Single
            }
        } else if self.min_view_overlap.is_positive() && self.split == ImageNetSplit::Train {
            ViewCrops::Overlapping
        } else if self.split == ImageNetSplit::Train && !self.deterministic {
            ViewCrops::Random
        } else {
            ViewCrops::Fixed
        }
    }

    /// The images of a random batch, drawn with repetition.
    pub fn draw_indices(&self, batch_size: usize, rng: &mut StdRng) -> (result: Result<
        Vec<usize>,
        ImageNetError,
    >)
        ensures
            match result {
                Ok(indices) => {
                    &&& batch_size > 0
                    &&& indices@.len() == batch_size
                    &&& forall|k: int|
                        0 <= k < indices@.len() ==> (#[trigger] indices@[k]) < self.samples@.len()
                },
                Err(ImageNetError::ZeroBatchSize) => batch_size == 0,
                Err(ImageNetError::EmptyDataset) => batch_size > 0 && self.samples@.len() == 0,
                Err(ImageNetError::MissingLocalAugmentations) => false,
            },
            result is Err ==> *final(rng) == *old(rng),
    {
        if batch_size == 0 {
            return Err(ImageNetError::ZeroBatchSize);
        }
        let len: usize = self.len();
        if len == 0 {
            return Err(ImageNetError::EmptyDataset);
        }
        let mut indices: Vec<usize> = Vec::new();
        let mut k: usize = 0;
        while k < batch_size
            invariant
                k <= batch_size,
                len == self.samples@.len(),
                len > 0,
                indices@.len() == k,
                forall|j: int| 0 <= j < k ==> (#[trigger] indices@[j]) < len,
            decreases batch_size - k,
        {
            indices.push(draw_inclusive(rng, 0, len - 1));
            k += 1;
        }
        Ok(indices)
    }

    /// The labels of the given images.
    pub fn labels_at(&self, indices: &[usize]) -> (labels: Vec<i64>)
        requires
            self.wf(),
            forall|k: int|
                0 <= k < indices@.len() ==> (#[trigger] indices@[k]) < self.samples@.len(),
        ensures
            labels@ == indices@.map_values(|i: usize| self.samples@[i as int].label as i64),
    {
        let mut labels: Vec<i64> = Vec::new();
        let mut k: usize = 0;
        while k < indices.len()
            invariant
                k <= indices@.len(),
                self.wf(),
                forall|j: int|
                    0 <= j < indices@.len() ==> (#[trigger] indices@[j]) < self.samples@.len(),
                labels@ == indices@.take(k as int).map_values(
                    |i: usize| self.samples@[i as int].label as i64,
                ),
            decreases indices@.len() - k,
        {
            let sample = &self.samples[indices[k]];
            labels.push(sample.label as i64);
            k += 1;
            assert(labels@ =~= indices@.take(k as int).map_values(
                |i: usize| self.samples@[i as int].label as i64,
            ));
        }
        assert(indices@.take(k as int) =~= indices@);
        labels
    }

    /// The teacher records of the given images.
    pub fn teacher_indices_at(&self, indices: &[usize]) -> (records: Vec<usize>)
        requires
            forall|k: int|
                0 <= k < indices@.len() ==> (#[trigger] indices@[k]) < self.samples@.len(),
        ensures
            records@ == indices@.map_values(|i: usize| self.samples@[i as int].teacher_index),
    {
        let mut records: Vec<usize> = Vec::new();
        let mut k: usize = 0;
        while k < indices.len()
            invariant
                k <= indices@.len(),
                forall|j: int|
                    0 <= j < indices@.len() ==> (#[trigger] indices@[j]) < self.samples@.len(),
                records@ == indices@.take(k as int).map_values(
                    |i: usize| self.samples@[i as int].teacher_index,
                ),
            decreases indices@.len() - k,
        {
            records.push(self.samples[indices[k]].teacher_index);
            k += 1;
            assert(records@ =~= indices@.take(k as int).map_values(
                |i: usize| self.samples@[i as int].teacher_index,
            ));
        }
        assert(indices@.take(k as int) =~= indices@);
        records
    }
}

proof fn lemma_limited_labels(
    kept: Seq<ImageSample>,
    samples: Seq<ImageSample>,
    max_records: Option<usize>,
)
    requires
        is_limited(kept, samples, max_records),
        samples.len() <= usize::MAX,
        forall|i: int| 0 <= i < samples.len() ==> (#[trigger] samples[i]).label < i64::MAX,
    ensures
        forall|i: int| 0 <= i < kept.len() ==> (#[trigger] kept[i]).label <= i64::MAX,
{
    if let Some(limit) = max_records {
        if 0 < limit < samples.len() {
            let classes = choose|classes: nat| #[trigger]
                is_class_count(labels_of(samples), classes as int) && kept == picked(
                    samples,
                    balanced_positions(
                        class_buckets(labels_of(samples), classes),
                        samples.len(),
                        limit as nat,
                    ),
                );
            let positions = balanced_positions(
                class_buckets(labels_of(samples), classes),
                samples.len(),
                limit as nat,
            );
            assert forall|i: int| 0 <= i < kept.len() implies (#[trigger] kept[i]).label
                <= i64::MAX by {
                crate::samples::lemma_balanced_positions_in_range(
                    labels_of(samples),
                    classes,
                    limit as nat,
                    i,
                );
                assert(kept[i] == samples[positions[i] as int]);
            }
        }
    }
}

/// The processed views of one image: its global views with the crops they were taken from, and its
/// local views. Pixels are normalised, plane after plane.
#[derive(Debug)]
pub struct ProcessedImage<T> {
    pub global: Vec<Vec<T>>,
    pub crops: Vec<Vec<T>>,
    pub local: Vec<Vec<T>>,
}

/// Every list has `count` parts of `len` elements.
pub open spec fn parts_sized<T>(parts: Seq<Vec<T>>, count: int, len: int) -> bool {
    &&& parts.len() == count
    &&& forall|k: int| 0 <= k < count ==> (#[trigger] parts[k])@.len() == len
}

/// The first `n` parts one after the other.
pub open spec fn concatenated<T>(parts: Seq<Vec<T>>, n: nat) -> Seq<T>
    decreases n,
{
    if n == 0 {
        Seq::empty()
    } else {
        concatenated(parts, (n - 1) as nat) + parts[n - 1]@
    }
}

/// View `view` of the first `n` images, one after the other.
pub open spec fn view_of_each<T>(items: Seq<ProcessedImage<T>>, view: int, n: nat) -> Seq<T>
    decreases n,
{
    if n == 0 {
        Seq::empty()
    } else {
        view_of_each(items, view, (n - 1) as nat) + items[n - 1].global@[view]@
    }
}

/// Which of the three lists of an image is meant.
#[derive(Clone, Copy, Debug, PartialEq, Eq, Structural)]
pub enum ViewList {
    Global,
    Crops,
    Local,
}

/// The parts of one list of an image.
pub open spec fn list_of<T>(item: ProcessedImage<T>, list: ViewList) -> Seq<Vec<T>> {
    match list {
        ViewList::Global => item.global@,
        ViewList::Crops => item.crops@,
        ViewList::Local => item.local@,
    }
}

/// All parts of one list of the first `n` images, image after image.
pub open spec fn list_of_each<T>(items: Seq<ProcessedImage<T>>, list: ViewList, n: nat) -> Seq<T>
    decreases n,
{
    if n == 0 {
        Seq::empty()
    } else {
        let parts = list_of(items[n - 1], list);
        list_of_each(items, list, (n - 1) as nat) + concatenated(parts, parts.len())
    }
}

fn push_all<T: Copy>(out: &mut Vec<T>, part: &Vec<T>)
    ensures
        final(out)@ == old(out)@ + part@,
{
    let mut i: usize = 0;
    assert(out@ =~= old(out)@ + part@.take(0));
    while i < part.len()
        invariant
            i <= part@.len(),
            out@ == old(out)@ + part@.take(i as int),
        decreases part@.len() - i,
    {
        out.push(part[i]);
        i += 1;
        assert(out@ =~= old(out)@ + part@.take(i as int));
    }
    assert(part@.take(i as int) =~= part@);
}

fn push_parts<T: Copy>(out: &mut Vec<T>, parts: &Vec<Vec<T>>)
    ensures
        final(out)@ == old(out)@ + concatenated(parts@, parts@.len()),
{
    let mut k: usize = 0;
    assert(out@ =~= old(out)@ + concatenated(parts@, 0));
    while k < parts.len()
        invariant
            k <= parts@.len(),
            out@ == old(out)@ + concatenated(parts@, k as nat),
        decreases parts@.len() - k,
    {
        push_all(out, &parts[k]);
        k += 1;
        assert(out@ =~= old(out)@ + concatenated(parts@, k as nat));
    }
}

/// Features of one auxiliary teacher for a batch.
#[derive(Debug)]
pub struct ImageNetTeacherTargetBatchData<T> {
    pub name: String,
    pub weight: Single,
    pub target_kind: VisionTeacherTargetKind,
    pub patch: Option<Vec<T>>,
    pub cls: Vec<T>,
    pub feature_dim: usize,
    pub patch_tokens: Option<usize>,
}

/// The buffers of one batch, before they get their shapes.
#[derive(Debug)]
pub struct ImageNetBatchData<T> {
    pub images: Vec<T>,
    pub target_images: Option<Vec<T>>,
    pub view_images: Option<Vec<T>>,
    pub view_crops: Option<Vec<T>>,
    pub global_view_images: Option<Vec<T>>,
    pub local_view_images: Option<Vec<T>>,
    pub labels: Vec<i64>,
    pub teacher_patch: Option<Vec<T>>,
    pub teacher_cls: Option<Vec<T>>,
    pub rac_teacher_latent: Option<Vec<T>>,
    pub teacher_targets: Vec<ImageNetTeacherTargetBatchData<T>>,
    pub batch_size: usize,
    pub global_image_size: usize,
    pub local_image_size: usize,
    pub global_views: usize,
    pub local_views: usize,
    pub teacher_feature_dim: Option<usize>,
    pub teacher_patch_tokens: Option<usize>,
    pub rac_teacher_shape: Option<(usize, usize, usize)>,
}

/// Whether an optional buffer is there exactly if `present`, and then holds `content`.
pub open spec fn holds<T>(buffer: Option<Vec<T>>, present: bool, content: Seq<T>) -> bool {
    match buffer {
        Some(values) => present && values@ == content,
        None => !present,
    }
}

fn gather_views<T: Copy>(items: &Vec<ProcessedImage<T>>, view: usize) -> (out: Vec<T>)
    requires
        forall|i: int| 0 <= i < items@.len() ==> view < (#[trigger] items@[i]).global@.len(),
    ensures
        out@ == view_of_each(items@, view as int, items@.len()),
{
    let mut out: Vec<T> = Vec::new();
    let mut i: usize = 0;
    while i < items.len()
        invariant
            i <= items@.len(),
            forall|j: int| 0 <= j < items@.len() ==> view < (#[trigger] items@[j]).global@.len(),
            out@ == view_of_each(items@, view as int, i as nat),
        decreases items@.len() - i,
    {
        let item = &items[i];
        assert(view < items@[i as int].global@.len());
        push_all(&mut out, &item.global[view]);
        i += 1;
    }
    out
}

fn gather_lists<T: Copy>(items: &Vec<ProcessedImage<T>>, list: ViewList) -> (out: Vec<T>)
    ensures
        out@ == list_of_each(items@, list, items@.len()),
{
    let mut out: Vec<T> = Vec::new();
    let mut i: usize = 0;
    while i < items.len()
        invariant
            i <= items@.len(),
            out@ == list_of_each(items@, list, i as nat),
        decreases items@.len() - i,
    {
        let item = &items[i];
        match list {
            ViewList::Global => push_parts(&mut out, &item.global),
            ViewList::Crops => push_parts(&mut out, &item.crops),
            ViewList::Local => push_parts(&mut out, &item.local),
        }
        i += 1;
    }
    out
}

/// Puts the processed images of a batch together. The first view of every image is its image; the
/// second one is the target where there is one. Several global views without local ones are kept
/// with their crops; with local views the global and the local ones are kept apart.
pub fn assemble_batch<T: Copy>(
    dataset: &ImageNetDataset,
    indices: &[usize],
    items: &Vec<ProcessedImage<T>>,
    global_image_size: usize,
    local_image_size: usize,
) -> (data: ImageNetBatchData<T>)
    requires
        dataset.wf(),
        items@.len() == indices@.len(),
        forall|k: int|
            0 <= k < indices@.len() ==> (#[trigger] indices@[k]) < dataset.samples@.len(),
        forall|i: int|
            0 <= i < items@.len() ==> (#[trigger] items@[i]).global@.len() == dataset.global_views,
    ensures
        ({
            let n = items@.len();
            let many = dataset.local_views == 0 && dataset.global_views > 1;
            &&& data.images@ == view_of_each(items@, 0, n)
            &&& holds(
                data.target_images,
                dataset.global_views > 1,
                view_of_each(items@, 1, n),
            )
            &&& holds(data.view_images, many, list_of_each(items@, ViewList::Global, n))
            &&& holds(data.view_crops, many, list_of_each(items@, ViewList::Crops, n))
            &&& holds(
                data.global_view_images,
                dataset.local_views > 0,
                list_of_each(items@, ViewList::Global, n),
            )
            &&& holds(
                data.local_view_images,
                dataset.local_views > 0,
                list_of_each(items@, ViewList::Local, n),
            )
            &&& data.labels@ == indices@.map_values(
                |i: usize| dataset.samples@[i as int].label as i64,
            )
            &&& data.batch_size == n
            &&& data.global_image_size == global_image_size
            &&& data.local_image_size == local_image_size
            &&& data.global_views == dataset.global_views
            &&& data.local_views == dataset.local_views
            &&& data.teacher_patch is None
            &&& data.teacher_cls is None
            &&& data.rac_teacher_latent is None
            &&& data.teacher_targets@.len() == 0
            &&& data.teacher_feature_dim is None
            &&& data.teacher_patch_tokens is None
            &&& data.rac_teacher_shape is None
        }),
        is_assembled(items@, data),
        items_sized(
            items@,
            dataset.global_views as int,
            3 * global_image_size * global_image_size,
            dataset.local_views == 0 && dataset.global_views > 1,
            dataset.local_views > 0,
            dataset.local_views as int,
            3 * local_image_size * local_image_size,
        ) && items@.len() * dataset.global_views <= usize::MAX && items@.len() * dataset.local_views
            <= usize::MAX ==> data.wf(),
{
    let images = gather_views(items, 0);
    let target_images = if dataset.global_views > 1 {
        Some(gather_views(items, 1))
    } else {
        None
    };
    let many: bool = dataset.local_views == 0 && dataset.global_views > 1;
    let view_images = if many {
        Some(gather_lists(items, ViewList::Global))
    } else {
        None
    };
    let view_crops = if many {
        Some(gather_lists(items, ViewList::Crops))
    } else {
        None
    };
    let global_view_images = if dataset.local_views > 0 {
        Some(gather_lists(items, ViewList::Global))
    } else {
        None
    };
    let local_view_images = if dataset.local_views > 0 {
        Some(gather_lists(items, ViewList::Local))
    } else {
        None
    };
    let labels = dataset.labels_at(indices);
    let data = ImageNetBatchData {
        images,
        target_images,
        view_images,
        view_crops,
        global_view_images,
        local_view_images,
        labels,
        teacher_patch: None,
        teacher_cls: None,
        rac_teacher_latent: None,
        teacher_targets: Vec::new(),
        batch_size: items.len(),
        global_image_size,
        local_image_size,
        global_views: dataset.global_views,
        local_views: dataset.local_views,
        teacher_feature_dim: None,
        teacher_patch_tokens: None,
        rac_teacher_shape: None,
    };
    proof {
        if items_sized(
            items@,
            dataset.global_views as int,
            3 * global_image_size * global_image_size,
            many,
            dataset.local_views > 0,
            dataset.local_views as int,
            3 * local_image_size * local_image_size,
        ) && items@.len() * dataset.global_views <= usize::MAX && items@.len() * dataset.local_views
            <= usize::MAX {
            law_assembled_batch_has_its_shapes(items@, data);
        }
    }
    data
}

/// The length of an optional buffer; zero where there is none.
pub open spec fn buffer_len<T>(buffer: Option<Vec<T>>) -> int {
    match buffer {
        Some(values) => values@.len() as int,
        None => 0,
    }
}

/// How many scalars the first `n` auxiliary teachers contribute.
pub open spec fn target_scalars<T>(
    targets: Seq<ImageNetTeacherTargetBatchData<T>>,
    n: nat,
) -> int
    decreases n,
{
    if n == 0 {
        0
    } else {
        target_scalars(targets, (n - 1) as nat) + targets[n - 1].cls@.len() + buffer_len(
            targets[n - 1].patch,
        )
    }
}

fn add_scaled(bytes: usize, count: usize, size: usize) -> (r: usize)
    ensures
        r == saturated(bytes + count * size),
{
    proof {
        assert(count * size >= 0) by (nonlinear_arith);
    }
    sat_add(bytes, sat_mul(count, size))
}

fn add_buffer<T>(bytes: usize, buffer: &Option<Vec<T>>) -> (r: usize)
    ensures
        r == saturated(bytes + buffer_len(*buffer) * 4),
{
    match buffer {
        Some(values) => add_scaled(bytes, values.len(), 4),
        None => bytes,
    }
}

impl<T> ImageNetBatchData<T> {
    /// How many scalars are copied to the device: pixels, crops and features.
    pub open spec fn scalars(&self) -> int {
        self.images@.len() + buffer_len(self.target_images) + buffer_len(self.view_images)
            + buffer_len(self.view_crops) + buffer_len(self.global_view_images) + buffer_len(
            self.local_view_images,
        ) + buffer_len(self.teacher_patch) + buffer_len(self.teacher_cls) + buffer_len(
            self.rac_teacher_latent,
        ) + target_scalars(self.teacher_targets@, self.teacher_targets@.len())
    }

    /// How many bytes are copied to the device: four for each scalar, eight for each label,
    /// saturating.
    pub fn host_to_device_copy_bytes(&self) -> (bytes: u128)
        ensures
            bytes == saturated(self.scalars() * 4 + self.labels@.len() * 8),
    {
        let mut bytes: usize = 0;
        bytes = add_scaled(bytes, self.images.len(), 4);
        bytes = add_scaled(bytes, self.labels.len(), 8);
        bytes = add_buffer(bytes, &self.target_images);
        bytes = add_buffer(bytes, &self.view_images);
        bytes = add_buffer(bytes, &self.view_crops);
        bytes = add_buffer(bytes, &self.global_view_images);
        bytes = add_buffer(bytes, &self.local_view_images);
        bytes = add_buffer(bytes, &self.teacher_patch);
        bytes = add_buffer(bytes, &self.teacher_cls);
        bytes = add_buffer(bytes, &self.rac_teacher_latent);
        let ghost fixed = (self.scalars() - target_scalars(
            self.teacher_targets@,
            self.teacher_targets@.len(),
        )) * 4 + self.labels@.len() * 8;
        assert(bytes == saturated(fixed));
        let mut k: usize = 0;
        while k < self.teacher_targets.len()
            invariant
                k <= self.teacher_targets@.len(),
                bytes == saturated(fixed + target_scalars(self.teacher_targets@, k as nat) * 4),
            decreases self.teacher_targets@.len() - k,
        {
            let target = &self.teacher_targets[k];
            bytes = add_scaled(bytes, target.cls.len(), 4);
            bytes = add_buffer(bytes, &target.patch);
            k += 1;
        }
        bytes as u128
    }
}

/// Frames of several views: those of one image stand next to each other.
#[derive(Debug)]
pub struct ViewFrames<T> {
    pub views: usize,
    pub frames: FrameBatch<T>,
}

/// Features of one auxiliary teacher, with their shapes. A record of class features is one row; a
/// record of patch features has one row per token.
#[derive(Debug)]
pub struct ImageNetTeacherTargetBatch<T> {
    pub name: String,
    pub weight: Single,
    pub target_kind: VisionTeacherTargetKind,
    pub patch: Option<FrameBatch<T>>,
    pub cls: FrameBatch<T>,
}

/// One batch, every buffer with its shape.
#[derive(Debug)]
pub struct ImageNetBatch<T> {
    pub images: FrameBatch<T>,
    pub target_images: Option<FrameBatch<T>>,
    pub view_images: Option<ViewFrames<T>>,
    pub view_crops: Option<FrameBatch<T>>,
    pub global_view_images: Option<ViewFrames<T>>,
    pub local_view_images: Option<ViewFrames<T>>,
    pub labels: Vec<i64>,
    pub teacher_patch: Option<FrameBatch<T>>,
    pub teacher_cls: Option<FrameBatch<T>>,
    pub rac_teacher_latent: Option<FrameBatch<T>>,
    pub teacher_targets: Vec<ImageNetTeacherTargetBatch<T>>,
}

impl<T> ImageNetBatch<T> {
    /// A batch without a latent teacher or auxiliary teachers.
    pub fn new(
        images: FrameBatch<T>,
        target_images: Option<FrameBatch<T>>,
        view_images: Option<ViewFrames<T>>,
        view_crops: Option<FrameBatch<T>>,
        global_view_images: Option<ViewFrames<T>>,
        local_view_images: Option<ViewFrames<T>>,
        labels: Vec<i64>,
        teacher_patch: Option<FrameBatch<T>>,
        teacher_cls: Option<FrameBatch<T>>,
    ) -> (batch: Self)
        ensures
            batch.images == images,
            batch.target_images == target_images,
            batch.view_images == view_images,
            batch.view_crops == view_crops,
            batch.global_view_images == global_view_images,
            batch.local_view_images == local_view_images,
            batch.labels == labels,
            batch.teacher_patch == teacher_patch,
            batch.teacher_cls == teacher_cls,
            batch.rac_teacher_latent is None,
            batch.teacher_targets@.len() == 0,
    {
        Self {
            images,
            target_images,
            view_images,
            view_crops,
            global_view_images,
            local_view_images,
            labels,
            teacher_patch,
            teacher_cls,
            rac_teacher_latent: None,
            teacher_targets: Vec::new(),
        }
    }

    /// The batch with the given latents.
    pub fn with_rac_teacher_latent(self, rac_teacher_latent: Option<FrameBatch<T>>) -> (batch: Self)
        ensures
            batch == (ImageNetBatch { rac_teacher_latent, ..self }),
    {
        let mut batch = self;
        batch.rac_teacher_latent = rac_teacher_latent;
        batch
    }

    /// The batch with the given auxiliary teachers.
    pub fn with_teacher_targets(self, teacher_targets: Vec<ImageNetTeacherTargetBatch<T>>) -> (batch:
        Self)
        ensures
            batch == (ImageNetBatch { teacher_targets, ..self }),
    {
        let mut batch = self;
        batch.teacher_targets = teacher_targets;
        batch
    }
}

/// Whether `frames` gives `data` the shape `batch` x `channels` x `height` x `width`.
pub open spec fn is_shaped<T>(
    frames: FrameBatch<T>,
    data: Seq<T>,
    batch: int,
    channels: int,
    height: int,
    width: int,
) -> bool {
    &&& frames.batch == batch
    &&& frames.channels == channels
    &&& frames.height == height
    &&& frames.width == width
    &&& frames.data@ == data
    &&& frames.wf()
}

/// The same, of an optional buffer.
pub open spec fn is_shaped_option<T>(
    frames: Option<FrameBatch<T>>,
    buffer: Option<Vec<T>>,
    batch: int,
    channels: int,
    height: int,
    width: int,
) -> bool {
    match (frames, buffer) {
        (Some(f), Some(b)) => is_shaped(f, b@, batch, channels, height, width),
        (None, None) => true,
        _ => false,
    }
}

/// The same, of an optional buffer of several views.
pub open spec fn is_shaped_views<T>(
    frames: Option<ViewFrames<T>>,
    buffer: Option<Vec<T>>,
    batch: int,
    views: int,
    side: int,
) -> bool {
    match (frames, buffer) {
        (Some(f), Some(b)) => f.views == views && is_shaped(
            f.frames,
            b@,
            batch * views,
            IMAGE_CHANNELS as int,
            side,
            side,
        ),
        (None, None) => true,
        _ => false,
    }
}

/// The length of an optional buffer is that of its shape.
pub open spec fn fits_shape<T>(
    buffer: Option<Vec<T>>,
    batch: int,
    channels: int,
    height: int,
    width: int,
) -> bool {
    buffer matches Some(values) ==> values@.len() == volume(batch, channels, height, width)
}

/// Whether `len` is the product of the four sizes.
fn has_volume(len: usize, batch: usize, channels: usize, height: usize, width: usize) -> (r: bool)
    ensures
        r == (len == volume(batch as int, channels as int, height as int, width as int)),
{
    let ghost (b, c, h, w) = (batch as int, channels as int, height as int, width as int);
    if batch == 0 || channels == 0 || height == 0 || width == 0 {
        assert(b * c * h * w == 0) by (nonlinear_arith)
            requires
                b == 0 || c == 0 || h == 0 || w == 0,
        ;
        return len == 0;
    }
    assert(b * c >= 1 && b * c * h >= b * c && b * c * h * w >= b * c * h) by (nonlinear_arith)
        requires
            b >= 1,
            c >= 1,
            h >= 1,
            w >= 1,
    ;
    match batch.checked_mul(channels) {
        None => false,
        Some(planes) => match planes.checked_mul(height) {
            None => false,
            Some(rows) => match rows.checked_mul(width) {
                None => false,
                Some(total) => len == total,
            },
        },
    }
}

/// Whether the length of an optional buffer is that of its shape.
fn has_shape<T>(
    buffer: &Option<Vec<T>>,
    batch: usize,
    channels: usize,
    height: usize,
    width: usize,
) -> (r: bool)
    ensures
        r == fits_shape(*buffer, batch as int, channels as int, height as int, width as int),
{
    match buffer {
        Some(values) => has_volume(values.len(), batch, channels, height, width),
        None => true,
    }
}

impl<T> ImageNetTeacherTargetBatchData<T> {
    /// The features have the lengths that the batch and the teacher say.
    pub open spec fn wf(&self, batch_size: int) -> bool {
        &&& self.cls@.len() == volume(batch_size, 1, 1, self.feature_dim as int)
        &&& self.patch is Some ==> self.patch_tokens is Some
        &&& fits_shape(
            self.patch,
            batch_size,
            self.patch_tokens->0 as int,
            1,
            self.feature_dim as int,
        )
    }
}

impl<T> ImageNetBatchData<T> {
    /// The labels and the image buffers have the lengths that their shapes say.
    pub open spec fn images_wf(&self) -> bool {
        let n = self.batch_size as int;
        let side = self.global_image_size as int;
        let local = self.local_image_size as int;
        &&& self.labels@.len() == n
        &&& self.images@.len() == volume(n, 3, side, side)
        &&& fits_shape(self.target_images, n, 3, side, side)
        &&& n * self.global_views <= usize::MAX
        &&& n * self.local_views <= usize::MAX
        &&& fits_shape(self.view_images, n * self.global_views, 3, side, side)
        &&& fits_shape(self.view_crops, n, self.global_views as int, 1, 4)
        &&& fits_shape(self.global_view_images, n * self.global_views, 3, side, side)
        &&& fits_shape(self.local_view_images, n * self.local_views, 3, local, local)
    }

    /// The features of the primary teacher have the lengths that their shapes say.
    pub open spec fn teacher_wf(&self) -> bool {
        let n = self.batch_size as int;
        &&& self.teacher_patch is Some ==> self.teacher_patch_tokens is Some
            && self.teacher_feature_dim is Some
        &&& fits_shape(
            self.teacher_patch,
            n,
            self.teacher_patch_tokens->0 as int,
            1,
            self.teacher_feature_dim->0 as int,
        )
        &&& self.teacher_cls is Some ==> self.teacher_feature_dim is Some
        &&& fits_shape(self.teacher_cls, n, 1, 1, self.teacher_feature_dim->0 as int)
    }

    /// The latents of the teacher have the length that their shape says.
    pub open spec fn latent_wf(&self) -> bool {
        &&& self.rac_teacher_latent is Some ==> self.rac_teacher_shape is Some
        &&& fits_shape(
            self.rac_teacher_latent,
            self.batch_size as int,
            (self.rac_teacher_shape->0).0 as int,
            (self.rac_teacher_shape->0).1 as int,
            (self.rac_teacher_shape->0).2 as int,
        )
    }

    /// Every buffer has the length that its shape says.
    pub open spec fn wf(&self) -> bool {
        &&& self.images_wf()
        &&& self.teacher_wf()
        &&& self.latent_wf()
        &&& forall|k: int|
            0 <= k < self.teacher_targets@.len() ==> (#[trigger] self.teacher_targets@[k]).wf(
                self.batch_size as int,
            )
    }

    /// Whether every buffer has the length that its shape says.
    pub fn has_shapes(&self) -> (r: bool)
        ensures
            r == self.wf(),
    {
        let n: usize = self.batch_size;
        let side: usize = self.global_image_size;
        let local: usize = self.local_image_size;
        let (global, locals) = match (
            n.checked_mul(self.global_views),
            n.checked_mul(self.local_views),
        ) {
            (Some(global), Some(locals)) => (global, locals),
            _ => return false,
        };
        let images: bool = self.labels.len() == n && has_volume(self.images.len(), n, 3, side, side)
            && has_shape(&self.target_images, n, 3, side, side) && has_shape(
            &self.view_images,
            global,
            3,
            side,
            side,
        ) && has_shape(&self.view_crops, n, self.global_views, 1, 4) && has_shape(
            &self.global_view_images,
            global,
            3,
            side,
            side,
        ) && has_shape(&self.local_view_images, locals, 3, local, local);
        let dim: usize = value_or_zero(self.teacher_feature_dim);
        let tokens: usize = value_or_zero(self.teacher_patch_tokens);
        let teacher: bool = (self.teacher_patch.is_none() || (self.teacher_patch_tokens.is_some()
            && self.teacher_feature_dim.is_some() && has_shape(
            &self.teacher_patch,
            n,
            tokens,
            1,
            dim,
        ))) && (self.teacher_cls.is_none() || (self.teacher_feature_dim.is_some() && has_shape(
            &self.teacher_cls,
            n,
            1,
            1,
            dim,
        )));
        let latent: bool = match (&self.rac_teacher_latent, self.rac_teacher_shape) {
            (Some(values), Some((c, h, w))) => has_volume(values.len(), n, c, h, w),
            (Some(_), None) => false,
            (None, _) => true,
        };
        if !(images && teacher && latent) {
            return false;
        }
        let mut k: usize = 0;
        while k < self.teacher_targets.len()
            invariant
                k <= self.teacher_targets@.len(),
                n == self.batch_size,
                self.images_wf(),
                self.teacher_wf(),
                self.latent_wf(),
                forall|j: int|
                    0 <= j < k ==> (#[trigger] self.teacher_targets@[j]).wf(n as int),
            decreases self.teacher_targets@.len() - k,
        {
            let target = &self.teacher_targets[k];
            let tokens: usize = value_or_zero(target.patch_tokens);
            let fits: bool = has_volume(target.cls.len(), n, 1, 1, target.feature_dim) && (
            target.patch.is_none() || (target.patch_tokens.is_some() && has_shape(
                &target.patch,
                n,
                tokens,
                1,
                target.feature_dim,
            )));
            if !fits {
                assert(!self.teacher_targets@[k as int].wf(n as int));
                return false;
            }
            k += 1;
        }
        true
    }

    /// Gives every buffer its shape.
    pub fn into_batch(self) -> (batch: ImageNetBatch<T>)
        requires
            self.wf(),
        ensures
            ({
                let n = self.batch_size as int;
                let side = self.global_image_size as int;
                let local = self.local_image_size as int;
                &&& is_shaped(batch.images, self.images@, n, 3, side, side)
                &&& is_shaped_option(batch.target_images, self.target_images, n, 3, side, side)
                &&& is_shaped_views(
                    batch.view_images,
                    self.view_images,
                    n,
                    self.global_views as int,
                    side,
                )
                &&& is_shaped_option(
                    batch.view_crops,
                    self.view_crops,
                    n,
                    self.global_views as int,
                    1,
                    4,
                )
                &&& is_shaped_views(
                    batch.global_view_images,
                    self.global_view_images,
                    n,
                    self.global_views as int,
                    side,
                )
                &&& is_shaped_views(
                    batch.local_view_images,
                    self.local_view_images,
                    n,
                    self.local_views as int,
                    local,
                )
                &&& batch.labels@ == self.labels@
                &&& is_shaped_option(
                    batch.teacher_patch,
                    self.teacher_patch,
                    n,
                    self.teacher_patch_tokens->0 as int,
                    1,
                    self.teacher_feature_dim->0 as int,
                )
                &&& is_shaped_option(
                    batch.teacher_cls,
                    self.teacher_cls,
                    n,
                    1,
                    1,
                    self.teacher_feature_dim->0 as int,
                )
                &&& is_shaped_option(
                    batch.rac_teacher_latent,
                    self.rac_teacher_latent,
                    n,
                    (self.rac_teacher_shape->0).0 as int,
                    (self.rac_teacher_shape->0).1 as int,
                    (self.rac_teacher_shape->0).2 as int,
                )
                &&& batch.teacher_targets@.len() == self.teacher_targets@.len()
                &&& forall|k: int|
                    0 <= k < self.teacher_targets@.len() ==> is_shaped_target(
                        #[trigger] batch.teacher_targets@[k],
                        self.teacher_targets@[k],
                        n,
                    )
            }),
    {
        let n: usize = self.batch_size;
        let side: usize = self.global_image_size;
        let local: usize = self.local_image_size;
        let tokens: usize = value_or_zero(self.teacher_patch_tokens);
        let dim: usize = value_or_zero(self.teacher_feature_dim);
        let latent: (usize, usize, usize) = match self.rac_teacher_shape {
            Some(shape) => shape,
            None => (0, 0, 0),
        };
        let images = FrameBatch {
            batch: n,
            channels: IMAGE_CHANNELS,
            height: side,
            width: side,
            data: self.images,
        };
        let target_images = shape_option(self.target_images, n, IMAGE_CHANNELS, side, side);
        let view_images = shape_views(self.view_images, n, self.global_views, side);
        let view_crops = shape_option(self.view_crops, n, self.global_views, 1, 4);
        let global_view_images = shape_views(self.global_view_images, n, self.global_views, side);
        let local_view_images = shape_views(self.local_view_images, n, self.local_views, local);
        let teacher_patch = shape_option(self.teacher_patch, n, tokens, 1, dim);
        let teacher_cls = shape_option(self.teacher_cls, n, 1, 1, dim);
        let rac_teacher_latent = shape_option(
            self.rac_teacher_latent,
            n,
            latent.0,
            latent.1,
            latent.2,
        );
        let teacher_targets = shape_targets(self.teacher_targets, n);
        ImageNetBatch::new(
            images,
            target_images,
            view_images,
            view_crops,
            global_view_images,
            local_view_images,
            self.labels,
            teacher_patch,
            teacher_cls,
        ).with_rac_teacher_latent(rac_teacher_latent).with_teacher_targets(teacher_targets)
    }
}

/// Whether an auxiliary teacher's features got their shapes.
pub open spec fn is_shaped_target<T>(
    batch: ImageNetTeacherTargetBatch<T>,
    data: ImageNetTeacherTargetBatchData<T>,
    n: int,
) -> bool {
    &&& batch.name == data.name
    &&& batch.weight == data.weight
    &&& batch.target_kind == data.target_kind
    &&& is_shaped(batch.cls, data.cls@, n, 1, 1, data.feature_dim as int)
    &&& is_shaped_option(
        batch.patch,
        data.patch,
        n,
        data.patch_tokens->0 as int,
        1,
        data.feature_dim as int,
    )
}

fn value_or_zero(value: Option<usize>) -> (r: usize)
    ensures
        value is Some ==> r == value->0,
{
    match value {
        Some(v) => v,
        None => 0,
    }
}

fn shape_option<T>(
    buffer: Option<Vec<T>>,
    batch: usize,
    channels: usize,
    height: usize,
    width: usize,
) -> (frames: Option<FrameBatch<T>>)
    requires
        fits_shape(buffer, batch as int, channels as int, height as int, width as int),
    ensures
        is_shaped_option(
            frames,
            buffer,
            batch as int,
            channels as int,
            height as int,
            width as int,
        ),
{
    match buffer {
        Some(data) => Some(FrameBatch { batch, channels, height, width, data }),
        None => None,
    }
}

fn shape_views<T>(buffer: Option<Vec<T>>, batch: usize, views: usize, side: usize) -> (frames: Option<
    ViewFrames<T>,
>)
    requires
        batch * views <= usize::MAX,
        fits_shape(buffer, batch * views, 3, side as int, side as int),
    ensures
        is_shaped_views(frames, buffer, batch as int, views as int, side as int),
{
    match buffer {
        Some(data) => Some(
            ViewFrames {
                views,
                frames: FrameBatch {
                    batch: batch * views,
                    channels: IMAGE_CHANNELS,
                    height: side,
                    width: side,
                    data,
                },
            },
        ),
        None => None,
    }
}

fn shape_target<T>(data: ImageNetTeacherTargetBatchData<T>, batch: usize) -> (target:
    ImageNetTeacherTargetBatch<T>)
    requires
        data.wf(batch as int),
    ensures
        is_shaped_target(target, data, batch as int),
{
    let tokens: usize = value_or_zero(data.patch_tokens);
    let patch = shape_option(data.patch, batch, tokens, 1, data.feature_dim);
    ImageNetTeacherTargetBatch {
        name: data.name,
        weight: data.weight,
        target_kind: data.target_kind,
        patch,
        cls: FrameBatch {
            batch,
            channels: 1,
            height: 1,
            width: data.feature_dim,
            data: data.cls,
        },
    }
}

fn shape_targets<T>(data: Vec<ImageNetTeacherTargetBatchData<T>>, batch: usize) -> (targets: Vec<
    ImageNetTeacherTargetBatch<T>,
>)
    requires
        forall|k: int| 0 <= k < data@.len() ==> (#[trigger] data@[k]).wf(batch as int),
    ensures
        targets@.len() == data@.len(),
        forall|k: int|
            0 <= k < data@.len() ==> is_shaped_target(
                #[trigger] targets@[k],
                data@[k],
                batch as int,
            ),
{
    let mut rest = data;
    let mut targets: Vec<ImageNetTeacherTargetBatch<T>> = Vec::new();
    let count: usize = rest.len();
    let mut k: usize = 0;
    while k < count
        invariant
            k <= count,
            count == data@.len(),
            rest@ == data@.skip(k as int),
            forall|j: int| 0 <= j < data@.len() ==> (#[trigger] data@[j]).wf(batch as int),
            targets@.len() == k,
            forall|j: int|
                0 <= j < k ==> is_shaped_target(#[trigger] targets@[j], data@[j], batch as int),
        decreases count - k,
    {
        assert(rest@[0] == data@[k as int]);
        let next = rest.remove(0);
        assert(data@[k as int].wf(batch as int));
        targets.push(shape_target(next, batch));
        k += 1;
        assert(rest@ =~= data@.skip(k as int));
    }
    targets
}

/// Whether `out` is `input` repeated `repeats` times along the batch.
pub open spec fn is_repeated<T>(out: FrameBatch<T>, input: FrameBatch<T>, repeats: int) -> bool {
    &&& out.wf()
    &&& out.batch == input.batch * repeats
    &&& out.channels == input.channels
    &&& out.height == input.height
    &&& out.width == input.width
    &&& out.data@ == repeated(input.data@, repeats as nat)
}

/// A sequence repeated `n` times.
pub open spec fn repeated<T>(data: Seq<T>, n: nat) -> Seq<T>
    decreases n,
{
    if n == 0 {
        Seq::empty()
    } else {
        repeated(data, (n - 1) as nat) + data
    }
}

proof fn lemma_repeated_len<T>(data: Seq<T>, n: nat)
    ensures
        repeated(data, n).len() == n * data.len(),
    decreases n,
{
    if n > 0 {
        lemma_repeated_len(data, (n - 1) as nat);
        assert(n * data.len() == (n - 1) * data.len() + data.len()) by (nonlinear_arith)
            requires
                n >= 1,
        ;
    } else {
        assert(n * data.len() == 0) by (nonlinear_arith)
            requires
                n == 0,
        ;
    }
}

fn repeat_values<T: Copy>(data: &Vec<T>, repeats: usize) -> (out: Vec<T>)
    ensures
        out@ == repeated(data@, repeats as nat),
{
    let mut out: Vec<T> = Vec::new();
    let mut r: usize = 0;
    while r < repeats
        invariant
            r <= repeats,
            out@ == repeated(data@, r as nat),
        decreases repeats - r,
    {
        push_all(&mut out, data);
        r += 1;
    }
    out
}

/// The batch repeated `repeats` times.
pub fn repeat_frames<T: Copy>(input: &FrameBatch<T>, repeats: usize) -> (out: FrameBatch<T>)
    requires
        input.wf(),
        input.batch * repeats <= usize::MAX,
    ensures
        is_repeated(out, *input, repeats as int),
{
    let data = repeat_values(&input.data, repeats);
    proof {
        lemma_repeated_len(input.data@, repeats as nat);
        assert(volume(
            input.batch * repeats,
            input.channels as int,
            input.height as int,
            input.width as int,
        ) == repeats * input.data@.len()) by (nonlinear_arith)
            requires
                volume(
                    input.batch * repeats,
                    input.channels as int,
                    input.height as int,
                    input.width as int,
                ) == input.batch * repeats * input.channels * input.height * input.width,
                input.data@.len() == input.batch * input.channels * input.height * input.width,
        ;
    }
    FrameBatch {
        batch: input.batch * repeats,
        channels: input.channels,
        height: input.height,
        width: input.width,
        data,
    }
}

/// The frames of an optional buffer are well formed and can be repeated.
pub open spec fn repeatable<T>(frames: Option<FrameBatch<T>>, repeats: int) -> bool {
    frames matches Some(f) ==> f.wf() && f.batch * repeats <= usize::MAX
}

/// The same, of several views.
pub open spec fn repeatable_views<T>(frames: Option<ViewFrames<T>>, repeats: int) -> bool {
    frames matches Some(v) ==> v.frames.wf() && v.frames.batch * repeats <= usize::MAX
}

/// Whether an optional buffer is repeated.
pub open spec fn is_repeated_option<T>(
    out: Option<FrameBatch<T>>,
    input: Option<FrameBatch<T>>,
    repeats: int,
) -> bool {
    match (out, input) {
        (Some(o), Some(i)) => is_repeated(o, i, repeats),
        (None, None) => true,
        _ => false,
    }
}

/// Whether an optional buffer of several views is repeated.
pub open spec fn is_repeated_views<T>(
    out: Option<ViewFrames<T>>,
    input: Option<ViewFrames<T>>,
    repeats: int,
) -> bool {
    match (out, input) {
        (Some(o), Some(i)) => o.views == i.views && is_repeated(o.frames, i.frames, repeats),
        (None, None) => true,
        _ => false,
    }
}

/// Whether an auxiliary teacher's features are repeated.
pub open spec fn is_repeated_target<T>(
    out: ImageNetTeacherTargetBatch<T>,
    input: ImageNetTeacherTargetBatch<T>,
    repeats: int,
) -> bool {
    &&& out.name@ == input.name@
    &&& out.weight == input.weight
    &&& out.target_kind == input.target_kind
    &&& is_repeated_option(out.patch, input.patch, repeats)
    &&& is_repeated(out.cls, input.cls, repeats)
}

fn repeat_option<T: Copy>(frames: &Option<FrameBatch<T>>, repeats: usize) -> (out: Option<
    FrameBatch<T>,
>)
    requires
        repeatable(*frames, repeats as int),
    ensures
        is_repeated_option(out, *frames, repeats as int),
{
    match frames {
        Some(f) => Some(repeat_frames(f, repeats)),
        None => None,
    }
}

fn repeat_views<T: Copy>(frames: &Option<ViewFrames<T>>, repeats: usize) -> (out: Option<
    ViewFrames<T>,
>)
    requires
        repeatable_views(*frames, repeats as int),
    ensures
        is_repeated_views(out, *frames, repeats as int),
{
    match frames {
        Some(v) => Some(ViewFrames { views: v.views, frames: repeat_frames(&v.frames, repeats) }),
        None => None,
    }
}

impl<T> ImageNetBatch<T> {
    /// Every buffer is well formed and can be repeated.
    pub open spec fn repeatable(&self, repeats: int) -> bool {
        &&& self.images.wf()
        &&& self.images.batch * repeats <= usize::MAX
        &&& repeatable(self.target_images, repeats)
        &&& repeatable_views(self.view_images, repeats)
        &&& repeatable(self.view_crops, repeats)
        &&& repeatable_views(self.global_view_images, repeats)
        &&& repeatable_views(self.local_view_images, repeats)
        &&& repeatable(self.teacher_patch, repeats)
        &&& repeatable(self.teacher_cls, repeats)
        &&& repeatable(self.rac_teacher_latent, repeats)
        &&& forall|k: int|
            0 <= k < self.teacher_targets@.len() ==> {
                &&& (#[trigger] self.teacher_targets@[k]).cls.wf()
                &&& self.teacher_targets@[k].cls.batch * repeats <= usize::MAX
                &&& repeatable(self.teacher_targets@[k].patch, repeats)
            }
    }
}

impl<T: Copy> ImageNetBatch<T> {
    /// The batch repeated `repeats` times (at least once): every buffer, one copy after the other.
    pub fn repeat_batch(&self, repeats: usize) -> (out: Self)
        requires
            self.repeatable(at_least_one(repeats as int)),
        ensures
            ({
                let n = at_least_one(repeats as int);
                &&& is_repeated(out.images, self.images, n)
                &&& is_repeated_option(out.target_images, self.target_images, n)
                &&& is_repeated_views(out.view_images, self.view_images, n)
                &&& is_repeated_option(out.view_crops, self.view_crops, n)
                &&& is_repeated_views(out.global_view_images, self.global_view_images, n)
                &&& is_repeated_views(out.local_view_images, self.local_view_images, n)
                &&& out.labels@ == repeated(self.labels@, n as nat)
                &&& is_repeated_option(out.teacher_patch, self.teacher_patch, n)
                &&& is_repeated_option(out.teacher_cls, self.teacher_cls, n)
                &&& is_repeated_option(out.rac_teacher_latent, self.rac_teacher_latent, n)
                &&& out.teacher_targets@.len() == self.teacher_targets@.len()
                &&& forall|k: int|
                    0 <= k < self.teacher_targets@.len() ==> is_repeated_target(
                        #[trigger] out.teacher_targets@[k],
                        self.teacher_targets@[k],
                        n,
                    )
            }),
    {
        let n: usize = max_one(repeats);
        let mut targets: Vec<ImageNetTeacherTargetBatch<T>> = Vec::new();
        let mut k: usize = 0;
        while k < self.teacher_targets.len()
            invariant
                k <= self.teacher_targets@.len(),
                self.repeatable(n as int),
                targets@.len() == k,
                forall|j: int|
                    0 <= j < k ==> is_repeated_target(
                        #[trigger] targets@[j],
                        self.teacher_targets@[j],
                        n as int,
                    ),
            decreases self.teacher_targets@.len() - k,
        {
            let target = &self.teacher_targets[k];
            assert(self.teacher_targets@[k as int].cls.wf());
            targets.push(
                ImageNetTeacherTargetBatch {
                    name: target.name.clone(),
                    weight: target.weight,
                    target_kind: target.target_kind,
                    patch: repeat_option(&target.patch, n),
                    cls: repeat_frames(&target.cls, n),
                },
            );
            k += 1;
        }
        Self {
            images: repeat_frames(&self.images, n),
            target_images: repeat_option(&self.target_images, n),
            view_images: repeat_views(&self.view_images, n),
            view_crops: repeat_option(&self.view_crops, n),
            global_view_images: repeat_views(&self.global_view_images, n),
            local_view_images: repeat_views(&self.local_view_images, n),
            labels: repeat_values(&self.labels, n),
            teacher_patch: repeat_option(&self.teacher_patch, n),
            teacher_cls: repeat_option(&self.teacher_cls, n),
            rac_teacher_latent: repeat_option(&self.rac_teacher_latent, n),
            teacher_targets: targets,
        }
    }
}

/// How batches are prepared ahead of their use.
#[derive(Clone, Copy, Debug, PartialEq, Eq, Structural)]
pub struct PrefetchPlan {
    pub batches: usize,
    pub workers: usize,
    pub to_device: bool,
}

/// The plan for an epoch of `steps` batches: no more batches than the epoch has, but room for every
/// worker, and for two where they are copied to the device; nothing at all where no batch is wanted.
pub open spec fn prefetch_plan_of(
    steps: int,
    batches: int,
    workers: int,
    to_device: bool,
) -> PrefetchPlan {
    if batches == 0 || steps == 0 {
        PrefetchPlan { batches: 0, workers: 0, to_device: false }
    } else {
        let wanted = vstd::math::min(batches, steps);
        let floor = if to_device {
            2
        } else {
            1
        };
        PrefetchPlan {
            batches: vstd::math::min(
                vstd::math::max(vstd::math::max(wanted, floor), at_least_one(workers)),
                steps,
            ) as usize,
            workers: at_least_one(workers) as usize,
            to_device,
        }
    }
}

/// Plans the preparation of batches.
pub fn prefetch_plan(steps: usize, batches: usize, workers: usize, to_device: bool) -> (plan:
    PrefetchPlan)
    ensures
        plan == prefetch_plan_of(steps as int, batches as int, workers as int, to_device),
{
    let wanted: usize = min_of(batches, steps);
    let copies: bool = to_device && wanted > 0;
    let floor: usize = if copies {
        2
    } else {
        1
    };
    let workers: usize = if wanted == 0 {
        0
    } else {
        max_one(workers)
    };
    let batches: usize = if wanted == 0 {
        0
    } else {
        min_of(max_of(max_of(wanted, floor), workers), steps)
    };
    PrefetchPlan { batches, workers, to_device: copies }
}

/// The accounting of a loader over an image folder.
#[derive(Clone, Copy, Debug, PartialEq, Eq, Structural)]
pub struct ImageNetDataLoader {
    pub schedule: LoaderSchedule,
    pub prefetch: PrefetchPlan,
}

impl ImageNetDataLoader {
    /// A loader over `dataset`.
    pub fn new(
        dataset: &ImageNetDataset,
        batch_size: usize,
        steps_per_epoch: usize,
        total_steps: Option<usize>,
        prefetch_batches: usize,
        prefetch_workers: usize,
        prefetch_to_device: bool,
    ) -> (loader: Self)
        ensures
            loader.schedule.wf(),
            loader.schedule.batch_size == batch_size,
            loader.schedule.steps_per_epoch == (if steps_per_epoch == 0 {
                epoch_steps(dataset.samples@.len() as int, batch_size as int)
            } else {
                steps_per_epoch as int
            }),
            loader.schedule.total_steps == (match total_steps {
                Some(limit) => if limit > 0 {
                    Some(limit)
                } else {
                    None
                },
                None => None,
            }),
            loader.prefetch == prefetch_plan_of(
                loader.schedule.steps_per_epoch as int,
                prefetch_batches as int,
                prefetch_workers as int,
                prefetch_to_device,
            ),
    {
        let schedule = LoaderSchedule::new(
            dataset.len(),
            batch_size,
            steps_per_epoch,
            total_steps,
        );
        let prefetch = prefetch_plan(
            schedule.steps_per_epoch,
            prefetch_batches,
            prefetch_workers,
            prefetch_to_device,
        );
        Self { schedule, prefetch }
    }

    /// Whether an epoch of `steps_total` batches is prepared ahead.
    pub fn prefetches(&self, steps_total: usize) -> (r: bool)
        ensures
            r == (self.prefetch.batches > 0 && steps_total > 0),
    {
        self.prefetch.batches > 0 && steps_total > 0
    }

    /// The loader of the epoch's batches `start..end`, prepared as before.
    pub fn slice(&self, start: usize, end: usize) -> (part: Self)
        ensures
            part.prefetch == self.prefetch,
            part.schedule.batch_size == self.schedule.batch_size,
            part.schedule.total_steps == self.schedule.total_steps,
            part.schedule.steps_per_epoch == ({
                let stop = vstd::math::min(end as int, self.schedule.steps_per_epoch as int);
                at_least_one(stop - vstd::math::min(start as int, stop))
            }),
    {
        Self { schedule: self.schedule.slice(start, end), prefetch: self.prefetch }
    }
}

/// How many threads prepare batches: the workers, and one more that copies to the device.
pub fn prefetch_threads(plan: &PrefetchPlan) -> (n: usize)
    requires
        plan.workers < usize::MAX,
    ensures
        n == at_least_one(plan.workers as int) + (if plan.to_device {
            1int
        } else {
            0int
        }),
{
    max_one(plan.workers) + if plan.to_device {
        1
    } else {
        0
    }
}

/// Claims the next batch of an epoch for a worker; `false` where all are claimed.
pub fn claim_batch(remaining: &mut usize) -> (claimed: bool)
    ensures
        claimed == (*old(remaining) > 0),
        *final(remaining) == (if *old(remaining) > 0 {
            *old(remaining) - 1
        } else {
            0
        }),
{
    if *remaining > 0 {
        *remaining = *remaining - 1;
        true
    } else {
        false
    }
}

/// Prepared batches never exceed the epoch, and every worker has room for its batch unless the epoch
/// is shorter.
pub proof fn law_prefetch_fits_the_epoch(steps: int, batches: int, workers: int, to_device: bool)
    requires
        0 <= steps <= usize::MAX,
        0 <= batches <= usize::MAX,
        0 <= workers <= usize::MAX,
    ensures
        ({
            let plan = prefetch_plan_of(steps, batches, workers, to_device);
            &&& plan.batches <= steps
            &&& plan.batches > 0 <==> batches > 0 && steps > 0
            &&& plan.batches > 0 ==> plan.workers >= 1 && (plan.batches >= plan.workers
                || plan.batches == steps)
            &&& plan.to_device ==> to_device && plan.batches > 0
        }),
{
}

/// Every image has the views that a batch keeps, each of the right size: the global ones always,
/// their crops where `crops`, the local ones where `locals`.
pub open spec fn items_sized<T>(
    items: Seq<ProcessedImage<T>>,
    global_views: int,
    global_len: int,
    crops: bool,
    locals: bool,
    local_views: int,
    local_len: int,
) -> bool {
    forall|i: int|
        0 <= i < items.len() ==> {
            &&& parts_sized((#[trigger] items[i]).global@, global_views, global_len)
            &&& crops ==> parts_sized(items[i].crops@, global_views, 4)
            &&& locals ==> parts_sized(items[i].local@, local_views, local_len)
        }
}

proof fn lemma_concatenated_len<T>(parts: Seq<Vec<T>>, n: nat, count: int, len: int)
    requires
        parts_sized(parts, count, len),
        n <= count,
    ensures
        concatenated(parts, n).len() == n * len,
    decreases n,
{
    if n > 0 {
        lemma_concatenated_len(parts, (n - 1) as nat, count, len);
        assert(n * len == (n - 1) * len + len) by (nonlinear_arith);
    } else {
        assert(n * len == 0) by (nonlinear_arith)
            requires
                n == 0,
        ;
    }
}

proof fn lemma_view_len<T>(
    items: Seq<ProcessedImage<T>>,
    view: int,
    n: nat,
    views: int,
    len: int,
)
    requires
        forall|i: int|
            0 <= i < items.len() ==> parts_sized((#[trigger] items[i]).global@, views, len),
        0 <= view < views,
        n <= items.len(),
    ensures
        view_of_each(items, view, n).len() == n * len,
    decreases n,
{
    if n > 0 {
        lemma_view_len(items, view, (n - 1) as nat, views, len);
        assert(parts_sized(items[n - 1].global@, views, len));
        assert(n * len == (n - 1) * len + len) by (nonlinear_arith);
    } else {
        assert(n * len == 0) by (nonlinear_arith)
            requires
                n == 0,
        ;
    }
}

proof fn lemma_list_len<T>(
    items: Seq<ProcessedImage<T>>,
    list: ViewList,
    n: nat,
    count: int,
    part: int,
)
    requires
        forall|i: int|
            0 <= i < items.len() ==> parts_sized(list_of(#[trigger] items[i], list), count, part),
        count >= 0,
        n <= items.len(),
    ensures
        list_of_each(items, list, n).len() == n * (count * part),
    decreases n,
{
    let size = count * part;
    if n > 0 {
        lemma_list_len(items, list, (n - 1) as nat, count, part);
        let parts = list_of(items[n - 1], list);
        assert(parts_sized(parts, count, part));
        lemma_concatenated_len(parts, parts.len(), count, part);
        assert(n * size == (n - 1) * size + size) by (nonlinear_arith);
    } else {
        assert(n * size == 0) by (nonlinear_arith)
            requires
                n == 0,
        ;
    }
}

/// Whether the image buffers of `data` are the views of `items`, each buffer that is kept.
pub open spec fn is_assembled<T>(items: Seq<ProcessedImage<T>>, data: ImageNetBatchData<T>) -> bool {
    let n = items.len();
    &&& data.batch_size == n
    &&& data.labels@.len() == n
    &&& data.images@ == view_of_each(items, 0, n)
    &&& data.target_images matches Some(v) ==> data.global_views > 1 && v@ == view_of_each(
        items,
        1,
        n,
    )
    &&& data.view_images matches Some(v) ==> v@ == list_of_each(items, ViewList::Global, n)
    &&& data.view_crops matches Some(v) ==> v@ == list_of_each(items, ViewList::Crops, n)
    &&& data.global_view_images matches Some(v) ==> v@ == list_of_each(items, ViewList::Global, n)
    &&& data.local_view_images matches Some(v) ==> v@ == list_of_each(items, ViewList::Local, n)
}

/// A batch that was put together from images with views of the right sizes gets its shapes: every
/// image buffer has exactly the length that its shape says, and with it the whole batch where the
/// features of its teachers have theirs. Crops and local views are asked for only where they are
/// kept.
pub proof fn law_assembled_batch_has_its_shapes<T>(
    items: Seq<ProcessedImage<T>>,
    data: ImageNetBatchData<T>,
)
    requires
        is_assembled(items, data),
        data.global_views >= 1,
        items.len() * data.global_views <= usize::MAX,
        items.len() * data.local_views <= usize::MAX,
        items_sized(
            items,
            data.global_views as int,
            3 * data.global_image_size * data.global_image_size,
            data.view_crops is Some,
            data.local_view_images is Some,
            data.local_views as int,
            3 * data.local_image_size * data.local_image_size,
        ),
    ensures
        data.images_wf(),
        data.wf() <==> data.teacher_wf() && data.latent_wf() && forall|k: int|
            0 <= k < data.teacher_targets@.len() ==> (#[trigger] data.teacher_targets@[k]).wf(
                items.len() as int,
            ),
{
    let n = items.len();
    let side = data.global_image_size as int;
    let local = data.local_image_size as int;
    let len = 3 * side * side;
    let local_len = 3 * local * local;
    let views = data.global_views as int;
    let locals = data.local_views as int;
    lemma_view_len(items, 0, n, views, len);
    if views > 1 {
        lemma_view_len(items, 1, n, views, len);
    }
    assert forall|i: int| 0 <= i < n implies parts_sized(
        list_of(#[trigger] items[i], ViewList::Global),
        views,
        len,
    ) by {
        assert(parts_sized(items[i].global@, views, len));
    }
    lemma_list_len(items, ViewList::Global, n, views, len);
    if data.view_crops is Some {
        lemma_list_len(items, ViewList::Crops, n, views, 4);
    }
    if data.local_view_images is Some {
        lemma_list_len(items, ViewList::Local, n, locals, local_len);
    }
    assert(n * (3 * side * side) == n * 3 * side * side) by (nonlinear_arith);
    assert(n * (views * (3 * side * side)) == (n * views) * 3 * side * side) by (nonlinear_arith);
    assert(n * (locals * (3 * local * local)) == (n * locals) * 3 * local * local)
        by (nonlinear_arith);
    assert(n * (views * 4) == n * views * 1 * 4) by (nonlinear_arith);
}

/// Whether features of a batch of `n` have the lengths of that many records of their store.
pub open spec fn features_fit<T>(
    store: crate::features::DinoFeatureStore,
    n: int,
    cls: Seq<T>,
    patch: Option<Vec<T>>,
) -> bool {
    &&& cls.len() == n * store.cls_stride()
    &&& patch matches Some(values) ==> store.patch_tokens is Some && values@.len() == n
        * store.patch_stride()
}

proof fn lemma_feature_shapes(n: int, tokens: int, dim: int)
    ensures
        volume(n, 1, 1, dim) == n * dim,
        volume(n, tokens, 1, dim) == n * (dim * tokens),
{
    assert(n * 1 * 1 * dim == n * dim) by (nonlinear_arith);
    assert(n * tokens * 1 * dim == n * (dim * tokens)) by (nonlinear_arith);
}

/// Features that were read from their store record by record have the shapes of the batch: with them
/// a batch keeps its shapes.
pub proof fn law_teachers_keep_the_shapes<T>(
    data: ImageNetBatchData<T>,
    cls: Vec<T>,
    patch: Option<Vec<T>>,
    store: crate::features::DinoFeatureStore,
    latent: Vec<T>,
    latents: crate::features::ImageTensorStore,
)
    requires
        data.wf(),
        features_fit(store, data.batch_size as int, cls@, patch),
        latent@.len() == data.batch_size * latents.stride(),
    ensures
        (ImageNetBatchData {
            teacher_cls: Some(cls),
            teacher_patch: patch,
            teacher_feature_dim: Some(store.feature_dim),
            teacher_patch_tokens: store.patch_tokens,
            ..data
        }).wf(),
        (ImageNetBatchData {
            rac_teacher_latent: Some(latent),
            rac_teacher_shape: Some((latents.channels, latents.height, latents.width)),
            ..data
        }).wf(),
{
    let n = data.batch_size as int;
    lemma_feature_shapes(n, store.patch_tokens->0 as int, store.feature_dim as int);
    let (c, h, w) = (latents.channels as int, latents.height as int, latents.width as int);
    assert(n * (c * h * w) == n * c * h * w) by (nonlinear_arith);
}

impl<T> ImageNetBatchData<T> {
    /// The batch with teacher features, whose shape the store tells.
    pub fn with_teacher(
        self,
        cls: Vec<T>,
        patch: Option<Vec<T>>,
        store: &crate::features::DinoFeatureStore,
    ) -> (data: Self)
        ensures
            data == (ImageNetBatchData {
                teacher_cls: Some(cls),
                teacher_patch: patch,
                teacher_feature_dim: Some(store.feature_dim),
                teacher_patch_tokens: store.patch_tokens,
                ..self
            }),
            self.wf() && features_fit(*store, self.batch_size as int, cls@, patch) ==> data.wf(),
    {
        proof {
            lemma_feature_shapes(
                self.batch_size as int,
                store.patch_tokens->0 as int,
                store.feature_dim as int,
            );
        }
        let mut data = self;
        data.teacher_cls = Some(cls);
        data.teacher_patch = patch;
        data.teacher_feature_dim = Some(store.feature_dim);
        data.teacher_patch_tokens = store.patch_tokens;
        data
    }

    /// The batch with teacher latents, whose shape the store tells.
    pub fn with_rac_teacher_latent(
        self,
        latent: Vec<T>,
        store: &crate::features::ImageTensorStore,
    ) -> (data: Self)
        ensures
            data == (ImageNetBatchData {
                rac_teacher_latent: Some(latent),
                rac_teacher_shape: Some((store.channels, store.height, store.width)),
                ..self
            }),
            self.wf() && latent@.len() == self.batch_size * store.stride() ==> data.wf(),
    {
        proof {
            let n = self.batch_size as int;
            let (c, h, w) = (store.channels as int, store.height as int, store.width as int);
            assert(n * (c * h * w) == n * c * h * w) by (nonlinear_arith);
        }
        let mut data = self;
        data.rac_teacher_latent = Some(latent);
        data.rac_teacher_shape = Some((store.channels, store.height, store.width));
        data
    }

    /// The batch with auxiliary teachers.
    pub fn with_teacher_targets(self, targets: Vec<ImageNetTeacherTargetBatchData<T>>) -> (data: Self)
        ensures
            data == (ImageNetBatchData { teacher_targets: targets, ..self }),
            self.wf() && (forall|k: int|
                0 <= k < targets@.len() ==> (#[trigger] targets@[k]).wf(self.batch_size as int))
                ==> data.wf(),
    {
        let mut data = self;
        data.teacher_targets = targets;
        data
    }
}

/// Where part `v` of a list of parts of one length stands among all parts.
proof fn lemma_part_block<T>(parts: Seq<Vec<T>>, n: nat, count: int, len: int, v: int)
    requires
        parts_sized(parts, count, len),
        0 <= v < n <= count,
        len >= 0,
    ensures
        concatenated(parts, n).len() == n * len,
        0 <= v * len <= (v + 1) * len <= n * len,
        concatenated(parts, n).subrange(v * len, (v + 1) * len) == parts[v]@,
    decreases n,
{
    lemma_concatenated_len(parts, n, count, len);
    lemma_concatenated_len(parts, (n - 1) as nat, count, len);
    assert(0 <= v * len && v * len + len == (v + 1) * len && (v + 1) * len <= n * len && (n - 1)
        * len + len == n * len) by (nonlinear_arith)
        requires
            0 <= v < n,
            len >= 0,
    ;
    let whole = concatenated(parts, n);
    if v < n - 1 {
        lemma_part_block(parts, (n - 1) as nat, count, len, v);
        let front = concatenated(parts, (n - 1) as nat);
        assert(whole.subrange(v * len, (v + 1) * len) =~= front.subrange(v * len, (v + 1) * len));
    } else {
        assert(whole.subrange(v * len, (v + 1) * len) =~= parts[v]@);
    }
}

/// Where part `v` of the list of image `i` stands among the lists of all images.
proof fn lemma_list_block<T>(
    items: Seq<ProcessedImage<T>>,
    list: ViewList,
    n: nat,
    count: int,
    len: int,
    i: int,
    v: int,
)
    requires
        forall|k: int|
            0 <= k < items.len() ==> parts_sized(list_of(#[trigger] items[k], list), count, len),
        0 <= i < n <= items.len(),
        0 <= v < count,
        len >= 0,
    ensures
        ({
            let at = (i * count + v) * len;
            &&& 0 <= at
            &&& at + len <= list_of_each(items, list, n).len()
            &&& list_of_each(items, list, n).subrange(at, at + len) == list_of(items[i], list)[v]@
        }),
    decreases n,
{
    lemma_list_len(items, list, n, count, len);
    lemma_list_len(items, list, (n - 1) as nat, count, len);
    let size = count * len;
    let at = (i * count + v) * len;
    assert(at == i * size + v * len && 0 <= v * len && v * len + len <= size && 0 <= i * size && i
        * size + size <= n * size && (n - 1) * size + size == n * size) by (nonlinear_arith)
        requires
            at == (i * count + v) * len,
            size == count * len,
            0 <= i < n,
            0 <= v < count,
            len >= 0,
    ;
    let whole = list_of_each(items, list, n);
    let front = list_of_each(items, list, (n - 1) as nat);
    if i < n - 1 {
        lemma_list_block(items, list, (n - 1) as nat, count, len, i, v);
        assert(whole.subrange(at, at + len) =~= front.subrange(at, at + len));
    } else {
        let parts = list_of(items[i], list);
        assert(parts_sized(parts, count, len));
        lemma_part_block(parts, parts.len(), count, len, v);
        assert((v + 1) * len == v * len + len) by (nonlinear_arith);
        assert(whole.subrange(at, at + len) =~= concatenated(parts, parts.len()).subrange(
            v * len,
            (v + 1) * len,
        ));
    }
}

/// Where the view of image `i` stands among those of all images.
proof fn lemma_view_block<T>(
    items: Seq<ProcessedImage<T>>,
    view: int,
    n: nat,
    views: int,
    len: int,
    i: int,
)
    requires
        forall|k: int|
            0 <= k < items.len() ==> parts_sized((#[trigger] items[k]).global@, views, len),
        0 <= view < views,
        0 <= i < n <= items.len(),
        len >= 0,
    ensures
        0 <= i * len,
        i * len + len <= view_of_each(items, view, n).len(),
        view_of_each(items, view, n).subrange(i * len, i * len + len) == items[i].global@[view]@,
    decreases n,
{
    lemma_view_len(items, view, n, views, len);
    lemma_view_len(items, view, (n - 1) as nat, views, len);
    assert(0 <= i * len && i * len + len <= n * len && (n - 1) * len + len == n * len)
        by (nonlinear_arith)
        requires
            0 <= i < n,
            len >= 0,
    ;
    let whole = view_of_each(items, view, n);
    let front = view_of_each(items, view, (n - 1) as nat);
    assert(parts_sized(items[i].global@, views, len));
    if i < n - 1 {
        lemma_view_block(items, view, (n - 1) as nat, views, len, i);
        assert(whole.subrange(i * len, i * len + len) =~= front.subrange(i * len, i * len + len));
    } else {
        assert(whole.subrange(i * len, i * len + len) =~= items[i].global@[view]@);
    }
}

/// Everything in a batch stands in the order of its images: row `i` of the images is the first view of
/// image `i`, row `i` of the targets its second one, and among the views, the crops and the local
/// views those of image `i` stand together in its place, view after view.
pub proof fn law_views_keep_the_batch_order<T>(
    items: Seq<ProcessedImage<T>>,
    data: ImageNetBatchData<T>,
    i: int,
    v: int,
    side: int,
    local: int,
)
    requires
        is_assembled(items, data),
        side >= 0,
        local >= 0,
        data.global_views >= 1,
        0 <= i < items.len(),
        0 <= v,
        forall|k: int|
            0 <= k < items.len() ==> {
                &&& (#[trigger] items[k]).global@.len() == data.global_views
                &&& forall|p: int|
                    0 <= p < items[k].global@.len() ==> (#[trigger] items[k].global@[p])@.len()
                        == side
                &&& data.view_crops is Some ==> items[k].crops@.len() == data.global_views
                    && forall|p: int|
                    0 <= p < items[k].crops@.len() ==> (#[trigger] items[k].crops@[p])@.len() == 4
                &&& data.local_view_images is Some ==> items[k].local@.len() == data.local_views
                    && forall|p: int|
                    0 <= p < items[k].local@.len() ==> (#[trigger] items[k].local@[p])@.len()
                        == local
            },
    ensures
        data.images@.subrange(i * side, i * side + side) == items[i].global@[0]@,
        data.target_images matches Some(b) ==> b@.subrange(i * side, i * side + side)
            == items[i].global@[1]@,
        ({
            let at = i * data.global_views + v;
            &&& v < data.global_views ==> {
                &&& data.view_images matches Some(b) ==> b@.subrange(at * side, at * side + side)
                    == items[i].global@[v]@
                &&& data.global_view_images matches Some(b) ==> b@.subrange(
                    at * side,
                    at * side + side,
                ) == items[i].global@[v]@
                &&& data.view_crops matches Some(b) ==> b@.subrange(at * 4, at * 4 + 4)
                    == items[i].crops@[v]@
            }
        }),
        ({
            let at = i * data.local_views + v;
            v < data.local_views ==> (data.local_view_images matches Some(b) ==> b@.subrange(
                at * local,
                at * local + local,
            ) == items[i].local@[v]@)
        }),
{
    let n = items.len();
    let views = data.global_views as int;
    let locals = data.local_views as int;
    assert forall|k: int| 0 <= k < n implies parts_sized((#[trigger] items[k]).global@, views, side)
        && parts_sized(list_of(items[k], ViewList::Global), views, side) by {}
    lemma_view_block(items, 0, n, views, side, i);
    if views > 1 {
        lemma_view_block(items, 1, n, views, side, i);
    }
    if v < views {
        assert forall|k: int| 0 <= k < n implies parts_sized(
            list_of(#[trigger] items[k], ViewList::Global),
            views,
            side,
        ) by {}
        lemma_list_block(items, ViewList::Global, n, views, side, i, v);
        if data.view_crops is Some {
            assert forall|k: int| 0 <= k < n implies parts_sized(
                list_of(#[trigger] items[k], ViewList::Crops),
                views,
                4,
            ) by {}
            lemma_list_block(items, ViewList::Crops, n, views, 4, i, v);
        }
    }
    if v < locals && data.local_view_images is Some {
        assert forall|k: int| 0 <= k < n implies parts_sized(
            list_of(#[trigger] items[k], ViewList::Local),
            locals,
            local,
        ) by {}
        lemma_list_block(items, ViewList::Local, n, locals, local, i, v);
    }
}

/// A repeated batch is whole copies of itself, one after the other.
pub proof fn law_repeats_are_copies<T>(data: Seq<T>, n: nat, r: int)
    requires
        0 <= r < n,
    ensures
        repeated(data, n).len() == n * data.len(),
        repeated(data, n).subrange(r * data.len(), (r + 1) * data.len()) == data,
    decreases n,
{
    let len = data.len() as int;
    lemma_repeated_len(data, n);
    lemma_repeated_len(data, (n - 1) as nat);
    assert(0 <= r * len && r * len + len == (r + 1) * len && (r + 1) * len <= n * len && (n - 1)
        * len + len == n * len) by (nonlinear_arith)
        requires
            0 <= r < n,
            len >= 0,
    ;
    let whole = repeated(data, n);
    if r < n - 1 {
        law_repeats_are_copies(data, (n - 1) as nat, r);
        assert((r + 1) * len <= (n - 1) * len) by (nonlinear_arith)
            requires
                r + 1 <= n - 1,
                len >= 0,
        ;
        assert(whole.subrange(r * len, (r + 1) * len) =~= repeated(
            data,
            (n - 1) as nat,
        ).subrange(r * len, (r + 1) * len));
    } else {
        assert(whole.subrange(r * len, (r + 1) * len) =~= data);
    }
}

/// What is copied to the device is each buffer once: adding a buffer, or an auxiliary teacher, adds
/// its values, and labels are not among them.
pub proof fn law_copied_scalars_add_up<T>(
    data: ImageNetBatchData<T>,
    cls: Vec<T>,
    patch: Vec<T>,
    latent: Vec<T>,
    views: Vec<T>,
    targets: Vec<ImageNetTeacherTargetBatchData<T>>,
)
    ensures
        data.teacher_cls is None ==> (ImageNetBatchData { teacher_cls: Some(cls), ..data }).scalars()
            == data.scalars() + cls@.len(),
        data.teacher_patch is None ==> (ImageNetBatchData {
            teacher_patch: Some(patch),
            ..data
        }).scalars() == data.scalars() + patch@.len(),
        data.rac_teacher_latent is None ==> (ImageNetBatchData {
            rac_teacher_latent: Some(latent),
            ..data
        }).scalars() == data.scalars() + latent@.len(),
        data.target_images is None ==> (ImageNetBatchData {
            target_images: Some(views),
            ..data
        }).scalars() == data.scalars() + views@.len(),
        data.view_images is None ==> (ImageNetBatchData {
            view_images: Some(views),
            ..data
        }).scalars() == data.scalars() + views@.len(),
        data.view_crops is None ==> (ImageNetBatchData {
            view_crops: Some(views),
            ..data
        }).scalars() == data.scalars() + views@.len(),
        data.global_view_images is None ==> (ImageNetBatchData {
            global_view_images: Some(views),
            ..data
        }).scalars() == data.scalars() + views@.len(),
        data.local_view_images is None ==> (ImageNetBatchData {
            local_view_images: Some(views),
            ..data
        }).scalars() == data.scalars() + views@.len(),
        (ImageNetBatchData { images: views, ..data }).scalars() - views@.len() == data.scalars()
            - data.images@.len(),
        data.teacher_targets@.len() == 0 && targets@.len() == 1 && targets@[0].patch is None ==> (
        ImageNetBatchData { teacher_targets: targets, ..data }).scalars() == data.scalars()
            + targets@[0].cls@.len(),
        data.teacher_targets@.len() == 0 && targets@.len() == 1 && targets@[0].patch is Some ==> (
        ImageNetBatchData { teacher_targets: targets, ..data }).scalars() == data.scalars()
            + targets@[0].cls@.len() + targets@[0].patch->0@.len(),
        data.images@.len() == 0 && data.target_images is None && data.view_images is None
            && data.view_crops is None && data.global_view_images is None
            && data.local_view_images is None && data.teacher_patch is None
            && data.teacher_cls is None && data.rac_teacher_latent is None
            && data.teacher_targets@.len() == 0 ==> data.scalars() == 0,
{
    reveal_with_fuel(target_scalars, 2);
}

/// Auxiliary teachers are counted one by one, in whatever order.
pub proof fn law_teacher_scalars_add_up<T>(
    targets: Seq<ImageNetTeacherTargetBatchData<T>>,
    more: ImageNetTeacherTargetBatchData<T>,
)
    ensures
        target_scalars(targets.push(more), (targets.len() + 1) as nat) == target_scalars(
            targets,
            targets.len(),
        ) + more.cls@.len() + (if more.patch is Some {
            more.patch->0@.len() as int
        } else {
            0
        }),
{
    lemma_target_scalars_prefix(targets, targets.push(more), targets.len());
}

proof fn lemma_target_scalars_prefix<T>(
    a: Seq<ImageNetTeacherTargetBatchData<T>>,
    b: Seq<ImageNetTeacherTargetBatchData<T>>,
    n: nat,
)
    requires
        n <= a.len(),
        n <= b.len(),
        forall|k: int| 0 <= k < n ==> a[k] == b[k],
    ensures
        target_scalars(a, n) == target_scalars(b, n),
    decreases n,
{
    if n > 0 {
        lemma_target_scalars_prefix(a, b, (n - 1) as nat);
    }
}

/// Random crops are for training alone: validation views are fixed, a single view is cropped by its
/// own settings, and views that must overlap are chosen for it.
pub proof fn law_crops_follow_the_split(dataset: ImageNetDataset)
    requires
        dataset.wf(),
    ensures
        ({
            let kind = dataset.view_crops_of();
            let one = dataset.global_views == 1 && dataset.local_views == 0;
            let overlap = dataset.min_view_overlap.rank() > 0 && !dataset.min_view_overlap.is_nan();
            &&& kind == ViewCrops::Preprocessed <==> one && dataset.preprocessed
            &&& kind == ViewCrops::Single <==> one && !dataset.preprocessed
            &&& dataset.split == ImageNetSplit::Val && !one ==> kind == ViewCrops::Fixed
            &&& kind == ViewCrops::Overlapping <==> !one && dataset.split == ImageNetSplit::Train
                && overlap
            &&& kind == ViewCrops::Random <==> !one && dataset.split == ImageNetSplit::Train
                && !overlap && !dataset.deterministic
        }),
{
}

/// How many batches are prepared: none without a wish for any; else as many as wanted, as workers, and
/// two where they are copied to the device, whichever is most, but no more than the epoch has.
pub proof fn law_prefetch_meets_every_wish(steps: int, batches: int, workers: int, to_device: bool)
    requires
        1 <= steps <= usize::MAX,
        1 <= batches <= usize::MAX,
        0 <= workers <= usize::MAX,
    ensures
        ({
            let plan = prefetch_plan_of(steps, batches, workers, to_device);
            &&& plan.to_device == to_device
            &&& plan.workers == workers || (workers == 0 && plan.workers == 1)
            &&& plan.batches == steps || (plan.batches >= batches && plan.batches >= plan.workers
                && (to_device ==> plan.batches >= 2))
            &&& plan.batches == steps || plan.batches == batches || plan.batches == plan.workers || (
            to_device && plan.batches == 2)
            &&& plan.batches <= steps
        }),
{
}

/// A limit keeps all samples as they are where it is missing, zero or no smaller than their number;
/// any other one keeps as many as it says, each no more often than given, and no class falls behind.
pub proof fn law_limits_keep_what_they_say(
    kept: Seq<ImageSample>,
    samples: Seq<ImageSample>,
    max_records: Option<usize>,
)
    requires
        is_limited(kept, samples, max_records),
    ensures
        max_records is None || max_records == Some(0usize) ==> kept == samples,
        max_records matches Some(limit) ==> limit >= samples.len() ==> kept == samples,
        max_records matches Some(limit) ==> 0 < limit < samples.len() ==> kept.len() == limit
            && kept.to_multiset().subset_of(samples.to_multiset()),
{
}

/// A buffer that is wanted holds its content, and one that is not wanted is missing.
pub proof fn law_wanted_buffers_hold_their_content<T>(
    buffer: Option<Vec<T>>,
    present: bool,
    content: Seq<T>,
)
    requires
        holds(buffer, present, content),
    ensures
        buffer is Some <==> present,
        present ==> buffer->0@ == content,
{
}

/// Shaping moves no value: the frames hold the data as it stands, under the sizes that were given.
pub proof fn law_shaping_moves_no_value<T>(
    frames: Option<FrameBatch<T>>,
    views: Option<ViewFrames<T>>,
    buffer: Option<Vec<T>>,
    batch: int,
    count: int,
    channels: int,
    height: int,
    width: int,
)
    ensures
        is_shaped_option(frames, buffer, batch, channels, height, width) ==> {
            &&& frames is Some <==> buffer is Some
            &&& buffer is Some ==> {
                &&& frames->0.data@ == buffer->0@
                &&& frames->0.batch == batch && frames->0.channels == channels
                &&& frames->0.height == height && frames->0.width == width
                &&& buffer->0@.len() == batch * channels * height * width
            }
        },
        is_shaped_views(views, buffer, batch, count, height) ==> {
            &&& views is Some <==> buffer is Some
            &&& buffer is Some ==> {
                &&& views->0.views == count
                &&& views->0.frames.data@ == buffer->0@
                &&& views->0.frames.batch == batch * count && views->0.frames.channels == 3
                &&& views->0.frames.height == height && views->0.frames.width == height
            }
        },
{
}

/// The features of an auxiliary teacher keep their name, weight, kind and values.
pub proof fn law_shaped_targets_keep_their_features<T>(
    batch: ImageNetTeacherTargetBatch<T>,
    data: ImageNetTeacherTargetBatchData<T>,
    n: int,
)
    requires
        is_shaped_target(batch, data, n),
    ensures
        batch.name == data.name,
        batch.weight == data.weight,
        batch.target_kind == data.target_kind,
        batch.cls.data@ == data.cls@,
        batch.cls.batch == n && batch.cls.width == data.feature_dim,
        batch.patch is Some <==> data.patch is Some,
        data.patch is Some ==> batch.patch->0.data@ == data.patch->0@ && batch.patch->0.batch == n
            && batch.patch->0.channels == data.patch_tokens->0 && batch.patch->0.width
            == data.feature_dim,
{
}

/// A repeated batch holds the images of the batch over and over, in their order: image `i` of copy
/// `r` is image `i` of the batch, in its size.
pub proof fn law_repeated_frames_are_copies<T>(
    out: FrameBatch<T>,
    input: FrameBatch<T>,
    repeats: nat,
    r: int,
)
    requires
        is_repeated(out, input, repeats as int),
        0 <= r < repeats,
    ensures
        out.wf(),
        out.batch == input.batch * repeats,
        out.channels == input.channels && out.height == input.height && out.width == input.width,
        r * input.data@.len() + input.data@.len() <= out.data@.len(),
        out.data@.subrange(
            r * input.data@.len(),
            r * input.data@.len() + input.data@.len(),
        ) == input.data@,
{
    let len = input.data@.len() as int;
    law_repeats_are_copies(input.data@, repeats, r);
    assert(r * len + len == (r + 1) * len && (r + 1) * len <= repeats * len) by (nonlinear_arith)
        requires
            r < repeats,
            len >= 0,
    ;
}

/// Only what a batch has is repeated, views as views of the same number, and features under the same
/// name and weight.
pub proof fn law_repeating_keeps_what_there_is<T>(
    out: Option<ViewFrames<T>>,
    input: Option<ViewFrames<T>>,
    target: ImageNetTeacherTargetBatch<T>,
    source: ImageNetTeacherTargetBatch<T>,
    repeats: int,
)
    requires
        is_repeated_views(out, input, repeats),
        is_repeated_target(target, source, repeats),
    ensures
        out is Some <==> input is Some,
        input is Some ==> out->0.views == input->0.views && is_repeated(
            out->0.frames,
            input->0.frames,
            repeats,
        ),
        target.name@ == source.name@,
        target.weight == source.weight,
        target.target_kind == source.target_kind,
        target.patch is Some <==> source.patch is Some,
        source.patch is Some ==> is_repeated(target.patch->0, source.patch->0, repeats),
        is_repeated(target.cls, source.cls, repeats),
{
}

/// Features of a teacher are shaped only where their sizes are told, and then they fill those sizes.
pub proof fn law_features_fill_their_sizes<T>(data: ImageNetBatchData<T>)
    requires
        data.wf(),
    ensures
        data.teacher_patch matches Some(values) ==> {
            &&& data.teacher_patch_tokens is Some && data.teacher_feature_dim is Some
            &&& values@.len() == data.batch_size * data.teacher_patch_tokens->0 * 1
                * data.teacher_feature_dim->0
        },
        data.teacher_cls matches Some(values) ==> {
            &&& data.teacher_feature_dim is Some
            &&& values@.len() == data.batch_size * 1 * 1 * data.teacher_feature_dim->0
        },
        data.rac_teacher_latent matches Some(values) ==> {
            &&& data.rac_teacher_shape matches Some((c, h, w)) && values@.len() == data.batch_size * c
                * h * w
        },
        data.labels@.len() == data.batch_size,
        data.images@.len() == data.batch_size * 3 * data.global_image_size * data.global_image_size,
{
}

} // verus!
