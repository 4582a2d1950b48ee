//! The CIFAR record format.

use crate::frames::{volume, FrameBatch};
use crate::loader::{
    consumed_after, epoch_steps, produces, steps_per_epoch, EpochProgress, LoaderSchedule,
};
use crate::numeric::min_of;
use crate::rollout::{at_least_one, draw_inclusive};
use rand::rngs::StdRng;
use vstd::prelude::*;

verus! {

pub const CIFAR_HEIGHT: usize = 32;

pub const CIFAR_WIDTH: usize = 32;

pub const CIFAR_CHANNELS: usize = 3;

/// How many bytes an image has: one per channel and pixel.
pub const CIFAR_IMAGE_BYTES: usize = 3072;

#[derive(Clone, Copy, Debug, PartialEq, Eq, Structural)]
pub enum CifarType {
    Cifar10,
    Cifar100,
}

#[derive(Clone, Copy, Debug, PartialEq, Eq, Structural)]
pub enum CifarSplit {
    Train,
    Test,
}

/// Why record files cannot be read.
#[derive(Clone, Copy, Debug, PartialEq, Eq, Structural)]
pub enum CifarError {
    /// File number `file` is no whole number of records.
    RecordSize { file: usize, bytes: usize, record_len: usize },
    /// The label lies outside the record.
    LabelOffset,
}

/// How the records of a dataset are laid out.
#[derive(Clone, Copy, Debug, PartialEq, Eq, Structural)]
pub struct RecordLayout {
    pub record_len: usize,
    pub label_offset: usize,
}

/// CIFAR-10 records start with one label, CIFAR-100 records with a coarse and a fine one, of which
/// the fine one counts.
pub open spec fn record_layout_of(cifar_type: CifarType) -> RecordLayout {
    match cifar_type {
        CifarType::Cifar10 => RecordLayout { record_len: 3073, label_offset: 0 },
        CifarType::Cifar100 => RecordLayout { record_len: 3074, label_offset: 1 },
    }
}

/// The record layout of a dataset.
pub fn record_layout(cifar_type: CifarType) -> (layout: RecordLayout)
    ensures
        layout == record_layout_of(cifar_type),
{
    match cifar_type {
        CifarType::Cifar10 => RecordLayout { record_len: 1 + CIFAR_IMAGE_BYTES, label_offset: 0 },
        CifarType::Cifar100 => RecordLayout { record_len: 2 + CIFAR_IMAGE_BYTES, label_offset: 1 },
    }
}

/// The file names of a split, in reading order.
pub open spec fn record_file_names(cifar_type: CifarType, split: CifarSplit) -> Seq<Seq<char>> {
    match (cifar_type, split) {
        (CifarType::Cifar10, CifarSplit::Train) => seq![
            "data_batch_1.bin"@,
            "data_batch_2.bin"@,
            "data_batch_3.bin"@,
            "data_batch_4.bin"@,
            "data_batch_5.bin"@,
        ],
        (CifarType::Cifar10, CifarSplit::Test) => seq!["test_batch.bin"@],
        (CifarType::Cifar100, CifarSplit::Train) => seq!["train.bin"@],
        (CifarType::Cifar100, CifarSplit::Test) => seq!["test.bin"@],
    }
}

/// The contents of a list of names.
pub open spec fn name_views(names: Seq<&'static str>) -> Seq<Seq<char>> {
    names.map_values(|s: &'static str| s@)
}

/// The file names of a split, in reading order.
pub fn record_files(cifar_type: CifarType, split: CifarSplit) -> (names: Vec<&'static str>)
    ensures
        name_views(names@) == record_file_names(cifar_type, split),
{
    let mut names: Vec<&'static str> = Vec::new();
    match (cifar_type, split) {
        (CifarType::Cifar10, CifarSplit::Train) => {
            names.push("data_batch_1.bin");
            names.push("data_batch_2.bin");
            names.push("data_batch_3.bin");
            names.push("data_batch_4.bin");
            names.push("data_batch_5.bin");
        },
        (CifarType::Cifar10, CifarSplit::Test) => {
            names.push("test_batch.bin");
        },
        (CifarType::Cifar100, CifarSplit::Train) => {
            names.push("train.bin");
        },
        (CifarType::Cifar100, CifarSplit::Test) => {
            names.push("test.bin");
        },
    }
    assert(name_views(names@) =~= record_file_names(cifar_type, split));
    names
}

/// The directory that a dataset unpacks to.
pub fn cifar_subdir(cifar_type: CifarType) -> (name: &'static str)
    ensures
        name@ == (match cifar_type {
            CifarType::Cifar10 => "cifar-10-batches-bin"@,
            CifarType::Cifar100 => "cifar-100-binary"@,
        }),
{
    match cifar_type {
        CifarType::Cifar10 => "cifar-10-batches-bin",
        CifarType::Cifar100 => "cifar-100-binary",
    }
}

/// The labels of the first `n` records.
pub open spec fn record_labels(bytes: Seq<u8>, layout: RecordLayout, n: nat) -> Seq<u8> {
    Seq::new(n, |k: int| bytes[k * layout.record_len + layout.label_offset])
}

/// The pixels of the first `n` records: the last bytes of each.
pub open spec fn record_pixels(bytes: Seq<u8>, layout: RecordLayout, n: nat) -> Seq<u8> {
    Seq::new(
        n * CIFAR_IMAGE_BYTES as nat,
        |i: int|
            bytes[(i / CIFAR_IMAGE_BYTES as int) * layout.record_len + (layout.record_len
                - CIFAR_IMAGE_BYTES) + i % CIFAR_IMAGE_BYTES as int],
    )
}

/// Splits a file into the pixels and the labels of its records.
pub fn read_records(bytes: &[u8], layout: &RecordLayout, file: usize) -> (result: Result<
    (Vec<u8>, Vec<u8>),
    CifarError,
>)
    requires
        layout.record_len >= CIFAR_IMAGE_BYTES,
    ensures
        match result {
            Ok((images, labels)) => {
                let n = (bytes@.len() / layout.record_len as nat) as nat;
                &&& bytes@.len() % layout.record_len as nat == 0
                &&& layout.label_offset < layout.record_len
                &&& labels@ == record_labels(bytes@, *layout, n)
                &&& images@ == record_pixels(bytes@, *layout, n)
            },
            Err(CifarError::RecordSize { file: f, bytes: b, record_len: r }) => {
                &&& bytes@.len() % layout.record_len as nat != 0
                &&& f == file
                &&& b == bytes@.len()
                &&& r == layout.record_len
            },
            Err(CifarError::LabelOffset) => {
                &&& bytes@.len() % layout.record_len as nat == 0
                &&& layout.label_offset >= layout.record_len
            },
        },
{
    let record_len: usize = layout.record_len;
    if bytes.len() % record_len != 0 {
        return Err(CifarError::RecordSize { file, bytes: bytes.len(), record_len });
    }
    if layout.label_offset >= record_len {
        return Err(CifarError::LabelOffset);
    }
    let records: usize = bytes.len() / record_len;
    let image_offset: usize = record_len - CIFAR_IMAGE_BYTES;
    let mut labels: Vec<u8> = Vec::new();
    let mut images: Vec<u8> = Vec::new();
    let mut idx: usize = 0;
    proof {
        vstd::arithmetic::div_mod::lemma_fundamental_div_mod(
            bytes@.len() as int,
            record_len as int,
        );
        assert(records * record_len == bytes@.len()) by (nonlinear_arith)
            requires
                bytes@.len() == record_len * records,
        ;
    }
    assert(labels@ =~= record_labels(bytes@, *layout, 0));
    assert(images@ =~= record_pixels(bytes@, *layout, 0));
    while idx < records
        invariant
            idx <= records,
            records * record_len == bytes@.len(),
            bytes@.len() <= usize::MAX,
            record_len == layout.record_len,
            record_len >= CIFAR_IMAGE_BYTES,
            image_offset == record_len - CIFAR_IMAGE_BYTES,
            layout.label_offset < record_len,
            labels@ == record_labels(bytes@, *layout, idx as nat),
            images@ == record_pixels(bytes@, *layout, idx as nat),
        decreases records - idx,
    {
        assert(idx * record_len + record_len <= bytes@.len()) by (nonlinear_arith)
            requires
                idx + 1 <= records,
                records * record_len == bytes@.len(),
        ;
        assert(0 <= idx * record_len) by (nonlinear_arith);
        let start: usize = idx * record_len;
        labels.push(bytes[start + layout.label_offset]);
        let image_start: usize = start + image_offset;
        let mut i: usize = 0;
        while i < CIFAR_IMAGE_BYTES
            invariant
                i <= CIFAR_IMAGE_BYTES,
                start == idx * record_len,
                start + record_len <= bytes@.len() <= usize::MAX,
                record_len == layout.record_len,
                record_len >= CIFAR_IMAGE_BYTES,
                image_start == start + record_len - CIFAR_IMAGE_BYTES,
                images@.len() == idx * CIFAR_IMAGE_BYTES + i,
                forall|j: int|
                    0 <= j < images@.len() ==> #[trigger] images@[j] == bytes@[(j
                        / CIFAR_IMAGE_BYTES as int) * record_len + (record_len - CIFAR_IMAGE_BYTES)
                        + j % CIFAR_IMAGE_BYTES as int],
            decreases CIFAR_IMAGE_BYTES - i,
        {
            images.push(bytes[image_start + i]);
            proof {
                let j = idx * CIFAR_IMAGE_BYTES + i;
                vstd::arithmetic::div_mod::lemma_fundamental_div_mod_converse(
                    j as int,
                    CIFAR_IMAGE_BYTES as int,
                    idx as int,
                    i as int,
                );
            }
            i += 1;
        }
        idx += 1;
        assert(labels@ =~= record_labels(bytes@, *layout, idx as nat));
        assert(images@ =~= record_pixels(bytes@, *layout, idx as nat));
    }
    Ok((images, labels))
}

/// Images and labels, held in memory.
#[derive(Debug)]
pub struct CifarDataset {
    images: Vec<u8>,
    labels: Vec<u8>,
}

/// Which byte of which image one batch byte comes from.
pub open spec fn pixel_source(indices: Seq<usize>, i: int) -> int {
    indices[i / CIFAR_IMAGE_BYTES as int] * CIFAR_IMAGE_BYTES + i % CIFAR_IMAGE_BYTES as int
}

/// The records of the first `n` files are whole.
pub open spec fn files_whole(files: Seq<Vec<u8>>, layout: RecordLayout, n: int) -> bool {
    forall|f: int|
        0 <= f < n ==> (#[trigger] files[f])@.len() % layout.record_len as nat == 0
}

/// The labels of the first `n` files, one after the other.
pub open spec fn all_labels(files: Seq<Vec<u8>>, layout: RecordLayout, n: nat) -> Seq<u8>
    decreases n,
{
    if n == 0 {
        Seq::empty()
    } else {
        let bytes = files[n - 1]@;
        all_labels(files, layout, (n - 1) as nat) + record_labels(
            bytes,
            layout,
            (bytes.len() / layout.record_len as nat) as nat,
        )
    }
}

/// The pixels of the first `n` files, one after the other.
pub open spec fn all_pixels(files: Seq<Vec<u8>>, layout: RecordLayout, n: nat) -> Seq<u8>
    decreases n,
{
    if n == 0 {
        Seq::empty()
    } else {
        let bytes = files[n - 1]@;
        all_pixels(files, layout, (n - 1) as nat) + record_pixels(
            bytes,
            layout,
            (bytes.len() / layout.record_len as nat) as nat,
        )
    }
}

proof fn lemma_all_sizes(files: Seq<Vec<u8>>, layout: RecordLayout, n: nat)
    requires
        layout.record_len > 0,
    ensures
        all_pixels(files, layout, n).len() == all_labels(files, layout, n).len()
            * CIFAR_IMAGE_BYTES,
    decreases n,
{
    if n > 0 {
        lemma_all_sizes(files, layout, (n - 1) as nat);
        let bytes = files[n - 1]@;
        let m = (bytes.len() / layout.record_len as nat) as nat;
        assert(record_pixels(bytes, layout, m).len() == m * CIFAR_IMAGE_BYTES);
        assert(record_labels(bytes, layout, m).len() == m);
    }
}

impl CifarDataset {
    /// The pixels of all images.
    pub closed spec fn pixels(&self) -> Seq<u8> {
        self.images@
    }

    /// The label of each image.
    pub closed spec fn label_bytes(&self) -> Seq<u8> {
        self.labels@
    }

    /// Every label has an image.
    pub open spec fn wf(&self) -> bool {
        self.pixels().len() == self.label_bytes().len() * CIFAR_IMAGE_BYTES
    }

    /// Reads the files of a split, in the order of [`record_files`]. The first file that holds no
    /// whole number of records is reported.
    pub fn new(cifar_type: CifarType, files: &Vec<Vec<u8>>) -> (result: Result<Self, CifarError>)
        ensures
            match result {
                Ok(dataset) => {
                    let layout = record_layout_of(cifar_type);
                    &&& files_whole(files@, layout, files@.len() as int)
                    &&& dataset.wf()
                    &&& dataset.label_bytes() == all_labels(files@, layout, files@.len())
                    &&& dataset.pixels() == all_pixels(files@, layout, files@.len())
                },
                Err(CifarError::RecordSize { file, bytes, record_len }) => {
                    let layout = record_layout_of(cifar_type);
                    &&& file < files@.len()
                    &&& files_whole(files@, layout, file as int)
                    &&& files@[file as int]@.len() % layout.record_len as nat != 0
                    &&& bytes == files@[file as int]@.len()
                    &&& record_len == layout.record_len
                },
                Err(CifarError::LabelOffset) => false,
            },
    {
        let layout = record_layout(cifar_type);
        let mut images: Vec<u8> = Vec::new();
        let mut labels: Vec<u8> = Vec::new();
        let mut f: usize = 0;
        while f < files.len()
            invariant
                f <= files@.len(),
                layout == record_layout_of(cifar_type),
                files_whole(files@, layout, f as int),
                labels@ == all_labels(files@, layout, f as nat),
                images@ == all_pixels(files@, layout, f as nat),
            decreases files@.len() - f,
        {
            match read_records(files[f].as_slice(), &layout, f) {
                Ok((mut file_images, mut file_labels)) => {
                    images.append(&mut file_images);
                    labels.append(&mut file_labels);
                },
                Err(error) => {
                    return Err(error);
                },
            }
            f += 1;
        }
        proof {
            lemma_all_sizes(files@, layout, files@.len());
        }
        Ok(Self { images, labels })
    }

    /// The dataset cut to its first `max_records` records.
    pub fn with_max_records(self, max_records: Option<usize>) -> (result: Self)
        requires
            self.wf(),
        ensures
            result.wf(),
            result.label_bytes() == self.label_bytes().take(
                match max_records {
                    Some(limit) => vstd::math::min(limit as int, self.label_bytes().len() as int),
                    None => self.label_bytes().len() as int,
                },
            ),
            result.pixels() == self.pixels().take(
                (result.label_bytes().len() * CIFAR_IMAGE_BYTES) as int,
            ),
    {
        let mut dataset = self;
        match max_records {
            None => {
                assert(dataset.labels@ =~= self.labels@.take(self.labels@.len() as int));
                assert(dataset.images@ =~= self.images@.take(self.images@.len() as int));
            },
            Some(max_records) => {
                let limit: usize = min_of(max_records, dataset.labels.len());
                let count: usize = dataset.images.len();
                assert(limit * CIFAR_IMAGE_BYTES <= count);
                dataset.labels.truncate(limit);
                dataset.images.truncate(limit * CIFAR_IMAGE_BYTES);
                assert(dataset.labels@ =~= self.labels@.take(limit as int));
                assert(dataset.images@ =~= self.images@.take((limit * CIFAR_IMAGE_BYTES) as int));
            },
        }
        dataset
    }

    /// How many records the dataset has.
    pub fn len(&self) -> (n: usize)
        ensures
            n == self.label_bytes().len(),
    {
        self.labels.len()
    }

    /// Whether the dataset has no record.
    pub fn is_empty(&self) -> (r: bool)
        ensures
            r == (self.label_bytes().len() == 0),
    {
        self.labels.len() == 0
    }

    /// How many batches cover the dataset.
    pub fn steps_per_epoch(&self, batch_size: usize) -> (steps: usize)
        ensures
            steps == epoch_steps(self.label_bytes().len() as int, batch_size as int),
    {
        steps_per_epoch(self.len(), batch_size)
    }

    /// The records at the given indices, as one batch.
    pub fn gather_batch(&self, indices: &Vec<usize>) -> (batch: CifarBatch)
        requires
            self.wf(),
            forall|k: int|
                0 <= k < indices@.len() ==> (#[trigger] indices@[k]) < self.label_bytes().len(),
            indices@.len() * CIFAR_IMAGE_BYTES <= usize::MAX,
        ensures
            batch.wf(),
            batch.labels@ == Seq::new(
                indices@.len(),
                |k: int| self.label_bytes()[indices@[k] as int] as i64,
            ),
            batch.images.data@ == Seq::new(
                (indices@.len() * CIFAR_IMAGE_BYTES) as nat,
                |i: int| self.pixels()[pixel_source(indices@, i)],
            ),
            self.is_batch_of(&batch, indices@),
            forall|k: int|
                0 <= k < indices@.len() ==> #[trigger] batch.images.data@.subrange(
                    k * CIFAR_IMAGE_BYTES,
                    (k + 1) * CIFAR_IMAGE_BYTES,
                ) == self.pixels().subrange(
                    indices@[k] * CIFAR_IMAGE_BYTES,
                    (indices@[k] + 1) * CIFAR_IMAGE_BYTES,
                ),
    {
        let mut data: Vec<u8> = Vec::new();
        let mut labels: Vec<i64> = Vec::new();
        let count: usize = self.images.len();
        let mut k: usize = 0;
        while k < indices.len()
            invariant
                k <= indices@.len(),
                self.wf(),
                count == self.pixels().len(),
                forall|j: int|
                    0 <= j < indices@.len() ==> (#[trigger] indices@[j])
                        < self.label_bytes().len(),
                labels@ == Seq::new(
                    k as nat,
                    |j: int| self.label_bytes()[indices@[j] as int] as i64,
                ),
                data@ == Seq::new(
                    (k * CIFAR_IMAGE_BYTES) as nat,
                    |i: int| self.pixels()[pixel_source(indices@, i)],
                ),
            decreases indices@.len() - k,
        {
            let idx: usize = indices[k];
            let source: usize = idx * CIFAR_IMAGE_BYTES;
            let mut i: usize = 0;
            while i < CIFAR_IMAGE_BYTES
                invariant
                    i <= CIFAR_IMAGE_BYTES,
                    k < indices@.len(),
                    idx == indices@[k as int],
                    source == idx * CIFAR_IMAGE_BYTES,
                    source + CIFAR_IMAGE_BYTES <= self.images@.len() <= usize::MAX,
                    data@ == Seq::new(
                        (k * CIFAR_IMAGE_BYTES + i) as nat,
                        |j: int| self.pixels()[pixel_source(indices@, j)],
                    ),
                decreases CIFAR_IMAGE_BYTES - i,
            {
                data.push(self.images[source + i]);
                proof {
                    vstd::arithmetic::div_mod::lemma_fundamental_div_mod_converse(
                        (k * CIFAR_IMAGE_BYTES + i) as int,
                        CIFAR_IMAGE_BYTES as int,
                        k as int,
                        i as int,
                    );
                }
                i += 1;
                assert(data@ =~= Seq::new(
                    (k * CIFAR_IMAGE_BYTES + i) as nat,
                    |j: int| self.pixels()[pixel_source(indices@, j)],
                ));
            }
            labels.push(self.labels[idx] as i64);
            k += 1;
            assert(labels@ =~= Seq::new(
                k as nat,
                |j: int| self.label_bytes()[indices@[j] as int] as i64,
            ));
        }
        let images = FrameBatch {
            batch: indices.len(),
            channels: CIFAR_CHANNELS,
            height: CIFAR_HEIGHT,
            width: CIFAR_WIDTH,
            data,
        };
        assert(volume(indices@.len() as int, 3, 32, 32) == indices@.len() * 3072)
            by (nonlinear_arith)
            requires
                volume(indices@.len() as int, 3, 32, 32) == indices@.len() as int * 3 * 32 * 32,
        ;
        let batch = CifarBatch::new(images, labels);
        proof {
            assert(self.is_batch_of(&batch, indices@));
            assert forall|k: int|
                0 <= k < indices@.len() implies #[trigger] batch.images.data@.subrange(
                k * CIFAR_IMAGE_BYTES,
                (k + 1) * CIFAR_IMAGE_BYTES,
            ) == self.pixels().subrange(
                indices@[k] * CIFAR_IMAGE_BYTES,
                (indices@[k] + 1) * CIFAR_IMAGE_BYTES,
            ) by {
                law_batch_rows_are_the_records(self, &batch, indices@, k);
            }
        }
        batch
    }

    /// A batch of records drawn at random, with repetition.
    pub fn sample_batch(&self, batch_size: usize, rng: &mut StdRng) -> (batch: CifarBatch)
        requires
            self.wf(),
            self.label_bytes().len() > 0,
            batch_size * CIFAR_IMAGE_BYTES <= usize::MAX,
        ensures
            batch.wf(),
            batch.labels@.len() == batch_size,
            exists|indices: Seq<usize>|
                indices.len() == batch_size && #[trigger] self.is_batch_of(&batch, indices),
            batch_size == 0 ==> *final(rng) == *old(rng),
    {
        let len: usize = self.len();
        let mut indices: Vec<usize> = Vec::new();
        let mut k: usize = 0;
        while k < batch_size
            invariant
                k <= batch_size,
                len == self.label_bytes().len(),
                len > 0,
                indices@.len() == k,
                forall|j: int| 0 <= j < k ==> (#[trigger] indices@[j]) < len,
                k == 0 ==> *rng == *old(rng),
            decreases batch_size - k,
        {
            indices.push(draw_inclusive(rng, 0, len - 1));
            k += 1;
        }
        let batch = self.gather_batch(&indices);
        assert(self.is_batch_of(&batch, indices@));
        batch
    }

    /// Whether a batch holds the records at the given indices.
    pub open spec fn is_batch_of(&self, batch: &CifarBatch, indices: Seq<usize>) -> bool {
        &&& forall|k: int|
            0 <= k < indices.len() ==> (#[trigger] indices[k]) < self.label_bytes().len()
        &&& batch.labels@ == Seq::new(
            indices.len(),
            |k: int| self.label_bytes()[indices[k] as int] as i64,
        )
        &&& batch.images.data@ == Seq::new(
            (indices.len() * CIFAR_IMAGE_BYTES) as nat,
            |i: int| self.pixels()[pixel_source(indices, i)],
        )
    }
}

/// A batch of raw images with their labels.
#[derive(Debug)]
pub struct CifarBatch {
    pub images: FrameBatch<u8>,
    pub labels: Vec<i64>,
}

impl CifarBatch {
    /// One label per image, and images of the dataset's size.
    pub open spec fn wf(&self) -> bool {
        &&& self.images.wf()
        &&& self.images.batch == self.labels@.len()
        &&& self.images.channels == CIFAR_CHANNELS
        &&& self.images.height == CIFAR_HEIGHT
        &&& self.images.width == CIFAR_WIDTH
    }

    /// A batch of the given images and labels.
    pub fn new(images: FrameBatch<u8>, labels: Vec<i64>) -> (batch: Self)
        ensures
            batch.images == images,
            batch.labels == labels,
    {
        Self { images, labels }
    }
}

/// A loader of random batches from a dataset.
#[derive(Debug)]
pub struct CifarDataLoader {
    pub dataset: CifarDataset,
    pub schedule: LoaderSchedule,
}

impl CifarDataLoader {
    /// The dataset and the schedule are valid, and a batch fits in memory.
    pub open spec fn wf(&self) -> bool {
        &&& self.dataset.wf()
        &&& self.schedule.wf()
        &&& self.schedule.batch_size * CIFAR_IMAGE_BYTES <= usize::MAX
    }

    /// A loader over `dataset`.
    pub fn new(
        dataset: CifarDataset,
        batch_size: usize,
        steps_per_epoch: usize,
        total_steps: Option<usize>,
    ) -> (loader: Self)
        requires
            dataset.wf(),
            batch_size * CIFAR_IMAGE_BYTES <= usize::MAX,
        ensures
            loader.wf(),
            loader.dataset == dataset,
            loader.schedule.batch_size == batch_size,
            loader.schedule.steps_per_epoch == (if steps_per_epoch == 0 {
                epoch_steps(dataset.label_bytes().len() as int, batch_size as int)
            } else {
                steps_per_epoch as int
            }),
            loader.schedule.total_steps == (match total_steps {
                Some(limit) => if limit > 0 {
                    Some(limit)
                } else {
                    None
                },
                None => None,
            }),
    {
        let schedule = LoaderSchedule::new(
            dataset.len(),
            batch_size,
            steps_per_epoch,
            total_steps,
        );
        Self { dataset, schedule }
    }

    /// The loader of the epoch's batches `start..end`, of which at least one remains.
    pub fn slice(self, start: usize, end: usize) -> (part: Self)
        requires
            self.wf(),
        ensures
            part.wf(),
            part.dataset == self.dataset,
            part.schedule.batch_size == self.schedule.batch_size,
            part.schedule.total_steps == self.schedule.total_steps,
            part.schedule.steps_per_epoch == ({
                let stop = vstd::math::min(end as int, self.schedule.steps_per_epoch as int);
                at_least_one(stop - vstd::math::min(start as int, stop))
            }),
    {
        let schedule = self.schedule.slice(start, end);
        Self { dataset: self.dataset, schedule }
    }

    /// The next batch of an epoch that this loader started, none once the epoch or the run is over.
    pub fn next_batch(
        &self,
        epoch: &mut EpochProgress,
        consumed: &mut usize,
        rng: &mut StdRng,
    ) -> (batch: Option<CifarBatch>)
        requires
            self.wf(),
            self.dataset.label_bytes().len() > 0,
            old(epoch).batch_size == self.schedule.batch_size,
            *old(consumed) < usize::MAX,
        ensures
            match batch {
                Some(b) => {
                    &&& produces(*old(epoch), *old(consumed) as int)
                    &&& b.wf()
                    &&& exists|indices: Seq<usize>|
                        indices.len() == self.schedule.batch_size
                            && #[trigger] self.dataset.is_batch_of(&b, indices)
                },
                None => !produces(*old(epoch), *old(consumed) as int),
            },
            batch is None ==> *final(rng) == *old(rng),
            *final(consumed) == consumed_after(*old(epoch), *old(consumed) as int),
            final(epoch).step == (if old(epoch).step < old(epoch).steps_total {
                old(epoch).step + 1
            } else {
                old(epoch).step as int
            }),
            final(epoch).steps_total == old(epoch).steps_total,
            final(epoch).batch_size == old(epoch).batch_size,
            final(epoch).total_steps == old(epoch).total_steps,
    {
        if epoch.next(consumed) {
            Some(self.dataset.sample_batch(self.schedule.batch_size, rng))
        } else {
            None
        }
    }
}

/// A record: what stands in front of the pixels, the label among it, and the pixels.
pub open spec fn is_record(record: Seq<u8>, layout: RecordLayout, label: u8, pixels: Seq<u8>) -> bool {
    &&& record.len() == layout.record_len
    &&& record[layout.label_offset as int] == label
    &&& record.subrange(layout.record_len - CIFAR_IMAGE_BYTES, layout.record_len as int) == pixels
}

/// A file that was written record by record reads back as what was written: as many records, each
/// with its label and its pixels, in order.
pub proof fn law_records_read_back(
    records: Seq<Seq<u8>>,
    labels: Seq<u8>,
    images: Seq<Seq<u8>>,
    layout: RecordLayout,
)
    requires
        layout.record_len >= CIFAR_IMAGE_BYTES,
        layout.label_offset < layout.record_len,
        labels.len() == records.len(),
        images.len() == records.len(),
        forall|k: int|
            0 <= k < records.len() ==> is_record(#[trigger] records[k], layout, labels[k], images[k]),
    ensures
        ({
            let bytes = records.flatten();
            let n = records.len();
            &&& bytes.len() == n * layout.record_len
            &&& bytes.len() % layout.record_len as nat == 0
            &&& bytes.len() / layout.record_len as nat == n
            &&& record_labels(bytes, layout, n) == labels
            &&& record_pixels(bytes, layout, n) == images.flatten()
        }),
{
    let bytes = records.flatten();
    let n = records.len();
    let len = layout.record_len as int;
    let size = CIFAR_IMAGE_BYTES as int;
    assert forall|k: int| 0 <= k < n implies (#[trigger] records[k]).len() == len by {
        assert(is_record(records[k], layout, labels[k], images[k]));
    }
    assert forall|k: int| 0 <= k < n implies (#[trigger] images[k]).len() == size by {
        assert(is_record(records[k], layout, labels[k], images[k]));
    }
    lemma_flat_rows(records, len);
    lemma_flat_rows(images, size);
    vstd::arithmetic::div_mod::lemma_div_by_multiple(n as int, len);
    vstd::arithmetic::div_mod::lemma_mod_multiples_basic(n as int, len);
    assert forall|k: int| 0 <= k < n implies record_labels(bytes, layout, n)[k] == labels[k] by {
        assert(is_record(records[k], layout, labels[k], images[k]));
        assert(bytes[k * len + layout.label_offset] == records[k][layout.label_offset as int]);
    }
    assert(record_labels(bytes, layout, n) =~= labels);
    let pixels = record_pixels(bytes, layout, n);
    assert forall|i: int| 0 <= i < n * size implies pixels[i] == #[trigger] images.flatten()[i] by {
        let k = i / size;
        let r = i % size;
        vstd::arithmetic::div_mod::lemma_fundamental_div_mod(i, size);
        assert(0 <= k < n) by (nonlinear_arith)
            requires
                0 <= i < n * size,
                i == size * k + r,
                0 <= r < size,
                size == 3072,
        ;
        assert(size * k == k * size) by (nonlinear_arith);
        assert(is_record(records[k], layout, labels[k], images[k]));
        assert(images.flatten()[k * size + r] == images[k][r]);
        assert(bytes[k * len + (len - size + r)] == records[k][len - size + r]);
        assert(images[k][r] == records[k].subrange(len - size, len)[r]);
    }
    assert(pixels =~= images.flatten());
}

/// Rows of one length, one after the other: where each value stands.
proof fn lemma_flat_rows(rows: Seq<Seq<u8>>, len: int)
    requires
        len >= 0,
        forall|k: int| 0 <= k < rows.len() ==> (#[trigger] rows[k]).len() == len,
    ensures
        rows.flatten().len() == rows.len() * len,
        forall|k: int, i: int|
            0 <= k < rows.len() && 0 <= i < len ==> #[trigger] rows.flatten()[k * len + i]
                == rows[k][i],
    decreases rows.len(),
{
    if rows.len() == 0 {
        assert(rows.flatten().len() == 0);
    } else {
        let front = rows.drop_last();
        let n = rows.len() as int;
        assert forall|k: int| 0 <= k < front.len() implies (#[trigger] front[k]).len() == len by {
            assert(front[k] == rows[k]);
        }
        lemma_flat_rows(front, len);
        rows.lemma_flatten_and_flatten_alt_are_equivalent();
        front.lemma_flatten_and_flatten_alt_are_equivalent();
        assert(rows.flatten() == front.flatten() + rows.last());
        assert((n - 1) * len + len == n * len) by (nonlinear_arith);
        assert forall|k: int, i: int| 0 <= k < n && 0 <= i < len implies #[trigger] rows.flatten()[k
            * len + i] == rows[k][i] by {
            if k < n - 1 {
                assert(0 <= k * len && k * len + i < (n - 1) * len) by (nonlinear_arith)
                    requires
                        0 <= k < n - 1,
                        0 <= i < len,
                ;
                assert(front.flatten()[k * len + i] == front[k][i]);
            }
        }
    }
}

/// Row `k` of a batch is the image of record `indices[k]`, byte for byte, beside its label.
pub proof fn law_batch_rows_are_the_records(
    dataset: &CifarDataset,
    batch: &CifarBatch,
    indices: Seq<usize>,
    k: int,
)
    requires
        dataset.wf(),
        dataset.is_batch_of(batch, indices),
        0 <= k < indices.len(),
    ensures
        batch.labels@.len() == indices.len(),
        batch.labels@[k] == dataset.label_bytes()[indices[k] as int],
        batch.images.data@.len() == indices.len() * 3072,
        batch.images.data@.subrange(k * 3072, (k + 1) * 3072) == dataset.pixels().subrange(
            indices[k] * 3072,
            (indices[k] + 1) * 3072,
        ),
{
    let size = 3072int;
    let from = indices[k] as int;
    assert(indices[k] < dataset.label_bytes().len());
    assert(0 <= k * size && (k + 1) * size <= indices.len() * size && (from + 1) * size
        <= dataset.pixels().len()) by (nonlinear_arith)
        requires
            0 <= k < indices.len(),
            size == 3072,
            0 <= from < dataset.label_bytes().len(),
            dataset.pixels().len() == dataset.label_bytes().len() * size,
    ;
    let row = batch.images.data@.subrange(k * size, (k + 1) * size);
    let image = dataset.pixels().subrange(from * size, (from + 1) * size);
    assert forall|i: int| 0 <= i < size implies row[i] == image[i] by {
        vstd::arithmetic::div_mod::lemma_fundamental_div_mod_converse(k * size + i, size, k, i);
        assert(row[i] == batch.images.data@[k * size + i]);
    }
    assert(row =~= image);
}

/// The label that counts stands right in front of the pixels, and the record ends with them.
pub proof fn law_labels_stand_in_front_of_the_pixels(cifar_type: CifarType)
    ensures
        ({
            let layout = record_layout_of(cifar_type);
            &&& layout.label_offset + 1 + 32 * 32 * 3 == layout.record_len
            &&& cifar_type is Cifar10 ==> layout.label_offset == 0
            &&& cifar_type is Cifar100 ==> layout.label_offset == 1
        }),
{
}

/// Files are read one after the other: the records of the first ones come before those of the others.
pub proof fn law_files_are_read_in_order(
    files: Seq<Vec<u8>>,
    more: Seq<Vec<u8>>,
    layout: RecordLayout,
)
    ensures
        all_labels(files + more, layout, (files + more).len()) == all_labels(
            files,
            layout,
            files.len(),
        ) + all_labels(more, layout, more.len()),
        all_pixels(files + more, layout, (files + more).len()) == all_pixels(
            files,
            layout,
            files.len(),
        ) + all_pixels(more, layout, more.len()),
    decreases more.len(),
{
    if more.len() == 0 {
        assert(files + more =~= files);
        assert(all_labels(files, layout, files.len()) + Seq::<u8>::empty() =~= all_labels(
            files,
            layout,
            files.len(),
        ));
        assert(all_pixels(files, layout, files.len()) + Seq::<u8>::empty() =~= all_pixels(
            files,
            layout,
            files.len(),
        ));
    } else {
        let rest = more.drop_last();
        law_files_are_read_in_order(files, rest, layout);
        lemma_first_files(files + more, files + rest, layout, (files + rest).len());
        lemma_first_files(more, rest, layout, rest.len());
        assert((files + more).last() == more.last());
        assert(all_labels(files + more, layout, (files + more).len()) =~= all_labels(
            files,
            layout,
            files.len(),
        ) + all_labels(more, layout, more.len()));
        assert(all_pixels(files + more, layout, (files + more).len()) =~= all_pixels(
            files,
            layout,
            files.len(),
        ) + all_pixels(more, layout, more.len()));
    }
}

proof fn lemma_first_files(
    long: Seq<Vec<u8>>,
    short: Seq<Vec<u8>>,
    layout: RecordLayout,
    n: nat,
)
    requires
        n <= short.len() <= long.len(),
        short =~= long.subrange(0, short.len() as int),
    ensures
        all_labels(long, layout, n) == all_labels(short, layout, n),
        all_pixels(long, layout, n) == all_pixels(short, layout, n),
    decreases n,
{
    if n > 0 {
        lemma_first_files(long, short, layout, (n - 1) as nat);
    }
}

/// One file gives the records that are in it.
pub proof fn law_one_file_gives_its_records(file: Vec<u8>, layout: RecordLayout)
    ensures
        ({
            let n = (file@.len() / layout.record_len as nat) as nat;
            &&& all_labels(seq![file], layout, 1) == record_labels(file@, layout, n)
            &&& all_pixels(seq![file], layout, 1) == record_pixels(file@, layout, n)
        }),
{
    reveal_with_fuel(all_labels, 2);
    reveal_with_fuel(all_pixels, 2);
    let n = (file@.len() / layout.record_len as nat) as nat;
    assert(all_labels(seq![file], layout, 1) =~= record_labels(file@, layout, n));
    assert(all_pixels(seq![file], layout, 1) =~= record_pixels(file@, layout, n));
}

/// Files are whole exactly where each of them is.
pub proof fn law_files_are_whole_one_by_one(
    files: Seq<Vec<u8>>,
    layout: RecordLayout,
    n: nat,
)
    ensures
        files_whole(files, layout, 0),
        files_whole(files, layout, n as int + 1) <==> files_whole(files, layout, n as int)
            && files[n as int]@.len() % layout.record_len as nat == 0,
{
    if files_whole(files, layout, n as int) && files[n as int]@.len() % layout.record_len as nat
        == 0 {
        assert forall|f: int| 0 <= f < n + 1 implies (#[trigger] files[f])@.len()
            % layout.record_len as nat == 0 by {}
    }
}

} // verus!
