//! Evaluating a checkpoint: which images are written, and the summary.

use crate::config::{VisionDatasetSource, VisionRacTeacherKind};
use crate::numeric::min_of;
use crate::rac::report::{push_quoted_line, quoted_line};
use crate::text::{
    bare_line, decimal, line, push_bare_line, push_decimal, push_line, push_zero_padded,
    zero_padded,
};
use crate::train::TRAINING_SEED;
use vstd::prelude::*;
use vstd::string::StringExecFns;

verus! {

/// Why a checkpoint cannot be evaluated.
#[derive(Clone, Copy, Debug, PartialEq, Eq, Structural)]
pub enum RacEvalError {
    ZeroBatchSize,
    NotRacMode,
    UnsupportedSource(VisionDatasetSource),
    /// The validation split gave no image.
    NoBatches,
}

/// Where the images of an evaluation come from.
#[derive(Clone, Copy, Debug, PartialEq, Eq, Structural)]
pub enum RacEvalSource {
    /// A CIFAR test split with this many classes.
    Cifar { classes: usize },
    /// An image folder, whose classes are counted.
    ImageFolder,
}

/// The images of an evaluation, or why there are none.
pub open spec fn rac_eval_source_of(
    batch_size: int,
    is_rac: bool,
    source: VisionDatasetSource,
) -> Result<RacEvalSource, RacEvalError> {
    if batch_size == 0 {
        Err(RacEvalError::ZeroBatchSize)
    } else if !is_rac {
        Err(RacEvalError::NotRacMode)
    } else {
        match source {
            VisionDatasetSource::Cifar10 => Ok(RacEvalSource::Cifar { classes: 10 }),
            VisionDatasetSource::Cifar100 => Ok(RacEvalSource::Cifar { classes: 100 }),
            VisionDatasetSource::Imagenet => Ok(RacEvalSource::ImageFolder),
            other => Err(RacEvalError::UnsupportedSource(other)),
        }
    }
}

/// Decides where the images of an evaluation come from.
pub fn rac_eval_source(batch_size: usize, is_rac: bool, source: VisionDatasetSource) -> (result:
    Result<RacEvalSource, RacEvalError>)
    ensures
        result == rac_eval_source_of(batch_size as int, is_rac, source),
{
    if batch_size == 0 {
        return Err(RacEvalError::ZeroBatchSize);
    }
    if !is_rac {
        return Err(RacEvalError::NotRacMode);
    }
    match source {
        VisionDatasetSource::Cifar10 => Ok(RacEvalSource::Cifar { classes: 10 }),
        VisionDatasetSource::Cifar100 => Ok(RacEvalSource::Cifar { classes: 100 }),
        VisionDatasetSource::Imagenet => Ok(RacEvalSource::ImageFolder),
        VisionDatasetSource::MovingMnist => Err(
            RacEvalError::UnsupportedSource(VisionDatasetSource::MovingMnist),
        ),
    }
}

/// How far the export of an evaluation has come.
#[derive(Clone, Copy, Debug, PartialEq, Eq, Structural)]
pub struct RacExport {
    pub cap: usize,
    pub batches: usize,
    pub images: usize,
    pub semantic_batches: usize,
}

/// Which images of a batch are written, and under which numbers.
#[derive(Clone, Copy, Debug, PartialEq, Eq, Structural)]
pub struct ExportBatch {
    /// The number of the first written image.
    pub offset: usize,
    pub write_count: usize,
    /// Whether only part of the batch is written.
    pub cut: bool,
}

impl RacExport {
    /// No more images than the cap, and no more semantic batches than batches.
    pub open spec fn wf(self) -> bool {
        self.images <= self.cap && self.semantic_batches <= self.batches
    }

    /// An export of at most `max_images` images.
    pub fn new(max_images: Option<usize>) -> (export: Self)
        ensures
            export.wf(),
            export == (RacExport {
                cap: match max_images {
                    Some(cap) => cap,
                    None => usize::MAX,
                },
                batches: 0,
                images: 0,
                semantic_batches: 0,
            }),
    {
        let cap: usize = match max_images {
            Some(cap) => cap,
            None => usize::MAX,
        };
        Self { cap, batches: 0, images: 0, semantic_batches: 0 }
    }

    /// Whether another batch is evaluated.
    pub fn wants_more(&self) -> (r: bool)
        ensures
            r == (self.images < self.cap),
    {
        self.images < self.cap
    }

    /// The export after a batch of `batch_size` images.
    pub open spec fn after(self, batch_size: int, semantic: bool) -> RacExport {
        RacExport {
            cap: self.cap,
            batches: (self.batches + 1) as usize,
            images: vstd::math::min(self.images + batch_size, self.cap as int) as usize,
            semantic_batches: if semantic {
                (self.semantic_batches + 1) as usize
            } else {
                self.semantic_batches
            },
        }
    }

    /// Records a batch and says which of its images are written.
    pub fn record(&mut self, batch_size: usize, semantic: bool) -> (batch: ExportBatch)
        requires
            old(self).wf(),
            old(self).batches < usize::MAX,
        ensures
            final(self).wf(),
            *final(self) == old(self).after(batch_size as int, semantic),
            batch.offset == old(self).images,
            batch.write_count == vstd::math::min(
                batch_size as int,
                old(self).cap - old(self).images,
            ),
            batch.cut == (batch.write_count < batch_size),
    {
        let offset: usize = self.images;
        let write_count: usize = min_of(batch_size, self.cap - self.images);
        self.batches = self.batches + 1;
        self.images = self.images + write_count;
        if semantic {
            self.semantic_batches = self.semantic_batches + 1;
        }
        ExportBatch { offset, write_count, cut: write_count < batch_size }
    }

    /// The number of batches by which the summed metrics are divided, and that for the semantic
    /// loss, where one was taken.
    pub fn finish(&self) -> (result: Result<(usize, Option<usize>), RacEvalError>)
        ensures
            match result {
                Ok((batches, semantic)) => {
                    &&& self.batches > 0 && self.images > 0
                    &&& batches == self.batches
                    &&& semantic == (if self.semantic_batches > 0 {
                        Some(self.semantic_batches)
                    } else {
                        None
                    })
                },
                Err(error) => error == RacEvalError::NoBatches && (self.batches == 0 || self.images
                    == 0),
            },
    {
        if self.batches == 0 || self.images == 0 {
            return Err(RacEvalError::NoBatches);
        }
        let semantic: Option<usize> = if self.semantic_batches > 0 {
            Some(self.semantic_batches)
        } else {
            None
        };
        Ok((self.batches, semantic))
    }
}

/// The settings of a run that decide how its checkpoints are evaluated.
#[derive(Clone, Copy, Debug, PartialEq, Eq, Structural)]
pub struct RacEvalSettings {
    pub batch_size: usize,
    pub is_rac: bool,
    pub source: VisionDatasetSource,
    pub max_images: Option<usize>,
}

/// Why an evaluation ended without a summary.
#[derive(Clone, Copy, Debug, PartialEq, Eq, Structural)]
pub enum RacEvalRefusal {
    Eval(RacEvalError),
    CheckpointMissing,
    /// The last action could not be performed.
    Failed,
}

/// What an evaluation waits for.
#[derive(Clone, Copy, Debug, PartialEq, Eq, Structural)]
pub enum RacEvalPhase {
    Backend,
    Download,
    Dataset,
    Checkpoint,
    Model,
    ExportDir,
    /// A batch, or the end of the split.
    Batch(RacExport),
    /// The writing of a batch's images.
    Writing(RacExport),
    Ended,
}

/// What is to be done next.
#[derive(Clone, Copy, Debug, PartialEq, Eq, Structural)]
pub enum RacEvalAction {
    /// Seed the backend and start it.
    StartBackend { seed: u64 },
    DownloadDataset,
    LoadDataset(RacEvalSource),
    FindCheckpoint,
    LoadModel,
    /// Create the directory of the export and the three directories in it.
    CreateExportDir,
    NextBatch,
    /// Write images of the batch, and add its metrics to the sums.
    WriteImages(ExportBatch),
    /// Divide the sums by the number of batches, and the semantic loss by its own.
    Summarize { batches: usize, images: usize, semantic_batches: Option<usize> },
    Refuse(RacEvalRefusal),
    /// The event came out of turn: nothing is to be done.
    Nothing,
}

/// What became of the last action.
#[derive(Clone, Copy, Debug, PartialEq, Eq, Structural)]
pub enum RacEvalEvent {
    BackendStarted,
    DatasetReady,
    DatasetLoaded,
    CheckpointLooked { found: bool },
    ModelLoaded,
    ExportDirReady,
    BatchEvaluated { batch_size: usize, semantic: bool },
    ImagesWritten,
    SplitOver,
    Failed,
}

/// How an export ends.
pub open spec fn export_end(export: RacExport) -> RacEvalAction {
    if export.batches == 0 || export.images == 0 {
        RacEvalAction::Refuse(RacEvalRefusal::Eval(RacEvalError::NoBatches))
    } else {
        RacEvalAction::Summarize {
            batches: export.batches,
            images: export.images,
            semantic_batches: if export.semantic_batches > 0 {
                Some(export.semantic_batches)
            } else {
                None
            },
        }
    }
}

/// How an export goes on: with another batch unless the cap is reached.
pub open spec fn export_next(export: RacExport) -> (RacEvalPhase, RacEvalAction) {
    if export.images < export.cap {
        (RacEvalPhase::Batch(export), RacEvalAction::NextBatch)
    } else {
        (RacEvalPhase::Ended, export_end(export))
    }
}

/// The images of a batch that are written.
pub open spec fn export_batch_of(export: RacExport, batch_size: int) -> ExportBatch {
    let room = export.cap - export.images;
    ExportBatch {
        offset: export.images,
        write_count: vstd::math::min(batch_size, room) as usize,
        cut: room < batch_size,
    }
}

/// An export that has not begun.
pub open spec fn empty_export(max_images: Option<usize>) -> RacExport {
    RacExport {
        cap: match max_images {
            Some(cap) => cap,
            None => usize::MAX,
        },
        batches: 0,
        images: 0,
        semantic_batches: 0,
    }
}

/// What follows an event: the next phase and the next action.
pub open spec fn rac_eval_step_of(
    settings: RacEvalSettings,
    phase: RacEvalPhase,
    event: RacEvalEvent,
) -> (RacEvalPhase, RacEvalAction) {
    match (phase, event) {
        (RacEvalPhase::Ended, _) => (phase, RacEvalAction::Nothing),
        (_, RacEvalEvent::Failed) => (
            RacEvalPhase::Ended,
            RacEvalAction::Refuse(RacEvalRefusal::Failed),
        ),
        (RacEvalPhase::Backend, RacEvalEvent::BackendStarted) => if settings.batch_size == 0 {
            (
                RacEvalPhase::Ended,
                RacEvalAction::Refuse(RacEvalRefusal::Eval(RacEvalError::ZeroBatchSize)),
            )
        } else if !settings.is_rac {
            (
                RacEvalPhase::Ended,
                RacEvalAction::Refuse(RacEvalRefusal::Eval(RacEvalError::NotRacMode)),
            )
        } else {
            (RacEvalPhase::Download, RacEvalAction::DownloadDataset)
        },
        (RacEvalPhase::Download, RacEvalEvent::DatasetReady) => match rac_eval_source_of(
            settings.batch_size as int,
            settings.is_rac,
            settings.source,
        ) {
            Ok(source) => (RacEvalPhase::Dataset, RacEvalAction::LoadDataset(source)),
            Err(error) => (RacEvalPhase::Ended, RacEvalAction::Refuse(RacEvalRefusal::Eval(error))),
        },
        (RacEvalPhase::Dataset, RacEvalEvent::DatasetLoaded) => (
            RacEvalPhase::Checkpoint,
            RacEvalAction::FindCheckpoint,
        ),
        (RacEvalPhase::Checkpoint, RacEvalEvent::CheckpointLooked { found }) => if found {
            (RacEvalPhase::Model, RacEvalAction::LoadModel)
        } else {
            (RacEvalPhase::Ended, RacEvalAction::Refuse(RacEvalRefusal::CheckpointMissing))
        },
        (RacEvalPhase::Model, RacEvalEvent::ModelLoaded) => (
            RacEvalPhase::ExportDir,
            RacEvalAction::CreateExportDir,
        ),
        (RacEvalPhase::ExportDir, RacEvalEvent::ExportDirReady) => export_next(
            empty_export(settings.max_images),
        ),
        (RacEvalPhase::Batch(export), RacEvalEvent::BatchEvaluated { batch_size, semantic }) => (
            RacEvalPhase::Writing(export.after(batch_size as int, semantic)),
            RacEvalAction::WriteImages(export_batch_of(export, batch_size as int)),
        ),
        (RacEvalPhase::Batch(export), RacEvalEvent::SplitOver) => (
            RacEvalPhase::Ended,
            export_end(export),
        ),
        (RacEvalPhase::Writing(export), RacEvalEvent::ImagesWritten) => export_next(export),
        _ => (phase, RacEvalAction::Nothing),
    }
}

/// The evaluation of a checkpoint in progress.
#[derive(Clone, Copy, Debug, PartialEq, Eq, Structural)]
pub struct RacEvalSession {
    pub settings: RacEvalSettings,
    pub phase: RacEvalPhase,
}

impl RacEvalSession {
    /// The export, where one is under way, is within its cap.
    pub open spec fn wf(self) -> bool {
        match self.phase {
            RacEvalPhase::Batch(export) => export.wf(),
            RacEvalPhase::Writing(export) => export.wf(),
            _ => true,
        }
    }

    fn go_on(&mut self, export: RacExport) -> (action: RacEvalAction)
        requires
            export.wf(),
        ensures
            final(self).wf(),
            final(self).settings == old(self).settings,
            (final(self).phase, action) == export_next(export),
    {
        if export.wants_more() {
            self.phase = RacEvalPhase::Batch(export);
            RacEvalAction::NextBatch
        } else {
            self.phase = RacEvalPhase::Ended;
            end_export(&export)
        }
    }

    /// Takes an event and says what is to be done next.
    pub fn advance(&mut self, event: RacEvalEvent) -> (action: RacEvalAction)
        requires
            old(self).wf(),
            old(self).phase matches RacEvalPhase::Batch(export) ==> export.batches < usize::MAX,
        ensures
            final(self).wf(),
            final(self).settings == old(self).settings,
            (final(self).phase, action) == rac_eval_step_of(
                old(self).settings,
                old(self).phase,
                event,
            ),
    {
        let phase = self.phase;
        match (phase, event) {
            (RacEvalPhase::Ended, _) => RacEvalAction::Nothing,
            (_, RacEvalEvent::Failed) => {
                self.phase = RacEvalPhase::Ended;
                RacEvalAction::Refuse(RacEvalRefusal::Failed)
            },
            (RacEvalPhase::Backend, RacEvalEvent::BackendStarted) => {
                if self.settings.batch_size == 0 {
                    self.phase = RacEvalPhase::Ended;
                    RacEvalAction::Refuse(RacEvalRefusal::Eval(RacEvalError::ZeroBatchSize))
                } else if !self.settings.is_rac {
                    self.phase = RacEvalPhase::Ended;
                    RacEvalAction::Refuse(RacEvalRefusal::Eval(RacEvalError::NotRacMode))
                } else {
                    self.phase = RacEvalPhase::Download;
                    RacEvalAction::DownloadDataset
                }
            },
            (RacEvalPhase::Download, RacEvalEvent::DatasetReady) => match rac_eval_source(
                self.settings.batch_size,
                self.settings.is_rac,
                self.settings.source,
            ) {
                Ok(source) => {
                    self.phase = RacEvalPhase::Dataset;
                    RacEvalAction::LoadDataset(source)
                },
                Err(error) => {
                    self.phase = RacEvalPhase::Ended;
                    RacEvalAction::Refuse(RacEvalRefusal::Eval(error))
                },
            },
            (RacEvalPhase::Dataset, RacEvalEvent::DatasetLoaded) => {
                self.phase = RacEvalPhase::Checkpoint;
                RacEvalAction::FindCheckpoint
            },
            (RacEvalPhase::Checkpoint, RacEvalEvent::CheckpointLooked { found }) => if found {
                self.phase = RacEvalPhase::Model;
                RacEvalAction::LoadModel
            } else {
                self.phase = RacEvalPhase::Ended;
                RacEvalAction::Refuse(RacEvalRefusal::CheckpointMissing)
            },
            (RacEvalPhase::Model, RacEvalEvent::ModelLoaded) => {
                self.phase = RacEvalPhase::ExportDir;
                RacEvalAction::CreateExportDir
            },
            (RacEvalPhase::ExportDir, RacEvalEvent::ExportDirReady) => {
                let export = RacExport::new(self.settings.max_images);
                self.go_on(export)
            },
            (
                RacEvalPhase::Batch(export),
                RacEvalEvent::BatchEvaluated { batch_size, semantic },
            ) => {
                let mut export = export;
                let batch = export.record(batch_size, semantic);
                self.phase = RacEvalPhase::Writing(export);
                RacEvalAction::WriteImages(batch)
            },
            (RacEvalPhase::Batch(export), RacEvalEvent::SplitOver) => {
                self.phase = RacEvalPhase::Ended;
                end_export(&export)
            },
            (RacEvalPhase::Writing(export), RacEvalEvent::ImagesWritten) => self.go_on(export),
            _ => RacEvalAction::Nothing,
        }
    }
}

fn end_export(export: &RacExport) -> (action: RacEvalAction)
    ensures
        action == export_end(*export),
{
    match export.finish() {
        Ok((batches, semantic_batches)) => RacEvalAction::Summarize {
            batches,
            images: export.images,
            semantic_batches,
        },
        Err(error) => RacEvalAction::Refuse(RacEvalRefusal::Eval(error)),
    }
}

/// Starts the evaluation of a checkpoint: the backend is seeded and started. Empty batches and other
/// training modes are refused after that, before anything is loaded; whether the source is supported
/// is seen once the data is there.
pub fn eval_vision_rac_checkpoint_backend(settings: &RacEvalSettings) -> (started: (
    RacEvalSession,
    RacEvalAction,
))
    ensures
        started.0.wf(),
        started.0.settings == *settings,
        started.0.phase == RacEvalPhase::Backend,
        started.1 == (RacEvalAction::StartBackend { seed: TRAINING_SEED }),
{
    (
        RacEvalSession { settings: *settings, phase: RacEvalPhase::Backend },
        RacEvalAction::StartBackend { seed: TRAINING_SEED },
    )
}

/// The export after some batches, each with its size and whether a semantic loss was taken of it.
pub open spec fn export_after(export: RacExport, batches: Seq<(usize, bool)>) -> RacExport
    decreases batches.len(),
{
    if batches.len() == 0 {
        export
    } else {
        let (batch_size, semantic) = batches.last();
        export_after(export, batches.drop_last()).after(batch_size as int, semantic)
    }
}

/// The images in some batches.
pub open spec fn image_total(batches: Seq<(usize, bool)>) -> int
    decreases batches.len(),
{
    if batches.len() == 0 {
        0
    } else {
        image_total(batches.drop_last()) + batches.last().0
    }
}

/// An export writes every image up to its cap, numbered without gap: after any batches it has
/// written all their images, or as many as the cap allows, and the next batch is numbered from
/// there on.
pub proof fn law_export_is_gapless(
    max_images: Option<usize>,
    batches: Seq<(usize, bool)>,
    next_size: int,
)
    requires
        batches.len() <= usize::MAX,
        next_size >= 0,
    ensures
        ({
            let export = export_after(empty_export(max_images), batches);
            let written = vstd::math::min(image_total(batches), empty_export(max_images).cap as int);
            &&& export.wf()
            &&& export.cap == empty_export(max_images).cap
            &&& export.batches == batches.len()
            &&& export.images == written
            &&& export_batch_of(export, next_size).offset == written
        }),
    decreases batches.len(),
{
    if batches.len() > 0 {
        law_export_is_gapless(max_images, batches.drop_last(), 0);
        lemma_image_total_nonnegative(batches.drop_last());
    }
}

proof fn lemma_image_total_nonnegative(batches: Seq<(usize, bool)>)
    ensures
        image_total(batches) >= 0,
    decreases batches.len(),
{
    if batches.len() > 0 {
        lemma_image_total_nonnegative(batches.drop_last());
    }
}

/// Images with different numbers are written to different files.
pub proof fn law_image_names_differ(a: nat, b: nat)
    requires
        image_name(a) == image_name(b),
    ensures
        a == b,
{
    let s = ".png"@;
    assert(zero_padded(a, 6) =~= image_name(a).subrange(0, image_name(a).len() - s.len()));
    assert(zero_padded(b, 6) =~= image_name(b).subrange(0, image_name(b).len() - s.len()));
    crate::text::law_padding_keeps_numbers_apart(a, b, 6);
}

/// The file name of a written image.
pub open spec fn image_name(number: nat) -> Seq<char> {
    zero_padded(number, 6) + ".png"@
}

/// The file name of a written image.
pub fn image_file_name(number: usize) -> (name: String)
    ensures
        name@ == image_name(number as nat),
{
    let mut name = String::new();
    push_zero_padded(&mut name, number as u64, 6);
    name.append(".png");
    assert(name@ =~= image_name(number as nat));
    name
}

/// The name of a directory that is created beside one that exists already.
pub open spec fn numbered_name(stem: Seq<char>, suffix: nat) -> Seq<char> {
    stem + "_"@ + zero_padded(suffix, 3)
}

/// The name of a directory that is created beside one that exists already.
pub fn numbered_dir_name(stem: &str, suffix: usize) -> (name: String)
    ensures
        name@ == numbered_name(stem@, suffix as nat),
{
    let mut name = String::new();
    name.append(stem);
    name.append("_");
    push_zero_padded(&mut name, suffix as u64, 3);
    assert(name@ =~= numbered_name(stem@, suffix as nat));
    name
}

/// How many numbered directories are tried.
pub const MAX_DIR_SUFFIX: usize = 999;

/// The first free number of a directory. `taken[k]` says that number `k + 1` is taken.
pub fn first_free_suffix(taken: &[bool]) -> (suffix: Option<usize>)
    ensures
        match suffix {
            Some(n) => 1 <= n <= MAX_DIR_SUFFIX && n <= taken@.len() && !taken@[n - 1] && forall|
                k: int,
            | 0 <= k < n - 1 ==> #[trigger] taken@[k],
            None => forall|k: int|
                0 <= k < taken@.len() && k < MAX_DIR_SUFFIX ==> #[trigger] taken@[k],
        },
{
    let mut k: usize = 0;
    while k < taken.len() && k < MAX_DIR_SUFFIX
        invariant
            k <= taken@.len(),
            k <= MAX_DIR_SUFFIX,
            forall|j: int| 0 <= j < k ==> #[trigger] taken@[j],
        decreases taken@.len() - k,
    {
        if !taken[k] {
            return Some(k + 1);
        }
        k += 1;
    }
    None
}

/// The default directory of an export.
pub open spec fn default_export_name(epoch: nat, checkpoint: Seq<char>) -> Seq<char> {
    "rac_eval_epoch_"@ + zero_padded(epoch, 3) + "_"@ + checkpoint
}

/// The default directory of an export.
pub fn default_export_dir_name(epoch: usize, checkpoint: &str) -> (name: String)
    ensures
        name@ == default_export_name(epoch as nat, checkpoint@),
{
    let mut name = String::new();
    name.append("rac_eval_epoch_");
    push_zero_padded(&mut name, epoch as u64, 3);
    name.append("_");
    name.append(checkpoint);
    assert(name@ =~= default_export_name(epoch as nat, checkpoint@));
    name
}

/// The summary of an evaluation. Measured numbers are given as they are printed.
#[derive(Debug)]
pub struct VisionRacCheckpointEvalSummary {
    pub backend: String,
    pub checkpoint: String,
    pub export_dir: String,
    pub split: String,
    pub teacher_kind: VisionRacTeacherKind,
    pub teacher_state_mapping: String,
    pub teacher_latent_downsample: usize,
    pub batches: usize,
    pub images: usize,
    pub forward_recon_loss: String,
    pub forward_recon_psnr: String,
    pub roundtrip_recon_loss: String,
    pub roundtrip_recon_psnr: String,
    pub forward_path_loss: String,
    pub forward_velocity_loss: String,
    pub reverse_latent_loss: String,
    pub reverse_to_init_loss: String,
    pub semantic_loss: Option<String>,
}

/// The name of a latent teacher.
pub open spec fn teacher_kind_name(kind: VisionRacTeacherKind) -> Seq<char> {
    match kind {
        VisionRacTeacherKind::PooledImage => "pooled_image"@,
        VisionRacTeacherKind::PrecomputedLatent => "precomputed_latent"@,
    }
}

/// The name of a latent teacher.
pub fn teacher_kind_text(kind: VisionRacTeacherKind) -> (r: &'static str)
    ensures
        r@ == teacher_kind_name(kind),
{
    match kind {
        VisionRacTeacherKind::PooledImage => "pooled_image",
        VisionRacTeacherKind::PrecomputedLatent => "precomputed_latent",
    }
}

fn push_quoted_number_line(out: &mut String, label: &str, value: usize)
    ensures
        final(out)@ == old(out)@ + quoted_line(label@, decimal(value as nat)),
{
    out.append(label);
    push_decimal(out, value as u64);
    out.append("`\n");
    assert(out@ =~= old(out)@ + quoted_line(label@, decimal(value as nat)));
}

/// What a reader should know before comparing the numbers.
pub open spec fn comparability_note(kind: VisionRacTeacherKind) -> Seq<char> {
    match kind {
        VisionRacTeacherKind::PooledImage => bare_line("## Comparability Note"@) + bare_line(
            "- This eval uses the repo's legacy `pooled_image` shortcut rather than the compact-latent RAC structure shown in the public nano implementation."@,
        ) + bare_line(
            "- Smaller `teacher_latent_downsample` values make the reconstruction task much easier than a compact-latent RAC setting."@,
        ) + bare_line(""@),
        VisionRacTeacherKind::PrecomputedLatent => bare_line("## Comparability Note"@) + bare_line(
            "- This eval uses a compact precomputed latent teacher and a shared image-state rollout, which is intended to match the public RAC nano demonstration more closely than the older pooled-image shortcut."@,
        ) + bare_line(
            "- This should be treated as `nano`-compatible scaffolding, not as a claim that the full paper training protocol is reproduced end-to-end."@,
        ) + bare_line(
            "- `forward/` and `roundtrip/` exports are first-three-channel state projections unless an explicit teacher decoder is added; they are not guaranteed to be decoded RGB reconstructions."@,
        ) + bare_line(
            "- Validation PSNR here is state-domain PSNR over the padded image-state tensor, not decoded-image PSNR or rFID."@,
        ) + bare_line(""@),
    }
}

fn push_comparability_note(out: &mut String, kind: VisionRacTeacherKind)
    ensures
        final(out)@ == old(out)@ + comparability_note(kind),
{
    push_bare_line(out, "## Comparability Note");
    match kind {
        VisionRacTeacherKind::PooledImage => {
            push_bare_line(
                out,
                "- This eval uses the repo's legacy `pooled_image` shortcut rather than the compact-latent RAC structure shown in the public nano implementation.",
            );
            push_bare_line(
                out,
                "- Smaller `teacher_latent_downsample` values make the reconstruction task much easier than a compact-latent RAC setting.",
            );
        },
        VisionRacTeacherKind::PrecomputedLatent => {
            push_bare_line(
                out,
                "- This eval uses a compact precomputed latent teacher and a shared image-state rollout, which is intended to match the public RAC nano demonstration more closely than the older pooled-image shortcut.",
            );
            push_bare_line(
                out,
                "- This should be treated as `nano`-compatible scaffolding, not as a claim that the full paper training protocol is reproduced end-to-end.",
            );
            push_bare_line(
                out,
                "- `forward/` and `roundtrip/` exports are first-three-channel state projections unless an explicit teacher decoder is added; they are not guaranteed to be decoded RGB reconstructions.",
            );
            push_bare_line(
                out,
                "- Validation PSNR here is state-domain PSNR over the padded image-state tensor, not decoded-image PSNR or rFID.",
            );
        },
    }
    push_bare_line(out, "");
    assert(out@ =~= old(out)@ + comparability_note(kind));
}

/// The advice on the written images.
pub open spec fn closing_advice(kind: VisionRacTeacherKind) -> Seq<char> {
    match kind {
        VisionRacTeacherKind::PooledImage => bare_line(
            "Use `scripts/vision/eval_rfid.py` on `real/` vs `roundtrip/` only for legacy shortcut comparisons."@,
        ),
        VisionRacTeacherKind::PrecomputedLatent => bare_line(
            "Do not interpret `real/` vs `roundtrip/` rFID as paper-aligned reconstruction quality unless an explicit teacher decoder is added to the export path."@,
        ),
    }
}

/// The line on the semantic loss, where one was taken.
pub open spec fn semantic_line(value: Option<String>) -> Seq<char> {
    match value {
        Some(text) => line("- semantic loss: "@, text@),
        None => Seq::empty(),
    }
}

fn push_semantic_line(out: &mut String, value: &Option<String>)
    ensures
        final(out)@ == old(out)@ + semantic_line(*value),
{
    match value {
        Some(text) => push_line(out, "- semantic loss: ", text.as_str()),
        None => {
            assert(out@ =~= old(out)@ + Seq::<char>::empty());
        },
    }
}

impl VisionRacCheckpointEvalSummary {
    /// The summary as text.
    pub open spec fn markdown(&self) -> Seq<char> {
        Seq::<char>::empty() + bare_line("# RAC Checkpoint Eval"@) + bare_line(""@) + quoted_line(
            "- Backend: `"@,
            self.backend@,
        ) + quoted_line("- Checkpoint: `"@, self.checkpoint@) + quoted_line(
            "- Export dir: `"@,
            self.export_dir@,
        ) + quoted_line("- Split: `"@, self.split@) + quoted_line(
            "- Teacher kind: `"@,
            teacher_kind_name(self.teacher_kind),
        ) + quoted_line("- Teacher state mapping: `"@, self.teacher_state_mapping@) + quoted_line(
            "- Teacher latent downsample: `"@,
            decimal(self.teacher_latent_downsample as nat),
        ) + quoted_line("- Batches: `"@, decimal(self.batches as nat)) + quoted_line(
            "- Images: `"@,
            decimal(self.images as nat),
        ) + bare_line(""@) + comparability_note(self.teacher_kind) + bare_line("## Forward Decode"@)
            + line("- recon loss: "@, self.forward_recon_loss@) + line(
            "- PSNR: "@,
            self.forward_recon_psnr@,
        ) + line("- path loss: "@, self.forward_path_loss@) + line(
            "- velocity loss: "@,
            self.forward_velocity_loss@,
        ) + bare_line(""@) + bare_line("## Roundtrip Reconstruction"@) + line(
            "- recon loss: "@,
            self.roundtrip_recon_loss@,
        ) + line("- PSNR: "@, self.roundtrip_recon_psnr@) + bare_line(""@) + bare_line(
            "## Reverse Encode"@,
        ) + line("- latent loss: "@, self.reverse_latent_loss@) + line(
            "- to-init loss: "@,
            self.reverse_to_init_loss@,
        ) + semantic_line(self.semantic_loss) + bare_line(""@) + bare_line("## Exports"@)
            + bare_line("- real images: `real/`"@) + bare_line(
            "- roundtrip reconstructions: `roundtrip/`"@,
        ) + bare_line("- forward decode images: `forward/`"@) + bare_line(""@) + closing_advice(
            self.teacher_kind,
        )
    }

    /// The summary as text.
    pub fn to_markdown(&self) -> (out: String)
        ensures
            out@ == self.markdown(),
    {
        let mut out = String::new();
        push_bare_line(&mut out, "# RAC Checkpoint Eval");
        push_bare_line(&mut out, "");
        push_quoted_line(&mut out, "- Backend: `", self.backend.as_str());
        push_quoted_line(&mut out, "- Checkpoint: `", self.checkpoint.as_str());
        push_quoted_line(&mut out, "- Export dir: `", self.export_dir.as_str());
        push_quoted_line(&mut out, "- Split: `", self.split.as_str());
        push_quoted_line(&mut out, "- Teacher kind: `", teacher_kind_text(self.teacher_kind));
        push_quoted_line(
            &mut out,
            "- Teacher state mapping: `",
            self.teacher_state_mapping.as_str(),
        );
        push_quoted_number_line(
            &mut out,
            "- Teacher latent downsample: `",
            self.teacher_latent_downsample,
        );
        push_quoted_number_line(&mut out, "- Batches: `", self.batches);
        push_quoted_number_line(&mut out, "- Images: `", self.images);
        push_bare_line(&mut out, "");
        push_comparability_note(&mut out, self.teacher_kind);
        push_bare_line(&mut out, "## Forward Decode");
        push_line(&mut out, "- recon loss: ", self.forward_recon_loss.as_str());
        push_line(&mut out, "- PSNR: ", self.forward_recon_psnr.as_str());
        push_line(&mut out, "- path loss: ", self.forward_path_loss.as_str());
        push_line(&mut out, "- velocity loss: ", self.forward_velocity_loss.as_str());
        push_bare_line(&mut out, "");
        push_bare_line(&mut out, "## Roundtrip Reconstruction");
        push_line(&mut out, "- recon loss: ", self.roundtrip_recon_loss.as_str());
        push_line(&mut out, "- PSNR: ", self.roundtrip_recon_psnr.as_str());
        push_bare_line(&mut out, "");
        push_bare_line(&mut out, "## Reverse Encode");
        push_line(&mut out, "- latent loss: ", self.reverse_latent_loss.as_str());
        push_line(&mut out, "- to-init loss: ", self.reverse_to_init_loss.as_str());
        push_semantic_line(&mut out, &self.semantic_loss);
        push_bare_line(&mut out, "");
        push_bare_line(&mut out, "## Exports");
        push_bare_line(&mut out, "- real images: `real/`");
        push_bare_line(&mut out, "- roundtrip reconstructions: `roundtrip/`");
        push_bare_line(&mut out, "- forward decode images: `forward/`");
        push_bare_line(&mut out, "");
        match self.teacher_kind {
            VisionRacTeacherKind::PooledImage => push_bare_line(
                &mut out,
                "Use `scripts/vision/eval_rfid.py` on `real/` vs `roundtrip/` only for legacy shortcut comparisons.",
            ),
            VisionRacTeacherKind::PrecomputedLatent => push_bare_line(
                &mut out,
                "Do not interpret `real/` vs `roundtrip/` rFID as paper-aligned reconstruction quality unless an explicit teacher decoder is added to the export path.",
            ),
        }
        out
    }
}

/// The semantic losses are averaged over the batches that took one, whatever their sizes.
pub proof fn law_semantic_batches_are_counted(max_images: Option<usize>, batches: Seq<(usize, bool)>)
    requires
        batches.len() <= usize::MAX,
    ensures
        export_after(empty_export(max_images), batches).semantic_batches == batches.filter(
            |batch: (usize, bool)| batch.1,
        ).len(),
    decreases batches.len(),
{
    reveal(Seq::filter);
    let took = |batch: (usize, bool)| batch.1;
    if batches.len() > 0 {
        let rest = batches.drop_last();
        law_semantic_batches_are_counted(max_images, rest);
        law_export_is_gapless(max_images, rest, 0);
    }
}

/// A batch is written whole unless the cap cuts it, and it is cut only where the cap is then reached.
/// What the export has written grows by as many images.
pub proof fn law_batches_are_cut_only_at_the_cap(
    export: RacExport,
    batch_size: usize,
    semantic: bool,
)
    requires
        export.wf(),
        export.batches < usize::MAX,
    ensures
        ({
            let written = export_batch_of(export, batch_size as int);
            let after = export.after(batch_size as int, semantic);
            &&& written.offset == export.images
            &&& written.write_count <= batch_size
            &&& written.cut <==> written.write_count < batch_size
            &&& written.cut ==> after.images == export.cap
            &&& after.images == export.images + written.write_count
            &&& after.images <= after.cap == export.cap
        }),
{
}

/// Nothing is loaded for a run that is refused: with an empty batch size or another training mode no
/// data is asked for, and without a checkpoint no model. Data of other kinds is refused before it is
/// loaded.
pub proof fn law_refusals_come_before_the_work(
    settings: RacEvalSettings,
    phase: RacEvalPhase,
    event: RacEvalEvent,
)
    ensures
        ({
            let (next, action) = rac_eval_step_of(settings, phase, event);
            &&& action == RacEvalAction::DownloadDataset <==> {
                &&& phase == RacEvalPhase::Backend && event == RacEvalEvent::BackendStarted
                &&& settings.batch_size > 0 && settings.is_rac
            }
            &&& (action matches RacEvalAction::LoadDataset(source) ==> {
                &&& phase == RacEvalPhase::Download && event == RacEvalEvent::DatasetReady
                &&& match source {
                    RacEvalSource::Cifar { classes } => (classes == 10 && settings.source
                        == VisionDatasetSource::Cifar10) || (classes == 100 && settings.source
                        == VisionDatasetSource::Cifar100),
                    RacEvalSource::ImageFolder => settings.source == VisionDatasetSource::Imagenet,
                }
            })
            &&& action == RacEvalAction::FindCheckpoint <==> phase == RacEvalPhase::Dataset && event
                == RacEvalEvent::DatasetLoaded
            &&& action == RacEvalAction::LoadModel <==> phase == RacEvalPhase::Checkpoint && event
                == (RacEvalEvent::CheckpointLooked { found: true })
            &&& action == RacEvalAction::CreateExportDir <==> phase == RacEvalPhase::Model && event
                == RacEvalEvent::ModelLoaded
            &&& action is WriteImages <==> phase is Batch && event is BatchEvaluated
            &&& action is Refuse || action is Summarize ==> next == RacEvalPhase::Ended
            &&& next == RacEvalPhase::Ended && phase != RacEvalPhase::Ended ==> action is Refuse
                || action is Summarize
            &&& event == RacEvalEvent::Failed && phase != RacEvalPhase::Ended ==> action
                == RacEvalAction::Refuse(RacEvalRefusal::Failed)
            &&& action == RacEvalAction::Refuse(RacEvalRefusal::Failed) ==> event
                == RacEvalEvent::Failed
            &&& action == RacEvalAction::Nothing ==> next == phase
            &&& phase == RacEvalPhase::Ended ==> action == RacEvalAction::Nothing
        }),
{
}

/// Batches are asked for as long as the cap is not reached. An evaluation that ends has written
/// something or is refused, and its summary counts what the export counted.
pub proof fn law_export_goes_on_to_its_cap(export: RacExport)
    ensures
        ({
            let (next, action) = export_next(export);
            &&& action == RacEvalAction::NextBatch <==> export.images < export.cap
            &&& export.images < export.cap ==> next == RacEvalPhase::Batch(export)
            &&& export.images >= export.cap ==> next == RacEvalPhase::Ended && action == export_end(
                export,
            )
        }),
        export_end(export) is Refuse <==> export.batches == 0 || export.images == 0,
        export_end(export) is Refuse ==> export_end(export) == RacEvalAction::Refuse(
            RacEvalRefusal::Eval(RacEvalError::NoBatches),
        ),
        export_end(export) matches RacEvalAction::Summarize {
            batches,
            images,
            semantic_batches,
        } ==> {
            &&& batches == export.batches && images == export.images
            &&& semantic_batches is None <==> export.semantic_batches == 0
            &&& semantic_batches matches Some(n) ==> n == export.semantic_batches
        },
{
}

/// Images come from a source that has them, each under its own number of classes; an empty batch size
/// is refused before another mode, and that before another source.
pub proof fn law_sources_have_their_classes(
    batch_size: int,
    is_rac: bool,
    source: VisionDatasetSource,
)
    ensures
        ({
            let result = rac_eval_source_of(batch_size, is_rac, source);
            &&& result == Err::<RacEvalSource, RacEvalError>(RacEvalError::ZeroBatchSize)
                <==> batch_size == 0
            &&& result == Err::<RacEvalSource, RacEvalError>(RacEvalError::NotRacMode)
                <==> batch_size != 0 && !is_rac
            &&& result is Ok <==> batch_size != 0 && is_rac && !(source is MovingMnist)
            &&& result is Ok ==> {
                &&& source is Imagenet <==> result->Ok_0 is ImageFolder
                &&& source is Cifar10 ==> result->Ok_0 == (RacEvalSource::Cifar { classes: 10 })
                &&& source is Cifar100 ==> result->Ok_0 == (RacEvalSource::Cifar { classes: 100 })
            }
        }),
{
}

} // verus!
