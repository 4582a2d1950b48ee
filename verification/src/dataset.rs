//! Fetching datasets: what is downloaded, when, and how archives are laid out.

use crate::cifar::{name_views, CifarType};
use crate::config::VisionDatasetSource;
use vstd::prelude::*;
use vstd::string::StringExecFns;

verus! {

/// The sizes in which Imagenette is published.
#[derive(Clone, Copy, Debug, PartialEq, Eq, Structural)]
pub enum ImagenetteVariant {
    Imagenette2_160,
    Imagenette2_320,
}

/// What may be downloaded.
#[derive(Clone, Copy, Debug, PartialEq, Eq, Structural)]
pub enum VisionDatasetDownloadConfig {
    Imagenette { variant: ImagenetteVariant },
    Cifar,
}

/// What is done about a dataset before a run.
#[derive(Clone, Copy, Debug, PartialEq, Eq, Structural)]
pub enum DownloadStep {
    Nothing,
    MovingMnist,
    Imagenette(ImagenetteVariant),
    Cifar(CifarType),
}

/// Why a dataset cannot be fetched.
#[derive(Clone, Copy, Debug, PartialEq, Eq, Structural)]
pub enum DownloadError {
    /// A CIFAR download was asked for an image folder.
    CifarForImageFolder,
    /// An Imagenette download was asked for CIFAR.
    ImagenetteForCifar,
    /// Imagenette needs its own directory names.
    ImagenetteDirectoryNames,
    /// The target directory holds something else.
    RootOccupied,
    UnexpectedArchiveLayout,
}

/// The dataset that a source reads, where it is CIFAR.
pub open spec fn cifar_type_of(source: VisionDatasetSource) -> CifarType {
    match source {
        VisionDatasetSource::Cifar100 => CifarType::Cifar100,
        _ => CifarType::Cifar10,
    }
}

/// What is done about a dataset, given what may be downloaded and whether the data is there.
pub open spec fn download_step_of(
    source: VisionDatasetSource,
    download: Option<VisionDatasetDownloadConfig>,
    present: bool,
) -> Result<DownloadStep, DownloadError> {
    if source == VisionDatasetSource::MovingMnist {
        Ok(DownloadStep::MovingMnist)
    } else if download is None || present {
        Ok(DownloadStep::Nothing)
    } else {
        match (source, download->0) {
            (
                VisionDatasetSource::Imagenet,
                VisionDatasetDownloadConfig::Imagenette { variant },
            ) => Ok(DownloadStep::Imagenette(variant)),
            (VisionDatasetSource::Imagenet, VisionDatasetDownloadConfig::Cifar) => Err(
                DownloadError::CifarForImageFolder,
            ),
            (_, VisionDatasetDownloadConfig::Cifar) => Ok(
                DownloadStep::Cifar(cifar_type_of(source)),
            ),
            (_, VisionDatasetDownloadConfig::Imagenette { .. }) => Err(
                DownloadError::ImagenetteForCifar,
            ),
        }
    }
}

/// Decides what is done about a dataset. `present` says that both splits have images, or that the
/// CIFAR records are there.
pub fn maybe_download_vision_dataset(
    source: VisionDatasetSource,
    download: Option<VisionDatasetDownloadConfig>,
    present: bool,
) -> (result: Result<DownloadStep, DownloadError>)
    ensures
        result == download_step_of(source, download, present),
{
    match source {
        VisionDatasetSource::MovingMnist => Ok(DownloadStep::MovingMnist),
        VisionDatasetSource::Imagenet => match download {
            None => Ok(DownloadStep::Nothing),
            Some(kind) => if present {
                Ok(DownloadStep::Nothing)
            } else {
                match kind {
                    VisionDatasetDownloadConfig::Imagenette { variant } => Ok(
                        DownloadStep::Imagenette(variant),
                    ),
                    VisionDatasetDownloadConfig::Cifar => Err(DownloadError::CifarForImageFolder),
                }
            },
        },
        _ => match download {
            None => Ok(DownloadStep::Nothing),
            Some(kind) => if present {
                Ok(DownloadStep::Nothing)
            } else {
                match kind {
                    VisionDatasetDownloadConfig::Cifar => {
                        let cifar_type = match source {
                            VisionDatasetSource::Cifar100 => CifarType::Cifar100,
                            _ => CifarType::Cifar10,
                        };
                        Ok(DownloadStep::Cifar(cifar_type))
                    },
                    VisionDatasetDownloadConfig::Imagenette { .. } => Err(
                        DownloadError::ImagenetteForCifar,
                    ),
                }
            },
        },
    }
}

/// Data that is there is never fetched again, and without a download nothing is fetched at all.
pub proof fn law_present_data_is_kept(
    source: VisionDatasetSource,
    download: Option<VisionDatasetDownloadConfig>,
    present: bool,
)
    requires
        source != VisionDatasetSource::MovingMnist,
        present || download is None,
    ensures
        download_step_of(source, download, present) == Ok::<DownloadStep, DownloadError>(
            DownloadStep::Nothing,
        ),
{
}

/// An ASCII letter in lower case; any other character as it is.
pub open spec fn lower_case(c: char) -> u32 {
    let u = c as u32;
    if 0x41 <= u <= 0x5a {
        (u + 0x20) as u32
    } else {
        u
    }
}

/// Whether two texts agree but for the case of ASCII letters.
pub open spec fn same_ignoring_case(a: Seq<char>, b: Seq<char>) -> bool {
    &&& a.len() == b.len()
    &&& forall|i: int| 0 <= i < a.len() ==> lower_case(#[trigger] a[i]) == lower_case(b[i])
}

fn lower(c: char) -> (r: u32)
    ensures
        r == lower_case(c),
{
    let u: u32 = c as u32;
    if 0x41 <= u && u <= 0x5a {
        u + 0x20
    } else {
        u
    }
}

fn equal_ignoring_case(a: &str, b: &str) -> (r: bool)
    ensures
        r == same_ignoring_case(a@, b@),
{
    let n: usize = a.unicode_len();
    if n != b.unicode_len() {
        return false;
    }
    let mut i: usize = 0;
    while i < n
        invariant
            i <= n,
            n == a@.len(),
            n == b@.len(),
            forall|j: int| 0 <= j < i ==> lower_case(#[trigger] a@[j]) == lower_case(b@[j]),
        decreases n - i,
    {
        if lower(a.get_char(i)) != lower(b.get_char(i)) {
            assert(lower_case(a@[i as int]) != lower_case(b@[i as int]));
            return false;
        }
        i += 1;
    }
    true
}

/// Whether a file with this extension is an image.
pub open spec fn is_image_extension(extension: Seq<char>) -> bool {
    ||| same_ignoring_case(extension, "jpg"@)
    ||| same_ignoring_case(extension, "jpeg"@)
    ||| same_ignoring_case(extension, "png"@)
}

/// Whether a file is an image, by its extension.
pub fn is_image_file(extension: &Option<String>) -> (r: bool)
    ensures
        r == (extension is Some && is_image_extension(extension->0@)),
{
    match extension {
        Some(text) => equal_ignoring_case(text.as_str(), "jpg") || equal_ignoring_case(
            text.as_str(),
            "jpeg",
        ) || equal_ignoring_case(text.as_str(), "png"),
        None => false,
    }
}

/// One file of a class directory.
#[derive(Debug)]
pub struct ListedFile {
    pub is_file: bool,
    pub extension: Option<String>,
}

/// One entry of a split directory, with its own entries where it is a directory.
#[derive(Debug)]
pub struct ListedEntry {
    pub is_dir: bool,
    pub files: Vec<ListedFile>,
}

/// Whether a listed file is an image.
pub open spec fn is_listed_image(file: ListedFile) -> bool {
    file.is_file && file.extension is Some && is_image_extension(file.extension->0@)
}

/// Whether a class directory holds an image.
pub open spec fn entry_has_image(entry: ListedEntry) -> bool {
    entry.is_dir && exists|f: int|
        0 <= f < entry.files@.len() && is_listed_image(#[trigger] entry.files@[f])
}

fn has_image(entry: &ListedEntry) -> (r: bool)
    ensures
        r == entry_has_image(*entry),
{
    if !entry.is_dir {
        return false;
    }
    let mut f: usize = 0;
    while f < entry.files.len()
        invariant
            f <= entry.files@.len(),
            entry.is_dir,
            forall|j: int| 0 <= j < f ==> !is_listed_image(#[trigger] entry.files@[j]),
        decreases entry.files@.len() - f,
    {
        if entry.files[f].is_file && is_image_file(&entry.files[f].extension) {
            assert(is_listed_image(entry.files@[f as int]));
            return true;
        }
        f += 1;
    }
    false
}

/// Whether a split has images: some directory in it holds one.
pub fn vision_split_has_images(entries: &Vec<ListedEntry>) -> (r: bool)
    ensures
        r == exists|e: int| 0 <= e < entries@.len() && entry_has_image(#[trigger] entries@[e]),
{
    let mut e: usize = 0;
    while e < entries.len()
        invariant
            e <= entries@.len(),
            forall|j: int| 0 <= j < e ==> !entry_has_image(#[trigger] entries@[j]),
        decreases entries@.len() - e,
    {
        if has_image(&entries[e]) {
            assert(entry_has_image(entries@[e as int]));
            return true;
        }
        e += 1;
    }
    false
}

/// Where Imagenette is published.
pub fn imagenette_url(variant: ImagenetteVariant) -> (url: &'static str)
    ensures
        url@ == (match variant {
            ImagenetteVariant::Imagenette2_160 =>
                "https://s3.amazonaws.com/fast-ai-imageclas/imagenette2-160.tgz"@,
            ImagenetteVariant::Imagenette2_320 =>
                "https://s3.amazonaws.com/fast-ai-imageclas/imagenette2-320.tgz"@,
        }),
{
    match variant {
        ImagenetteVariant::Imagenette2_160 =>
            "https://s3.amazonaws.com/fast-ai-imageclas/imagenette2-160.tgz",
        ImagenetteVariant::Imagenette2_320 =>
            "https://s3.amazonaws.com/fast-ai-imageclas/imagenette2-320.tgz",
    }
}

/// Where CIFAR is published.
pub fn cifar_url(cifar_type: CifarType) -> (url: &'static str)
    ensures
        url@ == (match cifar_type {
            CifarType::Cifar10 => "https://www.cs.toronto.edu/~kriz/cifar-10-binary.tar.gz"@,
            CifarType::Cifar100 => "https://www.cs.toronto.edu/~kriz/cifar-100-binary.tar.gz"@,
        }),
{
    match cifar_type {
        CifarType::Cifar10 => "https://www.cs.toronto.edu/~kriz/cifar-10-binary.tar.gz",
        CifarType::Cifar100 => "https://www.cs.toronto.edu/~kriz/cifar-100-binary.tar.gz",
    }
}

/// The directory that an Imagenette archive unpacks to.
pub open spec fn imagenette_folder(variant: ImagenetteVariant) -> Seq<char> {
    match variant {
        ImagenetteVariant::Imagenette2_160 => "imagenette2-160"@,
        ImagenetteVariant::Imagenette2_320 => "imagenette2-320"@,
    }
}

/// The directory that an Imagenette archive unpacks to.
pub fn imagenette_folder_name(variant: ImagenetteVariant) -> (name: &'static str)
    ensures
        name@ == imagenette_folder(variant),
{
    match variant {
        ImagenetteVariant::Imagenette2_160 => "imagenette2-160",
        ImagenetteVariant::Imagenette2_320 => "imagenette2-320",
    }
}

/// The file name of an Imagenette archive.
pub fn imagenette_archive_name(variant: ImagenetteVariant) -> (name: String)
    ensures
        name@ == imagenette_folder(variant) + ".tgz"@,
{
    let mut name = String::new();
    name.append(imagenette_folder_name(variant));
    name.append(".tgz");
    assert(name@ =~= imagenette_folder(variant) + ".tgz"@);
    name
}

/// The directory that a CIFAR archive unpacks to.
pub fn cifar_folder_name(cifar_type: CifarType) -> (name: &'static str)
    ensures
        name@ == (match cifar_type {
            CifarType::Cifar10 => "cifar-10-batches-bin"@,
            CifarType::Cifar100 => "cifar-100-binary"@,
        }),
{
    crate::cifar::cifar_subdir(cifar_type)
}

/// The file name of a CIFAR archive.
pub fn cifar_archive_name(cifar_type: CifarType) -> (name: &'static str)
    ensures
        name@ == (match cifar_type {
            CifarType::Cifar10 => "cifar-10-binary.tar.gz"@,
            CifarType::Cifar100 => "cifar-100-binary.tar.gz"@,
        }),
{
    match cifar_type {
        CifarType::Cifar10 => "cifar-10-binary.tar.gz",
        CifarType::Cifar100 => "cifar-100-binary.tar.gz",
    }
}

/// The record files that make a CIFAR dataset complete.
pub fn cifar_required_files(cifar_type: CifarType) -> (names: Vec<&'static str>)
    ensures
        name_views(names@) == crate::cifar::record_file_names(
            cifar_type,
            crate::cifar::CifarSplit::Train,
        ) + crate::cifar::record_file_names(cifar_type, crate::cifar::CifarSplit::Test),
{
    let mut names = crate::cifar::record_files(cifar_type, crate::cifar::CifarSplit::Train);
    let mut rest = crate::cifar::record_files(cifar_type, crate::cifar::CifarSplit::Test);
    let ghost a = names@;
    let ghost b = rest@;
    names.append(&mut rest);
    assert(name_views(names@) =~= name_views(a) + name_views(b));
    names
}

/// Whether a CIFAR dataset is complete: its directory is there, and so is every required file.
pub fn cifar_root_has_records(directory_exists: bool, files_exist: &[bool]) -> (r: bool)
    ensures
        r == (directory_exists && forall|k: int|
            0 <= k < files_exist@.len() ==> #[trigger] files_exist@[k]),
{
    if !directory_exists {
        return false;
    }
    let mut k: usize = 0;
    while k < files_exist.len()
        invariant
            k <= files_exist@.len(),
            forall|j: int| 0 <= j < k ==> #[trigger] files_exist@[j],
        decreases files_exist@.len() - k,
    {
        if !files_exist[k] {
            return false;
        }
        k += 1;
    }
    true
}

/// Whether an Imagenette download goes ahead.
#[derive(Clone, Copy, Debug, PartialEq, Eq, Structural)]
pub enum ImagenetteStart {
    AlreadyThere,
    Fetch,
}

/// Decides whether an Imagenette download goes ahead: the directory names must be its own, and the
/// target must not hold anything else.
pub fn start_imagenette(
    train_dir: &String,
    val_dir: &String,
    present: bool,
    root_has_entries: bool,
) -> (result: Result<ImagenetteStart, DownloadError>)
    ensures
        result == (if train_dir@ != "train"@ || val_dir@ != "val"@ {
            Err(DownloadError::ImagenetteDirectoryNames)
        } else if present {
            Ok(ImagenetteStart::AlreadyThere)
        } else if root_has_entries {
            Err(DownloadError::RootOccupied)
        } else {
            Ok::<ImagenetteStart, DownloadError>(ImagenetteStart::Fetch)
        }),
{
    if *train_dir != "train".to_owned() || *val_dir != "val".to_owned() {
        return Err(DownloadError::ImagenetteDirectoryNames);
    }
    if present {
        return Ok(ImagenetteStart::AlreadyThere);
    }
    if root_has_entries {
        return Err(DownloadError::RootOccupied);
    }
    Ok(ImagenetteStart::Fetch)
}

/// Where the data lies in an unpacked archive.
#[derive(Clone, Copy, Debug, PartialEq, Eq, Structural)]
pub enum ArchiveLayout {
    /// In the archive's own folder.
    Folder,
    /// At its top.
    Top,
}

/// Finds the data of an unpacked Imagenette archive.
pub fn imagenette_layout(folder_is_dir: bool, top_has_train: bool) -> (result: Result<
    ArchiveLayout,
    DownloadError,
>)
    ensures
        result == (if folder_is_dir {
            Ok(ArchiveLayout::Folder)
        } else if top_has_train {
            Ok(ArchiveLayout::Top)
        } else {
            Err::<ArchiveLayout, DownloadError>(DownloadError::UnexpectedArchiveLayout)
        }),
{
    if folder_is_dir {
        Ok(ArchiveLayout::Folder)
    } else if top_has_train {
        Ok(ArchiveLayout::Top)
    } else {
        Err(DownloadError::UnexpectedArchiveLayout)
    }
}

/// Whether the target directory is removed before the data moves in. It may only be empty by then.
pub fn clear_target(exists: bool, has_entries: bool) -> (result: Result<bool, DownloadError>)
    ensures
        result == (if exists && has_entries {
            Err(DownloadError::RootOccupied)
        } else {
            Ok::<bool, DownloadError>(exists)
        }),
{
    if exists && has_entries {
        Err(DownloadError::RootOccupied)
    } else {
        Ok(exists)
    }
}

/// Whether an unpacked CIFAR archive holds its folder.
pub fn cifar_layout(folder_is_dir: bool) -> (result: Result<(), DownloadError>)
    ensures
        result == (if folder_is_dir {
            Ok(())
        } else {
            Err::<(), DownloadError>(DownloadError::UnexpectedArchiveLayout)
        }),
{
    if folder_is_dir {
        Ok(())
    } else {
        Err(DownloadError::UnexpectedArchiveLayout)
    }
}

/// Only what a source needs is fetched: CIFAR files for a CIFAR source, each of its own kind, and
/// Imagenette for an image folder. A download for another source is refused, but only where the data
/// is missing.
pub proof fn law_downloads_match_their_source(
    source: VisionDatasetSource,
    download: Option<VisionDatasetDownloadConfig>,
    present: bool,
)
    ensures
        ({
            let step = download_step_of(source, download, present);
            let cifar = source is Cifar10 || source is Cifar100;
            &&& step == Ok::<DownloadStep, DownloadError>(DownloadStep::MovingMnist) <==> source
                is MovingMnist
            &&& step is Err ==> !present && download is Some
            &&& step matches Ok(DownloadStep::Cifar(kind)) ==> {
                &&& !present && cifar && download == Some(VisionDatasetDownloadConfig::Cifar)
                &&& kind is Cifar100 <==> source is Cifar100
            }
            &&& step matches Ok(DownloadStep::Imagenette(variant)) ==> {
                &&& !present && source is Imagenet
                &&& download == Some(VisionDatasetDownloadConfig::Imagenette { variant })
            }
            &&& !present && download == Some(VisionDatasetDownloadConfig::Cifar) && source
                is Imagenet ==> step == Err::<DownloadStep, DownloadError>(
                DownloadError::CifarForImageFolder,
            )
            &&& !present && download is Some && download->0 is Imagenette && cifar ==> step == Err::<DownloadStep, DownloadError>(
                DownloadError::ImagenetteForCifar,
            )
            &&& !present && download == Some(VisionDatasetDownloadConfig::Cifar) && cifar ==> step
                is Ok && step->Ok_0 is Cifar
            &&& !present && download is Some && download->0 is Imagenette && source is Imagenet ==> step is Ok && step->Ok_0 is Imagenette
        }),
{
}

/// A capital and its small letter are the same without regard to case, any other two characters only
/// where they are one.
pub proof fn law_case_is_all_that_is_ignored(a: char, b: char)
    ensures
        lower_case(a) == lower_case(b) <==> {
            ||| a as u32 == b as u32
            ||| 'A' <= a <= 'Z' && b as u32 == a as u32 + 0x20
            ||| 'A' <= b <= 'Z' && a as u32 == b as u32 + 0x20
        },
{
}

/// Whether a file is an image does not depend on the case of its extension.
pub proof fn law_extensions_ignore_case(a: Seq<char>, b: Seq<char>)
    requires
        same_ignoring_case(a, b),
    ensures
        is_image_extension(a) <==> is_image_extension(b),
        is_image_extension("jpg"@) && is_image_extension("jpeg"@) && is_image_extension("png"@),
        is_image_extension(a) ==> same_ignoring_case(a, "jpg"@) || same_ignoring_case(a, "jpeg"@)
            || same_ignoring_case(a, "png"@),
{
    assert forall|c: Seq<char>| same_ignoring_case(a, c) <==> #[trigger] same_ignoring_case(b, c) by {
        if same_ignoring_case(b, c) {
            assert forall|i: int| 0 <= i < a.len() implies lower_case(#[trigger] a[i]) == lower_case(
                c[i],
            ) by {
                assert(lower_case(b[i]) == lower_case(c[i]));
            }
        }
        if same_ignoring_case(a, c) {
            assert forall|i: int| 0 <= i < b.len() implies lower_case(#[trigger] b[i]) == lower_case(
                c[i],
            ) by {
                assert(lower_case(a[i]) == lower_case(c[i]));
            }
        }
    }
}

/// Only a directory with an image file in it holds images: neither other files nor directories that
/// are named like one count, and one image is enough.
pub proof fn law_one_image_file_is_enough(entry: ListedEntry, f: int)
    requires
        0 <= f < entry.files@.len(),
    ensures
        entry.is_dir && entry.files@[f].is_file && entry.files@[f].extension is Some
            && is_image_extension(entry.files@[f].extension->0@) ==> entry_has_image(entry),
        entry_has_image(entry) ==> entry.is_dir,
        (forall|k: int|
            0 <= k < entry.files@.len() ==> !(#[trigger] entry.files@[k]).is_file
                || entry.files@[k].extension is None || !is_image_extension(
                entry.files@[k].extension->0@,
            )) ==> !entry_has_image(entry),
{
    assert(is_listed_image(entry.files@[f]) <==> entry.files@[f].is_file
        && entry.files@[f].extension is Some && is_image_extension(
        entry.files@[f].extension->0@,
    ));
}

} // verus!
