//! Which stores a run opens: their files and their shapes.

use crate::config::{ImageNetSplit, VisionTeacherFeatureConfig};
use vstd::prelude::*;

verus! {

/// The files and the shape of a feature store.
#[derive(Debug)]
pub struct FeatureStoreRequest {
    pub cls_path: String,
    pub patch_path: Option<String>,
    pub feature_dim: usize,
    pub patch_tokens: Option<usize>,
    pub expected_records: usize,
    pub cache_in_memory: bool,
}

/// The file and the shape of a latent store.
#[derive(Debug)]
pub struct LatentStoreRequest {
    pub path: String,
    pub channels: usize,
    pub height: usize,
    pub width: usize,
    pub expected_records: usize,
    pub cache_in_memory: bool,
}

/// The path of the class features of one split.
pub open spec fn cls_path_of(teacher: VisionTeacherFeatureConfig, split: ImageNetSplit) -> String {
    match split {
        ImageNetSplit::Train => teacher.train_cls_path,
        ImageNetSplit::Val => teacher.val_cls_path,
    }
}

/// The path of the patch features of one split.
pub open spec fn patch_path_of(
    teacher: VisionTeacherFeatureConfig,
    split: ImageNetSplit,
) -> Option<String> {
    match split {
        ImageNetSplit::Train => teacher.train_patch_path,
        ImageNetSplit::Val => teacher.val_patch_path,
    }
}

/// The same path, or the same absence of one.
pub open spec fn same_path(a: Option<String>, b: Option<String>) -> bool {
    match (a, b) {
        (Some(x), Some(y)) => x@ == y@,
        (None, None) => true,
        _ => false,
    }
}

/// A copy of an optional path.
pub(crate) fn copy_path(path: &Option<String>) -> (r: Option<String>)
    ensures
        same_path(r, *path),
{
    match path {
        Some(p) => Some(p.clone()),
        None => None,
    }
}

/// Each split has its own files.
pub proof fn law_features_go_with_their_split(teacher: VisionTeacherFeatureConfig)
    ensures
        cls_path_of(teacher, ImageNetSplit::Train) == teacher.train_cls_path,
        cls_path_of(teacher, ImageNetSplit::Val) == teacher.val_cls_path,
        patch_path_of(teacher, ImageNetSplit::Train) == teacher.train_patch_path,
        patch_path_of(teacher, ImageNetSplit::Val) == teacher.val_patch_path,
{
}

/// Two paths are the same exactly where both are missing or both have the same characters.
pub proof fn law_same_paths_have_the_same_characters(a: Option<String>, b: Option<String>)
    ensures
        same_path(a, b) ==> (a is None <==> b is None),
        a is None && b is None ==> same_path(a, b),
        a is Some && b is Some ==> (same_path(a, b) <==> a->0@ == b->0@),
{
}

} // verus!
