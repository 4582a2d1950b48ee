//! The storage format of teacher features, as their metadata files declare it.

use vstd::prelude::*;

verus! {

/// How one scalar of a feature file is stored.
#[derive(Clone, Copy, Debug, PartialEq, Eq, Structural)]
pub enum DinoFeatureDType {
    F32,
    F16,
}

impl DinoFeatureDType {
    /// How many bytes a scalar takes.
    pub open spec fn width(self) -> int {
        match self {
            DinoFeatureDType::F32 => 4,
            DinoFeatureDType::F16 => 2,
        }
    }

    /// How many bytes a scalar takes.
    pub fn bytes_per_scalar(self) -> (n: u64)
        ensures
            n == self.width(),
    {
        match self {
            DinoFeatureDType::F32 => 4,
            DinoFeatureDType::F16 => 2,
        }
    }
}

/// Why metadata cannot be used.
#[derive(Debug)]
pub enum MetadataError {
    /// The file is not valid JSON.
    Unreadable,
    /// The storage type is none of the known ones.
    UnsupportedDType(String),
    /// The scalar width is none of the known ones.
    UnsupportedWidth(u64),
}

/// Whether the bytes are one valid JSON document.
pub uninterp spec fn is_json_document(bytes: Seq<u8>) -> bool;

/// `serde_json::from_slice` into a `Value`: whether the bytes are one valid JSON document. The
/// answer depends on the bytes alone; what makes a document valid is left to that parser.
#[verifier::external_body]
fn parses_as_json(bytes: &[u8]) -> (valid: bool)
    ensures
        valid == is_json_document(bytes@),
{
    serde_json::from_slice::<serde_json::Value>(bytes).is_ok()
}

/// The member `key` of the JSON object that the bytes hold, written as a document of its own.
pub uninterp spec fn json_member_of(bytes: Seq<u8>, key: Seq<char>) -> Option<Seq<u8>>;

/// `serde_json::Value::get` on the parsed document: the member `key`, written out again by
/// `serde_json::to_vec`, and nothing where the document is no object with such a member. The
/// answer depends on the bytes and the key alone.
#[verifier::external_body]
fn json_member(bytes: &[u8], key: &str) -> (member: Option<Vec<u8>>)
    ensures
        match member {
            Some(m) => json_member_of(bytes@, key@) == Some(m@),
            None => json_member_of(bytes@, key@) is None,
        },
{
    let value = serde_json::from_slice::<serde_json::Value>(bytes).ok()?;
    serde_json::to_vec(value.get(key)?).ok()
}

/// The text of a document that is a JSON string.
pub uninterp spec fn json_string_of(bytes: Seq<u8>) -> Option<Seq<char>>;

/// `serde_json::Value::as_str` on the parsed document: its text, and nothing where it is no string.
/// The answer depends on the bytes alone.
#[verifier::external_body]
fn json_string(bytes: &[u8]) -> (text: Option<String>)
    ensures
        match text {
            Some(t) => json_string_of(bytes@) == Some(t@),
            None => json_string_of(bytes@) is None,
        },
{
    let value = serde_json::from_slice::<serde_json::Value>(bytes).ok()?;
    value.as_str().map(String::from)
}

/// The value of a document that is a non-negative JSON integer of 64 bits.
pub uninterp spec fn json_unsigned_of(bytes: Seq<u8>) -> Option<u64>;

/// `serde_json::Value::as_u64` on the parsed document: its value, and nothing where it is no
/// integer in that range. The answer depends on the bytes alone.
#[verifier::external_body]
fn json_unsigned(bytes: &[u8]) -> (number: Option<u64>)
    ensures
        number == json_unsigned_of(bytes@),
{
    serde_json::from_slice::<serde_json::Value>(bytes).ok()?.as_u64()
}

/// The text of the member `key`, where it is a string.
pub open spec fn string_member(bytes: Seq<u8>, key: Seq<char>) -> Option<Seq<char>> {
    match json_member_of(bytes, key) {
        Some(m) => json_string_of(m),
        None => None,
    }
}

/// The value of the member `key`, where it is a non-negative integer.
pub open spec fn unsigned_member(bytes: Seq<u8>, key: Seq<char>) -> Option<u64> {
    match json_member_of(bytes, key) {
        Some(m) => json_unsigned_of(m),
        None => None,
    }
}

fn read_string_member(bytes: &[u8], key: &str) -> (text: Option<String>)
    ensures
        match text {
            Some(t) => string_member(bytes@, key@) == Some(t@),
            None => string_member(bytes@, key@) is None,
        },
{
    match json_member(bytes, key) {
        Some(m) => json_string(m.as_slice()),
        None => None,
    }
}

fn read_unsigned_member(bytes: &[u8], key: &str) -> (number: Option<u64>)
    ensures
        number == unsigned_member(bytes@, key@),
{
    match json_member(bytes, key) {
        Some(m) => json_unsigned(m.as_slice()),
        None => None,
    }
}

/// What the two declarations say of the storage type: the named type decides, else the scalar
/// width; nothing where neither is declared.
pub open spec fn declared_dtype(
    named: Option<Seq<char>>,
    width: Option<u64>,
) -> Option<DinoFeatureDType> {
    match named {
        Some(name) => if name == "f32"@ {
            Some(DinoFeatureDType::F32)
        } else {
            Some(DinoFeatureDType::F16)
        },
        None => match width {
            Some(w) => if w == 4 {
                Some(DinoFeatureDType::F32)
            } else {
                Some(DinoFeatureDType::F16)
            },
            None => None,
        },
    }
}

/// Whether the two declarations are understood.
pub open spec fn is_supported(named: Option<Seq<char>>, width: Option<u64>) -> bool {
    match named {
        Some(name) => name == "f32"@ || name == "f16"@,
        None => match width {
            Some(w) => w == 4 || w == 2,
            None => true,
        },
    }
}

/// Whether `result` answers the two declarations.
pub open spec fn answers_declaration(
    result: Result<Option<DinoFeatureDType>, MetadataError>,
    named: Option<Seq<char>>,
    width: Option<u64>,
) -> bool {
    match result {
        Ok(dtype) => is_supported(named, width) && dtype == declared_dtype(named, width),
        Err(MetadataError::UnsupportedDType(name)) => !is_supported(named, width) && named == Some(
            name@,
        ),
        Err(MetadataError::UnsupportedWidth(w)) => !is_supported(named, width) && named is None
            && width == Some(w),
        Err(MetadataError::Unreadable) => false,
    }
}

/// The storage type that the declarations name.
pub fn storage_dtype_from_declarations(
    storage_dtype: Option<String>,
    bytes_per_scalar: Option<u64>,
) -> (result: Result<Option<DinoFeatureDType>, MetadataError>)
    ensures
        answers_declaration(
            result,
            match storage_dtype {
                Some(name) => Some(name@),
                None => None,
            },
            bytes_per_scalar,
        ),
{
    match storage_dtype {
        Some(name) => {
            if name == "f32".to_owned() {
                Ok(Some(DinoFeatureDType::F32))
            } else if name == "f16".to_owned() {
                Ok(Some(DinoFeatureDType::F16))
            } else {
                Err(MetadataError::UnsupportedDType(name))
            }
        },
        None => match bytes_per_scalar {
            Some(width) => if width == 4 {
                Ok(Some(DinoFeatureDType::F32))
            } else if width == 2 {
                Ok(Some(DinoFeatureDType::F16))
            } else {
                Err(MetadataError::UnsupportedWidth(width))
            },
            None => Ok(None),
        },
    }
}

/// The storage type that one metadata object declares.
pub fn feature_storage_dtype_from_meta(meta: &[u8]) -> (result: Result<
    Option<DinoFeatureDType>,
    MetadataError,
>)
    ensures
        answers_declaration(
            result,
            string_member(meta@, "storage_dtype"@),
            unsigned_member(meta@, "bytes_per_scalar"@),
        ),
{
    let named = read_string_member(meta, "storage_dtype");
    let width: Option<u64> = read_unsigned_member(meta, "bytes_per_scalar");
    storage_dtype_from_declarations(named, width)
}

/// The entry of one split in the metadata of a whole feature directory.
pub open spec fn split_entry(meta: Seq<u8>, split: Seq<char>) -> Option<Seq<u8>> {
    match json_member_of(meta, "splits"@) {
        Some(splits) => json_member_of(splits, split),
        None => None,
    }
}

/// What one metadata object declares, as a pair of declarations.
pub open spec fn declarations(meta: Seq<u8>) -> (Option<Seq<char>>, Option<u64>) {
    (string_member(meta, "storage_dtype"@), unsigned_member(meta, "bytes_per_scalar"@))
}

/// Whether an object neither names a storage type nor fails to.
pub open spec fn is_silent(meta: Seq<u8>) -> bool {
    declarations(meta).0 is None && declarations(meta).1 is None
}

/// The object that decides the storage type, in the order in which they are asked: the metadata of
/// the split, its entry in the metadata of the directory, that metadata itself.
pub open spec fn deciding_object(
    split: Option<Seq<char>>,
    split_meta: Option<Seq<u8>>,
    directory_meta: Option<Seq<u8>>,
) -> Option<Seq<u8>> {
    if split is Some && split_meta is Some && !is_silent(split_meta->0) {
        split_meta
    } else if directory_meta is Some && split is Some && split_entry(
        directory_meta->0,
        split->0,
    ) is Some && !is_silent(split_entry(directory_meta->0, split->0)->0) {
        split_entry(directory_meta->0, split->0)
    } else if directory_meta is Some && !is_silent(directory_meta->0) {
        directory_meta
    } else {
        None
    }
}

/// Whether one of the files that are read is not valid JSON: that of the split, or, where it does
/// not decide, that of the directory.
pub open spec fn meets_invalid_file(
    split: Option<Seq<char>>,
    split_meta: Option<Seq<u8>>,
    directory_meta: Option<Seq<u8>>,
) -> bool {
    if split is Some && split_meta is Some && !is_json_document(split_meta->0) {
        true
    } else if split is Some && split_meta is Some && !is_silent(split_meta->0) {
        false
    } else {
        directory_meta is Some && !is_json_document(directory_meta->0)
    }
}

/// The bytes of a file, where there is one.
pub open spec fn file_view(file: Option<Vec<u8>>) -> Option<Seq<u8>> {
    match file {
        Some(bytes) => Some(bytes@),
        None => None,
    }
}

/// The characters of a name, where there is one.
pub open spec fn name_view(name: Option<String>) -> Option<Seq<char>> {
    match name {
        Some(text) => Some(text@),
        None => None,
    }
}

/// The storage type of a feature file, from the metadata beside it. Without any declaration the
/// scalars are single-precision numbers.
pub fn infer_feature_storage_dtype(
    split: &Option<String>,
    split_meta: &Option<Vec<u8>>,
    directory_meta: &Option<Vec<u8>>,
) -> (result: Result<DinoFeatureDType, MetadataError>)
    ensures
        ({
            let name = name_view(*split);
            let own = file_view(*split_meta);
            let shared = file_view(*directory_meta);
            if meets_invalid_file(name, own, shared) {
                result matches Err(MetadataError::Unreadable)
            } else {
                match deciding_object(name, own, shared) {
                    None => result == Ok::<DinoFeatureDType, MetadataError>(DinoFeatureDType::F32),
                    Some(meta) => match result {
                        Ok(dtype) => answers_declaration(
                            Ok(Some(dtype)),
                            declarations(meta).0,
                            declarations(meta).1,
                        ),
                        Err(error) => answers_declaration(
                            Err(error),
                            declarations(meta).0,
                            declarations(meta).1,
                        ),
                    },
                }
            }
        }),
{
    if let Some(_) = split {
        if let Some(meta) = split_meta {
            if !parses_as_json(meta.as_slice()) {
                return Err(MetadataError::Unreadable);
            }
            match feature_storage_dtype_from_meta(meta.as_slice()) {
                Ok(Some(dtype)) => {
                    return Ok(dtype);
                },
                Ok(None) => {},
                Err(error) => {
                    return Err(error);
                },
            }
        }
    }
    if let Some(meta) = directory_meta {
        if !parses_as_json(meta.as_slice()) {
            return Err(MetadataError::Unreadable);
        }
        if let Some(name) = split {
            if let Some(splits) = json_member(meta.as_slice(), "splits") {
                if let Some(entry) = json_member(splits.as_slice(), name.as_str()) {
                    match feature_storage_dtype_from_meta(entry.as_slice()) {
                        Ok(Some(dtype)) => {
                            return Ok(dtype);
                        },
                        Ok(None) => {},
                        Err(error) => {
                            return Err(error);
                        },
                    }
                }
            }
        }
        match feature_storage_dtype_from_meta(meta.as_slice()) {
            Ok(Some(dtype)) => {
                return Ok(dtype);
            },
            Ok(None) => {},
            Err(error) => {
                return Err(error);
            },
        }
    }
    Ok(DinoFeatureDType::F32)
}

/// `name` without `suffix` at its end; nothing where it does not end so.
pub open spec fn without_suffix(name: Seq<char>, suffix: Seq<char>) -> Option<Seq<char>> {
    if name.len() >= suffix.len() && name.skip(name.len() - suffix.len()) == suffix {
        Some(name.take(name.len() - suffix.len()))
    } else {
        None
    }
}

/// `name` without `suffix` at its end.
pub fn strip_suffix(name: &str, suffix: &str) -> (rest: Option<String>)
    ensures
        name_view(rest) == without_suffix(name@, suffix@),
{
    let n: usize = name.unicode_len();
    let m: usize = suffix.unicode_len();
    if n < m {
        return None;
    }
    let cut: usize = n - m;
    let tail = name.substring_char(cut, n).to_owned();
    assert(tail@ =~= name@.skip(cut as int));
    if tail == suffix.to_owned() {
        let rest = name.substring_char(0, cut).to_owned();
        assert(rest@ =~= name@.take(cut as int));
        Some(rest)
    } else {
        None
    }
}

/// The split that a feature file belongs to, from its name without extension.
pub open spec fn split_of_stem(stem: Seq<char>) -> Option<Seq<char>> {
    match without_suffix(stem, "_cls"@) {
        Some(split) => Some(split),
        None => without_suffix(stem, "_latent"@),
    }
}

/// The split that a feature file belongs to, from its name without extension.
pub fn split_name(stem: &str) -> (split: Option<String>)
    ensures
        name_view(split) == split_of_stem(stem@),
{
    match strip_suffix(stem, "_cls") {
        Some(split) => Some(split),
        None => strip_suffix(stem, "_latent"),
    }
}

/// A named storage type outranks the scalar width.
pub proof fn law_named_type_outranks_width(name: Seq<char>, width: Option<u64>, other: Option<u64>)
    ensures
        declared_dtype(Some(name), width) == declared_dtype(Some(name), other),
        is_supported(Some(name), width) == is_supported(Some(name), other),
{
}

/// Scalars of four bytes are single-precision numbers and scalars of two bytes half-precision ones,
/// whether the type is named or its width is given. Nothing else is understood, and where nothing is
/// declared nothing is told.
pub proof fn law_names_and_widths_agree(width: u64)
    ensures
        is_supported(Some("f32"@), None) && declared_dtype(Some("f32"@), None) == Some(
            DinoFeatureDType::F32,
        ),
        is_supported(Some("f16"@), None) && declared_dtype(Some("f16"@), None) == Some(
            DinoFeatureDType::F16,
        ),
        is_supported(None, Some(width)) <==> width == DinoFeatureDType::F32.width() || width
            == DinoFeatureDType::F16.width(),
        is_supported(None, Some(width)) ==> declared_dtype(None, Some(width))->0.width() == width,
        is_supported(None, None) && declared_dtype(None, None) is None,
{
    reveal_strlit("f32");
    reveal_strlit("f16");
    assert("f32"@[1] != "f16"@[1]);
}

/// The metadata of the split is asked first, its entry in that of the directory next, and the
/// directory last: each decides exactly where it declares something and none before it does. Without
/// a split only the directory is asked.
pub proof fn law_closer_metadata_decides(
    split: Option<Seq<char>>,
    split_meta: Option<Seq<u8>>,
    directory_meta: Option<Seq<u8>>,
    other: Option<Seq<u8>>,
)
    ensures
        split is Some && split_meta is Some && !is_silent(split_meta->0) ==> deciding_object(
            split,
            split_meta,
            directory_meta,
        ) == split_meta && deciding_object(split, split_meta, other) == split_meta,
        split is None || split_meta is None || is_silent(split_meta->0) ==> deciding_object(
            split,
            split_meta,
            directory_meta,
        ) == deciding_object(split, None, directory_meta),
        directory_meta is None ==> deciding_object(split, None, directory_meta) is None,
        split is None ==> deciding_object(split, split_meta, directory_meta) == (
        if directory_meta is Some && !is_silent(directory_meta->0) {
            directory_meta
        } else {
            None
        }),
        deciding_object(split, split_meta, directory_meta) matches Some(meta) ==> {
            let (named, width) = declarations(meta);
            named is Some || width is Some
        },
        split is Some && directory_meta is Some ==> {
            let entry = split_entry(directory_meta->0, split->0);
            let decides = deciding_object(split, None, directory_meta);
            &&& entry is Some && !is_silent(entry->0) ==> decides == entry
            &&& entry is None || is_silent(entry->0) ==> decides == deciding_object(
                None,
                None,
                directory_meta,
            )
        },
{
}

/// A file that is not valid is met only where it is read: that of the split always, and that of the
/// directory unless the split's own decides.
pub proof fn law_files_are_read_until_one_decides(
    split: Option<Seq<char>>,
    split_meta: Option<Seq<u8>>,
    directory_meta: Option<Seq<u8>>,
)
    ensures
        split is Some && split_meta is Some && !is_json_document(split_meta->0)
            ==> meets_invalid_file(split, split_meta, directory_meta),
        split is Some && split_meta is Some && is_json_document(split_meta->0) && !is_silent(
            split_meta->0,
        ) ==> !meets_invalid_file(split, split_meta, directory_meta),
        split is None || split_meta is None || (is_json_document(split_meta->0) && is_silent(
            split_meta->0,
        )) ==> (meets_invalid_file(split, split_meta, directory_meta) <==> directory_meta is Some
            && !is_json_document(directory_meta->0)),
{
}

/// What is left of a name and the suffix together are the name, and whatever ends in the suffix has
/// it taken off.
pub proof fn law_suffixes_are_taken_off_the_end(
    name: Seq<char>,
    suffix: Seq<char>,
    rest: Seq<char>,
)
    ensures
        without_suffix(name, suffix) == Some(rest) <==> rest + suffix == name,
{
    if rest + suffix == name {
        assert(name.skip(name.len() - suffix.len()) =~= suffix);
        assert(name.take(name.len() - suffix.len()) =~= rest);
    }
    if without_suffix(name, suffix) == Some(rest) {
        assert(rest + suffix =~= name);
    }
}

/// Class features and latents of a split are named after it; any other file belongs to none.
pub proof fn law_feature_files_are_named_after_their_split(split: Seq<char>)
    ensures
        split_of_stem(split + "_cls"@) == Some(split),
        split_of_stem(split + "_latent"@) == Some(split),
{
    reveal_strlit("_cls");
    reveal_strlit("_latent");
    law_suffixes_are_taken_off_the_end(split + "_cls"@, "_cls"@, split);
    law_suffixes_are_taken_off_the_end(split + "_latent"@, "_latent"@, split);
    let stem = split + "_latent"@;
    assert(stem.last() == 't');
    if without_suffix(stem, "_cls"@) is Some {
        let rest = without_suffix(stem, "_cls"@)->0;
        law_suffixes_are_taken_off_the_end(stem, "_cls"@, rest);
        assert((rest + "_cls"@).last() == 's');
    }
}

/// The type is told exactly where the declarations are understood. What is not understood is named
/// in the refusal: the name where there is one, else the width.
pub proof fn law_refusals_name_what_was_declared(
    result: Result<Option<DinoFeatureDType>, MetadataError>,
    named: Option<Seq<char>>,
    width: Option<u64>,
)
    requires
        answers_declaration(result, named, width),
    ensures
        result is Ok <==> is_supported(named, width),
        result is Ok ==> result->Ok_0 == declared_dtype(named, width),
        result is Err && named is Some ==> (result->Err_0 matches MetadataError::UnsupportedDType(
            name,
        ) && name@ == named->0),
        result is Err && named is None ==> (result->Err_0 matches MetadataError::UnsupportedWidth(w)
            && Some(w) == width),
{
}

/// An object is silent exactly where it declares neither a type nor a width.
pub proof fn law_silent_objects_declare_nothing(meta: Seq<u8>)
    ensures
        is_silent(meta) <==> string_member(meta, "storage_dtype"@) is None && unsigned_member(
            meta,
            "bytes_per_scalar"@,
        ) is None,
        declared_dtype(declarations(meta).0, declarations(meta).1) is None <==> is_silent(meta),
{
}

} // verus!
