//! Stores of precomputed teacher features: their sizes, their records, and batches read from them.

use crate::binary32::{bit_length, lemma_bit_length_bounds};
use crate::metadata::DinoFeatureDType;
use crate::ordered::{is_stable_order, stable_order};
use vstd::arithmetic::power2::{
    lemma2_to64, lemma_pow2_adds, lemma_pow2_pos, lemma_pow2_strictly_increases, lemma_pow2_unfold,
    pow2,
};
use vstd::prelude::*;

verus! {

/// The binary32 pattern of a binary16 pattern: the sign, the exponent and the fraction carried over,
/// with subnormal numbers normalised and NaN made quiet.
pub open spec fn widened_half(bits: u16) -> int {
    let sign = (bits as int / 32768) * 0x8000_0000;
    let exponent = (bits as int / 1024) % 32;
    let fraction = bits as int % 1024;
    if exponent == 31 && fraction == 0 {
        sign + 0x7f80_0000
    } else if exponent == 31 {
        sign + 0x7f80_0000 + (if fraction < 512 {
            fraction + 512
        } else {
            fraction
        }) * 8192
    } else if exponent > 0 {
        sign + (exponent + 112) * 0x80_0000 + fraction * 8192
    } else if fraction == 0 {
        sign
    } else {
        let b = bit_length(fraction as nat);
        sign + (102 + b) * 0x80_0000 + (fraction - pow2((b - 1) as nat)) * pow2((24 - b) as nat)
    }
}

/// Splits a subnormal fraction into its leading power of two and the scale of the rest.
fn leading_bit(fraction: u32) -> (r: (u32, u32, u32))
    requires
        0 < fraction < 1024,
    ensures
        r.0 == bit_length(fraction as nat),
        1 <= r.0 <= 10,
        r.1 == pow2((r.0 - 1) as nat),
        r.2 == pow2((24 - r.0) as nat),
        r.1 <= fraction < 2 * r.1,
        r.1 * r.2 == 0x80_0000,
{
    proof {
        lemma2_to64();
        reveal_with_fuel(bit_length, 12);
    }
    if fraction >= 512 {
        (10, 512, 0x4000)
    } else if fraction >= 256 {
        (9, 256, 0x8000)
    } else if fraction >= 128 {
        (8, 128, 0x1_0000)
    } else if fraction >= 64 {
        (7, 64, 0x2_0000)
    } else if fraction >= 32 {
        (6, 32, 0x4_0000)
    } else if fraction >= 16 {
        (5, 16, 0x8_0000)
    } else if fraction >= 8 {
        (4, 8, 0x10_0000)
    } else if fraction >= 4 {
        (3, 4, 0x20_0000)
    } else if fraction >= 2 {
        (2, 2, 0x40_0000)
    } else {
        (1, 1, 0x80_0000)
    }
}

/// A binary16 pattern in single precision.
pub fn half_to_single(bits: u16) -> (single: u32)
    ensures
        single == widened_half(bits),
{
    let sign: u32 = (bits / 32768) as u32 * 0x8000_0000;
    let exponent: u32 = ((bits / 1024) % 32) as u32;
    let fraction: u32 = (bits % 1024) as u32;
    if exponent == 31 {
        let payload: u32 = if fraction == 0 || fraction >= 512 {
            fraction
        } else {
            fraction + 512
        };
        return sign + (0x7f80_0000 + payload * 8192);
    }
    if exponent > 0 {
        return sign + ((exponent + 112) * 0x80_0000 + fraction * 8192);
    }
    if fraction == 0 {
        return sign;
    }
    let (length, leading, scale) = leading_bit(fraction);
    assert((fraction - leading) * scale < 0x80_0000) by (nonlinear_arith)
        requires
            0 <= fraction - leading < leading,
            leading * scale == 0x80_0000,
            scale >= 0,
    ;
    assert(0 <= (fraction - leading) * scale) by (nonlinear_arith)
        requires
            0 <= fraction - leading,
            scale >= 0,
    ;
    sign + ((102 + length) * 0x80_0000 + (fraction - leading) * scale)
}

proof fn lemma_subnormal_range(fraction: int)
    requires
        0 < fraction < 1024,
    ensures
        ({
            let b = bit_length(fraction as nat);
            let rest = (fraction - pow2((b - 1) as nat)) * pow2((24 - b) as nat);
            1 <= b <= 10 && 0 <= rest < 0x80_0000
        }),
{
    lemma2_to64();
    lemma_bit_length_bounds(fraction as nat);
    let b = bit_length(fraction as nat);
    assert(b <= 10) by {
        if b > 10 {
            if b > 11 {
                lemma_pow2_strictly_increases(10, (b - 1) as nat);
            }
        }
    }
    let leading = pow2((b - 1) as nat);
    let scale = pow2((24 - b) as nat);
    lemma_pow2_adds((b - 1) as nat, (24 - b) as nat);
    lemma_pow2_unfold(b);
    assert(0 <= (fraction - leading) * scale < 0x80_0000) by (nonlinear_arith)
        requires
            0 <= fraction - leading < leading,
            leading * scale == 0x80_0000,
            scale > 0,
    ;
}

/// Widening keeps the order of the non-negative numbers, infinity among them.
pub proof fn law_widening_keeps_the_order(a: u16, b: u16)
    requires
        a < b <= 0x7c00,
    ensures
        widened_half(a) < widened_half(b),
{
    let fa = a as int % 1024;
    let fb = b as int % 1024;
    if 0 < a < 1024 {
        lemma_subnormal_range(fa);
    }
    if 0 < b < 1024 {
        lemma_subnormal_range(fb);
    }
    if 0 < a && b < 1024 {
        let la = bit_length(fa as nat);
        let lb = bit_length(fb as nat);
        lemma_bit_length_bounds(fa as nat);
        lemma_bit_length_bounds(fb as nat);
        if la > lb {
            if lb < la - 1 {
                lemma_pow2_strictly_increases(lb, (la - 1) as nat);
            }
        }
        if la == lb {
            let leading = pow2((la - 1) as nat);
            let scale = pow2((24 - la) as nat);
            lemma_pow2_pos((24 - la) as nat);
            assert((fa - leading) * scale < (fb - leading) * scale) by (nonlinear_arith)
                requires
                    fa < fb,
                    scale > 0,
            ;
        }
    }
}

/// Whether `single` is the pattern that the `k`-th scalar of `bytes` stands for. Scalars are stored
/// with the least significant byte first.
pub open spec fn is_scalar(bytes: Seq<u8>, dtype: DinoFeatureDType, k: int, single: u32) -> bool {
    match dtype {
        DinoFeatureDType::F32 => single == bytes[4 * k] + bytes[4 * k + 1] * 0x100 + bytes[4 * k
            + 2] * 0x1_0000 + bytes[4 * k + 3] * 0x100_0000,
        DinoFeatureDType::F16 => single == widened_half(
            (bytes[2 * k] + bytes[2 * k + 1] * 0x100) as u16,
        ),
    }
}

fn decode_scalar(bytes: &[u8], dtype: DinoFeatureDType, k: usize) -> (single: u32)
    requires
        (k + 1) * dtype.width() <= bytes@.len(),
    ensures
        is_scalar(bytes@, dtype, k as int, single),
{
    let count: usize = bytes.len();
    match dtype {
        DinoFeatureDType::F32 => {
            let at: usize = 4 * k;
            bytes[at] as u32 + bytes[at + 1] as u32 * 0x100 + bytes[at + 2] as u32 * 0x1_0000
                + bytes[at + 3] as u32 * 0x100_0000
        },
        DinoFeatureDType::F16 => {
            let at: usize = 2 * k;
            half_to_single(bytes[at] as u16 + bytes[at + 1] as u16 * 0x100)
        },
    }
}

/// Whether `out` holds the scalars `first..first + count` of `bytes`.
pub open spec fn is_block(
    out: Seq<u32>,
    bytes: Seq<u8>,
    dtype: DinoFeatureDType,
    first: int,
    count: int,
) -> bool {
    &&& out.len() == count
    &&& forall|k: int| 0 <= k < count ==> is_scalar(bytes, dtype, first + k, #[trigger] out[k])
}

/// Decodes all scalars of one block of bytes.
pub fn decode_block(bytes: &[u8], dtype: DinoFeatureDType) -> (out: Vec<u32>)
    ensures
        is_block(out@, bytes@, dtype, 0, bytes@.len() as int / dtype.width()),
{
    let width: usize = match dtype {
        DinoFeatureDType::F32 => 4,
        DinoFeatureDType::F16 => 2,
    };
    let count: usize = bytes.len() / width;
    let mut out: Vec<u32> = Vec::new();
    let mut k: usize = 0;
    while k < count
        invariant
            k <= count,
            width == dtype.width(),
            count == bytes@.len() as int / dtype.width(),
            is_block(out@, bytes@, dtype, 0, k as int),
        decreases count - k,
    {
        assert((k + 1) * dtype.width() <= bytes@.len()) by (nonlinear_arith)
            requires
                k + 1 <= bytes@.len() as int / dtype.width(),
                dtype.width() == 4 || dtype.width() == 2,
        ;
        out.push(decode_scalar(bytes, dtype, k));
        k += 1;
    }
    out
}

/// Why a feature store cannot be opened or read.
#[derive(Clone, Copy, Debug, PartialEq, Eq, Structural)]
pub enum FeatureStoreError {
    ZeroFeatureDim,
    ZeroPatchTokens,
    /// A patch file without a token count, or the other way round.
    PatchSettingsMismatch,
    ClsSize { bytes: u64, stride: u64 },
    PatchSize { bytes: u64, stride: u64 },
    RecordMismatch { cls: usize, patch: usize },
    TooFewRecords { expected: usize, available: usize },
    ZeroDimension,
    TensorSize { bytes: u64, stride: u64 },
    EmptyBatch,
    /// A record that the store does not hold.
    RecordOutOfRange { index: usize },
}

/// The shape of a store of class features and, optionally, patch features.
#[derive(Clone, Copy, Debug, PartialEq, Eq, Structural)]
pub struct DinoFeatureStore {
    pub dtype: DinoFeatureDType,
    pub feature_dim: usize,
    pub patch_tokens: Option<usize>,
    pub records: usize,
}

/// The first thing that is wrong with the files of a feature store, in the order in which they are
/// looked at.
pub open spec fn feature_store_fault(
    dtype: DinoFeatureDType,
    cls_len: int,
    patch_len: Option<u64>,
    feature_dim: int,
    patch_tokens: Option<usize>,
    expected_records: Option<usize>,
) -> Option<FeatureStoreError> {
    let cls_stride = feature_dim * dtype.width();
    let patch_stride = feature_dim * patch_tokens->0 * dtype.width();
    if feature_dim == 0 {
        Some(FeatureStoreError::ZeroFeatureDim)
    } else if patch_tokens == Some(0usize) {
        Some(FeatureStoreError::ZeroPatchTokens)
    } else if patch_len is Some != patch_tokens is Some {
        Some(FeatureStoreError::PatchSettingsMismatch)
    } else if cls_len % cls_stride != 0 {
        Some(FeatureStoreError::ClsSize { bytes: cls_len as u64, stride: cls_stride as u64 })
    } else if patch_len is Some && patch_len->0 as int % patch_stride != 0 {
        Some(FeatureStoreError::PatchSize { bytes: patch_len->0, stride: patch_stride as u64 })
    } else if patch_len is Some && patch_len->0 as int / patch_stride != cls_len / cls_stride {
        Some(
            FeatureStoreError::RecordMismatch {
                cls: (cls_len / cls_stride) as usize,
                patch: (patch_len->0 as int / patch_stride) as usize,
            },
        )
    } else if expected_records is Some && expected_records->0 > cls_len / cls_stride {
        Some(
            FeatureStoreError::TooFewRecords {
                expected: expected_records->0,
                available: (cls_len / cls_stride) as usize,
            },
        )
    } else {
        None
    }
}

impl DinoFeatureStore {
    /// How many scalars a record of class features has.
    pub open spec fn cls_stride(self) -> int {
        self.feature_dim as int
    }

    /// How many scalars a record of patch features has.
    pub open spec fn patch_stride(self) -> int {
        self.feature_dim * self.patch_tokens->0
    }

    /// A store with class and patch features.
    pub fn new(
        dtype: DinoFeatureDType,
        cls_len: u64,
        patch_len: u64,
        feature_dim: usize,
        patch_tokens: usize,
        expected_records: Option<usize>,
    ) -> (result: Result<Self, FeatureStoreError>)
        requires
            feature_dim * dtype.width() <= u64::MAX,
            feature_dim * patch_tokens * dtype.width() <= u64::MAX,
            cls_len <= usize::MAX,
            patch_len <= usize::MAX,
        ensures
            result is Err ==> feature_store_fault(
                dtype,
                cls_len as int,
                Some(patch_len),
                feature_dim as int,
                Some(patch_tokens),
                expected_records,
            ) == Some(result->Err_0),
            result is Ok ==> {
                &&& feature_store_fault(
                    dtype,
                    cls_len as int,
                    Some(patch_len),
                    feature_dim as int,
                    Some(patch_tokens),
                    expected_records,
                ) is None
                &&& result->Ok_0 == (DinoFeatureStore {
                    dtype,
                    feature_dim,
                    patch_tokens: Some(patch_tokens),
                    records: (cls_len as int / (feature_dim * dtype.width())) as usize,
                })
            },
    {
        Self::new_optional_patch_with_options(
            dtype,
            cls_len,
            Some(patch_len),
            feature_dim,
            Some(patch_tokens),
            expected_records,
        )
    }

    /// A store over files of the given lengths in bytes.
    pub fn new_optional_patch_with_options(
        dtype: DinoFeatureDType,
        cls_len: u64,
        patch_len: Option<u64>,
        feature_dim: usize,
        patch_tokens: Option<usize>,
        expected_records: Option<usize>,
    ) -> (result: Result<Self, FeatureStoreError>)
        requires
            feature_dim * dtype.width() <= u64::MAX,
            patch_tokens is Some ==> feature_dim * patch_tokens->0 * dtype.width() <= u64::MAX,
            cls_len <= usize::MAX,
            patch_len is Some ==> patch_len->0 <= usize::MAX,
        ensures
            result is Err ==> feature_store_fault(
                dtype,
                cls_len as int,
                patch_len,
                feature_dim as int,
                patch_tokens,
                expected_records,
            ) == Some(result->Err_0),
            result is Ok ==> {
                &&& feature_store_fault(
                    dtype,
                    cls_len as int,
                    patch_len,
                    feature_dim as int,
                    patch_tokens,
                    expected_records,
                ) is None
                &&& result->Ok_0 == (DinoFeatureStore {
                    dtype,
                    feature_dim,
                    patch_tokens,
                    records: (cls_len as int / (feature_dim * dtype.width())) as usize,
                })
            },
    {
        if feature_dim == 0 {
            return Err(FeatureStoreError::ZeroFeatureDim);
        }
        if let Some(tokens) = patch_tokens {
            if tokens == 0 {
                return Err(FeatureStoreError::ZeroPatchTokens);
            }
        }
        if patch_len.is_some() != patch_tokens.is_some() {
            return Err(FeatureStoreError::PatchSettingsMismatch);
        }
        let width: u64 = dtype.bytes_per_scalar();
        let cls_stride: u64 = feature_dim as u64 * width;
        assert(cls_stride >= 1) by (nonlinear_arith)
            requires
                cls_stride == feature_dim * width,
                feature_dim >= 1,
                width >= 1,
        ;
        if cls_len % cls_stride != 0 {
            return Err(FeatureStoreError::ClsSize { bytes: cls_len, stride: cls_stride });
        }
        let records: usize = quotient(cls_len, cls_stride);
        if let Some(len) = patch_len {
            if let Some(tokens) = patch_tokens {
                assert(feature_dim * tokens <= feature_dim * tokens * width && 1 <= feature_dim
                    * tokens) by (nonlinear_arith)
                    requires
                        feature_dim >= 1,
                        tokens >= 1,
                        width >= 1,
                ;
                let stride: u64 = feature_dim as u64 * tokens as u64 * width;
                assert(stride >= 1);
                if len % stride != 0 {
                    return Err(FeatureStoreError::PatchSize { bytes: len, stride });
                }
                let patch_records: usize = quotient(len, stride);
                if records != patch_records {
                    return Err(
                        FeatureStoreError::RecordMismatch { cls: records, patch: patch_records },
                    );
                }
            }
        }
        if let Some(expected) = expected_records {
            if expected > records {
                return Err(FeatureStoreError::TooFewRecords { expected, available: records });
            }
        }
        Ok(Self { dtype, feature_dim, patch_tokens, records })
    }

    /// How many records the store holds.
    pub fn records(&self) -> (n: usize)
        ensures
            n == self.records,
    {
        self.records
    }

    /// How many features a vector has.
    pub fn feature_dim(&self) -> (n: usize)
        ensures
            n == self.feature_dim,
    {
        self.feature_dim
    }

    /// How many patch vectors a record has, where it has any.
    pub fn patch_tokens(&self) -> (n: Option<usize>)
        ensures
            n == self.patch_tokens,
    {
        self.patch_tokens
    }

    /// The records at the given indices, in that order. `cls` and `patch` are the contents of the
    /// store's files.
    pub fn load_batch_data(&self, cls: &[u8], patch: Option<&[u8]>, indices: &[usize]) -> (result:
        Result<TeacherBatchData, FeatureStoreError>)
        requires
            self.feature_dim * self.dtype.width() * self.records == cls@.len(),
            patch is Some && self.patch_tokens is Some ==> self.patch_stride()
                * self.dtype.width() * self.records == patch->0@.len(),
            indices@.len() * self.feature_dim <= usize::MAX,
            self.patch_tokens is Some ==> self.patch_stride() <= usize::MAX && indices@.len()
                * self.patch_stride() <= usize::MAX,
        ensures
            match result {
                Ok(batch) => {
                    &&& indices@.len() > 0
                    &&& is_gathered(
                        batch.cls@,
                        cls@,
                        self.dtype,
                        indices@,
                        self.cls_stride(),
                        self.records as int,
                    )
                    &&& batch.patch is Some <==> patch is Some && self.patch_tokens is Some
                    &&& batch.patch matches Some(values) ==> is_gathered(
                        values@,
                        patch->0@,
                        self.dtype,
                        indices@,
                        self.patch_stride(),
                        self.records as int,
                    )
                },
                Err(FeatureStoreError::EmptyBatch) => indices@.len() == 0,
                Err(FeatureStoreError::RecordOutOfRange { index }) => is_first_beyond(
                    indices@,
                    self.records as int,
                    index,
                ),
                Err(_) => false,
            },
    {
        if indices.len() == 0 {
            return Err(FeatureStoreError::EmptyBatch);
        }
        if let Some(index) = first_beyond(indices, self.records) {
            return Err(FeatureStoreError::RecordOutOfRange { index });
        }
        let cls_data = gather_records(cls, self.dtype, indices, self.feature_dim, self.records);
        let patch_data = match (patch, self.patch_tokens) {
            (Some(bytes), Some(tokens)) => {
                let stride: usize = self.feature_dim * tokens;
                Some(gather_records(bytes, self.dtype, indices, stride, self.records))
            },
            _ => None,
        };
        Ok(TeacherBatchData { cls: cls_data, patch: patch_data })
    }
}

/// `n / d`, as an index.
fn quotient(n: u64, d: u64) -> (q: usize)
    requires
        d >= 1,
        n <= usize::MAX,
    ensures
        q == n as int / d as int,
{
    assert(n as int / d as int <= n) by (nonlinear_arith)
        requires
            d >= 1,
            n >= 0,
    ;
    (n / d) as usize
}

/// Teacher features of one batch, as binary32 patterns.
#[derive(Debug)]
pub struct TeacherBatchData {
    pub cls: Vec<u32>,
    pub patch: Option<Vec<u32>>,
}

/// Whether `out` holds, slot by slot, the records at `indices`: scalar `k` of slot `s` is scalar `k`
/// of record `indices[s]`.
pub open spec fn is_gathered(
    out: Seq<u32>,
    bytes: Seq<u8>,
    dtype: DinoFeatureDType,
    indices: Seq<usize>,
    stride: int,
    records: int,
) -> bool {
    &&& out.len() == indices.len() * stride
    &&& forall|s: int| 0 <= s < indices.len() ==> (#[trigger] indices[s]) < records
    &&& forall|s: int, k: int|
        0 <= s < indices.len() && 0 <= k < stride ==> #[trigger] is_scalar(
            bytes,
            dtype,
            indices[s] * stride + k,
            out[s * stride + k],
        )
}

/// Whether `index` is the first of `indices` that lies beyond the records.
pub open spec fn is_first_beyond(indices: Seq<usize>, records: int, index: usize) -> bool {
    exists|s: int|
        0 <= s < indices.len() && #[trigger] indices[s] == index && index >= records && forall|
            j: int,
        | 0 <= j < s ==> (#[trigger] indices[j]) < records
}

fn first_beyond(indices: &[usize], records: usize) -> (r: Option<usize>)
    ensures
        match r {
            Some(index) => is_first_beyond(indices@, records as int, index),
            None => forall|s: int| 0 <= s < indices@.len() ==> (#[trigger] indices@[s]) < records,
        },
{
    let mut s: usize = 0;
    while s < indices.len()
        invariant
            s <= indices@.len(),
            forall|j: int| 0 <= j < s ==> (#[trigger] indices@[j]) < records,
        decreases indices@.len() - s,
    {
        if indices[s] >= records {
            assert(indices@[s as int] == indices@[s as int]);
            return Some(indices[s]);
        }
        s += 1;
    }
    None
}

proof fn lemma_scalar_position(index: int, k: int, stride: int, records: int, width: int, len: int)
    requires
        0 <= index < records,
        0 <= k < stride,
        width == 4 || width == 2,
        stride * width * records == len,
    ensures
        0 <= index * stride,
        0 <= index * stride + k,
        (index * stride + k + 1) * width <= len,
        index * stride + k + 1 <= len,
{
    assert(0 <= index * stride) by (nonlinear_arith)
        requires
            index >= 0,
            stride >= 0,
    ;
    assert(index * stride + k + 1 <= records * stride) by (nonlinear_arith)
        requires
            index + 1 <= records,
            k + 1 <= stride,
            stride >= 0,
    ;
    assert((records * stride) * width == stride * width * records) by (nonlinear_arith);
    assert((index * stride + k + 1) * width <= (records * stride) * width) by (nonlinear_arith)
        requires
            index * stride + k + 1 <= records * stride,
            width >= 0,
    ;
    assert(index * stride + k + 1 <= (index * stride + k + 1) * width) by (nonlinear_arith)
        requires
            index * stride + k + 1 >= 0,
            width >= 1,
    ;
}

/// Reads the records at `indices` from a file of `records` records of `stride` scalars.
fn gather_records(
    bytes: &[u8],
    dtype: DinoFeatureDType,
    indices: &[usize],
    stride: usize,
    records: usize,
) -> (out: Vec<u32>)
    requires
        stride * dtype.width() * records == bytes@.len(),
        indices@.len() * stride <= usize::MAX,
        forall|s: int| 0 <= s < indices@.len() ==> (#[trigger] indices@[s]) < records,
    ensures
        is_gathered(out@, bytes@, dtype, indices@, stride as int, records as int),
{
    let total: usize = bytes.len();
    let mut out: Vec<u32> = Vec::new();
    let mut s: usize = 0;
    assert(0 * stride == 0) by (nonlinear_arith);
    while s < indices.len()
        invariant
            s <= indices@.len(),
            stride * dtype.width() * records == bytes@.len(),
            total == bytes@.len(),
            indices@.len() * stride <= usize::MAX,
            forall|j: int| 0 <= j < indices@.len() ==> (#[trigger] indices@[j]) < records,
            out@.len() == s * stride,
            forall|j: int, k: int|
                0 <= j < s && 0 <= k < stride ==> #[trigger] is_scalar(
                    bytes@,
                    dtype,
                    indices@[j] * stride + k,
                    out@[j * stride + k],
                ),
        decreases indices@.len() - s,
    {
        let index: usize = indices[s];
        let mut k: usize = 0;
        while k < stride
            invariant
                k <= stride,
                s < indices@.len(),
                index == indices@[s as int],
                index < records,
                stride * dtype.width() * records == bytes@.len(),
                total == bytes@.len(),
                out@.len() == s * stride + k,
                forall|j: int, i: int|
                    0 <= j < s && 0 <= i < stride ==> #[trigger] is_scalar(
                        bytes@,
                        dtype,
                        indices@[j] * stride + i,
                        out@[j * stride + i],
                    ),
                forall|i: int|
                    0 <= i < k ==> is_scalar(
                        bytes@,
                        dtype,
                        index * stride + i,
                        #[trigger] out@[s * stride + i],
                    ),
            decreases stride - k,
        {
            proof {
                lemma_scalar_position(
                    index as int,
                    k as int,
                    stride as int,
                    records as int,
                    dtype.width(),
                    bytes@.len() as int,
                );
            }
            let ghost before = out@;
            let value: u32 = decode_scalar(bytes, dtype, index * stride + k);
            out.push(value);
            assert forall|j: int, i: int| 0 <= j < s && 0 <= i < stride implies #[trigger] is_scalar(
                bytes@,
                dtype,
                indices@[j] * stride + i,
                out@[j * stride + i],
            ) by {
                assert(0 <= j * stride + i < s * stride) by (nonlinear_arith)
                    requires
                        0 <= j < s,
                        0 <= i < stride,
                ;
                assert(is_scalar(
                    bytes@,
                    dtype,
                    indices@[j] * stride + i,
                    before[j * stride + i],
                ));
            }
            assert forall|i: int| 0 <= i < k + 1 implies is_scalar(
                bytes@,
                dtype,
                index * stride + i,
                #[trigger] out@[s * stride + i],
            ) by {
                if i < k {
                    assert(0 <= s * stride) by (nonlinear_arith);
                    assert(is_scalar(bytes@, dtype, index * stride + i, before[s * stride + i]));
                }
            }
            k += 1;
        }
        s += 1;
        assert(s * stride == (s - 1) * stride + stride) by (nonlinear_arith);
        assert forall|j: int, i: int| 0 <= j < s && 0 <= i < stride implies #[trigger] is_scalar(
            bytes@,
            dtype,
            indices@[j] * stride + i,
            out@[j * stride + i],
        ) by {
            if j == s - 1 {
                assert(out@[(s - 1) * stride + i] == out@[j * stride + i]);
            }
        }
    }
    out
}

/// The shape of a store of image-shaped tensors.
#[derive(Clone, Copy, Debug, PartialEq, Eq, Structural)]
pub struct ImageTensorStore {
    pub dtype: DinoFeatureDType,
    pub channels: usize,
    pub height: usize,
    pub width: usize,
    pub records: usize,
}

/// The first thing that is wrong with the file of a tensor store.
pub open spec fn tensor_store_fault(
    dtype: DinoFeatureDType,
    len: int,
    channels: int,
    height: int,
    width: int,
    expected_records: Option<usize>,
) -> Option<FeatureStoreError> {
    let stride = channels * height * width * dtype.width();
    if channels == 0 || height == 0 || width == 0 {
        Some(FeatureStoreError::ZeroDimension)
    } else if len % stride != 0 {
        Some(FeatureStoreError::TensorSize { bytes: len as u64, stride: stride as u64 })
    } else if expected_records is Some && expected_records->0 > len / stride {
        Some(
            FeatureStoreError::TooFewRecords {
                expected: expected_records->0,
                available: (len / stride) as usize,
            },
        )
    } else {
        None
    }
}

impl ImageTensorStore {
    /// How many scalars a record has.
    pub open spec fn stride(self) -> int {
        self.channels * self.height * self.width
    }

    /// A store over a file of the given length in bytes.
    pub fn new_with_options(
        dtype: DinoFeatureDType,
        len: u64,
        channels: usize,
        height: usize,
        width: usize,
        expected_records: Option<usize>,
    ) -> (result: Result<Self, FeatureStoreError>)
        requires
            channels * height * width * dtype.width() <= u64::MAX,
            len <= usize::MAX,
        ensures
            result is Err ==> tensor_store_fault(
                dtype,
                len as int,
                channels as int,
                height as int,
                width as int,
                expected_records,
            ) == Some(result->Err_0),
            result is Ok ==> {
                &&& tensor_store_fault(
                    dtype,
                    len as int,
                    channels as int,
                    height as int,
                    width as int,
                    expected_records,
                ) is None
                &&& result->Ok_0 == (ImageTensorStore {
                    dtype,
                    channels,
                    height,
                    width,
                    records: (len as int / (channels * height * width * dtype.width())) as usize,
                })
            },
    {
        if channels == 0 || height == 0 || width == 0 {
            return Err(FeatureStoreError::ZeroDimension);
        }
        let bytes: u64 = dtype.bytes_per_scalar();
        proof {
            let (c, h, w, b) = (channels as int, height as int, width as int, bytes as int);
            assert(1 <= c * h && c * h <= c * h * w && c * h * w <= c * h * w * b)
                by (nonlinear_arith)
                requires
                    c >= 1,
                    h >= 1,
                    w >= 1,
                    b >= 1,
            ;
        }
        let stride: u64 = channels as u64 * height as u64 * width as u64 * bytes;
        if len % stride != 0 {
            return Err(FeatureStoreError::TensorSize { bytes: len, stride });
        }
        let records: usize = quotient(len, stride);
        if let Some(expected) = expected_records {
            if expected > records {
                return Err(FeatureStoreError::TooFewRecords { expected, available: records });
            }
        }
        Ok(Self { dtype, channels, height, width, records })
    }

    /// How many planes a record has.
    pub fn channels(&self) -> (n: usize)
        ensures
            n == self.channels,
    {
        self.channels
    }

    /// How many rows a plane has.
    pub fn height(&self) -> (n: usize)
        ensures
            n == self.height,
    {
        self.height
    }

    /// How many columns a plane has.
    pub fn width(&self) -> (n: usize)
        ensures
            n == self.width,
    {
        self.width
    }

    /// How many records the store holds.
    pub fn records(&self) -> (n: usize)
        ensures
            n == self.records,
    {
        self.records
    }

    /// The records at the given indices, in that order. `bytes` is the content of the store's file.
    pub fn load_batch_data(&self, bytes: &[u8], indices: &[usize]) -> (result: Result<
        Vec<u32>,
        FeatureStoreError,
    >)
        requires
            self.stride() * self.dtype.width() * self.records == bytes@.len(),
            self.stride() <= usize::MAX,
            indices@.len() * self.stride() <= usize::MAX,
        ensures
            match result {
                Ok(tensor) => indices@.len() > 0 && is_gathered(
                    tensor@,
                    bytes@,
                    self.dtype,
                    indices@,
                    self.stride(),
                    self.records as int,
                ),
                Err(FeatureStoreError::EmptyBatch) => indices@.len() == 0,
                Err(FeatureStoreError::RecordOutOfRange { index }) => is_first_beyond(
                    indices@,
                    self.records as int,
                    index,
                ),
                Err(_) => false,
            },
    {
        if indices.len() == 0 {
            return Err(FeatureStoreError::EmptyBatch);
        }
        if let Some(index) = first_beyond(indices, self.records) {
            return Err(FeatureStoreError::RecordOutOfRange { index });
        }
        let plane: usize = crate::numeric::sat_mul(self.channels, self.height);
        let stride: usize = crate::numeric::sat_mul(plane, self.width);
        proof {
            if self.channels * self.height > usize::MAX {
                if self.width == 0 {
                    assert(self.channels * self.height * self.width == 0) by (nonlinear_arith)
                        requires
                            self.width == 0,
                    ;
                    assert(plane * self.width == 0) by (nonlinear_arith)
                        requires
                            self.width == 0,
                    ;
                } else {
                    assert(self.channels * self.height * self.width >= self.channels * self.height)
                        by (nonlinear_arith)
                        requires
                            self.width >= 1,
                            self.channels * self.height >= 0,
                    ;
                }
            }
        }
        Ok(gather_records(bytes, self.dtype, indices, stride, self.records))
    }
}

/// The slots of a batch with their records, in the order in which the records stand in the file.
pub fn read_order(indices: &[usize]) -> (ordered: Vec<(usize, usize)>)
    ensures
        is_stable_order(ordered@, indices@),
{
    stable_order(indices)
}

/// The byte offset and the length of a record in its file.
pub open spec fn record_span_of(index: int, stride: int, dtype: DinoFeatureDType) -> (int, int) {
    (index * stride * dtype.width(), stride * dtype.width())
}

/// The byte offset and the length of a record in its file.
pub fn record_span(index: usize, stride: usize, dtype: DinoFeatureDType) -> (span: (u64, u64))
    requires
        (index + 1) * stride * dtype.width() <= u64::MAX,
    ensures
        (span.0 as int, span.1 as int) == record_span_of(index as int, stride as int, dtype),
{
    let width: u64 = dtype.bytes_per_scalar();
    proof {
        let (i, s, w) = (index as int, stride as int, width as int);
        assert((i + 1) * s * w == i * s * w + s * w && i * s <= i * s * w && s * w >= 0 && i * s
            >= 0 && i * s * w >= 0) by (nonlinear_arith)
            requires
                i >= 0,
                s >= 0,
                w >= 1,
        ;
    }
    (index as u64 * stride as u64 * width, stride as u64 * width)
}

/// The records of a file lie one after the other from its first byte, without gap or overlap, so that
/// `records` of them take the bytes that a store of that many expects.
pub proof fn law_record_spans_tile_the_file(
    index: int,
    records: int,
    stride: int,
    dtype: DinoFeatureDType,
)
    requires
        records >= 1,
    ensures
        record_span_of(0, stride, dtype).0 == 0,
        ({
            let (start, len) = record_span_of(index, stride, dtype);
            start + len == record_span_of(index + 1, stride, dtype).0
        }),
        ({
            let (start, len) = record_span_of(records - 1, stride, dtype);
            start + len == records * stride * dtype.width()
        }),
{
    let width = dtype.width() as int;
    assert(0 * stride * width == 0) by (nonlinear_arith);
    assert(index * stride * width + stride * width == (index + 1) * stride * width)
        by (nonlinear_arith);
    assert((records - 1) * stride * width + stride * width == records * stride * width)
        by (nonlinear_arith);
}

/// A single-precision scalar is made of its own four bytes, the least significant one first.
pub proof fn law_scalars_are_made_of_their_bytes(bytes: Seq<u8>, k: int, single: u32)
    requires
        is_scalar(bytes, DinoFeatureDType::F32, k, single),
    ensures
        single as int % 256 == bytes[4 * k],
        (single as int / 0x100) % 256 == bytes[4 * k + 1],
        (single as int / 0x1_0000) % 256 == bytes[4 * k + 2],
        single as int / 0x100_0000 == bytes[4 * k + 3],
{
    lemma_bytes_of(
        single as int,
        bytes[4 * k] as int,
        bytes[4 * k + 1] as int,
        bytes[4 * k + 2] as int,
        bytes[4 * k + 3] as int,
    );
}

proof fn lemma_bytes_of(n: int, a: int, b: int, c: int, d: int)
    requires
        0 <= a < 256,
        0 <= b < 256,
        0 <= c < 256,
        0 <= d < 256,
        n == a + b * 0x100 + c * 0x1_0000 + d * 0x100_0000,
    ensures
        n % 256 == a,
        (n / 0x100) % 256 == b,
        (n / 0x1_0000) % 256 == c,
        n / 0x100_0000 == d,
{
    assert(n / 0x100 == b + c * 0x100 + d * 0x1_0000);
    assert(n / 0x1_0000 == c + d * 0x100);
}

/// A half-precision scalar is made of its own two bytes, the least significant one first.
pub proof fn law_halves_are_made_of_their_bytes(bytes: Seq<u8>, k: int, single: u32, half: u16)
    requires
        is_scalar(bytes, DinoFeatureDType::F16, k, single),
        half as int % 256 == bytes[2 * k],
        half as int / 256 == bytes[2 * k + 1],
    ensures
        single == widened_half(half),
{
}

/// Reading a batch is reading its records one by one: each slot holds what the bytes of its record
/// alone stand for, in the order of the slots.
pub proof fn law_slots_hold_their_own_record(
    out: Seq<u32>,
    bytes: Seq<u8>,
    dtype: DinoFeatureDType,
    indices: Seq<usize>,
    stride: int,
    records: int,
    s: int,
)
    requires
        is_gathered(out, bytes, dtype, indices, stride, records),
        records * stride * dtype.width() == bytes.len(),
        stride >= 1,
        0 <= s < indices.len(),
    ensures
        ({
            let (start, len) = record_span_of(indices[s] as int, stride, dtype);
            &&& 0 <= start && start + len <= bytes.len()
            &&& s * stride + stride <= out.len()
            &&& is_block(
                out.subrange(s * stride, s * stride + stride),
                bytes.subrange(start, start + len),
                dtype,
                0,
                stride,
            )
        }),
{
    let i = indices[s] as int;
    let width = dtype.width();
    let n = indices.len() as int;
    let (start, len) = record_span_of(i, stride, dtype);
    assert(0 <= s * stride && s * stride + stride <= n * stride) by (nonlinear_arith)
        requires
            0 <= s < n,
            stride >= 1,
    ;
    assert(0 <= i * stride * width && i * stride * width + stride * width <= records * stride
        * width) by (nonlinear_arith)
        requires
            0 <= i < records,
            stride >= 1,
            width >= 2,
    ;
    let slot = out.subrange(s * stride, s * stride + stride);
    let record = bytes.subrange(start, start + len);
    assert forall|k: int| 0 <= k < stride implies is_scalar(record, dtype, k, #[trigger] slot[k]) by {
        assert(is_scalar(bytes, dtype, i * stride + k, out[s * stride + k]));
        assert(width * (i * stride + k) == start + width * k && width * k + width <= len)
            by (nonlinear_arith)
            requires
                start == i * stride * width,
                len == stride * width,
                0 <= k < stride,
                width >= 2,
        ;
        assert(slot[k] == out[s * stride + k]);
    }
}

/// The record that is refused is one that the store does not hold, and every record asked for before
/// it is held.
pub proof fn law_the_first_missing_record_is_told(
    indices: Seq<usize>,
    records: int,
    a: usize,
    b: usize,
)
    requires
        is_first_beyond(indices, records, a),
    ensures
        a >= records,
        indices.contains(a),
        is_first_beyond(indices, records, b) ==> a == b,
{
    let s = choose|s: int|
        0 <= s < indices.len() && #[trigger] indices[s] == a && a >= records && forall|j: int|
            0 <= j < s ==> (#[trigger] indices[j]) < records;
    if is_first_beyond(indices, records, b) {
        let t = choose|t: int|
            0 <= t < indices.len() && #[trigger] indices[t] == b && b >= records && forall|j: int|
                0 <= j < t ==> (#[trigger] indices[j]) < records;
        assert(!(s < t) && !(t < s));
    }
}

/// A feature store is opened exactly where both files hold the same whole number of records, and that
/// is as many as expected: a record has its features in the class file, and as many for each token in
/// the patch file. There is a patch file exactly where there is a token count.
pub proof fn law_stores_hold_whole_records(
    dtype: DinoFeatureDType,
    cls_len: u64,
    patch_len: Option<u64>,
    feature_dim: usize,
    patch_tokens: Option<usize>,
    expected_records: Option<usize>,
)
    ensures
        feature_store_fault(
            dtype,
            cls_len as int,
            patch_len,
            feature_dim as int,
            patch_tokens,
            expected_records,
        ) is None <==> exists|n: int|
            {
                &&& feature_dim >= 1
                &&& cls_len == #[trigger] (n * (feature_dim * dtype.width()))
                &&& patch_len is Some <==> patch_tokens is Some
                &&& patch_tokens matches Some(tokens) ==> tokens >= 1 && patch_len->0 == n * (
                feature_dim * tokens * dtype.width())
                &&& expected_records matches Some(expected) ==> expected <= n
            },
{
    let width = dtype.width();
    let one = feature_dim * width;
    let all = feature_dim * patch_tokens->0 * width;
    let fault = feature_store_fault(
        dtype,
        cls_len as int,
        patch_len,
        feature_dim as int,
        patch_tokens,
        expected_records,
    );
    if feature_dim >= 1 {
        assert(one >= 1) by (nonlinear_arith)
            requires
                feature_dim >= 1,
                width >= 2,
                one == feature_dim * width,
        ;
        lemma_whole_records(cls_len as int, one);
        if patch_tokens is Some && patch_tokens->0 >= 1 {
            let tokens = patch_tokens->0 as int;
            assert(all >= 1) by (nonlinear_arith)
                requires
                    feature_dim >= 1,
                    tokens >= 1,
                    width >= 2,
                    all == feature_dim * tokens * width,
            ;
            if patch_len is Some {
                lemma_whole_records(patch_len->0 as int, all);
            }
        }
        if fault is None {
            let n = cls_len as int / one;
            assert(cls_len == n * (feature_dim * dtype.width()));
        }
        assert forall|n: int|
            {
                &&& cls_len == #[trigger] (n * (feature_dim * dtype.width()))
                &&& patch_len is Some <==> patch_tokens is Some
                &&& patch_tokens matches Some(tokens) ==> tokens >= 1 && patch_len->0 == n * (
                feature_dim * tokens * dtype.width())
                &&& expected_records matches Some(expected) ==> expected <= n
            } implies fault is None by {
            lemma_records_of(cls_len as int, one, n);
            if patch_tokens is Some {
                lemma_records_of(patch_len->0 as int, all, n);
            }
        }
    }
}

proof fn lemma_whole_records(len: int, size: int)
    requires
        len >= 0,
        size >= 1,
    ensures
        len % size == 0 ==> (len / size) * size == len,
{
    vstd::arithmetic::div_mod::lemma_fundamental_div_mod(len, size);
    vstd::arithmetic::mul::lemma_mul_is_commutative(size, len / size);
}

proof fn lemma_records_of(len: int, size: int, n: int)
    requires
        size >= 1,
        len == n * size,
    ensures
        len % size == 0,
        len / size == n,
{
    vstd::arithmetic::div_mod::lemma_fundamental_div_mod_converse(len, size, n, 0);
}

/// A tensor store is opened exactly where no side is empty and its file holds a whole number of
/// records, as many as expected or more.
pub proof fn law_tensor_stores_hold_whole_records(
    dtype: DinoFeatureDType,
    len: u64,
    channels: usize,
    height: usize,
    width: usize,
    expected_records: Option<usize>,
)
    ensures
        tensor_store_fault(
            dtype,
            len as int,
            channels as int,
            height as int,
            width as int,
            expected_records,
        ) is None <==> exists|n: int|
            {
                &&& channels >= 1 && height >= 1 && width >= 1
                &&& len == #[trigger] (n * (channels * height * width * dtype.width()))
                &&& expected_records matches Some(expected) ==> expected <= n
            },
{
    let size = channels * height * width * dtype.width();
    let fault = tensor_store_fault(
        dtype,
        len as int,
        channels as int,
        height as int,
        width as int,
        expected_records,
    );
    if channels >= 1 && height >= 1 && width >= 1 {
        assert(channels * height >= 1) by (nonlinear_arith)
            requires
                channels >= 1,
                height >= 1,
        ;
        assert(channels * height * width >= 1) by (nonlinear_arith)
            requires
                channels * height >= 1,
                width >= 1,
        ;
        assert(size >= 1) by (nonlinear_arith)
            requires
                channels * height * width >= 1,
                dtype.width() >= 2,
                size == channels * height * width * dtype.width(),
        ;
        lemma_whole_records(len as int, size);
        if fault is None {
            let n = len as int / size;
            assert(len == n * (channels * height * width * dtype.width()));
        }
        assert forall|n: int|
            {
                &&& len == #[trigger] (n * (channels * height * width * dtype.width()))
                &&& expected_records matches Some(expected) ==> expected <= n
            } implies fault is None by {
            lemma_records_of(len as int, size, n);
        }
    }
}

} // verus!
