use burn_dragon_vision::features::{
    decode_block, half_to_single, read_order, record_span, DinoFeatureStore, FeatureStoreError,
    ImageTensorStore,
};
use burn_dragon_vision::metadata::{
    feature_storage_dtype_from_meta, infer_feature_storage_dtype, split_name,
    storage_dtype_from_declarations, strip_suffix, DinoFeatureDType, MetadataError,
};
use half::f16;

#[test]
fn dino_feature_store_reads_f16_cls_features_from_metadata() {
    let meta = br#"{
  "storage_dtype": "f16",
  "bytes_per_scalar": 2
}"#
    .to_vec();
    let values = [1.0f32, -0.5, 0.25, 2.0];
    let mut cls = Vec::new();
    for value in values {
        cls.extend(f16::from_f32(value).to_bits().to_le_bytes());
    }

    let split = split_name("train_cls");
    let dtype = infer_feature_storage_dtype(&split, &Some(meta), &None).unwrap();
    let store = DinoFeatureStore::new_optional_patch_with_options(
        dtype,
        cls.len() as u64,
        None,
        2,
        None,
        Some(2),
    )
    .unwrap();
    let batch = store.load_batch_data(&cls, None, &[1, 0]).unwrap();
    assert!(batch.patch.is_none());
    assert_eq!(batch.cls.len(), 4);
    let expected = [0.25f32, 2.0, 1.0, -0.5];
    for (bits, want) in batch.cls.iter().zip(expected) {
        let got = f32::from_bits(*bits);
        assert!((got - want).abs() < 1e-3, "got {got}, want {want}");
    }
}

#[test]
fn every_half_precision_pattern_is_widened() {
    for bits in 0..=u16::MAX {
        assert_eq!(half_to_single(bits), f16::from_bits(bits).to_f32().to_bits(), "{bits:#06x}");
    }
}

#[test]
fn widening_keeps_the_order() {
    let order = |bits: u16| f32::from_bits(half_to_single(bits));
    assert!(order(0x0001) < order(0x0400));
    assert!(order(0x3c00) < order(0x7c00));
    assert!(order(0xbc00) < order(0x8001));
}

#[test]
fn blocks_are_little_endian() {
    let mut bytes = Vec::new();
    for value in [1.5f32, -2.25] {
        bytes.extend(value.to_le_bytes());
    }
    assert_eq!(
        decode_block(&bytes, DinoFeatureDType::F32),
        vec![1.5f32.to_bits(), (-2.25f32).to_bits()]
    );
    assert_eq!(
        decode_block(&[0x00, 0x3c, 0x00, 0xc0], DinoFeatureDType::F16),
        vec![1.0f32.to_bits(), (-2.0f32).to_bits()]
    );
}

#[test]
fn stores_check_their_files() {
    let open = |cls: u64, patch: Option<u64>, dim: usize, tokens: Option<usize>, expected: Option<usize>| {
        DinoFeatureStore::new_optional_patch_with_options(
            DinoFeatureDType::F32,
            cls,
            patch,
            dim,
            tokens,
            expected,
        )
    };
    let store = open(24, Some(72), 2, Some(3), Some(3)).unwrap();
    assert_eq!((store.records(), store.feature_dim(), store.patch_tokens()), (3, 2, Some(3)));
    assert_eq!(open(24, None, 0, None, None), Err(FeatureStoreError::ZeroFeatureDim));
    assert_eq!(open(24, Some(72), 2, Some(0), None), Err(FeatureStoreError::ZeroPatchTokens));
    assert_eq!(open(24, Some(72), 2, None, None), Err(FeatureStoreError::PatchSettingsMismatch));
    assert_eq!(
        open(25, None, 2, None, None),
        Err(FeatureStoreError::ClsSize { bytes: 25, stride: 8 })
    );
    assert_eq!(
        open(24, Some(70), 2, Some(3), None),
        Err(FeatureStoreError::PatchSize { bytes: 70, stride: 24 })
    );
    assert_eq!(
        open(24, Some(48), 2, Some(3), None),
        Err(FeatureStoreError::RecordMismatch { cls: 3, patch: 2 })
    );
    assert_eq!(
        open(24, None, 2, None, Some(4)),
        Err(FeatureStoreError::TooFewRecords { expected: 4, available: 3 })
    );
    assert!(DinoFeatureStore::new(DinoFeatureDType::F32, 24, 72, 2, 3, None).is_ok());
}

#[test]
fn batches_follow_the_asked_order() {
    let values: Vec<f32> = (0..6).map(|v| v as f32).collect();
    let patches: Vec<f32> = (0..12).map(|v| 100.0 + v as f32).collect();
    let bytes = |list: &[f32]| -> Vec<u8> { list.iter().flat_map(|v| v.to_le_bytes()).collect() };
    let (cls, patch) = (bytes(&values), bytes(&patches));
    let store = DinoFeatureStore::new(
        DinoFeatureDType::F32,
        cls.len() as u64,
        patch.len() as u64,
        2,
        2,
        Some(3),
    )
    .unwrap();
    let batch = store.load_batch_data(&cls, Some(&patch), &[2, 0, 2]).unwrap();
    let read = |list: &[u32]| -> Vec<f32> { list.iter().map(|b| f32::from_bits(*b)).collect() };
    assert_eq!(read(&batch.cls), vec![4.0, 5.0, 0.0, 1.0, 4.0, 5.0]);
    assert_eq!(
        read(&batch.patch.unwrap()),
        vec![108.0, 109.0, 110.0, 111.0, 100.0, 101.0, 102.0, 103.0, 108.0, 109.0, 110.0, 111.0]
    );
    assert_eq!(
        store.load_batch_data(&cls, Some(&patch), &[]).err(),
        Some(FeatureStoreError::EmptyBatch)
    );
    assert_eq!(
        store.load_batch_data(&cls, Some(&patch), &[0, 3]).err(),
        Some(FeatureStoreError::RecordOutOfRange { index: 3 })
    );
}

#[test]
fn tensor_stores_hold_whole_images() {
    let open = |len: u64, c: usize, expected: Option<usize>| {
        ImageTensorStore::new_with_options(DinoFeatureDType::F16, len, c, 1, 2, expected)
    };
    let store = open(8, 2, Some(1)).unwrap();
    assert_eq!(
        (store.channels(), store.height(), store.width(), store.records()),
        (2, 1, 2, 1)
    );
    assert_eq!(open(8, 0, None), Err(FeatureStoreError::ZeroDimension));
    assert_eq!(open(9, 2, None), Err(FeatureStoreError::TensorSize { bytes: 9, stride: 8 }));
    assert_eq!(
        open(8, 2, Some(2)),
        Err(FeatureStoreError::TooFewRecords { expected: 2, available: 1 })
    );
    let bytes = [0x00, 0x3c, 0x00, 0x40, 0x00, 0x00, 0x00, 0xbc];
    assert_eq!(
        store.load_batch_data(&bytes, &[0]).unwrap(),
        [1.0f32, 2.0, 0.0, -1.0].map(|v| v.to_bits()).to_vec()
    );
}

#[test]
fn records_are_read_front_to_back() {
    assert_eq!(read_order(&[5, 2, 5, 0]), vec![(3, 0), (1, 2), (0, 5), (2, 5)]);
    assert_eq!(record_span(3, 4, DinoFeatureDType::F16), (24, 8));
    assert_eq!(record_span(3, 4, DinoFeatureDType::F32), (48, 16));
}

#[test]
fn declared_types_are_recognised() {
    let named = |name: &str, width: Option<u64>| {
        storage_dtype_from_declarations(Some(name.to_string()), width)
    };
    assert!(matches!(named("f32", Some(2)), Ok(Some(DinoFeatureDType::F32))));
    assert!(matches!(named("f16", None), Ok(Some(DinoFeatureDType::F16))));
    assert!(matches!(
        named("int8", None),
        Err(MetadataError::UnsupportedDType(name)) if name == "int8"
    ));
    assert!(matches!(
        storage_dtype_from_declarations(None, Some(4)),
        Ok(Some(DinoFeatureDType::F32))
    ));
    assert!(matches!(
        storage_dtype_from_declarations(None, Some(2)),
        Ok(Some(DinoFeatureDType::F16))
    ));
    assert!(matches!(
        storage_dtype_from_declarations(None, Some(8)),
        Err(MetadataError::UnsupportedWidth(8))
    ));
    assert!(matches!(storage_dtype_from_declarations(None, None), Ok(None)));
    assert_eq!(DinoFeatureDType::F32.bytes_per_scalar(), 4);
    assert_eq!(DinoFeatureDType::F16.bytes_per_scalar(), 2);
}

#[test]
fn metadata_documents_are_read() {
    let read = |text: &str| feature_storage_dtype_from_meta(text.as_bytes());
    assert!(matches!(read("{\"bytes_per_scalar\": 2}"), Ok(Some(DinoFeatureDType::F16))));
    assert!(matches!(
        read("{\"storage_dtype\": \"f32\", \"bytes_per_scalar\": 2}"),
        Ok(Some(DinoFeatureDType::F32))
    ));
    assert!(matches!(read("{\"other\": 1}"), Ok(None)));
    assert!(matches!(read("{\"storage_dtype\": 3}"), Ok(None)));
    assert!(matches!(read("{\"bytes_per_scalar\": \"2\"}"), Ok(None)));
    assert!(matches!(read("[1, 2]"), Ok(None)));
    assert!(matches!(
        read("{\"storage_dtype\": \"\\u00e9\"}"),
        Err(MetadataError::UnsupportedDType(name)) if name == "\u{e9}"
    ));
}

#[test]
fn split_metadata_outranks_that_of_the_directory() {
    let f16_meta = Some(b"{\"storage_dtype\": \"f16\"}".to_vec());
    let f32_meta = Some(b"{\"storage_dtype\": \"f32\"}".to_vec());
    let silent = Some(b"{}".to_vec());
    let train = split_name("train_cls");
    let infer = |split: &Option<String>, own: &Option<Vec<u8>>, dir: &Option<Vec<u8>>| {
        infer_feature_storage_dtype(split, own, dir).unwrap()
    };
    assert_eq!(infer(&train, &f16_meta, &f32_meta), DinoFeatureDType::F16);
    assert_eq!(infer(&train, &None, &None), DinoFeatureDType::F32);
    assert_eq!(infer(&None, &None, &silent), DinoFeatureDType::F32);
    let both = Some(
        b"{\"splits\": {\"train\": {\"storage_dtype\": \"f16\"}}, \"storage_dtype\": \"f32\"}".to_vec(),
    );
    assert_eq!(infer(&train, &silent, &both), DinoFeatureDType::F16);
    assert_eq!(infer(&split_name("val_cls"), &None, &both), DinoFeatureDType::F32);
    assert_eq!(infer(&None, &f16_meta, &both), DinoFeatureDType::F32);
    assert!(matches!(
        infer_feature_storage_dtype(&train, &Some(b"{".to_vec()), &both),
        Err(MetadataError::Unreadable)
    ));
}

#[test]
fn split_names_lose_their_suffix() {
    assert_eq!(split_name("train_cls"), Some("train".to_string()));
    assert_eq!(split_name("val_latent"), Some("val".to_string()));
    assert_eq!(split_name("val_patch"), None);
    assert_eq!(split_name("features"), None);
    assert_eq!(strip_suffix("abcdef", "def"), Some("abc".to_string()));
    assert_eq!(strip_suffix("abc", "abcd"), None);
    assert_eq!(strip_suffix("abc", "abd"), None);
}
