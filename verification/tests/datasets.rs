use burn_dragon_vision::cifar::{
    cifar_subdir, read_records, record_files, record_layout, CifarDataLoader, CifarDataset,
    CifarError, CifarSplit, CifarType, RecordLayout,
};
use burn_dragon_vision::config::{ImageNetSplit, VisionDatasetSource, VisionTeacherTargetKind};
use burn_dragon_vision::dataset::{
    cifar_archive_name, cifar_folder_name, cifar_layout, cifar_required_files,
    cifar_root_has_records, cifar_url, clear_target, imagenette_archive_name,
    imagenette_folder_name, imagenette_layout, imagenette_url, is_image_file,
    maybe_download_vision_dataset, start_imagenette, vision_split_has_images, ArchiveLayout,
    DownloadError, DownloadStep, ImagenetteStart, ImagenetteVariant, ListedEntry, ListedFile,
    VisionDatasetDownloadConfig,
};
use burn_dragon_vision::features::{DinoFeatureStore, ImageTensorStore};
use burn_dragon_vision::frames::FrameBatch;
use burn_dragon_vision::image_cache::{ImageCache, ORDER_GC_MULTIPLIER};
use burn_dragon_vision::imagenet::{
    assemble_batch, claim_batch, prefetch_plan, prefetch_threads, ImageNetDataLoader,
    ImageNetDataset, ImageNetDatasetConfig, ImageNetError, ImageNetTeacherTargetBatchData,
    PrefetchPlan, ProcessedImage, ViewCrops,
};
use burn_dragon_vision::loader::{steps_per_epoch, LoaderSchedule};
use burn_dragon_vision::metadata::DinoFeatureDType;
use burn_dragon_vision::samples::{
    class_count, collect_samples, limit_samples_balanced, limit_samples_shuffled, take_in_turn,
    ImageSample,
};
use burn_dragon_vision::scalar::Single;
use rand::rngs::StdRng;
use rand::SeedableRng;

fn single(value: f32) -> Single {
    Single { bits: value.to_bits() }
}

fn sample(label: usize, teacher_index: usize) -> ImageSample {
    ImageSample { path: format!("{label}_{teacher_index}.png"), label, teacher_index }
}

#[test]
fn image_cache_prunes_order_growth() {
    let mut cache: ImageCache<u8> = ImageCache::new(2);
    let (path_a, path_b) = (1u64, 2u64);
    cache.insert(path_a, 0);
    cache.insert(path_b, 0);

    for _ in 0..128 {
        let _ = cache.get(path_a);
    }

    let order_len = cache.order_len();
    let max_len = cache.capacity() * ORDER_GC_MULTIPLIER;
    assert!(order_len <= max_len, "order len {order_len} exceeds {max_len}");

    let path_c = 3u64;
    cache.insert(path_c, 0);
    let entries = cache.len();
    assert!(entries <= cache.capacity());
}

#[test]
fn the_least_recently_used_image_leaves() {
    let mut cache: ImageCache<&str> = ImageCache::new(2);
    cache.insert(1, "a");
    cache.insert(2, "b");
    assert_eq!(cache.get(1), Some(&"a"));
    cache.insert(3, "c");
    assert_eq!(cache.peek(2), None);
    assert_eq!(cache.peek(1), Some(&"a"));
    assert!(cache.touch(1));
    assert!(!cache.touch(2));
    cache.insert(4, "d");
    assert_eq!(cache.peek(3), None);
    assert_eq!((cache.peek(1), cache.peek(4)), (Some(&"a"), Some(&"d")));
    cache.insert(4, "e");
    assert_eq!(cache.get(4), Some(&"e"));
    assert_eq!(cache.len(), 2);
}

#[test]
fn a_cache_has_room_for_one_image() {
    let mut cache: ImageCache<u8> = ImageCache::new(0);
    cache.insert(1, 7);
    assert_eq!(cache.get(1), Some(&7));
    cache.insert(2, 8);
    assert_eq!((cache.peek(1), cache.peek(2)), (None, Some(&8)));
    assert_eq!((cache.len(), cache.capacity()), (1, 1));
}

#[test]
fn balanced_limit_is_seeded_and_class_balanced() {
    let samples = vec![
        sample(0, 0),
        sample(0, 1),
        sample(0, 2),
        sample(1, 3),
        sample(1, 4),
        sample(1, 5),
    ];

    let limited_a = limit_samples_shuffled(&samples, 4, 7);
    let limited_b = limit_samples_shuffled(&samples, 4, 7);
    let limited_c = limit_samples_shuffled(&samples, 4, 11);

    assert_eq!(limited_a.len(), 4);
    assert_eq!(limited_a.iter().filter(|sample| sample.label == 0).count(), 2);
    assert_eq!(limited_a.iter().filter(|sample| sample.label == 1).count(), 2);
    assert_eq!(
        limited_a.iter().map(|sample| sample.teacher_index).collect::<Vec<_>>(),
        limited_b.iter().map(|sample| sample.teacher_index).collect::<Vec<_>>()
    );
    assert_ne!(
        limited_a.iter().map(|sample| sample.teacher_index).collect::<Vec<_>>(),
        limited_c.iter().map(|sample| sample.teacher_index).collect::<Vec<_>>()
    );
}

#[test]
fn a_seeded_shuffle_reorders_classes() {
    let samples: Vec<ImageSample> = (0..64).map(|i| sample(0, i)).collect();
    let limited = limit_samples_shuffled(&samples, 32, 3);
    let records: Vec<usize> = limited.iter().map(|s| s.teacher_index).collect();
    assert_ne!(records, (0..32).collect::<Vec<_>>());
    let mut sorted = records.clone();
    sorted.sort();
    sorted.dedup();
    assert_eq!(sorted.len(), 32);
}

#[test]
fn turns_are_taken_class_by_class() {
    let samples = vec![sample(2, 0), sample(0, 1), sample(2, 2), sample(0, 3), sample(1, 4)];
    assert_eq!(class_count(&samples), 3);
    let limited = limit_samples_balanced(&samples, 4);
    let records: Vec<usize> = limited.iter().map(|s| s.teacher_index).collect();
    assert_eq!(records, vec![1, 4, 0, 3]);
    let all = limit_samples_balanced(&samples, 9);
    assert_eq!(all.len(), 5);
    assert_eq!(
        take_in_turn(&vec![vec![10, 11, 12], vec![], vec![20]], 3),
        vec![10, 20, 11]
    );
}

#[test]
fn samples_are_numbered_in_order() {
    let classes = vec![
        vec!["a/1.png".to_string(), "a/2.png".to_string()],
        vec![],
        vec!["c/1.png".to_string()],
    ];
    let (samples, num_classes) = collect_samples(&classes).unwrap();
    assert_eq!(num_classes, 3);
    let listed: Vec<(String, usize, usize)> =
        samples.iter().map(|s| (s.path.clone(), s.label, s.teacher_index)).collect();
    assert_eq!(
        listed,
        vec![
            ("a/1.png".to_string(), 0, 0),
            ("a/2.png".to_string(), 0, 1),
            ("c/1.png".to_string(), 2, 2),
        ]
    );
    assert!(collect_samples(&vec![]).is_err());
}

fn cifar10_file(labels: &[u8]) -> Vec<u8> {
    let mut bytes = Vec::new();
    for (k, label) in labels.iter().enumerate() {
        bytes.push(*label);
        bytes.extend((0..3072usize).map(|i| ((i + k * 7) % 256) as u8));
    }
    bytes
}

#[test]
fn record_layouts_follow_the_datasets() {
    assert_eq!(
        record_layout(CifarType::Cifar10),
        RecordLayout { record_len: 3073, label_offset: 0 }
    );
    assert_eq!(
        record_layout(CifarType::Cifar100),
        RecordLayout { record_len: 3074, label_offset: 1 }
    );
    assert_eq!(
        record_files(CifarType::Cifar10, CifarSplit::Train),
        vec![
            "data_batch_1.bin",
            "data_batch_2.bin",
            "data_batch_3.bin",
            "data_batch_4.bin",
            "data_batch_5.bin"
        ]
    );
    assert_eq!(record_files(CifarType::Cifar10, CifarSplit::Test), vec!["test_batch.bin"]);
    assert_eq!(record_files(CifarType::Cifar100, CifarSplit::Train), vec!["train.bin"]);
    assert_eq!(record_files(CifarType::Cifar100, CifarSplit::Test), vec!["test.bin"]);
    assert_eq!(cifar_subdir(CifarType::Cifar10), "cifar-10-batches-bin");
    assert_eq!(cifar_subdir(CifarType::Cifar100), "cifar-100-binary");
}

#[test]
fn records_are_read_back() {
    let layout = record_layout(CifarType::Cifar100);
    let mut bytes = Vec::new();
    for k in 0..2u8 {
        bytes.push(90 + k);
        bytes.push(5 + k);
        bytes.extend(std::iter::repeat(k).take(3072));
    }
    let (images, labels) = read_records(&bytes, &layout, 0).unwrap();
    assert_eq!(labels, vec![5, 6]);
    assert_eq!(images.len(), 2 * 3072);
    assert_eq!((images[0], images[3072], images[6143]), (0, 1, 1));
}

#[test]
fn broken_record_files_are_refused() {
    let files = vec![cifar10_file(&[1]), vec![0; 3000]];
    assert_eq!(
        CifarDataset::new(CifarType::Cifar10, &files).err(),
        Some(CifarError::RecordSize { file: 1, bytes: 3000, record_len: 3073 })
    );
    assert_eq!(
        read_records(&[0; 3100], &RecordLayout { record_len: 3100, label_offset: 3100 }, 0),
        Err(CifarError::LabelOffset)
    );
}

#[test]
fn cifar_batches_hold_the_asked_records() {
    let files = vec![cifar10_file(&[3, 1]), cifar10_file(&[4])];
    let dataset = CifarDataset::new(CifarType::Cifar10, &files).unwrap();
    assert_eq!((dataset.len(), dataset.is_empty()), (3, false));
    assert_eq!(dataset.steps_per_epoch(2), 2);
    let batch = dataset.gather_batch(&vec![2, 1]);
    assert_eq!(batch.labels, vec![4, 1]);
    assert_eq!((batch.images.batch, batch.images.channels), (2, 3));
    assert_eq!((batch.images.data[0], batch.images.data[3072]), (0, 7));
    let cut = dataset.with_max_records(Some(1));
    assert_eq!(cut.len(), 1);
    assert_eq!(cut.gather_batch(&vec![0]).labels, vec![3]);
    let mut rng = StdRng::seed_from_u64(9);
    assert_eq!(cut.sample_batch(4, &mut rng).labels, vec![3, 3, 3, 3]);
}

#[test]
fn random_batches_reach_every_record() {
    let dataset = CifarDataset::new(CifarType::Cifar10, &vec![cifar10_file(&[0, 1, 2])]).unwrap();
    let mut rng = StdRng::seed_from_u64(2);
    let mut labels = dataset.sample_batch(60, &mut rng).labels;
    labels.sort();
    labels.dedup();
    assert_eq!(labels, vec![0, 1, 2]);
}

#[test]
fn cifar_loaders_stop_at_the_limit() {
    let dataset = CifarDataset::new(CifarType::Cifar10, &vec![cifar10_file(&[8, 9])]).unwrap();
    let loader = CifarDataLoader::new(dataset, 2, 4, Some(5)).slice(0, 3);
    assert_eq!(loader.schedule.steps_per_epoch, 3);
    let mut rng = StdRng::seed_from_u64(4);
    let mut consumed = 0;
    let mut counts = Vec::new();
    for _ in 0..3 {
        let mut epoch = loader.schedule.iter(consumed);
        let mut count = 0;
        while let Some(batch) = loader.next_batch(&mut epoch, &mut consumed, &mut rng) {
            assert_eq!(batch.labels.len(), 2);
            count += 1;
        }
        counts.push(count);
    }
    assert_eq!(counts, vec![3, 2, 0]);
}

#[test]
fn epochs_cover_the_records() {
    assert_eq!(steps_per_epoch(10, 4), 3);
    assert_eq!(steps_per_epoch(8, 4), 2);
    assert_eq!(steps_per_epoch(0, 4), 1);
    assert_eq!(steps_per_epoch(10, 0), 1);
}

#[test]
fn schedules_default_to_the_dataset() {
    let schedule = LoaderSchedule::new(10, 4, 0, Some(0));
    assert_eq!(
        schedule,
        LoaderSchedule { batch_size: 4, steps_per_epoch: 3, total_steps: None }
    );
    assert_eq!(schedule.num_items(), 12);
    assert_eq!(schedule.epoch_len(100), 3);
    let limited = LoaderSchedule::new(10, 4, 7, Some(9));
    assert_eq!((limited.epoch_len(0), limited.epoch_len(5), limited.epoch_len(9)), (7, 4, 0));
    assert_eq!(limited.slice(5, 99).steps_per_epoch, 2);
    assert_eq!(limited.slice(7, 3).steps_per_epoch, 1);
}

#[test]
fn epochs_hand_out_their_batches() {
    let schedule = LoaderSchedule::new(10, 4, 2, Some(3));
    let mut consumed = 0;
    let mut epoch = schedule.iter(consumed);
    assert!(epoch.next(&mut consumed));
    assert_eq!(epoch.progress(), (4, 8));
    assert!(epoch.next(&mut consumed));
    assert!(!epoch.next(&mut consumed));
    let mut second = schedule.iter(consumed);
    assert_eq!(second.steps_total, 1);
    let mut competing = schedule.iter(consumed);
    assert!(competing.next(&mut consumed));
    assert!(!second.next(&mut consumed));
    assert_eq!(consumed, 4);
}

fn dataset_config() -> ImageNetDatasetConfig {
    ImageNetDatasetConfig {
        split: ImageNetSplit::Train,
        max_records: None,
        deterministic: false,
        has_local_augmentations: false,
        views: 0,
        local_views: 0,
        min_view_overlap: single(-1.0),
        view_overlap_attempts: 0,
        cache_decoded: true,
        cache_capacity: 16,
        cache_preprocessed: true,
    }
}

#[test]
fn image_datasets_normalise_their_settings() {
    let samples = vec![sample(0, 0), sample(1, 1), sample(1, 2)];
    let dataset = ImageNetDataset::new(samples, 2, &dataset_config()).unwrap();
    assert_eq!((dataset.len(), dataset.is_empty(), dataset.num_classes()), (3, false, 2));
    assert_eq!(dataset.global_views, 1);
    assert_eq!(dataset.min_view_overlap, single(0.0));
    assert_eq!(dataset.view_overlap_attempts, 1);
    assert_eq!(dataset.cache_capacity, Some(16));
    assert!(!dataset.preprocessed);
    assert_eq!(dataset.steps_per_epoch(2), 2);

    let mut config = dataset_config();
    config.deterministic = true;
    config.max_records = Some(2);
    let samples = vec![sample(0, 0), sample(0, 1), sample(1, 2)];
    let limited = ImageNetDataset::new(samples, 2, &config).unwrap();
    assert!(limited.preprocessed);
    assert_eq!(limited.labels_at(&[1, 0]), vec![1, 0]);
    assert_eq!(limited.teacher_indices_at(&[0, 1]), vec![0, 2]);

    config.local_views = 1;
    assert_eq!(
        ImageNetDataset::new(vec![sample(0, 0)], 1, &config).err(),
        Some(ImageNetError::MissingLocalAugmentations)
    );
}

#[test]
fn drawn_indices_stay_in_the_dataset() {
    let dataset = ImageNetDataset::new(
        vec![sample(0, 0), sample(1, 1), sample(2, 2)],
        3,
        &dataset_config(),
    )
    .unwrap();
    let mut rng = StdRng::seed_from_u64(1);
    let mut indices = dataset.draw_indices(90, &mut rng).unwrap();
    assert_eq!(indices.len(), 90);
    indices.sort();
    indices.dedup();
    assert_eq!(indices, vec![0, 1, 2]);
    assert_eq!(dataset.draw_indices(0, &mut rng), Err(ImageNetError::ZeroBatchSize));
    let empty = ImageNetDataset::new(vec![], 0, &dataset_config()).unwrap();
    assert_eq!(empty.draw_indices(1, &mut rng), Err(ImageNetError::EmptyDataset));
}

fn processed(value: f32, views: usize, local: usize) -> ProcessedImage<f32> {
    ProcessedImage {
        global: (0..views).map(|v| vec![value + v as f32 * 0.1; 3]).collect(),
        crops: (0..views).map(|v| vec![v as f32; 4]).collect(),
        local: (0..local).map(|_| vec![-value; 3]).collect(),
    }
}

#[test]
fn single_view_batches_hold_images_and_labels() {
    let dataset =
        ImageNetDataset::new(vec![sample(4, 0), sample(6, 1)], 7, &dataset_config()).unwrap();
    assert!(matches!(dataset.view_crops(), ViewCrops::Single));
    let items = vec![processed(1.0, 1, 0), processed(2.0, 1, 0)];
    let data = assemble_batch(&dataset, &[1, 0], &items, 1, 0);
    assert_eq!(data.images, vec![1.0, 1.0, 1.0, 2.0, 2.0, 2.0]);
    assert_eq!(data.labels, vec![6, 4]);
    assert!(data.target_images.is_none() && data.view_images.is_none());
    assert_eq!(data.host_to_device_copy_bytes(), 6 * 4 + 2 * 8);
    let batch = data.into_batch();
    assert_eq!((batch.images.batch, batch.images.height, batch.images.width), (2, 1, 1));
    let repeated = batch.repeat_batch(2);
    assert_eq!(repeated.labels, vec![6, 4, 6, 4]);
    assert_eq!(repeated.images.batch, 4);
}

#[test]
fn teacher_features_get_the_shape_of_their_store() {
    let dataset = ImageNetDataset::new(vec![sample(4, 0)], 5, &dataset_config()).unwrap();
    let store = DinoFeatureStore::new(DinoFeatureDType::F32, 8, 24, 2, 3, Some(1)).unwrap();
    let latents =
        ImageTensorStore::new_with_options(DinoFeatureDType::F32, 16, 2, 1, 2, Some(1)).unwrap();
    let target = ImageNetTeacherTargetBatchData {
        name: "second".to_string(),
        weight: single(0.5),
        target_kind: VisionTeacherTargetKind::ClsOnly,
        patch: None,
        cls: vec![7.0; 3],
        feature_dim: 3,
        patch_tokens: None,
    };
    let data = assemble_batch(&dataset, &[0], &vec![processed(1.0, 1, 0)], 1, 0)
        .with_teacher(vec![0.5, 1.5], Some(vec![2.0; 6]), &store)
        .with_rac_teacher_latent(vec![3.0; 4], &latents)
        .with_teacher_targets(vec![target]);
    assert!(data.has_shapes());
    let batch = data.into_batch();
    let shape = |f: &FrameBatch<f32>| (f.batch, f.channels, f.height, f.width);
    assert_eq!(batch.teacher_cls.as_ref().map(shape), Some((1, 1, 1, 2)));
    assert_eq!(batch.teacher_cls.map(|f| f.data), Some(vec![0.5, 1.5]));
    assert_eq!(batch.teacher_patch.as_ref().map(shape), Some((1, 3, 1, 2)));
    assert_eq!(batch.rac_teacher_latent.as_ref().map(shape), Some((1, 2, 1, 2)));
    assert_eq!(batch.teacher_targets.len(), 1);
    assert_eq!(batch.teacher_targets[0].name, "second");
    assert_eq!(shape(&batch.teacher_targets[0].cls), (1, 1, 1, 3));
    assert!(batch.teacher_targets[0].patch.is_none());
}

#[test]
fn buffers_of_the_wrong_length_are_noticed() {
    let dataset = ImageNetDataset::new(vec![sample(4, 0)], 5, &dataset_config()).unwrap();
    let store = DinoFeatureStore::new(DinoFeatureDType::F32, 8, 24, 2, 3, Some(1)).unwrap();
    let mut item = processed(1.0, 1, 0);
    item.crops.clear();
    let items = vec![item];
    let whole = || assemble_batch(&dataset, &[0], &items, 1, 0);
    assert!(whole().has_shapes());
    assert!(!assemble_batch(&dataset, &[0], &items, 2, 0).has_shapes());
    assert!(whole().with_teacher(vec![0.0; 2], None, &store).has_shapes());
    assert!(!whole().with_teacher(vec![0.0; 3], None, &store).has_shapes());
    assert!(!whole().with_teacher(vec![0.0; 2], Some(vec![0.0; 5]), &store).has_shapes());
    let mut short = whole();
    short.labels.clear();
    assert!(!short.has_shapes());
}

#[test]
fn a_limited_run_hands_out_its_limit() {
    let schedule = LoaderSchedule::new(9, 2, 3, Some(7));
    let mut consumed = 0;
    let mut handed_out = Vec::new();
    for _ in 0..5 {
        let mut epoch = schedule.iter(consumed);
        let batches = (0..6).filter(|_| epoch.next(&mut consumed)).count();
        handed_out.push(batches);
    }
    assert_eq!(handed_out, vec![3, 3, 1, 0, 0]);
    assert_eq!(consumed, 7);
}

#[test]
fn several_views_are_kept_with_their_crops() {
    let mut config = dataset_config();
    config.views = 2;
    let dataset = ImageNetDataset::new(vec![sample(4, 0)], 5, &config).unwrap();
    let data = assemble_batch(&dataset, &[0], &vec![processed(1.0, 2, 0)], 1, 0);
    assert_eq!(data.images, vec![1.0; 3]);
    assert_eq!(data.target_images, Some(vec![1.1; 3]));
    assert_eq!(data.view_images.as_ref().map(|v| v.len()), Some(6));
    assert_eq!(data.view_crops, Some(vec![0.0, 0.0, 0.0, 0.0, 1.0, 1.0, 1.0, 1.0]));
    let batch = data.into_batch();
    assert_eq!(batch.view_images.as_ref().map(|v| v.views), Some(2));
}

#[test]
fn local_views_are_kept_apart() {
    let mut config = dataset_config();
    config.views = 2;
    config.local_views = 1;
    config.has_local_augmentations = true;
    let dataset = ImageNetDataset::new(vec![sample(4, 0)], 5, &config).unwrap();
    let data = assemble_batch(&dataset, &[0], &vec![processed(1.0, 2, 1)], 1, 1);
    assert!(data.view_images.is_none());
    assert_eq!(data.global_view_images.as_ref().map(|v| v.len()), Some(6));
    assert_eq!(data.local_view_images, Some(vec![-1.0; 3]));
}

#[test]
fn prefetching_fits_the_epoch() {
    assert_eq!(
        prefetch_plan(10, 4, 2, false),
        PrefetchPlan { batches: 4, workers: 2, to_device: false }
    );
    assert_eq!(
        prefetch_plan(10, 1, 0, true),
        PrefetchPlan { batches: 2, workers: 1, to_device: true }
    );
    assert_eq!(
        prefetch_plan(3, 1, 8, true),
        PrefetchPlan { batches: 3, workers: 8, to_device: true }
    );
    assert_eq!(
        prefetch_plan(10, 0, 4, true),
        PrefetchPlan { batches: 0, workers: 0, to_device: false }
    );
    assert_eq!(prefetch_threads(&prefetch_plan(10, 1, 3, true)), 4);
    let mut remaining = 1;
    assert!(claim_batch(&mut remaining));
    assert!(!claim_batch(&mut remaining));
    assert_eq!(remaining, 0);
}

#[test]
fn image_loaders_keep_their_prefetching() {
    let dataset =
        ImageNetDataset::new(vec![sample(0, 0), sample(0, 1)], 1, &dataset_config()).unwrap();
    let loader = ImageNetDataLoader::new(&dataset, 2, 0, None, 3, 1, false);
    assert_eq!(loader.schedule.steps_per_epoch, 1);
    assert_eq!(loader.prefetch.batches, 1);
    assert!(loader.prefetches(1));
    assert!(!loader.prefetches(0));
    let long = ImageNetDataLoader::new(&dataset, 2, 8, Some(20), 3, 1, false);
    let part = long.slice(2, 6);
    assert_eq!(part.schedule.steps_per_epoch, 4);
    assert_eq!(part.prefetch, long.prefetch);
}

#[test]
fn downloads_match_their_source() {
    let imagenette = VisionDatasetDownloadConfig::Imagenette {
        variant: ImagenetteVariant::Imagenette2_160,
    };
    let cifar = VisionDatasetDownloadConfig::Cifar;
    assert_eq!(
        maybe_download_vision_dataset(VisionDatasetSource::Imagenet, None, false),
        Ok(DownloadStep::Nothing)
    );
    assert_eq!(
        maybe_download_vision_dataset(VisionDatasetSource::Imagenet, Some(imagenette), false),
        Ok(DownloadStep::Imagenette(ImagenetteVariant::Imagenette2_160))
    );
    assert_eq!(
        maybe_download_vision_dataset(VisionDatasetSource::Imagenet, Some(cifar), false),
        Err(DownloadError::CifarForImageFolder)
    );
    assert_eq!(
        maybe_download_vision_dataset(VisionDatasetSource::Cifar10, Some(imagenette), false),
        Err(DownloadError::ImagenetteForCifar)
    );
    assert_eq!(
        maybe_download_vision_dataset(VisionDatasetSource::Cifar100, Some(cifar), false),
        Ok(DownloadStep::Cifar(CifarType::Cifar100))
    );
}

#[test]
fn image_files_are_known_by_extension() {
    for name in ["jpg", "JPEG", "png", "Jpg"] {
        assert!(is_image_file(&Some(name.to_string())), "{name}");
    }
    for name in ["txt", "jp", ""] {
        assert!(!is_image_file(&Some(name.to_string())), "{name}");
    }
    assert!(!is_image_file(&None));
    let file = |extension: &str| ListedFile {
        is_file: true,
        extension: Some(extension.to_string()),
    };
    let classes = vec![
        ListedEntry { is_dir: false, files: vec![file("png")] },
        ListedEntry { is_dir: true, files: vec![file("txt")] },
    ];
    assert!(!vision_split_has_images(&classes));
    let with_image = vec![ListedEntry { is_dir: true, files: vec![file("txt"), file("png")] }];
    assert!(vision_split_has_images(&with_image));
}

#[test]
fn archives_have_fixed_names() {
    assert_eq!(
        imagenette_url(ImagenetteVariant::Imagenette2_160),
        "https://s3.amazonaws.com/fast-ai-imageclas/imagenette2-160.tgz"
    );
    assert_eq!(imagenette_folder_name(ImagenetteVariant::Imagenette2_320), "imagenette2-320");
    assert_eq!(
        imagenette_archive_name(ImagenetteVariant::Imagenette2_320),
        "imagenette2-320.tgz"
    );
    assert_eq!(
        cifar_url(CifarType::Cifar10),
        "https://www.cs.toronto.edu/~kriz/cifar-10-binary.tar.gz"
    );
    assert_eq!(cifar_folder_name(CifarType::Cifar10), "cifar-10-batches-bin");
    assert_eq!(cifar_archive_name(CifarType::Cifar100), "cifar-100-binary.tar.gz");
    assert_eq!(cifar_required_files(CifarType::Cifar100), vec!["train.bin", "test.bin"]);
    assert!(cifar_root_has_records(true, &[true, true]));
    assert!(!cifar_root_has_records(true, &[true, false]));
    assert!(!cifar_root_has_records(false, &[true, true]));
}

#[test]
fn downloads_never_overwrite_data() {
    let (train, val) = ("train".to_string(), "val".to_string());
    assert_eq!(start_imagenette(&train, &val, true, true), Ok(ImagenetteStart::AlreadyThere));
    assert_eq!(start_imagenette(&train, &val, false, false), Ok(ImagenetteStart::Fetch));
    assert_eq!(
        start_imagenette(&train, &val, false, true),
        Err(DownloadError::RootOccupied)
    );
    assert_eq!(
        start_imagenette(&"a".to_string(), &val, false, false),
        Err(DownloadError::ImagenetteDirectoryNames)
    );
    assert_eq!(imagenette_layout(true, false), Ok(ArchiveLayout::Folder));
    assert_eq!(imagenette_layout(false, true), Ok(ArchiveLayout::Top));
    assert_eq!(imagenette_layout(false, false), Err(DownloadError::UnexpectedArchiveLayout));
    assert_eq!(cifar_layout(false), Err(DownloadError::UnexpectedArchiveLayout));
    assert_eq!(cifar_layout(true), Ok(()));
    assert_eq!(clear_target(false, false), Ok(false));
    assert_eq!(clear_target(true, false), Ok(true));
    assert_eq!(clear_target(true, true), Err(DownloadError::RootOccupied));
}
