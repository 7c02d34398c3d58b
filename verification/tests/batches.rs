use nameforge::batch::{
    ai_content_part, build_new_name, create_base_filename, format_duration, get_target_path,
    is_not_resource_fork, is_supported_image_extension, is_valid_image, is_valid_image_signature,
    plan_name, Batch, BatchAction, BatchEvent, BatchState, ContentSource,
};
use nameforge::exif::Timestamp;

fn named(cache_updated: bool) -> BatchEvent {
    BatchEvent::Named { named: true, cache_updated }
}

#[test]
fn supported_extensions() {
    for ext in ["jpg", "jpeg", "png", "tiff", "tif", "bmp", "webp", "heic", "heif", "raw", "cr2", "nef", "arw"] {
        assert!(is_supported_image_extension(ext), "{}", ext);
        assert!(is_supported_image_extension(&ext.to_uppercase()), "{}", ext);
    }
    assert!(is_supported_image_extension("JpEg"));
    for ext in ["gif", "txt", "", "jpg ", ".jpg", "jpe", "jpeg2"] {
        assert!(!is_supported_image_extension(ext), "{}", ext);
    }
}

#[test]
fn image_signatures() {
    assert!(is_valid_image_signature(&[0xFF, 0xD8, 0xFF, 0xE0]));
    assert!(is_valid_image_signature(&[0xFF, 0xD8, 0, 0]));
    assert!(is_valid_image_signature(&[0x89, 0x50, 0x4E, 0x47]));
    assert!(is_valid_image_signature(&[0x47, 0x49, 0x46, 0x38]));
    assert!(is_valid_image_signature(&[0x47, 0x49, 0x46, 0x39]));
    assert!(is_valid_image_signature(&[0x42, 0x4D, 1, 2]));
    assert!(is_valid_image_signature(&[0x52, 0x49, 0x46, 0x46]));
    assert!(!is_valid_image_signature(&[0x89, 0x50, 0x4E, 0x48]));
    assert!(!is_valid_image_signature(&[0x47, 0x49, 0x46, 0x37]));
    assert!(!is_valid_image_signature(&[0, 0, 0, 0]));
    assert!(!is_valid_image_signature(&[0xD8, 0xFF, 0, 0]));
    assert!(!is_valid_image_signature(&[0x49, 0x49, 0x2A, 0x00]));
}

#[test]
fn files_that_are_worked_on() {
    assert!(is_valid_image(Some("JPG"), Some([0xFF, 0xD8, 0xFF, 0xE0])));
    assert!(!is_valid_image(Some("txt"), Some([0xFF, 0xD8, 0xFF, 0xE0])));
    assert!(!is_valid_image(Some("jpg"), Some([1, 2, 3, 4])));
    assert!(!is_valid_image(Some("jpg"), None));
    assert!(!is_valid_image(None, Some([0xFF, 0xD8, 0xFF, 0xE0])));
    assert!(is_not_resource_fork("photo.jpg"));
    assert!(is_not_resource_fork(".hidden.jpg"));
    assert!(is_not_resource_fork("_.jpg"));
    assert!(is_not_resource_fork("."));
    assert!(is_not_resource_fork(""));
    assert!(!is_not_resource_fork("._photo.jpg"));
    assert!(!is_not_resource_fork("._"));
}

#[test]
fn base_names() {
    assert_eq!(create_base_filename(Some("2024-01-15".to_string()), "Paris".to_string()), "2024-01-15_Paris");
    assert_eq!(create_base_filename(None, "Paris".to_string()), "Paris");
    assert_eq!(create_base_filename(Some(String::new()), String::new()), "_");
}

#[test]
fn new_names() {
    let none: Vec<String> = Vec::new();
    assert_eq!(
        build_new_name(Some("2024-01-15".to_string()), "Paris".to_string(), "jpg", &none),
        Some("2024-01-15_Paris.jpg".to_string())
    );
    let taken = vec!["2024-01-15_Paris.jpg".to_string(), "2024-01-15_Paris_1.jpg".to_string()];
    assert_eq!(
        build_new_name(Some("2024-01-15".to_string()), "Paris".to_string(), "jpg", &taken),
        Some("2024-01-15_Paris_2.jpg".to_string())
    );
    assert_eq!(build_new_name(None, "NoGPS".to_string(), "png", &none), Some("NoGPS.png".to_string()));
}

#[test]
fn target_paths() {
    assert_eq!(get_target_path("/in/sub", "/in", "2024-01-15_Paris.jpg", true), "/in/2024-01-15/2024-01-15_Paris.jpg");
    assert_eq!(get_target_path("/in/sub", "/in", "2024-01-15_Paris.jpg", false), "/in/sub/2024-01-15_Paris.jpg");
    assert_eq!(get_target_path("", ".", "Paris.jpg", false), "Paris.jpg");
    assert_eq!(get_target_path("", ".", "Paris.jpg", true), "./unknown-date/Paris.jpg");
}

#[test]
fn spans_of_time() {
    assert_eq!(format_duration(0, 0), "0ms");
    assert_eq!(format_duration(0, 999), "999ms");
    assert_eq!(format_duration(1, 5), "1.005s");
    assert_eq!(format_duration(59, 999), "59.999s");
    assert_eq!(format_duration(60, 999), "1m 0s");
    assert_eq!(format_duration(125, 0), "2m 5s");
    assert_eq!(format_duration(3600, 1), "60m 0s");
}

#[test]
fn a_batch_without_files_ends_at_once() {
    let mut batch = Batch::new(0, None, false);
    assert_eq!(batch.state, BatchState::Idle);
    assert_eq!(batch.step(BatchEvent::Started), Some(BatchAction::LoadCache));
    assert_eq!(batch.step(BatchEvent::CacheLoaded), Some(BatchAction::Finish));
    assert_eq!(batch.state, BatchState::Done);
    assert_eq!(batch.step(BatchEvent::Started), None);
    assert_eq!(batch.state, BatchState::Done);
}

#[test]
fn files_are_renamed_in_their_order() {
    let mut batch = Batch::new(2, None, false);
    assert_eq!(batch.step(BatchEvent::Started), Some(BatchAction::LoadCache));
    assert_eq!(batch.step(BatchEvent::CacheLoaded), Some(BatchAction::ProcessFile { index: 0 }));
    assert_eq!(batch.step(named(false)), Some(BatchAction::Rename { index: 0 }));
    assert_eq!(batch.state, BatchState::Renaming);
    assert_eq!(batch.step(BatchEvent::Applied), Some(BatchAction::ProcessFile { index: 1 }));
    assert_eq!(batch.step(named(false)), Some(BatchAction::Rename { index: 1 }));
    assert_eq!(batch.step(BatchEvent::Applied), Some(BatchAction::Finish));
    assert_eq!(batch.processed, 2);
    assert!(!batch.cache_updated);
}

#[test]
fn a_changed_cache_is_stored_once_at_the_end() {
    let mut batch = Batch::new(3, None, false);
    batch.step(BatchEvent::Started);
    batch.step(BatchEvent::CacheLoaded);
    assert_eq!(batch.step(named(true)), Some(BatchAction::Rename { index: 0 }));
    assert_eq!(batch.step(BatchEvent::Applied), Some(BatchAction::ProcessFile { index: 1 }));
    assert_eq!(batch.step(named(false)), Some(BatchAction::Rename { index: 1 }));
    assert_eq!(batch.step(BatchEvent::Applied), Some(BatchAction::ProcessFile { index: 2 }));
    assert_eq!(batch.step(named(true)), Some(BatchAction::Rename { index: 2 }));
    assert_eq!(batch.step(BatchEvent::Applied), Some(BatchAction::PersistCache));
    assert_eq!(batch.state, BatchState::Persisting);
    assert_eq!(batch.step(BatchEvent::Persisted), Some(BatchAction::Finish));
    assert_eq!(batch.state, BatchState::Done);
}

#[test]
fn a_dry_run_shows_names_and_still_stores_the_cache() {
    let mut batch = Batch::new(1, None, true);
    batch.step(BatchEvent::Started);
    assert_eq!(batch.step(BatchEvent::CacheLoaded), Some(BatchAction::ProcessFile { index: 0 }));
    assert_eq!(batch.step(named(true)), Some(BatchAction::LogDryRun { index: 0 }));
    assert_eq!(batch.state, BatchState::DryRunLogging);
    assert_eq!(batch.step(BatchEvent::Applied), Some(BatchAction::PersistCache));
    assert_eq!(batch.step(BatchEvent::Persisted), Some(BatchAction::Finish));
}

#[test]
fn the_bound_stops_the_batch_early() {
    let mut batch = Batch::new(5, Some(2), false);
    batch.step(BatchEvent::Started);
    assert_eq!(batch.step(BatchEvent::CacheLoaded), Some(BatchAction::ProcessFile { index: 0 }));
    batch.step(named(false));
    assert_eq!(batch.step(BatchEvent::Applied), Some(BatchAction::ProcessFile { index: 1 }));
    batch.step(named(false));
    assert_eq!(batch.step(BatchEvent::Applied), Some(BatchAction::Finish));
    assert_eq!(batch.processed, 2);
    let mut none = Batch::new(5, Some(0), false);
    none.step(BatchEvent::Started);
    assert_eq!(none.step(BatchEvent::CacheLoaded), Some(BatchAction::Finish));
}

#[test]
fn a_file_without_name_is_passed_over() {
    let mut batch = Batch::new(2, None, false);
    batch.step(BatchEvent::Started);
    batch.step(BatchEvent::CacheLoaded);
    let unnamed = BatchEvent::Named { named: false, cache_updated: true };
    assert_eq!(batch.step(unnamed), Some(BatchAction::ProcessFile { index: 1 }));
    assert_eq!(batch.processed, 1);
    assert_eq!(batch.step(BatchEvent::Named { named: false, cache_updated: false }), Some(BatchAction::PersistCache));
}

#[test]
fn events_out_of_turn_change_nothing() {
    let mut batch = Batch::new(1, None, false);
    assert_eq!(batch.step(BatchEvent::CacheLoaded), None);
    assert_eq!(batch.step(BatchEvent::Applied), None);
    assert_eq!(batch.step(BatchEvent::Persisted), None);
    assert_eq!(batch, Batch::new(1, None, false));
    batch.step(BatchEvent::Started);
    assert_eq!(batch.step(BatchEvent::Started), None);
    assert_eq!(batch.step(named(true)), None);
    assert_eq!(batch.state, BatchState::Loaded);
    batch.step(BatchEvent::CacheLoaded);
    assert_eq!(batch.step(BatchEvent::Applied), None);
    assert_eq!(batch.state, BatchState::ProcessingFile);
}

#[test]
fn what_a_name_is_made_of() {
    assert_eq!(plan_name(true, false), (true, ContentSource::Model));
    assert_eq!(plan_name(true, true), (false, ContentSource::Model));
    assert_eq!(plan_name(false, false), (true, ContentSource::Place));
    assert_eq!(plan_name(false, true), (false, ContentSource::Place));
}

#[test]
fn content_from_the_model_never_changes_the_cache() {
    let now = Timestamp { year: 2024, month: 2, day: 3, hour: 4, minute: 5, second: 6, nanosecond: 0 };
    assert_eq!(ai_content_part(Some("cat".to_string()), None, &now), ("cat".to_string(), false));
    assert_eq!(
        ai_content_part(None, Some("2023-01-01_00-00-00".to_string()), &now),
        ("2023-01-01_00-00-00".to_string(), false)
    );
    assert_eq!(ai_content_part(None, None, &now), ("2024-02-03_04-05-06".to_string(), false));
    assert!(!nameforge::ai::FALLBACK_DATE_ONLY);
}

#[test]
fn a_name_is_always_found_in_a_small_directory() {
    let mut dir: Vec<String> = (0..200).map(|k| if k == 0 { "x.jpg".to_string() } else { format!("x_{}.jpg", k) }).collect();
    dir.push("y.jpg".to_string());
    assert_eq!(build_new_name(None, "x".to_string(), "jpg", &dir), Some("x_200.jpg".to_string()));
}
