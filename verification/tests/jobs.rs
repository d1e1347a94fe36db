use midden::config::{
    ActionRule, ContentDispositionMode, ContentPolicy, DeliverySettings, DiscoverySettings,
    ExpirySettings, FeatureSettings, JobSettings, LimitSettings, PolicySettings, ProcessingConfig,
    RateLimitBackend, RateLimits, RiskyMimeMode, RuntimeSettings, ScanningSettings,
    SecuritySettings, UploadSettings,
};
use midden::config::ScanDecision;
use midden::jobs::{
    cleanup_expired, cleanup_temp_files, decision_text, file_thumbnail, is_scratch_name,
    known_dimensions, last_verification, pause_seconds, plan_pass, process_file_metadata,
    processing_enabled, retry_scanners, run_pass, scanners_retry, scratch_cutoff, scratch_max_age,
    verify_storage, FileProcessing, JobSummary, PassPlan, ProcessingAction, ProcessingEvent,
    ProcessingPhase, ScratchEntry,
};
use midden::model::FileItem;

fn settings() -> RuntimeSettings {
    RuntimeSettings {
        features: FeatureSettings {
            preview_pages: false,
            accounts: true,
            local_login: true,
            api: true,
            public_browse: false,
            paste_editing: true,
            upload_by_url: true,
        },
        policy: PolicySettings {
            upload_file: ActionRule::Anonymous,
            create_paste: ActionRule::Anonymous,
            use_api: ActionRule::Anonymous,
            view_item: ActionRule::Anonymous,
        },
        delivery: DeliverySettings {
            public_file_base_url: None,
            isolated_file_origin: false,
            signed_internal_urls: false,
            internal_url_secret: None,
            internal_url_ttl_seconds: 600,
            public_cache_seconds: 3600,
        },
        security: SecuritySettings {
            content_policy: ContentPolicy {
                forced_attachment_mime_types: vec!["text/html".to_string()],
                risky_mime_mode: RiskyMimeMode::Attachment,
            },
            content_disposition: ContentDispositionMode::Inline,
            rate_limit_backend: RateLimitBackend::Memory,
            rate_limits: RateLimits::new(),
            session_cookie_name: "midden_session".to_string(),
        },
        limits: LimitSettings {
            max_upload_bytes: 1024,
            max_paste_bytes: 64,
            default_file_expiry: Some("7d".to_string()),
            default_paste_expiry: None,
            expiry: ExpirySettings {
                allow_never: true,
                anonymous_max_file_expiry: Some("30d".to_string()),
                user_max_file_expiry: None,
                anonymous_max_paste_expiry: Some("1d".to_string()),
                user_max_paste_expiry: Some("never".to_string()),
            },
        },
        discovery: DiscoverySettings { page_size: 20 },
        jobs: JobSettings {
            enabled: true,
            interval_seconds: 60,
            storage_verify_interval_seconds: 3600,
            scanner_retry_limit: 10,
            metadata_limit: 10,
        },
        scanning: ScanningSettings { enabled: false, adapters: Vec::new() },
        uploads: UploadSettings { temp_dir: None, temp_file_max_age_seconds: 3600 },
        processing: ProcessingConfig {
            metadata_extraction: true,
            thumbnails: true,
            thumbnail_max_dimension: 320,
            thumbnail_source_max_pixels: 12_000,
            thumbnail_source_max_alloc_bytes: 256 * 1024 * 1024,
        },
    }
}

fn file(visibility: &str) -> FileItem {
    FileItem {
        id: "1".to_string(),
        public_id: "abc".to_string(),
        blob_hash: "00ff".to_string(),
        size_bytes: 10,
        original_filename: Some("cat.png".to_string()),
        content_type: Some("image/png".to_string()),
        extension: Some("png".to_string()),
        visibility: visibility.to_string(),
        owner_user_id: Some("u1".to_string()),
        state: "active".to_string(),
        created_at: 10,
        metadata_json: None,
        thumbnail_hash: None,
        image_width: None,
        image_height: None,
    }
}

#[test]
fn stale_scratch_files_are_reclaimed_and_fresh_ones_left_alone() {
    let mut settings = settings();
    settings.uploads.temp_file_max_age_seconds = 3600;
    let second: i128 = 1_000_000_000;
    let now: i128 = 1_700_000_000 * second;
    let cutoff = scratch_cutoff(&settings, now);
    let entry = |name: &str, age: i128| ScratchEntry {
        name: Some(name.to_string()),
        is_file: true,
        modified: Some(now - age * second),
    };
    let entries = [
        entry("midden-upload-abandoned.part", 7200),
        entry("midden-scan-timed-out", 7200),
        entry("midden-upload-in-flight.part", 0),
        entry("important-unrelated-file", 7200),
    ];
    let removed: Vec<&ScratchEntry> =
        entries.iter().filter(|entry| cleanup_temp_files(entry, cutoff)).collect();
    let deleted = removed.len();

    assert_eq!(deleted, 2);
    let left = |name: &str| removed.iter().all(|entry| entry.name.as_deref() != Some(name));
    assert!(!left("midden-upload-abandoned.part"));
    assert!(!left("midden-scan-timed-out"));
    assert!(
        left("midden-upload-in-flight.part"),
        "a recently written scratch file may still belong to a live upload"
    );
    assert!(
        left("important-unrelated-file"),
        "only Midden's own scratch files may be removed"
    );
}

#[test]
fn only_known_files_are_reclaimed() {
    let file = ScratchEntry {
        name: Some("midden-scan-x".to_string()),
        is_file: true,
        modified: Some(5),
    };
    assert!(cleanup_temp_files(&file, 5));
    assert!(!cleanup_temp_files(&file, 4));
    assert!(!cleanup_temp_files(&ScratchEntry { is_file: false, ..file.clone() }, 5));
    assert!(!cleanup_temp_files(&ScratchEntry { modified: None, ..file.clone() }, 5));
    assert!(!cleanup_temp_files(&ScratchEntry { name: None, ..file }, 5));
    assert!(is_scratch_name("midden-upload-"));
    assert!(!is_scratch_name("midden-other"));
    let mut settings = settings();
    settings.uploads.temp_file_max_age_seconds = 5;
    assert_eq!(scratch_max_age(&settings), 60);
    assert_eq!(scratch_cutoff(&settings, 100_000_000_007), 40_000_000_007);
}

#[test]
fn passes_are_planned_by_the_settings() {
    let mut settings = settings();
    assert_eq!(plan_pass(&settings, 0, 3600), PassPlan::Run { verify_storage: true });
    assert_eq!(plan_pass(&settings, 1, 3600), PassPlan::Run { verify_storage: false });
    assert_eq!(pause_seconds(Some(&settings)), 60);
    settings.jobs.interval_seconds = 1;
    assert_eq!(pause_seconds(Some(&settings)), 30);
    assert_eq!(pause_seconds(None), 300);
    settings.jobs.enabled = false;
    assert_eq!(plan_pass(&settings, 0, 3600), PassPlan::Skip);
    let verify = PassPlan::Run { verify_storage: true };
    assert_eq!(last_verification(verify, 5, 9, true), 9);
    assert_eq!(last_verification(verify, 5, 9, false), 5);
    assert_eq!(last_verification(PassPlan::Run { verify_storage: false }, 5, 9, true), 5);
    assert_eq!(last_verification(PassPlan::Skip, 5, 9, true), 5);
}

#[test]
fn summaries_add_up() {
    let cleaned = cleanup_expired(1, 2, 3, 4);
    assert_eq!(
        cleaned,
        JobSummary {
            expired_files: 1,
            deleted_blobs: 2,
            expired_pastes: 3,
            expired_auth_rows: 4,
            ..JobSummary::default()
        }
    );
    let summary = run_pass(cleaned, 5, 6, 7, Some((8, 9)));
    assert_eq!(summary.expired_files, 1);
    assert_eq!(summary.deleted_temp_files, 5);
    assert_eq!(summary.scanner_retries, 6);
    assert_eq!(summary.metadata_updates, 7);
    assert_eq!((summary.missing_blobs, summary.orphaned_blobs), (8, 9));
    let summary = run_pass(cleaned, 0, 0, 0, None);
    assert_eq!((summary.missing_blobs, summary.orphaned_blobs), (0, 0));
}

#[test]
fn scans_settle_the_state_of_a_file() {
    let mut settings = settings();
    assert!(!scanners_retry(&settings));
    settings.scanning.enabled = true;
    assert!(!scanners_retry(&settings));
    settings.scanning.adapters.push("clamav".to_string());
    assert!(scanners_retry(&settings));
    assert_eq!(retry_scanners("quarantined", ScanDecision::Allow), Some("active"));
    assert_eq!(retry_scanners("active", ScanDecision::Allow), None);
    assert_eq!(retry_scanners("active", ScanDecision::Reject), Some("quarantined"));
    assert_eq!(retry_scanners("quarantined", ScanDecision::Quarantine), None);
    assert_eq!(decision_text(ScanDecision::Allow), "allow");
    assert_eq!(decision_text(ScanDecision::Quarantine), "quarantine");
    assert_eq!(decision_text(ScanDecision::Reject), "reject");
}

const METADATA: &str = "{\"content_type\":\"image/png\",\"image_height\":3,\"image_width\":4,\
     \"metadata_stripped\":false,\"size_bytes\":10}";

#[test]
fn missing_metadata_and_thumbnails_are_filled_in() {
    let settings = settings();
    let item = file("public");
    assert!(processing_enabled(&settings));
    let mut state = FileProcessing::new(&item);
    let mut next = |event: ProcessingEvent| {
        process_file_metadata(&settings, &item, &mut state, event).unwrap()
    };
    assert!(matches!(next(ProcessingEvent::Started), ProcessingAction::ReadBytes));
    assert!(matches!(
        next(ProcessingEvent::BytesRead { dimensions: Some((4, 3)) }),
        ProcessingAction::MakeThumbnail
    ));
    match next(ProcessingEvent::ThumbnailMade { hash: Some("beef".to_string()) }) {
        ProcessingAction::StoreThumbnail { hash } => assert_eq!(hash, "beef"),
        _ => panic!("the thumbnail is to be stored"),
    }
    match next(ProcessingEvent::ThumbnailStored) {
        ProcessingAction::AttachThumbnail { hash, metadata_json } => {
            assert_eq!(hash, "beef");
            assert_eq!(metadata_json.as_deref(), Some(METADATA));
        }
        _ => panic!("the thumbnail is to be recorded"),
    }
    assert!(matches!(
        next(ProcessingEvent::ThumbnailAttached { attached: true }),
        ProcessingAction::Finish { updated: true }
    ));
    assert_eq!(state.phase, ProcessingPhase::Finished);
    assert_eq!(state.thumbnail_hash.as_deref(), Some("beef"));
}

#[test]
fn metadata_alone_is_recorded_by_itself() {
    let mut settings = settings();
    let mut item = file("public");
    settings.processing.thumbnails = false;
    let mut state = FileProcessing::new(&item);
    let started = process_file_metadata(&settings, &item, &mut state, ProcessingEvent::Started);
    assert!(matches!(started, Ok(ProcessingAction::ReadBytes)));
    match process_file_metadata(
        &settings,
        &item,
        &mut state,
        ProcessingEvent::BytesRead { dimensions: Some((4, 3)) },
    ) {
        Ok(ProcessingAction::RecordMetadata { metadata_json }) => {
            assert_eq!(metadata_json.as_deref(), Some(METADATA));
        }
        _ => panic!("the metadata is to be recorded"),
    }
    let done =
        process_file_metadata(&settings, &item, &mut state, ProcessingEvent::MetadataRecorded);
    assert!(matches!(done, Ok(ProcessingAction::Finish { updated: true })));

    item.image_width = Some(8);
    assert_eq!(known_dimensions(&item, None), None);
    item.image_height = Some(6);
    assert_eq!(known_dimensions(&item, Some((4, 3))), Some((8, 6)));
    settings.processing.metadata_extraction = false;
    assert!(!processing_enabled(&settings));
    let mut state = FileProcessing::new(&item);
    let started = process_file_metadata(&settings, &item, &mut state, ProcessingEvent::Started);
    assert!(matches!(started, Ok(ProcessingAction::Finish { updated: false })));
}

#[test]
fn the_records_of_a_faster_process_win() {
    let settings = settings();
    let mut item = file("public");
    item.metadata_json = Some("{}".to_string());
    let mut state = FileProcessing::new(&item);
    let mut next = |event: ProcessingEvent| {
        process_file_metadata(&settings, &item, &mut state, event).unwrap()
    };
    assert!(matches!(next(ProcessingEvent::Started), ProcessingAction::ReadBytes));
    assert!(matches!(
        next(ProcessingEvent::BytesRead { dimensions: None }),
        ProcessingAction::MakeThumbnail
    ));
    next(ProcessingEvent::ThumbnailMade { hash: Some("beef".to_string()) });
    match next(ProcessingEvent::ThumbnailStored) {
        ProcessingAction::AttachThumbnail { metadata_json, .. } => {
            assert_eq!(metadata_json.as_deref(), Some("{}"));
        }
        _ => panic!("the thumbnail is to be recorded"),
    }
    assert!(matches!(
        next(ProcessingEvent::ThumbnailAttached { attached: false }),
        ProcessingAction::ReadRecords
    ));
    match next(ProcessingEvent::RecordsRead {
        thumbnail_hash: Some("cafe".to_string()),
        metadata_json: Some("{\"a\":1}".to_string()),
    }) {
        ProcessingAction::RecordMetadata { metadata_json } => {
            assert_eq!(metadata_json.as_deref(), Some("{\"a\":1}"));
        }
        _ => panic!("the records changed"),
    }
    assert_eq!(state.thumbnail_hash.as_deref(), Some("cafe"));
}

#[test]
fn an_image_without_a_thumbnail_is_left_as_it_is() {
    let settings = settings();
    let mut item = file("public");
    item.metadata_json = Some("{}".to_string());
    let mut state = FileProcessing::new(&item);
    let mut next = |event: ProcessingEvent| {
        process_file_metadata(&settings, &item, &mut state, event).unwrap()
    };
    next(ProcessingEvent::Started);
    next(ProcessingEvent::BytesRead { dimensions: None });
    assert!(matches!(
        next(ProcessingEvent::ThumbnailMade { hash: None }),
        ProcessingAction::Finish { updated: false }
    ));
}

#[test]
fn thumbnails_are_made_with_the_configured_limits() {
    let mut settings = settings();
    let mut out = std::io::Cursor::new(Vec::new());
    image::DynamicImage::ImageRgba8(image::RgbaImage::from_pixel(
        64,
        32,
        image::Rgba([1, 2, 3, 255]),
    ))
    .write_to(&mut out, image::ImageFormat::Png)
    .unwrap();
    let bytes = out.into_inner();
    settings.processing.thumbnail_max_dimension = 16;
    let made = file_thumbnail(&settings, &file("public"), &bytes, None, (1, 1)).unwrap();
    let decoded = image::load_from_memory(&made).unwrap();
    assert_eq!((decoded.width(), decoded.height()), (16, 8));
    settings.processing.thumbnail_source_max_pixels = 10;
    assert!(file_thumbnail(&settings, &file("public"), &bytes, None, (1, 1)).is_none());
}

#[test]
fn drift_between_records_and_storage_is_counted() {
    let list = |items: &[&str]| items.iter().map(|s| s.to_string()).collect::<Vec<String>>();
    assert_eq!(
        verify_storage(&list(&["a", "b", "b", "c"]), &list(&["b", "d", "d", "e"])),
        (2, 2)
    );
    assert_eq!(verify_storage(&list(&["a", "b"]), &list(&["b", "a", "a"])), (0, 0));
    assert_eq!(verify_storage(&[], &[]), (0, 0));
}
