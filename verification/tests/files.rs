use axum::http::{HeaderMap, HeaderValue};
use midden::config::{
    ActionRule, ContentDispositionMode, ContentPolicy, DeliverySettings, DiscoverySettings,
    ExpirySettings, FeatureSettings, JobSettings, LimitSettings, PolicySettings, ProcessingConfig,
    RateLimitBackend, RateLimits, RiskyMimeMode, RuntimeSettings, ScanningSettings,
    SecuritySettings, UploadSettings,
};
use midden::error::AppError;
use midden::http::ResponseHead;
use midden::links::{last_path_segment, UrlParts};
use midden::model::{FileItem, Role, User};
use midden::signing::sign_internal_file_url;
use midden::web::files::{
    authorize_upload, beginning_of, check_internal_link, delete_file_url, enforce_file_origin,
    file_cache_scope, file_disposition_kind, file_slug, file_slug_gate, first_range_within,
    first_satisfiable_range, internal_raw_file, is_risky_mime, name_of_fetched, preview_kind,
    preview_reads_text, preview_text, range_between, range_not_satisfiable, range_to_serve,
    raw_file, requested_range, requested_terms, serve_file, thumbnail_file, thumbnail_head,
    url_upload, url_upload_form, wants_json, BlobPart, FileAction, FileLookup, InternalFileQuery,
    RangeStep,
};
use midden::web::files::RangeBound::{Excluded, Included, Unbounded};
use midden::web::support::CacheScope;

fn settings() -> RuntimeSettings {
    RuntimeSettings {
        features: FeatureSettings {
            preview_pages: false,
            accounts: true,
            local_login: true,
            api: true,
            public_browse: false,
            paste_editing: true,
            upload_by_url: true,
        },
        policy: PolicySettings {
            upload_file: ActionRule::Anonymous,
            create_paste: ActionRule::Anonymous,
            use_api: ActionRule::Anonymous,
            view_item: ActionRule::Anonymous,
        },
        delivery: DeliverySettings {
            public_file_base_url: None,
            isolated_file_origin: false,
            signed_internal_urls: false,
            internal_url_secret: None,
            internal_url_ttl_seconds: 600,
            public_cache_seconds: 3600,
        },
        security: SecuritySettings {
            content_policy: ContentPolicy {
                forced_attachment_mime_types: vec!["text/html".to_string()],
                risky_mime_mode: RiskyMimeMode::Attachment,
            },
            content_disposition: ContentDispositionMode::Inline,
            rate_limit_backend: RateLimitBackend::Memory,
            rate_limits: RateLimits::new(),
            session_cookie_name: "midden_session".to_string(),
        },
        limits: LimitSettings {
            max_upload_bytes: 1024,
            max_paste_bytes: 64,
            default_file_expiry: Some("7d".to_string()),
            default_paste_expiry: None,
            expiry: ExpirySettings {
                allow_never: true,
                anonymous_max_file_expiry: Some("30d".to_string()),
                user_max_file_expiry: None,
                anonymous_max_paste_expiry: Some("1d".to_string()),
                user_max_paste_expiry: Some("never".to_string()),
            },
        },
        discovery: DiscoverySettings { page_size: 20 },
        jobs: JobSettings {
            enabled: true,
            interval_seconds: 60,
            storage_verify_interval_seconds: 3600,
            scanner_retry_limit: 10,
            metadata_limit: 10,
        },
        scanning: ScanningSettings { enabled: false, adapters: Vec::new() },
        uploads: UploadSettings { temp_dir: None, temp_file_max_age_seconds: 3600 },
        processing: ProcessingConfig {
            metadata_extraction: true,
            thumbnails: true,
            thumbnail_max_dimension: 320,
            thumbnail_source_max_pixels: 12_000,
            thumbnail_source_max_alloc_bytes: 256 * 1024 * 1024,
        },
    }
}

fn file(visibility: &str) -> FileItem {
    FileItem {
        id: "1".to_string(),
        public_id: "abc".to_string(),
        blob_hash: "00ff".to_string(),
        size_bytes: 10,
        original_filename: Some("cat.png".to_string()),
        content_type: Some("image/png".to_string()),
        extension: Some("png".to_string()),
        visibility: visibility.to_string(),
        owner_user_id: Some("u1".to_string()),
        state: "active".to_string(),
        created_at: 10,
        metadata_json: None,
        thumbnail_hash: None,
        image_width: None,
        image_height: None,
    }
}

fn user(id: &str, role: Role) -> User {
    User { id: id.to_string(), role }
}

fn header(head: &ResponseHead, name: &str) -> Option<String> {
    head.headers.get(name).map(|value| String::from_utf8(value.as_bytes().to_vec()).unwrap())
}

#[test]
fn ranges_are_resolved_against_the_length() {
    assert_eq!(first_satisfiable_range("bytes=0-9", 100), Some(0..10));
    assert_eq!(first_satisfiable_range("bytes=90-", 100), Some(90..100));
    assert_eq!(first_satisfiable_range("bytes=-5", 100), Some(95..100));
    assert_eq!(first_satisfiable_range("bytes=0-99", 100), Some(0..100));
    assert_eq!(first_satisfiable_range("bytes=0-100", 100), None);
    assert_eq!(first_satisfiable_range("bytes=-500", 100), None);
    assert_eq!(first_satisfiable_range("bytes=9-0", 100), None);
    assert_eq!(first_satisfiable_range("bytes=0-0", 0), None);
    assert_eq!(first_satisfiable_range("bytes=x", 100), None);
    assert_eq!(first_satisfiable_range("lines=0-9", 100), None);
    assert_eq!(first_satisfiable_range("bytes=200-300, 10-19", 100), Some(10..20));
}

#[test]
fn ranges_are_read_from_their_text() {
    assert_eq!(first_satisfiable_range("bytes=2-5", 100), Some(2..6));
    assert_eq!(first_satisfiable_range("bytes=+2-+5", 100), Some(2..6));
    assert_eq!(first_satisfiable_range("bytes= 2-5 ", 100), Some(2..6));
    assert_eq!(first_satisfiable_range("bytes=\t2-5", 100), Some(2..6));
    assert_eq!(first_satisfiable_range("bytes=2 -5", 100), None);
    assert_eq!(first_satisfiable_range("bytes=2--5", 100), None);
    assert_eq!(first_satisfiable_range("bytes=-", 100), Some(0..100));
    assert_eq!(first_satisfiable_range("bytes=+-5", 100), None);
    assert_eq!(first_satisfiable_range("bytes=,x,2-5", 100), Some(2..6));
    assert_eq!(first_satisfiable_range("bytes=-100", 100), Some(0..100));
    assert_eq!(first_satisfiable_range("bytes=-0", 100), None);
    assert_eq!(first_satisfiable_range("bytes=0-18446744073709551616", 100), None);
    assert_eq!(first_satisfiable_range("bytes=2-5,\u{e9}", 100), None);
    assert_eq!(first_satisfiable_range("bytes=2-5,\n", 100), None);
    assert_eq!(first_satisfiable_range(" bytes=2-5", 100), None);
}

#[test]
fn a_file_is_served_whole_in_part_or_not_at_all() {
    assert!(matches!(range_to_serve(None, 0), RangeStep::Whole));
    assert!(matches!(range_to_serve(None, 100), RangeStep::Whole));
    match range_to_serve(Some("bytes=2-5"), 100) {
        RangeStep::Part(part) => assert_eq!(part, 2..6),
        _ => panic!("a part was asked for"),
    }
    for text in ["bytes=200-300", "bytes=x", "lines=0-9"] {
        match range_to_serve(Some(text), 100) {
            RangeStep::Unsatisfiable(head) => {
                assert_eq!(head.status, 416);
                assert_eq!(header(&head, "content-range").as_deref(), Some("bytes */100"));
            }
            _ => panic!("there is no such part"),
        }
    }
}

#[test]
fn the_last_segment_of_a_path_follows_its_last_slash() {
    assert_eq!(last_path_segment("/a/b.png"), Some("b.png"));
    assert_eq!(last_path_segment("/a"), Some("a"));
    assert_eq!(last_path_segment("/a/"), Some(""));
    assert_eq!(last_path_segment("/"), Some(""));
    assert_eq!(last_path_segment("//\u{e9}"), Some("\u{e9}"));
    assert_eq!(last_path_segment("a/b"), None);
    assert_eq!(last_path_segment(""), None);
}

#[test]
fn bounds_of_every_kind_are_understood() {
    assert_eq!(range_between(Unbounded, Unbounded, 10), Some(0..10));
    assert_eq!(range_between(Excluded(2), Excluded(5), 10), Some(3..5));
    assert_eq!(range_between(Included(9), Included(9), 10), Some(9..10));
    assert_eq!(range_between(Excluded(u64::MAX), Unbounded, 10), None);
    assert_eq!(range_between(Unbounded, Excluded(0), 10), Some(0..1));
    assert_eq!(range_between(Unbounded, Unbounded, 0), None);
    assert_eq!(first_range_within(&[], 10), None);
    assert_eq!(
        first_range_within(&[(Included(20), Unbounded), (Included(1), Included(2))], 10),
        Some(1..3)
    );
}

#[test]
fn only_ranges_of_bytes_are_asked_for() {
    let mut headers = HeaderMap::new();
    assert_eq!(requested_range(&headers), None);
    headers.insert("range", HeaderValue::from_static("bytes=0-9"));
    assert_eq!(requested_range(&headers).as_deref(), Some("bytes=0-9"));
    headers.insert("range", HeaderValue::from_static("lines=0-9"));
    assert_eq!(requested_range(&headers), None);
}

#[test]
fn unsatisfied_ranges_name_the_length() {
    let head = range_not_satisfiable(100);
    assert_eq!(head.status, 416);
    assert_eq!(header(&head, "content-range").as_deref(), Some("bytes */100"));
}

#[test]
fn uploads_follow_the_policy() {
    let mut settings = settings();
    assert_eq!(authorize_upload(&settings, None), Ok(()));
    settings.policy.upload_file = ActionRule::Authenticated;
    assert_eq!(authorize_upload(&settings, None), Err(AppError::Forbidden));
    assert_eq!(authorize_upload(&settings, Some(&user("u1", Role::User))), Ok(()));
    settings.policy.upload_file = ActionRule::Owner;
    assert_eq!(
        authorize_upload(&settings, Some(&user("u1", Role::Admin))),
        Err(AppError::Forbidden)
    );
    assert_eq!(url_upload_form(&settings), Ok(()));
    settings.features.upload_by_url = false;
    assert_eq!(url_upload_form(&settings), Err(AppError::NotFound));
}

fn read(text: Option<&str>) -> Result<Option<i64>, String> {
    match text {
        None => Ok(None),
        Some(text) => text.parse::<i64>().map(Some).map_err(|_| "unreadable".to_string()),
    }
}

#[test]
fn terms_are_read_expiry_first() {
    let mut settings = settings();
    settings.limits.expiry.anonymous_max_file_expiry = Some("500".to_string());
    let terms = requested_terms(
        &settings, None, "file", Some("400"), None, Some("private"), read, 100,
    )
    .unwrap();
    assert_eq!(terms.expires_at, Some(400));
    assert_eq!(terms.visibility, "private");
    assert!(matches!(
        requested_terms(&settings, None, "file", Some("x"), None, Some("odd"), read, 100),
        Err(AppError::BadRequest(message)) if message == "invalid expiry: unreadable"
    ));
    assert!(matches!(
        requested_terms(&settings, None, "file", Some("1"), None, Some("odd"), read, 100),
        Err(AppError::BadRequest(message)) if message == "invalid visibility"
    ));
}

#[test]
fn data_is_sent_to_whom_asks_for_it() {
    let mut headers = HeaderMap::new();
    assert!(!wants_json(&headers));
    headers.insert("accept", HeaderValue::from_static("text/html, application/json;q=0.9"));
    assert!(wants_json(&headers));
    headers.insert("accept", HeaderValue::from_static("text/html"));
    assert!(!wants_json(&headers));
    assert_eq!(delete_file_url("abc"), "/delete/file/abc");
}

#[test]
fn fetched_files_are_named_by_their_urls() {
    assert_eq!(
        url_upload("https://example.test/a/cat.png?x=1").unwrap().as_deref(),
        Some("cat.png")
    );
    assert_eq!(url_upload("https://example.test/a/").unwrap(), None);
    assert_eq!(
        url_upload("ftp://example.test/cat.png"),
        Err(AppError::BadRequest("only http and https URLs are supported".to_string()))
    );
    assert_eq!(
        url_upload("no url"),
        Err(AppError::BadRequest("invalid URL: relative URL without a base".to_string()))
    );
    let parts = UrlParts {
        scheme: "http".to_string(),
        host: Some("a".to_string()),
        port: Some(80),
        path: "/".to_string(),
    };
    let at = |path: &str| UrlParts { path: path.to_string(), ..parts.clone() };
    assert_eq!(name_of_fetched(Ok(parts.clone())), Ok(None));
    assert_eq!(name_of_fetched(Ok(at("text/plain,x"))), Ok(None));
    assert_eq!(name_of_fetched(Ok(at("/a/b.png"))), Ok(Some("b.png".to_string())));
    assert_eq!(name_of_fetched(Ok(at("/a/"))), Ok(None));
    assert_eq!(
        name_of_fetched(Err("odd".to_string())),
        Err(AppError::BadRequest("invalid URL: odd".to_string()))
    );
}

#[test]
fn each_file_is_served_on_one_origin() {
    let mut settings = settings();
    for host in [false, true] {
        assert_eq!(enforce_file_origin(&settings, host, &file("public")), Ok(()));
    }
    settings.delivery.isolated_file_origin = true;
    let public = file("public");
    let private = file("private");
    assert_eq!(enforce_file_origin(&settings, true, &public), Ok(()));
    assert_eq!(enforce_file_origin(&settings, false, &public), Err(AppError::NotFound));
    assert_eq!(enforce_file_origin(&settings, false, &private), Ok(()));
    assert_eq!(enforce_file_origin(&settings, true, &private), Err(AppError::NotFound));
    assert_eq!(file_cache_scope(&settings, &public), CacheScope::Public);
    assert_eq!(file_cache_scope(&settings, &private), CacheScope::Private);
}

#[test]
fn slugs_lead_to_pages_bytes_or_nothing() {
    let mut settings = settings();
    let owner = user("u1", Role::User);
    let other = user("u2", Role::User);
    let active = FileLookup::Active(file("unlisted"));
    let private = FileLookup::Active(file("private"));
    let mut gone_file = file("private");
    gone_file.state = "removed".to_string();
    let gone = FileLookup::TakenDown(gone_file);
    assert!(matches!(
        file_slug(&settings, None, false, None, &active),
        Err(AppError::NotFound)
    ));
    assert!(matches!(
        file_slug(&settings, Some("abc"), false, None, &active),
        Ok(FileAction::Serve(CacheScope::Public))
    ));
    assert!(matches!(
        file_slug(&settings, Some("abc"), false, Some(&owner), &private),
        Ok(FileAction::Serve(CacheScope::Private))
    ));
    assert!(matches!(
        file_slug(&settings, Some("abc"), false, Some(&other), &private),
        Err(AppError::Forbidden)
    ));
    assert!(matches!(
        file_slug(&settings, Some("abc"), false, None, &FileLookup::Missing),
        Err(AppError::NotFound)
    ));
    // Who could not have seen a file is not told that there was one.
    assert!(matches!(
        file_slug(&settings, Some("abc"), false, Some(&other), &gone),
        Err(AppError::NotFound)
    ));
    match file_slug(&settings, Some("abc"), false, Some(&owner), &gone) {
        Ok(FileAction::Unavailable(state)) => assert_eq!(state, "removed"),
        _ => panic!("the owner is told what became of the file"),
    }
    settings.delivery.isolated_file_origin = true;
    assert!(matches!(
        file_slug(&settings, Some("abc"), false, None, &active),
        Err(AppError::NotFound)
    ));
    settings.features.preview_pages = true;
    assert!(matches!(
        file_slug(&settings, Some("abc"), false, None, &active),
        Ok(FileAction::Preview)
    ));
    assert_eq!(file_slug_gate(&settings, Some("abc"), true), Err(AppError::NotFound));
    assert_eq!(file_slug_gate(&settings, Some("abc"), false), Ok(()));
}

#[test]
fn bytes_and_thumbnails_follow_the_same_rules() {
    let mut settings = settings();
    let mut item = file("public");
    assert_eq!(raw_file(&settings, false, None, None), Err(AppError::NotFound));
    assert_eq!(raw_file(&settings, false, None, Some(&item)), Ok(CacheScope::Public));
    assert!(matches!(
        thumbnail_file(&settings, false, None, Some(&item)),
        Err(AppError::NotFound)
    ));
    item.thumbnail_hash = Some("beef".to_string());
    assert_eq!(
        thumbnail_file(&settings, false, None, Some(&item)).unwrap(),
        ("beef".to_string(), CacheScope::Public)
    );
    settings.policy.view_item = ActionRule::Authenticated;
    assert_eq!(raw_file(&settings, false, None, Some(&item)), Err(AppError::Forbidden));
    assert!(matches!(
        thumbnail_file(&settings, false, None, Some(&item)),
        Err(AppError::Forbidden)
    ));
    let head = thumbnail_head(&settings, true, CacheScope::Private);
    assert_eq!(head.status, 200);
    assert_eq!(header(&head, "content-type").as_deref(), Some("image/png"));
    assert_eq!(header(&head, "cache-control").as_deref(), Some("private, no-store"));
    assert!(header(&head, "content-security-policy").unwrap().starts_with("default-src 'none'"));
}

#[test]
fn internal_links_are_good_until_they_expire() {
    let mut settings = settings();
    let query = |expires: i64| InternalFileQuery {
        expires,
        signature: sign_internal_file_url("secret", "abc", expires),
    };
    assert_eq!(internal_raw_file(&settings, "abc", &query(200), 100), Err(AppError::NotFound));
    settings.delivery.signed_internal_urls = true;
    settings.delivery.internal_url_secret = Some("secret".to_string());
    assert_eq!(internal_raw_file(&settings, "abc", &query(200), 200), Ok(()));
    assert_eq!(internal_raw_file(&settings, "abc", &query(200), 201), Err(AppError::Forbidden));
    assert_eq!(internal_raw_file(&settings, "abd", &query(200), 100), Err(AppError::Forbidden));
    let forged = InternalFileQuery { expires: 300, signature: query(200).signature };
    assert_eq!(internal_raw_file(&settings, "abc", &forged, 100), Err(AppError::Forbidden));
    assert_eq!(check_internal_link("sig", &forged, 100), Err(AppError::Forbidden));
    let plain = InternalFileQuery { expires: 300, signature: "sig".to_string() };
    assert_eq!(check_internal_link("sig", &plain, 300), Ok(()));
}

#[test]
fn previews_show_images_and_short_texts() {
    let mut item = file("public");
    assert!(preview_kind(&item).is_image && !preview_kind(&item).is_text);
    item.content_type = Some("text/x-rust".to_string());
    assert!(preview_kind(&item).is_text && preview_reads_text(&item));
    item.size_bytes = 128 * 1024;
    assert!(preview_reads_text(&item));
    item.size_bytes = 128 * 1024 + 1;
    assert!(!preview_reads_text(&item));
    item.content_type = Some("application/json".to_string());
    assert!(preview_kind(&item).is_text);
    item.content_type = None;
    assert!(!preview_kind(&item).is_text && !preview_kind(&item).is_image);
    assert_eq!(preview_text(b"h\xc3\xa9llo"), "h\u{e9}llo");
    assert_eq!(preview_text(b"a\xffb"), "a\u{fffd}b");
    assert_eq!(preview_text("\u{e9}".repeat(9000).as_bytes()), "\u{e9}".repeat(8000));
    assert_eq!(beginning_of("short"), "short");
}

#[test]
fn risky_types_are_handled_as_configured() {
    let mut settings = settings();
    assert!(is_risky_mime(&settings, "TEXT/html"));
    assert!(!is_risky_mime(&settings, "image/png"));
    assert_eq!(file_disposition_kind(&settings, true, true), "attachment");
    assert_eq!(file_disposition_kind(&settings, false, false), "inline");
    settings.security.content_disposition = ContentDispositionMode::Attachment;
    assert_eq!(file_disposition_kind(&settings, false, false), "attachment");
    settings.security.content_policy.risky_mime_mode = RiskyMimeMode::InlineOnIsolatedOrigin;
    assert_eq!(file_disposition_kind(&settings, true, true), "inline");
    assert_eq!(file_disposition_kind(&settings, true, false), "attachment");
    settings.security.content_policy.risky_mime_mode = RiskyMimeMode::Plaintext;
    assert_eq!(file_disposition_kind(&settings, true, false), "inline");
}

#[test]
fn whole_files_are_served_with_their_headers() {
    let settings = settings();
    let mut item = file("public");
    item.original_filename = Some("a \"b\".png".to_string());
    let part = BlobPart { start: 0, end: 100, size: 100 };
    let head = serve_file(&settings, false, &item, CacheScope::Public, part);
    assert_eq!(head.status, 200);
    assert_eq!(header(&head, "content-range"), None);
    assert_eq!(header(&head, "accept-ranges").as_deref(), Some("bytes"));
    assert_eq!(header(&head, "content-length").as_deref(), Some("100"));
    assert_eq!(header(&head, "content-type").as_deref(), Some("image/png"));
    assert_eq!(
        header(&head, "content-disposition").as_deref(),
        Some("inline; filename=\"a b.png\"")
    );
    assert_eq!(header(&head, "x-content-type-options").as_deref(), Some("nosniff"));
    assert_eq!(header(&head, "referrer-policy").as_deref(), Some("no-referrer"));
    assert_eq!(header(&head, "cross-origin-resource-policy").as_deref(), Some("cross-origin"));
    assert_eq!(header(&head, "content-security-policy"), None);
    assert_eq!(header(&head, "cache-control").as_deref(), Some("public, max-age=3600"));
}

#[test]
fn parts_of_files_say_which_bytes_they_are() {
    let settings = settings();
    let mut item = file("public");
    item.original_filename = None;
    item.content_type = Some("text/html".to_string());
    let part = BlobPart { start: 10, end: 20, size: 100 };
    let head = serve_file(&settings, true, &item, CacheScope::Private, part);
    assert_eq!(head.status, 206);
    assert_eq!(header(&head, "content-range").as_deref(), Some("bytes 10-19/100"));
    assert_eq!(header(&head, "content-length").as_deref(), Some("10"));
    assert_eq!(
        header(&head, "content-disposition").as_deref(),
        Some("attachment; filename=\"abc\"")
    );
    assert_eq!(
        header(&head, "content-security-policy").as_deref(),
        Some(
            "default-src 'none'; sandbox; style-src 'unsafe-inline'; img-src 'self' data: blob:; \
             media-src 'self' blob:; frame-ancestors 'none'"
        )
    );
}

#[test]
fn odd_types_and_names_do_not_reach_the_headers() {
    let mut settings = settings();
    let mut item = file("public");
    item.content_type = Some("text/\nplain".to_string());
    item.original_filename = Some("a\nb".to_string());
    let part = BlobPart { start: 0, end: 1, size: 1 };
    let head = serve_file(&settings, false, &item, CacheScope::Public, part);
    assert_eq!(header(&head, "content-type").as_deref(), Some("application/octet-stream"));
    assert_eq!(header(&head, "content-disposition"), None);
    item.content_type = None;
    let head = serve_file(&settings, false, &item, CacheScope::Public, part);
    assert_eq!(header(&head, "content-type").as_deref(), Some("application/octet-stream"));
    settings.security.content_policy.risky_mime_mode = RiskyMimeMode::Plaintext;
    item.content_type = Some("text/html".to_string());
    item.original_filename = Some("\u{e9}.html".to_string());
    let head = serve_file(&settings, false, &item, CacheScope::Public, part);
    assert_eq!(header(&head, "content-type").as_deref(), Some("text/plain; charset=utf-8"));
    assert_eq!(
        header(&head, "content-disposition").as_deref(),
        Some("inline; filename=\"\u{e9}.html\"")
    );
}
