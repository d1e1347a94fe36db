use axum::http::{HeaderMap, HeaderValue};
use midden::config::{
    ActionRule, ContentDispositionMode, ContentPolicy, DeliverySettings, DiscoverySettings,
    ExpirySettings, FeatureSettings, JobSettings, LimitSettings, PolicySettings, ProcessingConfig,
    RateLimitBackend, RateLimits, RiskyMimeMode, RuntimeSettings, ScanningSettings,
    SecuritySettings, UploadSettings,
};
use midden::error::AppError;
use midden::model::{FileItem, PageCursor, Paste};
use midden::web::browse::{
    browse_template, link_to_older_items, older_url, parse_cursor, public_browse, read_cursor,
    write_cursor, BrowsePage, BrowseQuery,
};

fn settings() -> RuntimeSettings {
    RuntimeSettings {
        features: FeatureSettings {
            preview_pages: false,
            accounts: true,
            local_login: true,
            api: true,
            public_browse: false,
            paste_editing: true,
            upload_by_url: true,
        },
        policy: PolicySettings {
            upload_file: ActionRule::Anonymous,
            create_paste: ActionRule::Anonymous,
            use_api: ActionRule::Anonymous,
            view_item: ActionRule::Anonymous,
        },
        delivery: DeliverySettings {
            public_file_base_url: None,
            isolated_file_origin: false,
            signed_internal_urls: false,
            internal_url_secret: None,
            internal_url_ttl_seconds: 600,
            public_cache_seconds: 3600,
        },
        security: SecuritySettings {
            content_policy: ContentPolicy {
                forced_attachment_mime_types: vec!["text/html".to_string()],
                risky_mime_mode: RiskyMimeMode::Attachment,
            },
            content_disposition: ContentDispositionMode::Inline,
            rate_limit_backend: RateLimitBackend::Memory,
            rate_limits: RateLimits::new(),
            session_cookie_name: "midden_session".to_string(),
        },
        limits: LimitSettings {
            max_upload_bytes: 1024,
            max_paste_bytes: 64,
            default_file_expiry: Some("7d".to_string()),
            default_paste_expiry: None,
            expiry: ExpirySettings {
                allow_never: true,
                anonymous_max_file_expiry: Some("30d".to_string()),
                user_max_file_expiry: None,
                anonymous_max_paste_expiry: Some("1d".to_string()),
                user_max_paste_expiry: Some("never".to_string()),
            },
        },
        discovery: DiscoverySettings { page_size: 20 },
        jobs: JobSettings {
            enabled: true,
            interval_seconds: 60,
            storage_verify_interval_seconds: 3600,
            scanner_retry_limit: 10,
            metadata_limit: 10,
        },
        scanning: ScanningSettings { enabled: false, adapters: Vec::new() },
        uploads: UploadSettings { temp_dir: None, temp_file_max_age_seconds: 3600 },
        processing: ProcessingConfig {
            metadata_extraction: true,
            thumbnails: true,
            thumbnail_max_dimension: 320,
            thumbnail_source_max_pixels: 12_000,
            thumbnail_source_max_alloc_bytes: 256 * 1024 * 1024,
        },
    }
}

fn file(visibility: &str) -> FileItem {
    FileItem {
        id: "1".to_string(),
        public_id: "abc".to_string(),
        blob_hash: "00ff".to_string(),
        size_bytes: 10,
        original_filename: Some("cat.png".to_string()),
        content_type: Some("image/png".to_string()),
        extension: Some("png".to_string()),
        visibility: visibility.to_string(),
        owner_user_id: Some("u1".to_string()),
        state: "active".to_string(),
        created_at: 10,
        metadata_json: None,
        thumbnail_hash: None,
        image_width: None,
        image_height: None,
    }
}

fn paste(created_at: i64, public_id: &str) -> Paste {
    Paste {
        id: "1".to_string(),
        public_id: public_id.to_string(),
        title: None,
        content: "text".to_string(),
        syntax: None,
        visibility: "public".to_string(),
        owner_user_id: None,
        state: "active".to_string(),
        created_at,
    }
}

fn cursor(created_at: i64, public_id: &str) -> PageCursor {
    PageCursor { created_at, public_id: public_id.to_string() }
}

#[test]
fn older_url_encodes_search_terms() {
    let url = older_url(Some("a&b=c#d"), Some(&cursor(10, "abc")), None);
    assert_eq!(url, "/browse?before_file=10.abc&q=a%26b%3Dc%23d");
}

#[test]
fn older_url_omits_cursors_for_exhausted_listings() {
    assert_eq!(
        older_url(None, None, Some(&cursor(7, "xyz"))),
        "/browse?before_paste=7.xyz"
    );
}

#[test]
fn older_url_encodes_spaces_and_other_scripts() {
    assert_eq!(
        older_url(Some("a b-\u{e9}*~"), Some(&cursor(-1, "x")), Some(&cursor(0, ""))),
        "/browse?before_file=-1.x&before_paste=0.&q=a+b-%C3%A9*%7E"
    );
    assert_eq!(older_url(None, None, None), "/browse?");
}

#[test]
fn blank_cursors_are_treated_as_absent_and_junk_is_rejected() {
    assert!(parse_cursor(Some("  ")).unwrap().is_none());
    assert!(parse_cursor(None).unwrap().is_none());
    assert_eq!(parse_cursor(Some("10.abc")).unwrap(), Some(cursor(10, "abc")));
    assert!(parse_cursor(Some("not-a-cursor")).is_err());
}

#[test]
fn cursors_are_read_back_as_they_were_written() {
    for c in [cursor(10, "abc"), cursor(-5, "a.b"), cursor(i64::MAX, ""), cursor(i64::MIN, "x y")] {
        assert_eq!(read_cursor(&write_cursor(&c)), Some(c));
    }
    assert_eq!(write_cursor(&cursor(i64::MIN, "a")), "-9223372036854775808.a");
    assert_eq!(
        parse_cursor(Some("9223372036854775808.a")),
        Err(AppError::BadRequest("invalid browse cursor".to_string()))
    );
    assert_eq!(parse_cursor(Some(" +10.abc ")).unwrap(), Some(cursor(10, "abc")));
    assert_eq!(read_cursor(".abc"), None);
}

fn query(q: Option<&str>, file: Option<&str>, paste: Option<&str>) -> BrowseQuery {
    BrowseQuery {
        q: q.map(|s| s.to_string()),
        before_file: file.map(|s| s.to_string()),
        before_paste: paste.map(|s| s.to_string()),
    }
}

#[test]
fn pages_are_looked_up_as_asked() {
    let mut settings = settings();
    assert!(matches!(
        public_browse(&settings, &query(None, Some("junk"), None)),
        Err(AppError::NotFound)
    ));
    settings.features.public_browse = true;
    let page = public_browse(&settings, &query(Some(" cat "), Some("3.a"), None)).unwrap();
    assert_eq!(page.q.as_deref(), Some(" cat "));
    assert_eq!(page.before_file, Some(cursor(3, "a")));
    assert_eq!(page.before_paste, None);
    assert_eq!(page.limit, 20);
    let page = public_browse(&settings, &query(Some("  "), None, None)).unwrap();
    assert_eq!(page.q, None);
    assert!(matches!(
        public_browse(&settings, &query(None, None, Some("junk"))),
        Err(AppError::BadRequest(_))
    ));
    settings.discovery.page_size = 0;
    assert_eq!(public_browse(&settings, &query(None, None, None)).unwrap().limit, 1);
    settings.discovery.page_size = 101;
    assert_eq!(public_browse(&settings, &query(None, None, None)).unwrap().limit, 100);
}

fn page(limit: i64) -> BrowsePage {
    BrowsePage {
        q: Some("cat".to_string()),
        before_file: Some(cursor(9, "f")),
        before_paste: Some(cursor(8, "p")),
        limit,
    }
}

#[test]
fn full_pages_link_to_older_items_and_exhausted_lists_stay_where_they_are() {
    assert_eq!(link_to_older_items(&page(2), &[file("public")], &[]), None);
    assert_eq!(
        link_to_older_items(&page(1), &[file("public")], &[]).unwrap(),
        "/browse?before_file=10.abc&before_paste=8.p&q=cat"
    );
    assert_eq!(
        link_to_older_items(&page(2), &[], &[paste(7, "x"), paste(6, "y")]).unwrap(),
        "/browse?before_file=9.f&before_paste=6.y&q=cat"
    );
}

#[test]
fn fragments_have_their_own_template() {
    let mut headers = HeaderMap::new();
    assert_eq!(browse_template(&headers), "browse.html");
    headers.insert("hx-request", HeaderValue::from_static("true"));
    assert_eq!(browse_template(&headers), "browse_results.html");
}
