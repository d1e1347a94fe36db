use midden::config::{
    ActionRule, ContentDispositionMode, ContentPolicy, DeliverySettings, DiscoverySettings,
    ExpirySettings, FeatureSettings, JobSettings, LimitSettings, PolicySettings, ProcessingConfig,
    RateLimitBackend, RateLimits, RiskyMimeMode, RuntimeSettings, ScanningSettings,
    SecuritySettings, UploadSettings,
};
use midden::config::ServerConfig;
use midden::error::AppError;
use midden::model::{Paste, Role, User};
use midden::web::pastes::{
    authorize_paste, can_edit_paste, edit_paste_form, edited_paste_path, new_paste, paste_block,
    paste_url, plain_paste_body, raw_paste, raw_paste_url, render_paste_content, show_paste,
    update_paste, update_paste_gate, Highlighting, PasteAction, PasteEditForm, PasteLookup,
};

fn settings() -> RuntimeSettings {
    RuntimeSettings {
        features: FeatureSettings {
            preview_pages: false,
            accounts: true,
            local_login: true,
            api: true,
            public_browse: false,
            paste_editing: true,
            upload_by_url: true,
        },
        policy: PolicySettings {
            upload_file: ActionRule::Anonymous,
            create_paste: ActionRule::Anonymous,
            use_api: ActionRule::Anonymous,
            view_item: ActionRule::Anonymous,
        },
        delivery: DeliverySettings {
            public_file_base_url: None,
            isolated_file_origin: false,
            signed_internal_urls: false,
            internal_url_secret: None,
            internal_url_ttl_seconds: 600,
            public_cache_seconds: 3600,
        },
        security: SecuritySettings {
            content_policy: ContentPolicy {
                forced_attachment_mime_types: vec!["text/html".to_string()],
                risky_mime_mode: RiskyMimeMode::Attachment,
            },
            content_disposition: ContentDispositionMode::Inline,
            rate_limit_backend: RateLimitBackend::Memory,
            rate_limits: RateLimits::new(),
            session_cookie_name: "midden_session".to_string(),
        },
        limits: LimitSettings {
            max_upload_bytes: 1024,
            max_paste_bytes: 64,
            default_file_expiry: Some("7d".to_string()),
            default_paste_expiry: None,
            expiry: ExpirySettings {
                allow_never: true,
                anonymous_max_file_expiry: Some("30d".to_string()),
                user_max_file_expiry: None,
                anonymous_max_paste_expiry: Some("1d".to_string()),
                user_max_paste_expiry: Some("never".to_string()),
            },
        },
        discovery: DiscoverySettings { page_size: 20 },
        jobs: JobSettings {
            enabled: true,
            interval_seconds: 60,
            storage_verify_interval_seconds: 3600,
            scanner_retry_limit: 10,
            metadata_limit: 10,
        },
        scanning: ScanningSettings { enabled: false, adapters: Vec::new() },
        uploads: UploadSettings { temp_dir: None, temp_file_max_age_seconds: 3600 },
        processing: ProcessingConfig {
            metadata_extraction: true,
            thumbnails: true,
            thumbnail_max_dimension: 320,
            thumbnail_source_max_pixels: 12_000,
            thumbnail_source_max_alloc_bytes: 256 * 1024 * 1024,
        },
    }
}

fn user(id: &str, role: Role) -> User {
    User { id: id.to_string(), role }
}

fn paste(visibility: &str) -> Paste {
    Paste {
        id: "1".to_string(),
        public_id: "abc".to_string(),
        title: None,
        content: "text".to_string(),
        syntax: None,
        visibility: visibility.to_string(),
        owner_user_id: Some("u1".to_string()),
        state: "active".to_string(),
        created_at: 10,
    }
}

#[test]
fn plain_pastes_are_escaped() {
    assert_eq!(
        plain_paste_body("a < b && c > \"d\""),
        "<pre class=\"paste-body\"><code>a &lt; b &amp;&amp; c &gt; \"d\"</code></pre>"
    );
    assert_eq!(plain_paste_body(""), "<pre class=\"paste-body\"><code></code></pre>");
    assert_eq!(paste_block("x", Some("<b>".to_string())), "<b>");
    assert_eq!(paste_block("<", None), plain_paste_body("<"));
}

#[test]
fn pastes_are_highlighted_in_their_syntax() {
    let highlighting = Highlighting::new();
    let content = "fn main() { let x = 1 < 2; }";
    assert_eq!(render_paste_content(&highlighting, content, None), plain_paste_body(content));
    assert_eq!(
        render_paste_content(&highlighting, content, Some("  ")),
        plain_paste_body(content)
    );
    let rust = render_paste_content(&highlighting, content, Some("rs"));
    assert!(rust.starts_with("<pre style=\"background-color:"));
    assert!(rust.contains("&lt;") && rust.contains("<span"));
    // A token that stands for nothing gives the colours of plain text.
    let plain = render_paste_content(&highlighting, content, Some("no-such-syntax"));
    assert!(plain.starts_with("<pre style=\"background-color:"));
    assert_eq!(plain, render_paste_content(&highlighting, content, Some("txt")));
    assert_ne!(plain, rust);
}

#[test]
fn forms_for_new_pastes_are_shown_to_who_could_use_them() {
    let mut settings = settings();
    let alice = user("u1", Role::User);
    assert_eq!(new_paste(&settings, None), Ok(()));
    settings.policy.create_paste = ActionRule::Authenticated;
    assert_eq!(new_paste(&settings, None), Ok(()));
    assert_eq!(authorize_paste(&settings, None), Err(AppError::Forbidden));
    assert_eq!(authorize_paste(&settings, Some(&alice)), Ok(()));
    settings.policy.create_paste = ActionRule::Moderator;
    assert_eq!(new_paste(&settings, None), Ok(()));
    assert_eq!(new_paste(&settings, Some(&alice)), Err(AppError::Forbidden));
    settings.policy.create_paste = ActionRule::Disabled;
    assert_eq!(new_paste(&settings, None), Err(AppError::Forbidden));
}

#[test]
fn pastes_are_shown_to_who_may_see_them() {
    let settings = settings();
    let owner = user("u1", Role::User);
    let other = user("u2", Role::User);
    let private = PasteLookup::Active(paste("private"));
    assert!(matches!(
        show_paste(&settings, Some(&owner), &private),
        Ok(PasteAction::Show { can_edit: true })
    ));
    assert!(matches!(
        show_paste(&settings, Some(&other), &private),
        Err(AppError::Forbidden)
    ));
    assert!(matches!(
        show_paste(&settings, None, &PasteLookup::Active(paste("unlisted"))),
        Ok(PasteAction::Show { can_edit: false })
    ));
    assert!(matches!(
        show_paste(&settings, None, &PasteLookup::Missing),
        Err(AppError::NotFound)
    ));
    let mut gone = paste("public");
    gone.state = "removed".to_string();
    match show_paste(&settings, None, &PasteLookup::TakenDown(gone)) {
        Ok(PasteAction::Unavailable(state)) => assert_eq!(state, "removed"),
        _ => panic!("the state is told"),
    }
}

#[test]
fn the_text_of_a_paste_is_plain() {
    let settings = settings();
    let head = raw_paste(&settings, None, Some(&paste("unlisted"))).unwrap_or_else(|_| panic!());
    assert_eq!(head.status, 200);
    assert_eq!(
        head.headers.get("content-type").unwrap().to_str().unwrap(),
        "text/plain; charset=utf-8"
    );
    assert!(matches!(raw_paste(&settings, None, None), Err(AppError::NotFound)));
    assert!(matches!(
        raw_paste(&settings, None, Some(&paste("private"))),
        Err(AppError::Forbidden)
    ));
}

#[test]
fn pastes_are_edited_by_their_owners() {
    let mut settings = settings();
    let owner = user("u1", Role::User);
    let moderator = user("u2", Role::Moderator);
    let admin = user("u3", Role::Admin);
    let item = paste("public");
    assert!(can_edit_paste(&settings, Some(&owner), &item));
    assert!(!can_edit_paste(&settings, Some(&moderator), &item));
    assert!(can_edit_paste(&settings, Some(&admin), &item));
    assert!(!can_edit_paste(&settings, None, &item));
    assert_eq!(edit_paste_form(&settings, None, None), Err(AppError::Unauthorized));
    assert_eq!(edit_paste_form(&settings, Some(&owner), None), Err(AppError::NotFound));
    assert_eq!(edit_paste_form(&settings, Some(&owner), Some(&item)), Ok(()));
    assert_eq!(
        edit_paste_form(&settings, Some(&moderator), Some(&item)),
        Err(AppError::Forbidden)
    );
    settings.features.paste_editing = false;
    assert!(!can_edit_paste(&settings, Some(&owner), &item));
}

#[test]
fn edits_are_checked_in_order() {
    let settings = settings();
    let owner = user("u1", Role::User);
    let item = paste("public");
    let form = |title: Option<&str>, content: String, token: Option<&str>| PasteEditForm {
        title: title.map(|s| s.to_string()),
        syntax: None,
        content,
        csrf_token: token.map(|s| s.to_string()),
    };
    let good = form(Some("  New title "), "x".repeat(64), Some("t"));
    assert_eq!(
        update_paste(&settings, Some(&owner), Some("t"), &good, Some(&item)).unwrap().as_deref(),
        Some("New title")
    );
    let blank = form(Some("  "), String::new(), Some("t"));
    assert_eq!(update_paste(&settings, Some(&owner), Some("t"), &blank, Some(&item)), Ok(None));
    assert_eq!(
        update_paste(&settings, None, Some("t"), &good, Some(&item)),
        Err(AppError::Unauthorized)
    );
    assert_eq!(
        update_paste(&settings, Some(&owner), Some("u"), &good, Some(&item)),
        Err(AppError::Forbidden)
    );
    // The length counts in bytes.
    let long = form(None, "\u{e9}".repeat(33), Some("t"));
    assert_eq!(
        update_paste_gate(&settings, Some(&owner), Some("t"), &long),
        Err(AppError::PayloadTooLarge)
    );
    assert_eq!(
        update_paste(&settings, Some(&owner), Some("t"), &good, None),
        Err(AppError::NotFound)
    );
    assert_eq!(
        update_paste(&settings, Some(&user("u2", Role::User)), Some("t"), &good, Some(&item)),
        Err(AppError::Forbidden)
    );
    assert_eq!(edited_paste_path("abc"), "/p/abc");
}

#[test]
fn paste_links_are_absolute() {
    let server = ServerConfig {
        public_base_url: "https://app.example.test/".to_string(),
        behind_proxy: false,
        trusted_proxy_hops: 1,
    };
    assert_eq!(paste_url(&server, "abc"), "https://app.example.test/p/abc");
    assert_eq!(raw_paste_url(&server, "abc"), "https://app.example.test/p/abc/raw");
}
