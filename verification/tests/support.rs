use axum::http::{HeaderMap, HeaderValue};
use midden::config::{
    ActionRule, ContentDispositionMode, ContentPolicy, DeliverySettings, DiscoverySettings,
    ExpirySettings, FeatureSettings, JobSettings, LimitSettings, PolicySettings, ProcessingConfig,
    RateLimitBackend, RateLimitConfig, RateLimits, RiskyMimeMode, RuntimeSettings,
    ScanningSettings, SecuritySettings, ServerConfig, UploadSettings,
};
use midden::error::AppError;
use midden::http::ResponseHead;
use midden::ip::{parse_ip, IpAddr};
use midden::links::UrlParts;
use midden::model::{FileItem, Role, User};
use midden::rate_limit::RateLimiter;
use midden::web::support::{
    api_access, api_authenticated_user, api_role_user, api_user, app_base_url, authorize_item_view,
    bearer_token, checked_expiry, client_ip, configured_file_origin, current_user, database_answer,
    enforce_rate_limit, ensure_accounts_enabled, ensure_local_accounts_enabled, file_base_url,
    file_needs_app_origin, file_origin, file_url, htmx_request, insert_cache_control,
    is_isolated_file_host, is_rate_limit_rejection, matches_file_host, origin_reached,
    parse_expiry_or_default_checked, parse_scopes, rate_limit_identity, raw_file_url,
    requested_visibility, session_cookie, signed_internal_raw_url, thumbnail_file_url,
    transient_cookie, url_origin, validate_csrf, ApiAuthenticatedUser, ApiStep, CacheScope,
    RateLimitStep, RequestOrigin, SessionStep, UriAuthority,
};

fn settings() -> RuntimeSettings {
    RuntimeSettings {
        features: FeatureSettings {
            preview_pages: false,
            accounts: true,
            local_login: true,
            api: true,
            public_browse: false,
            paste_editing: true,
            upload_by_url: true,
        },
        policy: PolicySettings {
            upload_file: ActionRule::Anonymous,
            create_paste: ActionRule::Anonymous,
            use_api: ActionRule::Anonymous,
            view_item: ActionRule::Anonymous,
        },
        delivery: DeliverySettings {
            public_file_base_url: None,
            isolated_file_origin: false,
            signed_internal_urls: false,
            internal_url_secret: None,
            internal_url_ttl_seconds: 600,
            public_cache_seconds: 3600,
        },
        security: SecuritySettings {
            content_policy: ContentPolicy {
                forced_attachment_mime_types: vec!["text/html".to_string()],
                risky_mime_mode: RiskyMimeMode::Attachment,
            },
            content_disposition: ContentDispositionMode::Inline,
            rate_limit_backend: RateLimitBackend::Memory,
            rate_limits: RateLimits::new(),
            session_cookie_name: "midden_session".to_string(),
        },
        limits: LimitSettings {
            max_upload_bytes: 1024,
            max_paste_bytes: 64,
            default_file_expiry: Some("7d".to_string()),
            default_paste_expiry: None,
            expiry: ExpirySettings {
                allow_never: true,
                anonymous_max_file_expiry: Some("30d".to_string()),
                user_max_file_expiry: None,
                anonymous_max_paste_expiry: Some("1d".to_string()),
                user_max_paste_expiry: Some("never".to_string()),
            },
        },
        discovery: DiscoverySettings { page_size: 20 },
        jobs: JobSettings {
            enabled: true,
            interval_seconds: 60,
            storage_verify_interval_seconds: 3600,
            scanner_retry_limit: 10,
            metadata_limit: 10,
        },
        scanning: ScanningSettings { enabled: false, adapters: Vec::new() },
        uploads: UploadSettings { temp_dir: None, temp_file_max_age_seconds: 3600 },
        processing: ProcessingConfig {
            metadata_extraction: true,
            thumbnails: true,
            thumbnail_max_dimension: 320,
            thumbnail_source_max_pixels: 12_000,
            thumbnail_source_max_alloc_bytes: 256 * 1024 * 1024,
        },
    }
}

fn server() -> ServerConfig {
    ServerConfig {
        public_base_url: "https://app.example.test/".to_string(),
        behind_proxy: false,
        trusted_proxy_hops: 1,
    }
}

fn isolated(file_base_url: &str) -> RuntimeSettings {
    let mut settings = settings();
    settings.delivery.public_file_base_url = Some(file_base_url.to_string());
    settings.delivery.isolated_file_origin = true;
    settings
}

fn origin(value: &str) -> Option<RequestOrigin> {
    RequestOrigin::parse(value)
}

fn file(visibility: &str) -> FileItem {
    FileItem {
        id: "1".to_string(),
        public_id: "abc".to_string(),
        blob_hash: "00ff".to_string(),
        size_bytes: 10,
        original_filename: Some("cat.png".to_string()),
        content_type: Some("image/png".to_string()),
        extension: Some("png".to_string()),
        visibility: visibility.to_string(),
        owner_user_id: Some("u1".to_string()),
        state: "active".to_string(),
        created_at: 10,
        metadata_json: None,
        thumbnail_hash: None,
        image_width: None,
        image_height: None,
    }
}

fn user(id: &str, role: Role) -> User {
    User { id: id.to_string(), role }
}

#[test]
fn file_host_matching_ignores_case_and_a_trailing_root_dot() {
    let settings = isolated("https://files.example.test");
    assert!(matches_file_host(&settings, origin("Files.Example.Test").as_ref()));
    assert!(matches_file_host(&settings, origin("files.example.test.").as_ref()));
    assert!(!matches_file_host(&settings, origin("app.example.test").as_ref()));
}

#[test]
fn file_host_matching_accepts_an_explicit_default_port() {
    assert!(matches_file_host(
        &isolated("https://files.example.test"),
        origin("files.example.test:443").as_ref()
    ));
    assert!(matches_file_host(
        &isolated("http://files.example.test"),
        origin("files.example.test:80").as_ref()
    ));
    assert!(matches_file_host(
        &isolated("http://localhost:8080"),
        origin("localhost:8080").as_ref()
    ));
}

#[test]
fn file_host_matching_rejects_a_different_port() {
    assert!(!matches_file_host(
        &isolated("https://files.example.test"),
        origin("files.example.test:8443").as_ref()
    ));
    assert!(!matches_file_host(
        &isolated("http://localhost:8080"),
        origin("localhost:9090").as_ref()
    ));
}

#[test]
fn file_host_matching_is_off_without_the_isolation_flag_or_a_base_url() {
    let mut settings = isolated("https://files.example.test");
    settings.delivery.isolated_file_origin = false;
    assert!(!matches_file_host(&settings, origin("files.example.test").as_ref()));

    let mut settings = isolated("https://files.example.test");
    settings.delivery.public_file_base_url = None;
    assert!(!matches_file_host(&settings, origin("files.example.test").as_ref()));
    assert!(!matches_file_host(&isolated("https://files.example.test"), None));
}

#[test]
fn request_origin_prefers_the_uri_authority_and_falls_back_to_the_host_header() {
    let mut headers = HeaderMap::new();
    headers.insert("host", HeaderValue::from_static("app.example.test"));

    let uri: axum::http::Uri = "https://files.example.test/abc.png".parse().unwrap();
    let authority = uri.authority().map(|authority| UriAuthority {
        host: authority.host().to_string(),
        port: authority.port_u16(),
    });
    let from_uri = RequestOrigin::from_request(authority.as_ref(), &headers);
    assert_eq!(from_uri, origin("files.example.test"));

    let uri: axum::http::Uri = "/abc.png".parse().unwrap();
    assert!(uri.authority().is_none());
    let from_header = RequestOrigin::from_request(None, &headers);
    assert_eq!(from_header, origin("app.example.test"));

    assert_eq!(RequestOrigin::from_request(None, &HeaderMap::new()), None);
}

#[test]
fn request_origin_parses_ipv6_literals_and_rejects_junk() {
    assert_eq!(
        origin("[2001:db8::5]:8080"),
        Some(RequestOrigin { host: "[2001:db8::5]".to_string(), port: Some(8080) })
    );
    assert_eq!(
        origin("[2001:db8::5]"),
        Some(RequestOrigin { host: "[2001:db8::5]".to_string(), port: None })
    );
    assert_eq!(origin(""), None);
    assert_eq!(origin("files.example.test:not-a-port"), None);
}

#[test]
fn request_origins_with_odd_authorities() {
    assert_eq!(origin(":80"), None);
    assert_eq!(origin("[2001:db8::5]8080"), None);
    assert_eq!(origin("[2001:db8::5]:99999"), None);
    assert_eq!(
        origin("  Example.Test.  "),
        Some(RequestOrigin { host: "example.test".to_string(), port: None })
    );
    assert_eq!(
        origin("a:b:80"),
        Some(RequestOrigin { host: "a:b".to_string(), port: Some(80) })
    );
}

#[test]
fn the_origin_resolved_on_arrival_comes_before_the_host_header() {
    let settings = isolated("https://files.example.test");
    let mut headers = HeaderMap::new();
    headers.insert("host", HeaderValue::from_static("files.example.test"));
    let app = origin("app.example.test");
    assert!(is_isolated_file_host(&settings, None, &headers));
    assert!(!is_isolated_file_host(&settings, app.as_ref(), &headers));
    assert!(!is_isolated_file_host(&settings, None, &HeaderMap::new()));
}

#[test]
fn configured_origins_are_read_from_urls() {
    assert_eq!(
        configured_file_origin(&isolated(" https://Files.Example.Test/x ")),
        Some(RequestOrigin { host: "files.example.test".to_string(), port: Some(443) })
    );
    assert_eq!(configured_file_origin(&isolated("not a url")), None);
    assert_eq!(configured_file_origin(&settings()), None);
    let parts = UrlParts {
        scheme: "data".to_string(),
        host: None,
        port: None,
        path: "text/plain,x".to_string(),
    };
    assert_eq!(url_origin(&Ok(parts)), None);
    assert_eq!(url_origin(&Err("no".to_string())), None);
    assert!(!origin_reached(None, origin("a").as_ref()));
    assert!(origin_reached(origin("a:1").as_ref(), origin("a").as_ref()));
    assert!(!origin_reached(origin("a").as_ref(), origin("a:1").as_ref()));
}

fn proxied(hops: usize) -> ServerConfig {
    ServerConfig { behind_proxy: true, trusted_proxy_hops: hops, ..server() }
}

fn headers(pairs: &[(&'static str, &str)]) -> HeaderMap {
    let mut headers = HeaderMap::new();
    for (name, value) in pairs {
        headers.append(*name, HeaderValue::from_str(value).unwrap());
    }
    headers
}

fn peer() -> Option<IpAddr> {
    Some(parse_ip("192.0.2.1").unwrap())
}

#[test]
fn direct_deployments_ignore_forwarding_headers() {
    let resolved = client_ip(
        &server(),
        &headers(&[("x-forwarded-for", "203.0.113.9"), ("x-real-ip", "203.0.113.9")]),
        peer(),
    );
    assert_eq!(resolved, peer());
}

#[test]
fn proxied_deployments_use_the_configured_hop_from_the_right() {
    let chain = headers(&[("x-forwarded-for", "203.0.113.1, 198.51.100.7, 198.51.100.8")]);
    assert_eq!(
        client_ip(&proxied(1), &chain, peer()),
        Some(parse_ip("198.51.100.8").unwrap())
    );
    assert_eq!(
        client_ip(&proxied(2), &chain, peer()),
        Some(parse_ip("198.51.100.7").unwrap())
    );
}

#[test]
fn spoofed_leading_hops_do_not_change_the_resolved_client() {
    let first = client_ip(
        &proxied(1),
        &headers(&[("x-forwarded-for", "203.0.113.1, 198.51.100.8")]),
        peer(),
    );
    let second = client_ip(
        &proxied(1),
        &headers(&[("x-forwarded-for", "203.0.113.2, 198.51.100.8")]),
        peer(),
    );
    assert_eq!(first, second);
    assert_eq!(first, Some(parse_ip("198.51.100.8").unwrap()));
}

#[test]
fn a_short_forwarded_chain_falls_back_instead_of_trusting_the_caller() {
    // Two proxies are configured but the caller only supplied one hop, so the header did not
    // come through the expected chain and must not be believed.
    assert_eq!(
        client_ip(&proxied(2), &headers(&[("x-forwarded-for", "127.0.0.1")]), peer()),
        peer()
    );
}

#[test]
fn split_forwarded_headers_and_ports_are_understood() {
    assert_eq!(
        client_ip(
            &proxied(1),
            &headers(&[
                ("x-forwarded-for", "203.0.113.1"),
                ("x-forwarded-for", "198.51.100.8:4444"),
            ]),
            peer()
        ),
        Some(parse_ip("198.51.100.8").unwrap())
    );
    assert_eq!(
        client_ip(&proxied(1), &headers(&[("x-forwarded-for", "[2001:db8::5]")]), peer()),
        Some(parse_ip("2001:db8::5").unwrap())
    );
}

#[test]
fn the_real_ip_header_is_second_and_the_connection_last() {
    assert_eq!(
        client_ip(&proxied(1), &headers(&[("x-real-ip", " 203.0.113.4 ")]), peer()),
        Some(parse_ip("203.0.113.4").unwrap())
    );
    assert_eq!(client_ip(&proxied(1), &headers(&[("x-real-ip", "nobody")]), peer()), peer());
    assert_eq!(
        client_ip(&proxied(0), &headers(&[("x-forwarded-for", "203.0.113.1, ,")]), None),
        Some(parse_ip("203.0.113.1").unwrap())
    );
    assert_eq!(client_ip(&proxied(1), &HeaderMap::new(), None), None);
}

#[test]
fn callers_are_counted_by_account_then_by_address() {
    let alice = user("u1", Role::User);
    let none = HeaderMap::new();
    assert_eq!(rate_limit_identity(&server(), &none, Some(&alice), peer()), "user:u1");
    assert_eq!(rate_limit_identity(&server(), &none, None, peer()), "ip:192.0.2.1");
    assert_eq!(
        rate_limit_identity(&server(), &none, None, parse_ip("2001:DB8:0:0:0::5")),
        "ip:2001:db8::5"
    );
    assert_eq!(rate_limit_identity(&server(), &none, None, None), "anonymous");
}

#[test]
fn rate_limits_are_counted_where_the_settings_say() {
    let mut settings = settings();
    let limit = RateLimitConfig { requests: 1, window_seconds: 60, enabled: true };
    settings.security.rate_limits.insert(
        "upload".to_string(),
        RateLimitConfig { requests: 9, window_seconds: 60, enabled: true },
    );
    settings.security.rate_limits.insert("upload".to_string(), limit);
    let mut limiter = RateLimiter::default();
    let first = enforce_rate_limit(&mut limiter, &settings, "upload", "ip:1", 100);
    assert!(matches!(first, RateLimitStep::Counted(Ok(()))));
    let second = enforce_rate_limit(&mut limiter, &settings, "upload", "ip:1", 101);
    match second {
        RateLimitStep::Counted(answer) => {
            assert_eq!(answer, Err(AppError::TooManyRequests));
            assert!(is_rate_limit_rejection(&answer));
        }
        RateLimitStep::AskDatabase { .. } => panic!("counted in memory"),
    }
    // An action without a limit is never turned down.
    let free = enforce_rate_limit(&mut limiter, &settings, "login", "ip:1", 101);
    assert!(matches!(free, RateLimitStep::Counted(Ok(()))));

    settings.security.rate_limit_backend = RateLimitBackend::Database;
    match enforce_rate_limit(&mut limiter, &settings, "upload", "ip:1", 102) {
        RateLimitStep::AskDatabase { identity, limit } => {
            assert_eq!(identity, "ip:1");
            assert_eq!(limit.unwrap().requests, 1);
        }
        RateLimitStep::Counted(_) => panic!("counted in the database"),
    }
    assert_eq!(database_answer(true), Ok(()));
    assert_eq!(database_answer(false), Err(AppError::TooManyRequests));
    assert!(!is_rate_limit_rejection(&Err(AppError::Forbidden)));
    assert!(!is_rate_limit_rejection(&Ok(())));
}

#[test]
fn cache_control_follows_the_scope() {
    let text = |seconds: u64, scope: CacheScope| {
        let mut head = ResponseHead::new(200);
        insert_cache_control(&mut head, seconds, scope);
        head.headers.get("cache-control").unwrap().to_str().unwrap().to_string()
    };
    assert_eq!(text(3600, CacheScope::Public), "public, max-age=3600");
    assert_eq!(text(u64::MAX, CacheScope::Public), "public, max-age=18446744073709551615");
    assert_eq!(text(0, CacheScope::Public), "no-store");
    assert_eq!(text(3600, CacheScope::Private), "private, no-store");
}

#[test]
fn links_point_to_the_origin_that_serves_the_file() {
    let mut settings = isolated("https://files.example.test//");
    assert_eq!(app_base_url(&server()), "https://app.example.test");
    assert_eq!(file_base_url(&server(), &settings), "https://files.example.test");
    assert_eq!(file_origin(&server(), &settings, &file("public")), "https://files.example.test");
    assert_eq!(file_origin(&server(), &settings, &file("private")), "https://app.example.test");
    assert_eq!(
        file_url(&server(), &settings, &file("public"), "abc.png"),
        "https://files.example.test/abc.png"
    );
    assert_eq!(
        raw_file_url(&server(), &settings, &file("public")),
        "https://files.example.test/files/abc/raw"
    );
    assert_eq!(
        thumbnail_file_url(&server(), &settings, &file("private")),
        "https://app.example.test/files/abc/thumbnail"
    );
    settings.features.preview_pages = true;
    assert_eq!(
        file_url(&server(), &settings, &file("public"), "abc.png"),
        "https://app.example.test/abc.png"
    );
    settings.policy.view_item = ActionRule::Authenticated;
    assert!(file_needs_app_origin(&settings, &file("public")));
    settings.delivery.public_file_base_url = Some("  ".to_string());
    assert_eq!(file_base_url(&server(), &settings), "https://app.example.test");
}

#[test]
fn internal_links_carry_their_expiry_and_signature() {
    let mut settings = settings();
    assert!(signed_internal_raw_url(&server(), &settings, &file("private"), 100).is_none());
    settings.delivery.signed_internal_urls = true;
    assert!(signed_internal_raw_url(&server(), &settings, &file("private"), 100).is_none());
    settings.delivery.internal_url_secret = Some(String::new());
    assert!(signed_internal_raw_url(&server(), &settings, &file("private"), 100).is_none());
    settings.delivery.internal_url_secret = Some("secret".to_string());
    settings.delivery.internal_url_ttl_seconds = 600;
    assert_eq!(
        signed_internal_raw_url(&server(), &settings, &file("private"), 1_700_000_000).unwrap(),
        "https://app.example.test/internal/files/abc/raw?expires=1700000600&signature=P3hUozoozT6C-6MnXo6BvZkamgaa5pAzP9KldOLOPXE"
    );
    settings.delivery.internal_url_ttl_seconds = -3;
    let url = signed_internal_raw_url(&server(), &settings, &file("private"), 100).unwrap();
    assert!(url.contains("?expires=101&signature="));
}

#[test]
fn fragments_are_asked_for_by_a_header() {
    assert!(htmx_request(&headers(&[("hx-request", "TRUE")])));
    assert!(!htmx_request(&headers(&[("hx-request", "yes")])));
    assert!(!htmx_request(&HeaderMap::new()));
}

#[test]
fn the_caller_is_known_from_the_context_or_the_session() {
    let alice = user("u1", Role::User);
    match current_user(Some(Some(alice)), Some("token")) {
        SessionStep::Known(Some(found)) => assert_eq!(found.id, "u1"),
        _ => panic!("the context comes first"),
    }
    assert!(matches!(current_user(Some(None), Some("token")), SessionStep::Known(None)));
    match current_user(None, Some("token")) {
        SessionStep::LookUp(token) => assert_eq!(token, "token"),
        SessionStep::Known(_) => panic!("the session is to be looked up"),
    }
    assert!(matches!(current_user(None, None), SessionStep::Known(None)));
}

#[test]
fn account_switches_are_enforced() {
    let mut settings = settings();
    assert_eq!(ensure_accounts_enabled(&settings), Ok(()));
    assert_eq!(ensure_local_accounts_enabled(&settings), Ok(()));
    settings.features.local_login = false;
    assert_eq!(ensure_accounts_enabled(&settings), Ok(()));
    assert_eq!(ensure_local_accounts_enabled(&settings), Err(AppError::Forbidden));
    settings.features.accounts = false;
    assert_eq!(ensure_accounts_enabled(&settings), Err(AppError::Forbidden));
}

#[test]
fn forms_need_the_token_of_the_cookie() {
    assert_eq!(validate_csrf(Some("t"), Some(" t ")), Ok(()));
    assert_eq!(validate_csrf(Some("t"), Some("u")), Err(AppError::Forbidden));
    assert_eq!(
        validate_csrf(Some("t"), Some("  ")),
        Err(AppError::BadRequest("missing CSRF token".to_string()))
    );
    assert_eq!(
        validate_csrf(Some("t"), None),
        Err(AppError::BadRequest("missing CSRF token".to_string()))
    );
    assert_eq!(
        validate_csrf(None, Some("t")),
        Err(AppError::BadRequest("missing CSRF cookie".to_string()))
    );
}

#[test]
fn api_callers_are_told_apart() {
    let mut settings = settings();
    let bearer = headers(&[("authorization", "Bearer abc")]);
    assert_eq!(bearer_token(&bearer).unwrap(), "abc");
    assert!(bearer_token(&headers(&[("authorization", "Basic abc")])).is_none());
    match api_access(&settings, &bearer) {
        ApiStep::LookUp(token) => assert_eq!(token, "abc"),
        _ => panic!("the token is to be looked up"),
    }
    assert!(matches!(api_access(&settings, &HeaderMap::new()), ApiStep::Anonymous));
    settings.policy.use_api = ActionRule::Moderator;
    assert!(matches!(
        api_access(&settings, &HeaderMap::new()),
        ApiStep::Refused(AppError::Unauthorized)
    ));
    let found = |role: Role| Some((user("u1", role), vec!["read".to_string()]));
    assert!(matches!(api_authenticated_user(&settings, None), Err(AppError::Unauthorized)));
    assert!(matches!(
        api_authenticated_user(&settings, found(Role::User)),
        Err(AppError::Forbidden)
    ));
    let actor = api_authenticated_user(&settings, found(Role::Moderator)).unwrap();
    assert_eq!(actor.user.id, "u1");
    assert_eq!(actor.scopes, vec!["read".to_string()]);
    settings.features.api = false;
    assert!(matches!(
        api_access(&settings, &bearer),
        ApiStep::Refused(AppError::Forbidden)
    ));

    assert!(api_user(None).is_none());
    let caller = api_user(Some(ApiAuthenticatedUser {
        user: user("u2", Role::Admin),
        scopes: Vec::new(),
    }));
    assert_eq!(api_role_user(caller, Role::Admin).unwrap().id, "u2");
    assert!(matches!(
        api_role_user(Some(user("u2", Role::Moderator)), Role::Admin),
        Err(AppError::Forbidden)
    ));
    assert!(matches!(api_role_user(None, Role::User), Err(AppError::Unauthorized)));
}

#[test]
fn cookies_are_confined_to_the_site() {
    let cookie = session_cookie(&settings(), "token".to_string(), Some(60), true);
    assert_eq!(cookie.name, "midden_session");
    assert_eq!(cookie.value, "token");
    assert_eq!(cookie.path, "/");
    assert!(cookie.http_only && cookie.same_site_lax && cookie.secure);
    assert_eq!(cookie.max_age_seconds, Some(60));
    let cookie = transient_cookie("state", "x".to_string(), false);
    assert_eq!(cookie.name, "state");
    assert!(!cookie.secure);
    assert_eq!(cookie.max_age_seconds, Some(600));
}

#[test]
fn scopes_are_listed_without_blanks() {
    assert_eq!(parse_scopes(" read, ,write ,"), vec!["read".to_string(), "write".to_string()]);
    assert!(parse_scopes("").is_empty());
}

#[test]
fn visibilities_are_read_from_forms() {
    let mut settings = settings();
    assert_eq!(requested_visibility(&settings, None), Ok("unlisted"));
    assert_eq!(requested_visibility(&settings, Some("  ")), Ok("unlisted"));
    assert_eq!(requested_visibility(&settings, Some(" unlisted ")), Ok("unlisted"));
    assert_eq!(requested_visibility(&settings, Some("private")), Ok("private"));
    assert_eq!(
        requested_visibility(&settings, Some("public")),
        Err(AppError::BadRequest(
            "public visibility requires public browse to be enabled".to_string()
        ))
    );
    assert_eq!(
        requested_visibility(&settings, Some("secret")),
        Err(AppError::BadRequest("invalid visibility".to_string()))
    );
    settings.features.public_browse = true;
    assert_eq!(requested_visibility(&settings, Some("public")), Ok("public"));
}

fn read(text: Option<&str>) -> Result<Option<i64>, String> {
    match text {
        None | Some("never") => Ok(None),
        Some("1d") => Ok(Some(86_400 + 1000)),
        Some("7d") => Ok(Some(7 * 86_400 + 1000)),
        Some("30d") => Ok(Some(30 * 86_400 + 1000)),
        Some("60d") => Ok(Some(60 * 86_400 + 1000)),
        Some(_) => Err("no such time".to_string()),
    }
}

#[test]
fn expiries_are_held_against_their_maximum() {
    let mut settings = settings();
    let alice = user("u1", Role::User);
    let check = |settings: &RuntimeSettings, user: Option<&User>, kind: &str, input, default| {
        parse_expiry_or_default_checked(settings, user, kind, input, default, read, 1000)
    };
    let bad = |message: &str| Err(AppError::BadRequest(message.to_string()));
    assert_eq!(check(&settings, None, "file", Some(" 1d "), None), Ok(Some(87_400)));
    assert_eq!(check(&settings, None, "file", Some(" "), Some("7d")), Ok(Some(605_800)));
    assert_eq!(check(&settings, None, "file", Some("30d"), None), Ok(Some(2_593_000)));
    assert_eq!(
        check(&settings, None, "file", Some("60d"), None),
        bad("expiry exceeds configured maximum")
    );
    assert_eq!(check(&settings, Some(&alice), "file", Some("60d"), None), Ok(Some(5_185_000)));
    assert_eq!(
        check(&settings, None, "paste", Some("7d"), None),
        bad("expiry exceeds configured maximum")
    );
    assert_eq!(
        check(&settings, Some(&alice), "paste", Some("1d"), None),
        bad("max expiry cannot be never")
    );
    assert_eq!(check(&settings, None, "other", Some("60d"), None), Ok(Some(5_185_000)));
    assert_eq!(
        check(&settings, None, "file", Some("soon"), None),
        bad("invalid expiry: no such time")
    );
    assert_eq!(check(&settings, None, "file", None, None), Ok(None));
    settings.limits.expiry.allow_never = false;
    assert_eq!(
        check(&settings, None, "file", None, None),
        bad("never-expiring items are disabled")
    );
    settings.limits.expiry.anonymous_max_file_expiry = Some("bogus".to_string());
    assert_eq!(
        check(&settings, None, "file", Some("1d"), None),
        bad("invalid max expiry config: no such time")
    );
    // The differences are brought into range instead of wrapping around.
    assert_eq!(
        checked_expiry(true, Ok(Some(i64::MAX)), Some(Ok(Some(5))), -1),
        bad("expiry exceeds configured maximum")
    );
    assert_eq!(checked_expiry(true, Ok(Some(5)), Some(Ok(Some(5))), 0), Ok(Some(5)));
}

#[test]
fn items_are_seen_by_whom_they_are_for() {
    let mut settings = settings();
    let owner = user("u1", Role::User);
    let other = user("u2", Role::User);
    let moderator = user("u3", Role::Moderator);
    let admin = user("u4", Role::Admin);
    let see = |settings: &RuntimeSettings, user: Option<&User>, visibility: &str| {
        authorize_item_view(settings, user, Some("u1"), visibility)
    };
    assert_eq!(see(&settings, Some(&owner), "private"), Ok(()));
    assert_eq!(see(&settings, Some(&other), "private"), Err(AppError::Forbidden));
    assert_eq!(see(&settings, None, "private"), Err(AppError::Forbidden));
    assert_eq!(see(&settings, Some(&moderator), "private"), Ok(()));
    assert_eq!(see(&settings, Some(&admin), "private"), Ok(()));
    assert_eq!(
        authorize_item_view(&settings, Some(&owner), None, "private"),
        Err(AppError::Forbidden)
    );
    assert_eq!(see(&settings, None, "unlisted"), Ok(()));
    settings.policy.view_item = ActionRule::Authenticated;
    assert_eq!(see(&settings, None, "unlisted"), Err(AppError::Forbidden));
    assert_eq!(see(&settings, Some(&other), "public"), Ok(()));
    settings.policy.view_item = ActionRule::Disabled;
    assert_eq!(see(&settings, Some(&moderator), "public"), Err(AppError::Forbidden));
    assert_eq!(see(&settings, Some(&admin), "public"), Ok(()));
}
