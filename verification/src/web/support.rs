//! What the routes share: origins and links, callers and their addresses, access and forms.

use axum::http::HeaderMap;
use vstd::prelude::*;
use vstd::string::*;

use crate::config::{ActionRule, RateLimitBackend, RateLimitConfig, RuntimeSettings, ServerConfig};
use crate::error::{bad_request, AppError};
use crate::http::{all_values, header_str, header_text, ResponseHead};
use crate::ip::{parse_forwarded_ip, write_ip, IpAddr};
use crate::links::{parse_url, UrlParts};
use crate::model::{FileItem, Role, User};
use crate::number::{parse_port, push_decimal, push_signed_decimal};
use crate::policy;
use crate::rate_limit::{saturating_difference, RateLimiter};
use crate::signing::sign_internal_file_url;
use crate::text::{
    chars_of, comma_list, eq_ignore_ascii_case, find_first, find_last, opt_str, same, strip_prefix,
    string_of, to_ascii_lowercase, trim, trim_end_char, trim_present,
};

#[allow(unused_imports)]
use crate::error::{seen, ErrorView};
#[allow(unused_imports)]
use crate::http::{
    at_most, byte_views, has_room, header_line, header_values, is_header_name, is_visible_chars,
    lemma_decimal_is_visible, lemma_visible_concat, text_of, values_of, with_header,
};
#[allow(unused_imports)]
use crate::ip::{forwarded_ip_value, ip_text, ip_text_reads_back, opt_ip, IpView};
#[allow(unused_imports)]
use crate::links::{parsed_url, url_result, UrlView};
#[allow(unused_imports)]
use crate::number::{
    decimal, decimal_reads_back, is_digit, natural_value, port_value, signed_decimal,
    written_numbers_are_read,
};
#[allow(unused_imports)]
use crate::policy::permits;
#[allow(unused_imports)]
use crate::rate_limit::{bucket_key, memory_answer, memory_buckets, saturated};
#[allow(unused_imports)]
use crate::signing::signature;
#[allow(unused_imports)]
use crate::text::{
    a_prefix_is_what_stands_in_front, a_trimmed_text_stays, behind_prefix, first_at, has_prefix, is_white_space, last_at, lemma_char_code, lemma_first_at_is,
    lemma_last_at, listed, lower, lower_case_changes_capitals_alone, lowercase,
    only_blank_texts_are_trimmed_away, opt_string_view, opt_view, present, split, trimmed, views,
    without_trailing,
};

verus! {

/// Who may keep a response: any cache, or none.
#[derive(Debug, Clone, Copy, PartialEq, Eq, Structural)]
pub enum CacheScope {
    Public,
    Private,
}

/// What a response says of caches.
pub open spec fn cache_control(seconds: u64, scope: CacheScope) -> Seq<char> {
    match scope {
        CacheScope::Private => "private, no-store"@,
        CacheScope::Public => if seconds == 0 {
            "no-store"@
        } else {
            "public, max-age="@ + decimal(seconds as nat)
        },
    }
}

/// What a response says of caches is visible ASCII.
proof fn lemma_cache_control_is_visible(seconds: u64, scope: CacheScope)
    ensures
        is_visible_chars(cache_control(seconds, scope)),
{
    reveal_strlit("private, no-store");
    reveal_strlit("no-store");
    reveal_strlit("public, max-age=");
    assert(is_visible_chars("public, max-age="@));
    lemma_decimal_is_visible(seconds as nat);
    lemma_visible_concat("public, max-age="@, decimal(seconds as nat));
}

/// Says in a response who may keep it.
pub fn insert_cache_control(response: &mut ResponseHead, seconds: u64, scope: CacheScope)
    requires
        has_room(old(response)@, 1),
    ensures
        final(response).status == old(response).status,
        final(response)@ == with_header(
            old(response)@,
            "cache-control"@,
            cache_control(seconds, scope),
        ),
        forall|n: nat| #[trigger] at_most(old(response)@, n) ==> at_most(final(response)@, n + 1),
{
    proof {
        lemma_cache_control_is_visible(seconds, scope);
    }
    match scope {
        CacheScope::Private => response.set_visible("cache-control", "private, no-store"),
        CacheScope::Public => {
            if seconds == 0 {
                response.set_visible("cache-control", "no-store");
            } else {
                let mut value: String = "public, max-age=".to_owned();
                push_decimal(&mut value, seconds);
                response.set_visible("cache-control", value.as_str());
            }
        },
    }
}

/// The base of the application's own links.
pub open spec fn app_base(public_base_url: Seq<char>) -> Seq<char> {
    without_trailing(public_base_url, '/')
}

/// The base of links to files: the one that is set apart for files, else the application's own.
pub open spec fn file_base(public_base_url: Seq<char>, file_base_url: Option<Seq<char>>) -> Seq<
    char,
> {
    match file_base_url {
        Some(url) if trimmed(url).len() > 0 => without_trailing(url, '/'),
        _ => without_trailing(public_base_url, '/'),
    }
}

/// The base of the application's own links.
pub fn app_base_url(server: &ServerConfig) -> (r: String)
    ensures
        r@ == app_base(server.public_base_url@),
{
    trim_end_char(server.public_base_url.as_str(), '/').to_owned()
}

/// The base of links to files.
pub fn file_base_url(server: &ServerConfig, settings: &RuntimeSettings) -> (r: String)
    ensures
        r@ == file_base(
            server.public_base_url@,
            opt_string_view(settings.delivery.public_file_base_url),
        ),
{
    match &settings.delivery.public_file_base_url {
        Some(url) => {
            if !trim(url.as_str()).is_empty() {
                return trim_end_char(url.as_str(), '/').to_owned();
            }
        },
        None => {},
    }
    trim_end_char(server.public_base_url.as_str(), '/').to_owned()
}

/// Whether viewing a file requires a signed-in caller.
///
/// A separate file domain is a separate origin, so the browser never sends it the session cookie
/// and no request arriving there can be authorised. Anything that needs a session therefore has to
/// stay on the application origin.
pub open spec fn needs_app_origin(view_item: ActionRule, visibility: Seq<char>) -> bool {
    visibility == "private"@ || view_item != ActionRule::Anonymous
}

/// Whether viewing this file requires a signed-in caller.
pub fn file_needs_app_origin(settings: &RuntimeSettings, file: &FileItem) -> (r: bool)
    ensures
        r == needs_app_origin(settings.policy.view_item, file.visibility@),
{
    same(file.visibility.as_str(), "private") || settings.policy.view_item != ActionRule::Anonymous
}

/// The origin that is able to serve a file's bytes.
pub open spec fn origin_of_file(
    server: &ServerConfig,
    settings: &RuntimeSettings,
    file: &FileItem,
) -> Seq<char> {
    if needs_app_origin(settings.policy.view_item, file.visibility@) {
        app_base(server.public_base_url@)
    } else {
        file_base(
            server.public_base_url@,
            opt_string_view(settings.delivery.public_file_base_url),
        )
    }
}

/// The origin that is able to serve this file's bytes.
pub fn file_origin(server: &ServerConfig, settings: &RuntimeSettings, file: &FileItem) -> (r:
    String)
    ensures
        r@ == origin_of_file(server, settings, file),
{
    if file_needs_app_origin(settings, file) {
        app_base_url(server)
    } else {
        file_base_url(server, settings)
    }
}

/// The canonical link for a file: the preview page when there is one, the bytes otherwise.
pub open spec fn link_of_file(
    server: &ServerConfig,
    settings: &RuntimeSettings,
    file: &FileItem,
    slug: Seq<char>,
) -> Seq<char> {
    let base = if settings.features.preview_pages {
        app_base(server.public_base_url@)
    } else {
        origin_of_file(server, settings, file)
    };
    base + "/"@ + slug
}

/// The canonical link for a file, whose slug is its identifier with its extension.
pub fn file_url(
    server: &ServerConfig,
    settings: &RuntimeSettings,
    file: &FileItem,
    slug: &str,
) -> (r: String)
    ensures
        r@ == link_of_file(server, settings, file, slug@),
{
    // A preview page is application chrome, not file content, so it belongs on the app origin
    // where its stylesheet, scripts and session are reachable.
    let mut url: String = if settings.features.preview_pages {
        app_base_url(server)
    } else {
        file_origin(server, settings, file)
    };
    url.append("/");
    url.append(slug);
    url
}

/// The link to a file's bytes.
pub fn raw_file_url(server: &ServerConfig, settings: &RuntimeSettings, file: &FileItem) -> (r:
    String)
    ensures
        r@ == origin_of_file(server, settings, file) + "/files/"@ + file.public_id@ + "/raw"@,
{
    let mut url: String = file_origin(server, settings, file);
    url.append("/files/");
    url.append(file.public_id.as_str());
    url.append("/raw");
    url
}

/// The link to a file's thumbnail.
pub fn thumbnail_file_url(server: &ServerConfig, settings: &RuntimeSettings, file: &FileItem) -> (r:
    String)
    ensures
        r@ == origin_of_file(server, settings, file) + "/files/"@ + file.public_id@
            + "/thumbnail"@,
{
    let mut url: String = file_origin(server, settings, file);
    url.append("/files/");
    url.append(file.public_id.as_str());
    url.append("/thumbnail");
    url
}

/// The host and port a request was addressed to, normalised for comparison.
#[derive(Debug, Clone, PartialEq, Eq)]
pub struct RequestOrigin {
    pub host: String,
    pub port: Option<u16>,
}

/// An origin with its host as a sequence of characters.
pub struct OriginView {
    pub host: Seq<char>,
    pub port: Option<u16>,
}

impl View for RequestOrigin {
    type V = OriginView;

    open spec fn view(&self) -> OriginView {
        OriginView { host: self.host@, port: self.port }
    }
}

/// The view of an optional origin.
pub open spec fn opt_origin(origin: Option<RequestOrigin>) -> Option<OriginView> {
    match origin {
        Some(origin) => Some(origin@),
        None => None,
    }
}

/// The view of an optional origin that is borrowed.
pub open spec fn opt_origin_ref(origin: Option<&RequestOrigin>) -> Option<OriginView> {
    match origin {
        Some(origin) => Some(origin@),
        None => None,
    }
}

/// The authority of a request's URI.
#[derive(Debug, Clone)]
pub struct UriAuthority {
    pub host: String,
    pub port: Option<u16>,
}

/// A host name as it is compared. Host names are case-insensitive and may carry the root label's
/// trailing dot.
pub open spec fn normal_host(host: Seq<char>) -> Seq<char> {
    lowercase(without_trailing(host, '.'))
}

/// Hostnames are case-insensitive and may carry the root label's trailing dot.
pub fn normalize_host(host: &str) -> (r: String)
    ensures
        r@ == normal_host(host@),
{
    to_ascii_lowercase(trim_end_char(host, '.'))
}

/// The port in the tail of an authority: an absent one is valid and a malformed one is not.
pub open spec fn authority_port(rest: Seq<char>) -> Option<Option<u16>> {
    if rest.len() == 0 {
        Some(None)
    } else if rest[0] == ':' {
        match port_value(rest.skip(1)) {
            Some(port) => Some(Some(port)),
            None => None,
        }
    } else {
        None
    }
}

/// Reads the `:port` tail of an authority, where an absent port is valid and a malformed one is
/// not.
pub fn parse_authority_port(rest: &str) -> (r: Option<Option<u16>>)
    ensures
        r == authority_port(rest@),
{
    let cs: Vec<char> = chars_of(rest);
    let n: usize = cs.len();
    if n == 0 {
        return Some(None);
    }
    if cs[0] != ':' {
        return None;
    }
    assert(rest@.subrange(1, n as int) =~= rest@.skip(1));
    match parse_port(rest.substring_char(1, n)) {
        Some(port) => Some(Some(port)),
        None => None,
    }
}

/// The origin that the text of an authority stands for: a host, or an address in square brackets,
/// with a port behind it or none.
pub open spec fn origin_value(value: Seq<char>) -> Option<OriginView> {
    let v = trimmed(value);
    let rest = v.skip(1);
    let close = first_at(rest, ']');
    let colon = last_at(v, ':');
    if v.len() == 0 {
        None
    } else if v[0] == '[' && close < rest.len() {
        match authority_port(rest.skip(close + 1)) {
            Some(port) => Some(
                OriginView { host: "["@ + normal_host(rest.take(close)) + "]"@, port },
            ),
            None => None,
        }
    } else if colon < 0 {
        Some(OriginView { host: normal_host(v), port: None })
    } else if colon == 0 {
        None
    } else {
        match port_value(v.skip(colon + 1)) {
            Some(port) => Some(
                OriginView { host: normal_host(v.take(colon)), port: Some(port) },
            ),
            None => None,
        }
    }
}

/// The origin that a request is addressed to, by the host and port of its URI or by its headers.
pub open spec fn addressed_origin(
    authority: Option<(Seq<char>, Option<u16>)>,
    headers: Map<Seq<char>, Seq<Seq<u8>>>,
) -> Option<OriginView> {
    match authority {
        Some((host, port)) => Some(OriginView { host: normal_host(host), port }),
        None => match header_line(headers, "host"@) {
            Some(value) => origin_value(value),
            None => None,
        },
    }
}

impl RequestOrigin {
    /// Resolves the origin from the URI authority first and the `Host` header second.
    ///
    /// HTTP/2 has no `Host` header: the authority arrives as a pseudo-header, which the server puts
    /// on the URI. Reading only the header map takes the file origin offline for any deployment
    /// whose proxy speaks that version upstream.
    pub fn from_request(authority: Option<&UriAuthority>, headers: &HeaderMap) -> (r: Option<Self>)
        ensures
            opt_origin(r) == addressed_origin(
                match authority {
                    Some(authority) => Some((authority.host@, authority.port)),
                    None => None,
                },
                header_values(*headers),
            ),
    {
        match authority {
            Some(authority) => Some(
                RequestOrigin {
                    host: normalize_host(authority.host.as_str()),
                    port: authority.port,
                },
            ),
            None => match header_str(headers, "host") {
                Some(value) => Self::parse(value.as_str()),
                None => None,
            },
        }
    }

    /// Reads the text of an authority.
    pub fn parse(value: &str) -> (r: Option<Self>)
        ensures
            opt_origin(r) == origin_value(value@),
    {
        let v: &str = trim(value);
        if v.is_empty() {
            return None;
        }
        let cs: Vec<char> = chars_of(v);
        let n: usize = cs.len();
        if cs[0] == '[' {
            let rest: &[char] = vstd::slice::slice_subrange(cs.as_slice(), 1, n);
            assert(rest@ =~= v@.skip(1));
            let close: usize = find_first(rest, ']');
            if close < rest.len() {
                let host: String = string_of(vstd::slice::slice_subrange(rest, 0, close));
                let tail: String = string_of(
                    vstd::slice::slice_subrange(rest, close + 1, rest.len()),
                );
                assert(host@ =~= rest@.take(close as int));
                assert(tail@ =~= rest@.skip(close + 1));
                return match parse_authority_port(tail.as_str()) {
                    Some(port) => {
                        let mut name: String = "[".to_owned();
                        name.append(normalize_host(host.as_str()).as_str());
                        name.append("]");
                        Some(RequestOrigin { host: name, port })
                    },
                    None => None,
                };
            }
        }
        match find_last(cs.as_slice(), ':') {
            Some(colon) => {
                if colon == 0 {
                    return None;
                }
                assert(v@.subrange(0, colon as int) =~= v@.take(colon as int));
                assert(v@.subrange(colon + 1, n as int) =~= v@.skip(colon + 1));
                match parse_port(v.substring_char(colon + 1, n)) {
                    Some(port) => Some(
                        RequestOrigin {
                            host: normalize_host(v.substring_char(0, colon)),
                            port: Some(port),
                        },
                    ),
                    None => None,
                }
            },
            None => Some(RequestOrigin { host: normalize_host(v), port: None }),
        }
    }
}

/// The origin of a URL, where it has a host.
pub open spec fn origin_of_url(url: Result<UrlView, Seq<char>>) -> Option<OriginView> {
    match url {
        Ok(url) => match url.host {
            Some(host) => Some(OriginView { host: normal_host(host), port: url.port }),
            None => None,
        },
        Err(_) => None,
    }
}

/// The origin of a URL, where it has a host.
pub fn url_origin(url: &Result<UrlParts, String>) -> (r: Option<RequestOrigin>)
    ensures
        opt_origin(r) == origin_of_url(url_result(*url)),
{
    match url {
        Ok(url) => match &url.host {
            Some(host) => Some(
                RequestOrigin { host: normalize_host(host.as_str()), port: url.port },
            ),
            None => None,
        },
        Err(_) => None,
    }
}

/// The origin that is set apart for files.
pub open spec fn file_origin_setting(file_base_url: Option<Seq<char>>) -> Option<OriginView> {
    match file_base_url {
        Some(url) => origin_of_url(parsed_url(trimmed(url))),
        None => None,
    }
}

/// The origin that is set apart for files.
pub fn configured_file_origin(settings: &RuntimeSettings) -> (r: Option<RequestOrigin>)
    ensures
        opt_origin(r) == file_origin_setting(
            opt_string_view(settings.delivery.public_file_base_url),
        ),
{
    match &settings.delivery.public_file_base_url {
        Some(url) => url_origin(&parse_url(trim(url.as_str()))),
        None => None,
    }
}

/// Whether a request reached a configured origin.
///
/// Proxies disagree about whether to forward the scheme's default port, so an absent port matches
/// whatever was configured. Only a port that was forwarded *and* differs is a mismatch.
pub open spec fn reaches(configured: Option<OriginView>, origin: Option<OriginView>) -> bool {
    match (configured, origin) {
        (Some(configured), Some(origin)) => configured.host == origin.host && (origin.port is None
            || origin.port == configured.port),
        _ => false,
    }
}

/// Whether a request reached a configured origin.
pub fn origin_reached(configured: Option<&RequestOrigin>, origin: Option<&RequestOrigin>) -> (r:
    bool)
    ensures
        r == reaches(opt_origin_ref(configured), opt_origin_ref(origin)),
{
    match (configured, origin) {
        (Some(configured), Some(origin)) => {
            if !same(configured.host.as_str(), origin.host.as_str()) {
                return false;
            }
            match (origin.port, configured.port) {
                (None, _) => true,
                (Some(port), Some(expected)) => port == expected,
                (Some(_), None) => false,
            }
        },
        _ => false,
    }
}

/// Whether a request reached the isolated file origin.
pub open spec fn reaches_file_host(settings: &RuntimeSettings, origin: Option<OriginView>) -> bool {
    settings.delivery.isolated_file_origin && reaches(
        file_origin_setting(opt_string_view(settings.delivery.public_file_base_url)),
        origin,
    )
}

/// Whether a request reached the isolated file origin.
pub fn matches_file_host(settings: &RuntimeSettings, origin: Option<&RequestOrigin>) -> (r: bool)
    ensures
        r == reaches_file_host(settings, opt_origin_ref(origin)),
{
    if !settings.delivery.isolated_file_origin {
        return false;
    }
    let configured: Option<RequestOrigin> = configured_file_origin(settings);
    match &configured {
        Some(configured) => origin_reached(Some(configured), origin),
        None => false,
    }
}

/// Trimming a host at its end and changing its case do not interfere.
proof fn lemma_lowercase_keeps_the_end(host: Seq<char>)
    ensures
        lowercase(without_trailing(host, '.')) == without_trailing(lowercase(host), '.'),
    decreases host.len(),
{
    if host.len() > 0 {
        assert(lowercase(host).last() == lower(host.last()));
        lemma_char_code(host.last());
        assert(lower(host.last()) == '.' <==> host.last() == '.');
        assert(lowercase(host).drop_last() =~= lowercase(host.drop_last()));
        if host.last() == '.' {
            lemma_lowercase_keeps_the_end(host.drop_last());
        }
    }
}

/// Hosts that differ in nothing but the case of their letters are the same host.
pub proof fn hosts_are_compared_without_their_case(one: Seq<char>, other: Seq<char>)
    requires
        lowercase(one) == lowercase(other),
    ensures
        normal_host(one) == normal_host(other),
{
    lemma_lowercase_keeps_the_end(one);
    lemma_lowercase_keeps_the_end(other);
}

/// A host is the same with the dot of the root label behind it and without.
pub proof fn the_root_dot_makes_no_difference(host: Seq<char>)
    ensures
        normal_host(host.push('.')) == normal_host(host),
{
    assert(host.push('.').drop_last() =~= host);
}

/// A request without a port reaches an origin by its host alone; one with a port only where the
/// ports agree.
pub proof fn an_absent_port_matches_any(configured: OriginView, host: Seq<char>, port: u16)
    ensures
        reaches(Some(configured), Some(OriginView { host, port: None })) <==> configured.host
            == host,
        reaches(Some(configured), Some(OriginView { host, port: Some(port) })) <==> configured.host
            == host && configured.port == Some(port),
{
}

/// The origin of a request: the one that was resolved when it came in, else that of its headers.
pub open spec fn request_origin(
    resolved: Option<OriginView>,
    headers: Map<Seq<char>, Seq<Seq<u8>>>,
) -> Option<OriginView> {
    match resolved {
        Some(origin) => Some(origin),
        None => match header_line(headers, "host"@) {
            Some(value) => origin_value(value),
            None => None,
        },
    }
}

/// Whether a request with these headers reached the isolated file origin; `resolved` is the origin
/// that was resolved when the request came in.
pub fn is_isolated_file_host(
    settings: &RuntimeSettings,
    resolved: Option<&RequestOrigin>,
    headers: &HeaderMap,
) -> (r: bool)
    ensures
        r == reaches_file_host(
            settings,
            request_origin(opt_origin_ref(resolved), header_values(*headers)),
        ),
{
    if resolved.is_some() {
        return matches_file_host(settings, resolved);
    }
    let origin: Option<RequestOrigin> = RequestOrigin::from_request(None, headers);
    match &origin {
        Some(origin) => matches_file_host(settings, Some(origin)),
        None => matches_file_host(settings, None),
    }
}

/// The internal link to a file's bytes that is good until `expires`.
pub open spec fn internal_link(
    base: Seq<char>,
    secret: Seq<char>,
    public_id: Seq<char>,
    expires: i64,
) -> Seq<char> {
    base + "/internal/files/"@ + public_id + "/raw?expires="@ + signed_decimal(expires as int)
        + "&signature="@ + signature(secret, public_id, expires)
}

/// The second until which an internal link that is made now is good.
pub open spec fn internal_link_expiry(settings: &RuntimeSettings, now: i64) -> int {
    if settings.delivery.internal_url_ttl_seconds < 1 {
        now + 1
    } else {
        now + settings.delivery.internal_url_ttl_seconds
    }
}

/// The secret that internal links are signed with, where they are in use.
pub open spec fn internal_secret(settings: &RuntimeSettings) -> Option<Seq<char>> {
    match settings.delivery.internal_url_secret {
        Some(secret) if settings.delivery.signed_internal_urls && secret@.len() > 0 => Some(
            secret@,
        ),
        _ => None,
    }
}

/// The secret that internal links are signed with, where they are in use.
pub fn internal_link_secret(settings: &RuntimeSettings) -> (r: Option<&str>)
    ensures
        opt_view(r) == internal_secret(settings),
{
    if !settings.delivery.signed_internal_urls {
        return None;
    }
    match &settings.delivery.internal_url_secret {
        Some(secret) => if secret.as_str().is_empty() {
            None
        } else {
            Some(secret.as_str())
        },
        None => None,
    }
}

/// A link to a file's bytes that works without a session until it expires.
pub open spec fn signed_link(
    server: &ServerConfig,
    settings: &RuntimeSettings,
    public_id: Seq<char>,
    now: i64,
) -> Option<Seq<char>> {
    match internal_secret(settings) {
        Some(secret) => Some(
            internal_link(
                app_base(server.public_base_url@),
                secret,
                public_id,
                internal_link_expiry(settings, now) as i64,
            ),
        ),
        None => None,
    }
}

/// A link to a file's bytes that works without a session until it expires.
pub fn signed_internal_raw_url(
    server: &ServerConfig,
    settings: &RuntimeSettings,
    file: &FileItem,
    now: i64,
) -> (r: Option<String>)
    requires
        internal_secret(settings) is Some ==> internal_link_expiry(settings, now) <= i64::MAX,
    ensures
        opt_string_view(r) == signed_link(server, settings, file.public_id@, now),
{
    let secret: &str = match internal_link_secret(settings) {
        Some(secret) => secret,
        None => {
            return None;
        },
    };
    let ttl: i64 = settings.delivery.internal_url_ttl_seconds;
    let expires: i64 = if ttl < 1 {
        now + 1
    } else {
        now + ttl
    };
    let signature: String = sign_internal_file_url(secret, file.public_id.as_str(), expires);
    let mut url: String = app_base_url(server);
    url.append("/internal/files/");
    url.append(file.public_id.as_str());
    url.append("/raw?expires=");
    push_signed_decimal(&mut url, expires);
    url.append("&signature=");
    url.append(signature.as_str());
    Some(url)
}

/// Whether the headers say that a fragment of a page is asked for.
pub open spec fn asks_for_fragment(headers: Map<Seq<char>, Seq<Seq<u8>>>) -> bool {
    match header_line(headers, "hx-request"@) {
        Some(value) => lowercase(value) == lowercase("true"@),
        None => false,
    }
}

/// Whether a fragment of a page is asked for.
pub fn htmx_request(headers: &HeaderMap) -> (r: bool)
    ensures
        r == asks_for_fragment(header_values(*headers)),
{
    match header_str(headers, "hx-request") {
        Some(value) => eq_ignore_ascii_case(value.as_str(), "true"),
        None => false,
    }
}

/// What is left to do to learn who makes a request.
#[derive(Debug, Clone)]
pub enum SessionStep {
    /// The caller is known: signed in, or anonymous.
    Known(Option<User>),
    /// The caller is whoever holds the session with this token.
    LookUp(String),
}

/// What is left to do to learn who makes a request, with its text as a sequence of characters.
pub enum SessionStepView {
    Known(Option<User>),
    LookUp(Seq<char>),
}

impl View for SessionStep {
    type V = SessionStepView;

    open spec fn view(&self) -> SessionStepView {
        match self {
            SessionStep::Known(user) => SessionStepView::Known(*user),
            SessionStep::LookUp(token) => SessionStepView::LookUp(token@),
        }
    }
}

/// How to learn who makes a request.
pub open spec fn session_step(
    resolved: Option<Option<User>>,
    cookie: Option<Seq<char>>,
) -> SessionStepView {
    match (resolved, cookie) {
        (Some(user), _) => SessionStepView::Known(user),
        (None, Some(token)) => SessionStepView::LookUp(token),
        (None, None) => SessionStepView::Known(None),
    }
}

/// How to learn who makes a request: from what was found out when it came in, else by the session
/// cookie.
pub fn current_user(resolved: Option<Option<User>>, session_cookie: Option<&str>) -> (r: SessionStep)
    ensures
        r@ == session_step(resolved, opt_view(session_cookie)),
{
    match (resolved, session_cookie) {
        (Some(user), _) => SessionStep::Known(user),
        (None, Some(token)) => SessionStep::LookUp(token.to_owned()),
        (None, None) => SessionStep::Known(None),
    }
}

/// What becomes of a request that needs accounts, and with `password` signing in with one.
pub open spec fn account_check(settings: &RuntimeSettings, password: bool) -> Result<(), ErrorView> {
    if settings.features.accounts && (password ==> settings.features.local_login) {
        Ok(())
    } else {
        Err(ErrorView::Forbidden)
    }
}

/// Turns a request down where accounts are switched off.
pub fn ensure_accounts_enabled(settings: &RuntimeSettings) -> (r: Result<(), AppError>)
    ensures
        seen(r) == account_check(settings, false),
{
    if settings.features.accounts {
        Ok(())
    } else {
        Err(AppError::Forbidden)
    }
}

/// Turns a request down where accounts or signing in with a password are switched off.
pub fn ensure_local_accounts_enabled(settings: &RuntimeSettings) -> (r: Result<(), AppError>)
    ensures
        seen(r) == account_check(settings, true),
{
    if settings.features.accounts && settings.features.local_login {
        Ok(())
    } else {
        Err(AppError::Forbidden)
    }
}

/// What becomes of a form: the token in it has to be the one in the cookie.
pub open spec fn csrf_check(cookie: Option<Seq<char>>, submitted: Option<Seq<char>>) -> Result<
    (),
    ErrorView,
> {
    match (cookie, present(submitted)) {
        (None, _) => Err(ErrorView::BadRequest("missing CSRF cookie"@)),
        (Some(_), None) => Err(ErrorView::BadRequest("missing CSRF token"@)),
        (Some(expected), Some(token)) => if token == expected {
            Ok(())
        } else {
            Err(ErrorView::Forbidden)
        },
    }
}

/// Turns a form down unless it holds the token that the cookie holds.
pub fn validate_csrf(cookie: Option<&str>, submitted: Option<&str>) -> (r: Result<(), AppError>)
    ensures
        seen(r) == csrf_check(opt_view(cookie), opt_view(submitted)),
{
    let expected: &str = match cookie {
        Some(expected) => expected,
        None => {
            return Err(bad_request("missing CSRF cookie"));
        },
    };
    match trim_present(submitted) {
        Some(token) => if same(token, expected) {
            Ok(())
        } else {
            Err(AppError::Forbidden)
        },
        None => Err(bad_request("missing CSRF token")),
    }
}

/// A form is accepted only where it holds the token of the cookie.
pub proof fn forms_of_other_sites_are_turned_down(
    cookie: Option<Seq<char>>,
    submitted: Option<Seq<char>>,
)
    requires
        csrf_check(cookie, submitted) is Ok,
    ensures
        cookie is Some,
        submitted is Some,
        trimmed(submitted->0) == cookie->0,
        cookie->0.len() > 0,
{
}

/// What is left to do to learn whether a request is within its limit.
#[derive(Debug)]
pub enum RateLimitStep {
    /// The request was counted in memory.
    Counted(Result<(), AppError>),
    /// The request is counted in the database, under this identity and limit.
    AskDatabase { identity: String, limit: Option<RateLimitConfig> },
}

/// The limit of an action, where it has one.
pub open spec fn limit_of(settings: &RuntimeSettings, action: Seq<char>) -> Option<RateLimitConfig> {
    if settings.security.rate_limits@.contains_key(action) {
        Some(settings.security.rate_limits@[action])
    } else {
        None
    }
}

/// Counts a request against the limit of its action, or says what the database is to count.
pub fn enforce_rate_limit(
    limiter: &mut RateLimiter,
    settings: &RuntimeSettings,
    action: &str,
    identity: &str,
    now: i64,
) -> (r: RateLimitStep)
    ensures
        match settings.security.rate_limit_backend {
            RateLimitBackend::Memory => {
                let limit = limit_of(settings, action@);
                let key = bucket_key(action@, identity@);
                &&& final(limiter)@ == memory_buckets(old(limiter)@, limit, key, now)
                &&& r matches RateLimitStep::Counted(answer) && seen(answer) == memory_answer(
                    old(limiter)@,
                    limit,
                    key,
                    now,
                )
            },
            RateLimitBackend::Database => {
                &&& final(limiter)@ == old(limiter)@
                &&& r matches RateLimitStep::AskDatabase { identity: who, limit } && who@
                    == identity@ && limit == limit_of(settings, action@)
            },
        },
{
    let limit: Option<&RateLimitConfig> = settings.security.rate_limits.get(action);
    match settings.security.rate_limit_backend {
        RateLimitBackend::Memory => RateLimitStep::Counted(
            limiter.check(action, identity, limit, now),
        ),
        RateLimitBackend::Database => RateLimitStep::AskDatabase {
            identity: identity.to_owned(),
            limit: match limit {
                Some(limit) => Some(*limit),
                None => None,
            },
        },
    }
}

/// What becomes of a request that the database counted.
pub fn database_answer(within_limit: bool) -> (r: Result<(), AppError>)
    ensures
        seen(r) == if within_limit {
            Ok::<(), ErrorView>(())
        } else {
            Err(ErrorView::TooManyRequests)
        },
{
    if within_limit {
        Ok(())
    } else {
        Err(AppError::TooManyRequests)
    }
}

/// Whether an answer is one that the metrics count as a rejection.
pub fn is_rate_limit_rejection(answer: &Result<(), AppError>) -> (r: bool)
    ensures
        r == (seen(*answer) == Err::<(), ErrorView>(ErrorView::TooManyRequests)),
{
    match answer {
        Err(AppError::TooManyRequests) => true,
        _ => false,
    }
}

/// Under what name the requests of a caller are counted.
pub open spec fn identity_of(user: Option<Seq<char>>, ip: Option<IpView>) -> Seq<char> {
    match (user, ip) {
        (Some(id), _) => "user:"@ + id,
        (None, Some(ip)) => "ip:"@ + ip_text(ip),
        (None, None) => "anonymous"@,
    }
}

/// The identifier of a caller, where it is signed in.
pub open spec fn id_of(user: Option<&User>) -> Option<Seq<char>> {
    match user {
        Some(user) => Some(user.id@),
        None => None,
    }
}

/// Under what name the requests of a caller are counted: the account of a signed-in caller, else
/// the address.
pub fn rate_limit_identity(
    server: &ServerConfig,
    headers: &HeaderMap,
    user: Option<&User>,
    peer: Option<IpAddr>,
) -> (r: String)
    ensures
        r@ == identity_of(id_of(user), caller_ip(server, header_values(*headers), opt_ip(peer))),
{
    if let Some(user) = user {
        let mut identity: String = "user:".to_owned();
        identity.append(user.id.as_str());
        return identity;
    }
    match client_ip(server, headers, peer) {
        Some(ip) => {
            let mut identity: String = "ip:".to_owned();
            identity.append(write_ip(&ip).as_str());
            identity
        },
        // Sharing one bucket is the safe direction to fail: it throttles rather than exempts.
        None => "anonymous".to_owned(),
    }
}

/// The address of a caller: that of the connection, or in proxy deployments the one that the
/// proxies report.
pub open spec fn caller_ip(
    server: &ServerConfig,
    headers: Map<Seq<char>, Seq<Seq<u8>>>,
    peer: Option<IpView>,
) -> Option<IpView> {
    if !server.behind_proxy {
        peer
    } else {
        match forwarded_ip(
            hops_of(values_of(headers, "x-forwarded-for"@)),
            server.trusted_proxy_hops as nat,
        ) {
            Some(ip) => Some(ip),
            None => match header_ip_value(headers, "x-real-ip"@) {
                Some(ip) => Some(ip),
                None => peer,
            },
        }
    }
}

/// Resolves the caller's IP address, honouring forwarding headers only in proxy deployments.
pub fn client_ip(server: &ServerConfig, headers: &HeaderMap, peer: Option<IpAddr>) -> (r: Option<
    IpAddr,
>)
    ensures
        opt_ip(r) == caller_ip(server, header_values(*headers), opt_ip(peer)),
{
    if !server.behind_proxy {
        // Without a proxy in front, forwarding headers come straight from the caller.
        return peer;
    }
    match forwarded_client_ip(headers, server.trusted_proxy_hops) {
        Some(ip) => Some(ip),
        None => match header_ip(headers, "x-real-ip") {
            Some(ip) => Some(ip),
            None => peer,
        },
    }
}

/// The hops that the values of a forwarding header report, from left to right.
pub open spec fn hops_of(values: Seq<Seq<u8>>) -> Seq<Seq<char>>
    decreases values.len(),
{
    if values.len() == 0 {
        Seq::empty()
    } else {
        let before = hops_of(values.drop_last());
        match text_of(values.last()) {
            Some(text) => before + listed(split(text, ',')),
            None => before,
        }
    }
}

/// The address of the hop that is `trusted` from the right; nearer than the last there is none.
pub open spec fn forwarded_ip(hops: Seq<Seq<char>>, trusted: nat) -> Option<IpView> {
    let back: int = if trusted == 0 {
        1
    } else {
        trusted as int
    };
    if hops.len() < back {
        None
    } else {
        forwarded_ip_value(hops[hops.len() - back])
    }
}

/// Reads the hop `trusted_hops` from the right of `X-Forwarded-For`.
///
/// Our own proxies append to the right, so those entries are trustworthy while everything to
/// their left was supplied by the caller. Returns `None` when the header carries fewer hops than
/// configured, which means the request did not traverse the expected proxy chain.
pub fn forwarded_client_ip(headers: &HeaderMap, trusted_hops: usize) -> (r: Option<IpAddr>)
    ensures
        opt_ip(r) == forwarded_ip(
            hops_of(values_of(header_values(*headers), "x-forwarded-for"@)),
            trusted_hops as nat,
        ),
{
    let values: Vec<Vec<u8>> = all_values(headers, "x-forwarded-for");
    let ghost all = byte_views(values@);
    let mut hops: Vec<String> = Vec::new();
    let mut i: usize = 0;
    assert(views(hops@) =~= hops_of(all.take(0)));
    while i < values.len()
        invariant
            i <= values@.len(),
            all == byte_views(values@),
            views(hops@) == hops_of(all.take(i as int)),
        decreases values@.len() - i,
    {
        assert(all.take(i + 1).drop_last() =~= all.take(i as int));
        if let Some(text) = header_text(values[i].as_slice()) {
            let mut named: Vec<String> = comma_list(text.as_str());
            let ghost before = hops@;
            let ghost more = named@;
            hops.append(&mut named);
            assert(views(hops@) =~= views(before) + views(more));
        }
        i = i + 1;
    }
    assert(all.take(all.len() as int) =~= all);
    let back: usize = if trusted_hops == 0 {
        1
    } else {
        trusted_hops
    };
    if hops.len() < back {
        return None;
    }
    assert(views(hops@)[hops@.len() - back] == hops@[hops@.len() - back]@);
    parse_forwarded_ip(hops[hops.len() - back].as_str())
}

/// The address that a header holds.
pub open spec fn header_ip_value(
    headers: Map<Seq<char>, Seq<Seq<u8>>>,
    name: Seq<char>,
) -> Option<IpView> {
    match header_line(headers, name) {
        Some(text) => forwarded_ip_value(text),
        None => None,
    }
}

/// The address that a header holds.
fn header_ip(headers: &HeaderMap, name: &str) -> (r: Option<IpAddr>)
    requires
        is_header_name(name@),
    ensures
        opt_ip(r) == header_ip_value(header_values(*headers), name@),
{
    match header_str(headers, name) {
        Some(text) => parse_forwarded_ip(text.as_str()),
        None => None,
    }
}

/// What a caller puts in front of the hops that our own proxies report does not change the address
/// that it is known by.
pub proof fn spoofed_hops_change_nothing(
    spoofed: Seq<Seq<char>>,
    reported: Seq<Seq<char>>,
    trusted: nat,
)
    requires
        reported.len() >= trusted,
        reported.len() >= 1,
    ensures
        forwarded_ip(spoofed + reported, trusted) == forwarded_ip(reported, trusted),
{
    let back: int = if trusted == 0 {
        1
    } else {
        trusted as int
    };
    let hops = spoofed + reported;
    assert(hops[hops.len() - back] == reported[reported.len() - back]);
}

/// A value in front of the others puts its hops in front of theirs.
pub proof fn hops_keep_the_order_of_their_headers(first: Seq<u8>, rest: Seq<Seq<u8>>)
    ensures
        hops_of(seq![first] + rest) == hops_of(seq![first]) + hops_of(rest),
    decreases rest.len(),
{
    let all = seq![first] + rest;
    if rest.len() == 0 {
        assert(all =~= seq![first]);
        assert(hops_of(seq![first]) + hops_of(rest) =~= hops_of(seq![first]));
    } else {
        hops_keep_the_order_of_their_headers(first, rest.drop_last());
        assert(all.drop_last() =~= seq![first] + rest.drop_last());
        match text_of(rest.last()) {
            Some(text) => {
                assert(hops_of(all) =~= hops_of(seq![first]) + hops_of(rest));
            },
            None => {},
        }
    }
}

/// A chain that is shorter than the configured one is not believed.
pub proof fn short_chains_are_not_believed(hops: Seq<Seq<char>>, trusted: nat)
    requires
        hops.len() < trusted,
    ensures
        forwarded_ip(hops, trusted) is None,
{
}

/// Where no proxy stands in front, no header changes the address that a caller is known by.
pub proof fn direct_deployments_ignore_headers(
    server: &ServerConfig,
    one: Map<Seq<char>, Seq<Seq<u8>>>,
    other: Map<Seq<char>, Seq<Seq<u8>>>,
    peer: Option<IpView>,
)
    requires
        !server.behind_proxy,
    ensures
        caller_ip(server, one, peer) == peer,
        caller_ip(server, one, peer) == caller_ip(server, other, peer),
{
}

/// Two callers are counted under one name only where they are one: the same account, or two
/// anonymous callers at the same address.
pub proof fn callers_are_counted_apart(
    user: Option<Seq<char>>,
    ip: Option<IpView>,
    other_user: Option<Seq<char>>,
    other_ip: Option<IpView>,
)
    requires
        identity_of(user, ip) == identity_of(other_user, other_ip),
        ip matches Some(ip) ==> ip.wf(),
        other_ip matches Some(ip) ==> ip.wf(),
    ensures
        user == other_user,
        user is None ==> ip == other_ip,
{
    reveal_strlit("user:");
    reveal_strlit("ip:");
    reveal_strlit("anonymous");
    let name = identity_of(user, ip);
    assert(user is Some <==> name[0] == 'u');
    assert(user is None && ip is Some <==> name[0] == 'i');
    assert(other_user is Some <==> name[0] == 'u');
    assert(other_user is None && other_ip is Some <==> name[0] == 'i');
    if user is Some {
        assert(name.skip(5) =~= user->0);
        assert(name.skip(5) =~= other_user->0);
    } else if ip is Some {
        assert(name.skip(3) =~= ip_text(ip->0));
        assert(name.skip(3) =~= ip_text(other_ip->0));
        ip_text_reads_back(ip->0);
        ip_text_reads_back(other_ip->0);
    }
}

/// What is left to do to learn who uses the API.
#[derive(Debug)]
pub enum ApiStep {
    /// The request is turned down.
    Refused(AppError),
    /// The request is an anonymous one, and allowed.
    Anonymous,
    /// The caller is whoever holds this token.
    LookUp(String),
}

/// The token that a request carries.
pub open spec fn bearer_value(headers: Map<Seq<char>, Seq<Seq<u8>>>) -> Option<Seq<char>> {
    match header_line(headers, "authorization"@) {
        Some(value) => behind_prefix(value, "Bearer "@),
        None => None,
    }
}

/// The token that a request carries.
pub fn bearer_token(headers: &HeaderMap) -> (r: Option<String>)
    ensures
        opt_string_view(r) == bearer_value(header_values(*headers)),
{
    match header_str(headers, "authorization") {
        Some(value) => match strip_prefix(value.as_str(), "Bearer ") {
            Some(token) => Some(token.to_owned()),
            None => None,
        },
        None => None,
    }
}

/// What is left to do to learn who uses the API, with its texts as sequences of characters.
pub enum ApiStepView {
    Refused(ErrorView),
    Anonymous,
    LookUp(Seq<char>),
}

impl View for ApiStep {
    type V = ApiStepView;

    open spec fn view(&self) -> ApiStepView {
        match self {
            ApiStep::Refused(e) => ApiStepView::Refused(e@),
            ApiStep::Anonymous => ApiStepView::Anonymous,
            ApiStep::LookUp(token) => ApiStepView::LookUp(token@),
        }
    }
}

/// How to learn who uses the API, where `token` is the one that the request carries.
pub open spec fn api_step(settings: &RuntimeSettings, token: Option<Seq<char>>) -> ApiStepView {
    if !settings.features.api {
        ApiStepView::Refused(ErrorView::Forbidden)
    } else {
        match token {
            Some(token) => ApiStepView::LookUp(token),
            None => if permits(settings.policy.use_api, None) {
                ApiStepView::Anonymous
            } else {
                ApiStepView::Refused(ErrorView::Unauthorized)
            },
        }
    }
}

/// How to learn who uses the API.
pub fn api_access(settings: &RuntimeSettings, headers: &HeaderMap) -> (r: ApiStep)
    ensures
        r@ == api_step(settings, bearer_value(header_values(*headers))),
{
    if !settings.features.api {
        return ApiStep::Refused(AppError::Forbidden);
    }
    match bearer_token(headers) {
        Some(token) => ApiStep::LookUp(token),
        None => if policy::can_use_api(settings, None) {
            ApiStep::Anonymous
        } else {
            ApiStep::Refused(AppError::Unauthorized)
        },
    }
}

/// A caller that an API token stands for, with what the token is good for.
#[derive(Debug)]
pub struct ApiAuthenticatedUser {
    pub user: User,
    pub scopes: Vec<String>,
}

/// Who uses the API with a token, where `found` is whom the token was given to.
pub open spec fn token_holder(
    settings: &RuntimeSettings,
    found: Option<(User, Vec<String>)>,
) -> Result<ApiAuthenticatedUser, ErrorView> {
    match found {
        None => Err(ErrorView::Unauthorized),
        Some((user, scopes)) => if permits(settings.policy.use_api, Some(user.role)) {
            Ok(ApiAuthenticatedUser { user, scopes })
        } else {
            Err(ErrorView::Forbidden)
        },
    }
}

/// Who uses the API with a token, where `found` is whom the token was given to.
pub fn api_authenticated_user(
    settings: &RuntimeSettings,
    found: Option<(User, Vec<String>)>,
) -> (r: Result<ApiAuthenticatedUser, AppError>)
    ensures
        seen(r) == token_holder(settings, found),
{
    match found {
        None => Err(AppError::Unauthorized),
        Some((user, scopes)) => if policy::can_use_api(settings, Some(&user)) {
            Ok(ApiAuthenticatedUser { user, scopes })
        } else {
            Err(AppError::Forbidden)
        },
    }
}

/// Who uses the API, without what the token is good for.
pub fn api_user(actor: Option<ApiAuthenticatedUser>) -> (r: Option<User>)
    ensures
        r == match actor {
            Some(actor) => Some(actor.user),
            None => None,
        },
{
    match actor {
        Some(actor) => Some(actor.user),
        None => None,
    }
}

/// The caller, where it is signed in and its role is high enough.
pub open spec fn user_of_role(user: Option<User>, minimum_role: Role) -> Result<User, ErrorView> {
    match user {
        None => Err(ErrorView::Unauthorized),
        Some(user) => if user.role.rank() >= minimum_role.rank() {
            Ok(user)
        } else {
            Err(ErrorView::Forbidden)
        },
    }
}

/// The caller, where it is signed in and its role is high enough.
pub fn api_role_user(user: Option<User>, minimum_role: Role) -> (r: Result<User, AppError>)
    ensures
        seen(r) == user_of_role(user, minimum_role),
{
    match user {
        None => Err(AppError::Unauthorized),
        Some(user) => if user.role.at_least(minimum_role) {
            Ok(user)
        } else {
            Err(AppError::Forbidden)
        },
    }
}

/// A cookie and what the browser is told of it.
#[derive(Debug, Clone)]
pub struct CookieParts {
    pub name: String,
    pub value: String,
    pub path: String,
    pub http_only: bool,
    pub same_site_lax: bool,
    pub secure: bool,
    pub max_age_seconds: Option<i64>,
}

/// Whether a cookie goes to the whole site, is out of reach of scripts and of other sites' forms,
/// and lasts as long as given.
pub open spec fn is_site_cookie(
    cookie: CookieParts,
    name: Seq<char>,
    value: Seq<char>,
    secure: bool,
    max_age_seconds: Option<i64>,
) -> bool {
    &&& cookie.name@ == name
    &&& cookie.value@ == value
    &&& cookie.path@ == "/"@
    &&& cookie.http_only
    &&& cookie.same_site_lax
    &&& cookie.secure == secure
    &&& cookie.max_age_seconds == max_age_seconds
}

/// The cookie that holds a session.
pub fn session_cookie(
    settings: &RuntimeSettings,
    token: String,
    max_age_seconds: Option<i64>,
    secure: bool,
) -> (r: CookieParts)
    ensures
        is_site_cookie(
            r,
            settings.security.session_cookie_name@,
            token@,
            secure,
            max_age_seconds,
        ),
{
    CookieParts {
        name: settings.security.session_cookie_name.as_str().to_owned(),
        value: token,
        path: "/".to_owned(),
        http_only: true,
        same_site_lax: true,
        secure,
        max_age_seconds,
    }
}

/// A cookie that is good for ten minutes.
pub fn transient_cookie(name: &str, value: String, secure: bool) -> (r: CookieParts)
    ensures
        is_site_cookie(r, name@, value@, secure, Some(600)),
{
    CookieParts {
        name: name.to_owned(),
        value,
        path: "/".to_owned(),
        http_only: true,
        same_site_lax: true,
        secure,
        max_age_seconds: Some(600),
    }
}

/// Reads a comma-separated list of scopes.
pub fn parse_scopes(input: &str) -> (r: Vec<String>)
    ensures
        views(r@) == listed(split(input@, ',')),
{
    comma_list(input)
}

/// A fixed text or an error, each by its view.
pub open spec fn seen_literal(r: Result<&'static str, AppError>) -> Result<Seq<char>, ErrorView> {
    match r {
        Ok(s) => Ok(s@),
        Err(e) => Err(e@),
    }
}

/// The visibility that a form asks for.
pub open spec fn visibility_value(public_browse: bool, value: Option<Seq<char>>) -> Result<
    Seq<char>,
    ErrorView,
> {
    match present(value) {
        None => Ok("unlisted"@),
        Some(v) => if v == "unlisted"@ {
            Ok("unlisted"@)
        } else if v == "public"@ {
            if public_browse {
                Ok("public"@)
            } else {
                Err(
                    ErrorView::BadRequest(
                        "public visibility requires public browse to be enabled"@,
                    ),
                )
            }
        } else if v == "private"@ {
            Ok("private"@)
        } else {
            Err(ErrorView::BadRequest("invalid visibility"@))
        },
    }
}

/// The visibility that a form asks for.
pub fn requested_visibility(settings: &RuntimeSettings, value: Option<&str>) -> (r: Result<
    &'static str,
    AppError,
>)
    ensures
        seen_literal(r) == visibility_value(settings.features.public_browse, opt_view(value)),
{
    let v: &str = match trim_present(value) {
        Some(v) => v,
        None => {
            return Ok("unlisted");
        },
    };
    if same(v, "unlisted") {
        Ok("unlisted")
    } else if same(v, "public") {
        if settings.features.public_browse {
            Ok("public")
        } else {
            Err(bad_request("public visibility requires public browse to be enabled"))
        }
    } else if same(v, "private") {
        Ok("private")
    } else {
        Err(bad_request("invalid visibility"))
    }
}

/// An item becomes public only where there is a public listing, and no form asks for a visibility
/// other than the three that there are.
pub proof fn only_known_visibilities_are_accepted(public_browse: bool, value: Option<Seq<char>>)
    ensures
        visibility_value(public_browse, value) matches Ok(v) ==> v == "unlisted"@ || v
            == "private"@ || (v == "public"@ && public_browse),
{
}

/// The expiry that a form asks for, else the default one.
pub open spec fn chosen_expiry(input: Option<Seq<char>>, default_input: Option<Seq<char>>) -> Option<
    Seq<char>,
> {
    match present(input) {
        Some(value) => Some(value),
        None => present(default_input),
    }
}

/// The expiry that a form asks for, else the default one.
pub fn selected_expiry<'a>(input: Option<&'a str>, default_input: Option<&'a str>) -> (r: Option<
    &'a str,
>)
    ensures
        opt_view(r) == chosen_expiry(opt_view(input), opt_view(default_input)),
{
    match trim_present(input) {
        Some(value) => Some(value),
        None => trim_present(default_input),
    }
}

/// The longest time that an item may be kept, as it is configured.
pub open spec fn expiry_limit(settings: &RuntimeSettings, kind: Seq<char>, signed_in: bool) -> Option<
    Seq<char>,
> {
    let expiry = settings.limits.expiry;
    if kind == "file"@ {
        if signed_in {
            opt_string_view(expiry.user_max_file_expiry)
        } else {
            opt_string_view(expiry.anonymous_max_file_expiry)
        }
    } else if kind == "paste"@ {
        if signed_in {
            opt_string_view(expiry.user_max_paste_expiry)
        } else {
            opt_string_view(expiry.anonymous_max_paste_expiry)
        }
    } else {
        None
    }
}

/// The longest time that an item of this kind may be kept, as it is configured.
pub fn max_expiry_input<'a>(settings: &'a RuntimeSettings, kind: &str, signed_in: bool) -> (r: Option<
    &'a str,
>)
    ensures
        opt_view(r) == expiry_limit(settings, kind@, signed_in),
{
    if same(kind, "file") {
        if signed_in {
            opt_str(&settings.limits.expiry.user_max_file_expiry)
        } else {
            opt_str(&settings.limits.expiry.anonymous_max_file_expiry)
        }
    } else if same(kind, "paste") {
        if signed_in {
            opt_str(&settings.limits.expiry.user_max_paste_expiry)
        } else {
            opt_str(&settings.limits.expiry.anonymous_max_paste_expiry)
        }
    } else {
        None
    }
}

/// What a text says of when an item expires: at a second, never, or nothing that can be read, with
/// the reason.
pub open spec fn expiry_view(r: Result<Option<i64>, String>) -> Result<Option<i64>, Seq<char>> {
    match r {
        Ok(expiry) => Ok(expiry),
        Err(e) => Err(e@),
    }
}

/// Whether the maximum decides: only an item that expires at all is held against one.
pub open spec fn maximum_decides(
    expiry: Result<Option<i64>, Seq<char>>,
    limit: Option<Seq<char>>,
) -> bool {
    expiry matches Ok(Some(_)) && limit is Some
}

/// What becomes of the expiry that a form asks for. `maximum` is what the configured maximum says,
/// where there is one.
pub open spec fn expiry_check(
    allow_never: bool,
    expiry: Result<Option<i64>, Seq<char>>,
    maximum: Option<Result<Option<i64>, Seq<char>>>,
    now: i64,
) -> Result<Option<i64>, ErrorView> {
    match expiry {
        Err(reason) => Err(ErrorView::BadRequest("invalid expiry: "@ + reason)),
        Ok(None) => if allow_never {
            Ok(None)
        } else {
            Err(ErrorView::BadRequest("never-expiring items are disabled"@))
        },
        Ok(Some(at)) => match maximum {
            None => Ok(Some(at)),
            Some(Err(reason)) => Err(
                ErrorView::BadRequest("invalid max expiry config: "@ + reason),
            ),
            Some(Ok(None)) => Err(ErrorView::BadRequest("max expiry cannot be never"@)),
            Some(Ok(Some(last))) => if saturated(at - now) > saturated(last - now) {
                Err(ErrorView::BadRequest("expiry exceeds configured maximum"@))
            } else {
                Ok(Some(at))
            },
        },
    }
}

/// The error for a text that cannot be read, with the reason behind a heading.
fn unreadable(heading: &str, reason: &str) -> (r: AppError)
    ensures
        r@ == ErrorView::BadRequest(heading@ + reason@),
{
    let mut message: String = heading.to_owned();
    message.append(reason);
    AppError::BadRequest(message)
}

/// Holds the expiry that a form asks for against the configured maximum.
pub fn checked_expiry(
    allow_never: bool,
    expiry: Result<Option<i64>, String>,
    maximum: Option<Result<Option<i64>, String>>,
    now: i64,
) -> (r: Result<Option<i64>, AppError>)
    ensures
        seen(r) == expiry_check(
            allow_never,
            expiry_view(expiry),
            match maximum {
                Some(maximum) => Some(expiry_view(maximum)),
                None => None,
            },
            now,
        ),
{
    let at: i64 = match expiry {
        Err(reason) => {
            return Err(unreadable("invalid expiry: ", reason.as_str()));
        },
        Ok(None) => {
            return if allow_never {
                Ok(None)
            } else {
                Err(bad_request("never-expiring items are disabled"))
            };
        },
        Ok(Some(at)) => at,
    };
    match maximum {
        None => Ok(Some(at)),
        Some(Err(reason)) => Err(unreadable("invalid max expiry config: ", reason.as_str())),
        Some(Ok(None)) => Err(bad_request("max expiry cannot be never")),
        Some(Ok(Some(last))) => if saturating_difference(at, now) > saturating_difference(
            last,
            now,
        ) {
            Err(bad_request("expiry exceeds configured maximum"))
        } else {
            Ok(Some(at))
        },
    }
}

/// Reads the expiry that a form asks for, or the default one, and holds it against the configured
/// maximum. `parse_expiry` reads a text, with `None` for no text.
pub fn parse_expiry_or_default_checked<
    F: Fn(Option<&str>) -> Result<Option<i64>, String>,
>(
    settings: &RuntimeSettings,
    user: Option<&User>,
    kind: &str,
    input: Option<&str>,
    default_input: Option<&str>,
    parse_expiry: F,
    now: i64,
) -> (r: Result<Option<i64>, AppError>)
    requires
        forall|text: Option<&str>| #[trigger] call_requires(parse_expiry, (text,)),
    ensures
        expiry_answer(
            settings,
            kind@,
            user is Some,
            opt_view(input),
            opt_view(default_input),
            parse_expiry,
            now,
            seen(r),
        ),
{
    let text: Option<&str> = selected_expiry(input, default_input);
    let expiry: Result<Option<i64>, String> = parse_expiry(text);
    let ghost configured = expiry_limit(settings, kind@, user is Some);
    assert(reads_as(
        parse_expiry,
        chosen_expiry(opt_view(input), opt_view(default_input)),
        expiry,
    ));
    let limit: Option<&str> = match expiry {
        Ok(Some(_)) => max_expiry_input(settings, kind, user.is_some()),
        _ => None,
    };
    let maximum: Option<Result<Option<i64>, String>> = match limit {
        Some(_) => {
            let last: Result<Option<i64>, String> = parse_expiry(limit);
            assert(reads_as(parse_expiry, opt_view(limit), last));
            Some(last)
        },
        None => None,
    };
    assert(limit_reads_as(parse_expiry, expiry_view(expiry), configured, maximum));
    checked_expiry(settings.limits.expiry.allow_never, expiry, maximum, now)
}

/// Whether `answer` is what becomes of the expiry that a form asks for: the text of the form, else
/// the default, is read, and where it names a second, so is the configured maximum.
pub open spec fn expiry_answer<F: Fn(Option<&str>) -> Result<Option<i64>, String>>(
    settings: &RuntimeSettings,
    kind: Seq<char>,
    signed_in: bool,
    input: Option<Seq<char>>,
    default_input: Option<Seq<char>>,
    parse_expiry: F,
    now: i64,
    answer: Result<Option<i64>, ErrorView>,
) -> bool {
    exists|
        expiry: Result<Option<i64>, String>,
        maximum: Option<Result<Option<i64>, String>>,
    |
        {
            &&& #[trigger] reads_as(parse_expiry, chosen_expiry(input, default_input), expiry)
            &&& #[trigger] limit_reads_as(
                parse_expiry,
                expiry_view(expiry),
                expiry_limit(settings, kind, signed_in),
                maximum,
            )
            &&& answer == expiry_check(
                settings.limits.expiry.allow_never,
                expiry_view(expiry),
                match maximum {
                    Some(maximum) => Some(expiry_view(maximum)),
                    None => None,
                },
                now,
            )
        }
}

/// Whether `expiry` is something that the reader makes of a text.
pub open spec fn reads_as<F: Fn(Option<&str>) -> Result<Option<i64>, String>>(
    parse_expiry: F,
    text: Option<Seq<char>>,
    expiry: Result<Option<i64>, String>,
) -> bool {
    exists|t: Option<&str>|
        #![trigger opt_view(t)]
        opt_view(t) == text && call_ensures(parse_expiry, (t,), expiry)
}

/// Whether `maximum` is something that the reader makes of the configured maximum, where that is
/// read.
pub open spec fn limit_reads_as<F: Fn(Option<&str>) -> Result<Option<i64>, String>>(
    parse_expiry: F,
    expiry: Result<Option<i64>, Seq<char>>,
    limit: Option<Seq<char>>,
    maximum: Option<Result<Option<i64>, String>>,
) -> bool {
    match maximum {
        Some(maximum) => maximum_decides(expiry, limit) && reads_as(parse_expiry, limit, maximum),
        None => !maximum_decides(expiry, limit),
    }
}

/// An item that is accepted under a maximum expires no later than the maximum allows.
pub proof fn accepted_expiries_keep_the_maximum(
    allow_never: bool,
    expiry: Result<Option<i64>, Seq<char>>,
    last: i64,
    now: i64,
)
    requires
        now >= 0,
        last >= 0,
    ensures
        expiry_check(allow_never, expiry, Some(Ok(Some(last))), now) matches Ok(Some(at))
            ==> at <= last,
{
}

/// No item is kept for ever where that is switched off.
pub proof fn nothing_is_kept_for_ever_unless_allowed(
    expiry: Result<Option<i64>, Seq<char>>,
    maximum: Option<Result<Option<i64>, Seq<char>>>,
    now: i64,
)
    ensures
        expiry_check(false, expiry, maximum, now) != Ok::<Option<i64>, ErrorView>(None),
{
}

/// Whether a caller may see an item: administrators see all, a private item is visible to its owner
/// and to moderators, and any other to whom the policy lets see items.
pub open spec fn may_view(
    view_item: ActionRule,
    user: Option<(Seq<char>, Role)>,
    owner: Option<Seq<char>>,
    visibility: Seq<char>,
) -> bool {
    ||| user matches Some((_, role)) && role.rank() >= Role::Admin.rank()
    ||| visibility == "private"@ && (user matches Some((id, role)) && (owner == Some(id)
        || role.rank() >= Role::Moderator.rank()))
    ||| visibility != "private"@ && permits(
        view_item,
        match user {
            Some((_, role)) => Some(role),
            None => None,
        },
    )
}

/// A caller as its identifier and role.
pub open spec fn caller_of(user: Option<&User>) -> Option<(Seq<char>, Role)> {
    match user {
        Some(user) => Some((user.id@, user.role)),
        None => None,
    }
}

/// Turns a caller down who may not see an item.
pub fn authorize_item_view(
    settings: &RuntimeSettings,
    user: Option<&User>,
    owner_user_id: Option<&str>,
    visibility: &str,
) -> (r: Result<(), AppError>)
    ensures
        seen(r) == if may_view(
            settings.policy.view_item,
            caller_of(user),
            opt_view(owner_user_id),
            visibility@,
        ) {
            Ok::<(), ErrorView>(())
        } else {
            Err(ErrorView::Forbidden)
        },
{
    if let Some(user) = user {
        if user.role.at_least(Role::Admin) {
            return Ok(());
        }
    }
    if same(visibility, "private") {
        let user: &User = match user {
            Some(user) => user,
            None => {
                return Err(AppError::Forbidden);
            },
        };
        if user.role.at_least(Role::Moderator) {
            return Ok(());
        }
        return match owner_user_id {
            Some(owner) => if same(owner, user.id.as_str()) {
                Ok(())
            } else {
                Err(AppError::Forbidden)
            },
            None => Err(AppError::Forbidden),
        };
    }
    if policy::allowed(settings.policy.view_item, user) {
        Ok(())
    } else {
        Err(AppError::Forbidden)
    }
}

/// A private item is for its owner and for moderators and above alone.
pub proof fn private_items_are_for_their_owners(
    view_item: ActionRule,
    user: Option<(Seq<char>, Role)>,
    owner: Option<Seq<char>>,
)
    requires
        may_view(view_item, user, owner, "private"@),
    ensures
        user matches Some((id, role)) && (owner == Some(id) || role.rank()
            >= Role::Moderator.rank()),
{
}

/// A file that an anonymous caller may see is one that its own origin can serve; one that needs a
/// session never leaves the application's origin.
pub proof fn files_that_need_a_session_stay_on_the_application(
    server: &ServerConfig,
    settings: &RuntimeSettings,
    file: &FileItem,
)
    requires
        !may_view(
            settings.policy.view_item,
            None,
            opt_string_view(file.owner_user_id),
            file.visibility@,
        ),
    ensures
        needs_app_origin(settings.policy.view_item, file.visibility@),
        origin_of_file(server, settings, file) == app_base(server.public_base_url@),
{
}

/// Whoever the rule for viewing permits may see every item that is not private, whoever owns it;
/// besides them only administrators may, and of what is not private none is shown to fewer than
/// another.
pub proof fn open_items_are_for_all_whom_the_rule_permits(
    view_item: ActionRule,
    user: Option<(Seq<char>, Role)>,
    owner: Option<Seq<char>>,
    other_owner: Option<Seq<char>>,
    visibility: Seq<char>,
    other_visibility: Seq<char>,
)
    requires
        visibility != "private"@,
        other_visibility != "private"@,
    ensures
        user matches Some((_, role)) ==> (may_view(view_item, user, owner, visibility) <==> permits(
            view_item,
            Some(role),
        ) || role == Role::Admin || role == Role::Owner),
        user is None ==> (may_view(view_item, user, owner, visibility) <==> permits(
            view_item,
            None,
        )),
        may_view(view_item, user, owner, visibility) == may_view(
            view_item,
            user,
            other_owner,
            other_visibility,
        ),
{
}

/// What an anonymous caller may see, every caller may see.
pub proof fn signing_in_hides_nothing(
    view_item: ActionRule,
    user: Option<(Seq<char>, Role)>,
    owner: Option<Seq<char>>,
    visibility: Seq<char>,
)
    requires
        may_view(view_item, None, owner, visibility),
    ensures
        may_view(view_item, user, owner, visibility),
{
}

/// A caller of a higher role may see all that the same caller could see before.
pub proof fn a_higher_role_hides_nothing(
    view_item: ActionRule,
    id: Seq<char>,
    lower: Role,
    higher: Role,
    owner: Option<Seq<char>>,
    visibility: Seq<char>,
)
    requires
        lower.rank() <= higher.rank(),
        may_view(view_item, Some((id, lower)), owner, visibility),
    ensures
        may_view(view_item, Some((id, higher)), owner, visibility),
{
}

/// A private item is shown to its owner, to moderators and to those above them, whatever the rule
/// for viewing, and to nobody else: not to another user, not to anyone anonymous, and where nobody
/// owns it to no user at all.
pub proof fn private_items_are_shown_to_owner_and_moderators(
    view_item: ActionRule,
    id: Seq<char>,
    role: Role,
    owner: Option<Seq<char>>,
)
    ensures
        may_view(view_item, Some((id, role)), Some(id), "private"@),
        may_view(view_item, Some((id, role)), owner, "private"@) <==> owner == Some(id) || role
            != Role::User,
        !may_view(view_item, None, owner, "private"@),
{
}

/// A file has to stay on the application's origin exactly where an anonymous caller may not see it.
pub proof fn what_anyone_may_see_needs_no_session(
    view_item: ActionRule,
    owner: Option<Seq<char>>,
    visibility: Seq<char>,
)
    ensures
        needs_app_origin(view_item, visibility) <==> !may_view(view_item, None, owner, visibility),
{
}

/// The expiry that a form asks for is the one that is read, without the white space around it,
/// whatever the default is. The default is read where the form asks for none, or for a blank one,
/// and just as the form's own would have been.
pub proof fn the_form_decides_on_the_expiry(
    asked: Seq<char>,
    blank: Seq<char>,
    default_input: Option<Seq<char>>,
)
    requires
        exists|i: int| 0 <= i < asked.len() && !is_white_space(#[trigger] asked[i]),
        forall|i: int| 0 <= i < blank.len() ==> is_white_space(#[trigger] blank[i]),
    ensures
        chosen_expiry(Some(asked), default_input) == Some(trimmed(asked)),
        chosen_expiry(None, Some(asked)) == Some(trimmed(asked)),
        chosen_expiry(Some(blank), default_input) == chosen_expiry(None, default_input),
        chosen_expiry(None, Some(blank)) is None,
        chosen_expiry(None, None) is None,
{
    only_blank_texts_are_trimmed_away(asked);
    only_blank_texts_are_trimmed_away(blank);
}

/// What a form is granted is what the reader made of its own text: where the form asks for an
/// expiry, an item is kept until the second that this text was read as, or for ever where it was
/// read so, and never until another.
pub proof fn a_granted_expiry_is_the_one_asked_for<
    F: Fn(Option<&str>) -> Result<Option<i64>, String>,
>(
    settings: &RuntimeSettings,
    kind: Seq<char>,
    signed_in: bool,
    asked: Seq<char>,
    default_input: Option<Seq<char>>,
    parse_expiry: F,
    now: i64,
    granted: Option<i64>,
)
    requires
        exists|i: int| 0 <= i < asked.len() && !is_white_space(#[trigger] asked[i]),
        expiry_answer(
            settings,
            kind,
            signed_in,
            Some(asked),
            default_input,
            parse_expiry,
            now,
            Ok(granted),
        ),
    ensures
        exists|t: &str|
            #![trigger t@]
            t@ == trimmed(asked) && call_ensures(parse_expiry, (Some(t),), Ok(granted)),
{
    only_blank_texts_are_trimmed_away(asked);
    let (expiry, maximum) = choose|
        expiry: Result<Option<i64>, String>,
        maximum: Option<Result<Option<i64>, String>>,
    |
        {
            &&& #[trigger] reads_as(parse_expiry, chosen_expiry(Some(asked), default_input), expiry)
            &&& #[trigger] limit_reads_as(
                parse_expiry,
                expiry_view(expiry),
                expiry_limit(settings, kind, signed_in),
                maximum,
            )
            &&& Ok::<Option<i64>, ErrorView>(granted) == expiry_check(
                settings.limits.expiry.allow_never,
                expiry_view(expiry),
                match maximum {
                    Some(maximum) => Some(expiry_view(maximum)),
                    None => None,
                },
                now,
            )
        };
    assert(expiry == Ok::<Option<i64>, String>(granted));
    let t = choose|t: Option<&str>|
        #![trigger opt_view(t)]
        opt_view(t) == Some(trimmed(asked)) && call_ensures(parse_expiry, (t,), expiry);
    assert(t is Some);
    assert((t->0)@ == trimmed(asked));
}

/// An expiry that can be read is granted as it is where no maximum is configured or where it is no
/// later than the maximum; a later one is turned down, and so is every one under a maximum that
/// cannot be kept. What cannot be read is turned down, and items that never expire are granted
/// exactly where they are allowed.
pub proof fn expiries_are_granted_up_to_the_maximum(
    allow_never: bool,
    at: i64,
    last: i64,
    now: i64,
    reason: Seq<char>,
    maximum: Option<Result<Option<i64>, Seq<char>>>,
)
    ensures
        expiry_check(allow_never, Ok(Some(at)), None, now) == Ok::<Option<i64>, ErrorView>(
            Some(at),
        ),
        at <= last ==> expiry_check(allow_never, Ok(Some(at)), Some(Ok(Some(last))), now) == Ok::<
            Option<i64>,
            ErrorView,
        >(Some(at)),
        last < at && 0 <= now && 0 <= last ==> (expiry_check(
            allow_never,
            Ok(Some(at)),
            Some(Ok(Some(last))),
            now,
        ) matches Err(e) && e is BadRequest),
        expiry_check(allow_never, Ok(Some(at)), Some(Ok(None)), now) matches Err(e)
            && e is BadRequest,
        expiry_check(allow_never, Ok(Some(at)), Some(Err(reason)), now) matches Err(e)
            && e is BadRequest,
        expiry_check(allow_never, Err(reason), maximum, now) matches Err(e) && e is BadRequest,
        expiry_check(true, Ok(None), maximum, now) == Ok::<Option<i64>, ErrorView>(None),
        expiry_check(false, Ok(None), maximum, now) matches Err(e) && e is BadRequest,
{
}

/// Each of the four maxima binds its own items alone: those for files bind files and those for
/// pastes pastes, each kind with one for whoever is signed in and one for everybody else.
pub proof fn each_maximum_binds_its_own_items(settings: &RuntimeSettings)
    ensures
        expiry_limit(settings, "file"@, true) == opt_string_view(
            settings.limits.expiry.user_max_file_expiry,
        ),
        expiry_limit(settings, "file"@, false) == opt_string_view(
            settings.limits.expiry.anonymous_max_file_expiry,
        ),
        expiry_limit(settings, "paste"@, true) == opt_string_view(
            settings.limits.expiry.user_max_paste_expiry,
        ),
        expiry_limit(settings, "paste"@, false) == opt_string_view(
            settings.limits.expiry.anonymous_max_paste_expiry,
        ),
{
    reveal_strlit("file");
    reveal_strlit("paste");
    assert("file"@.len() != "paste"@.len());
}

/// An item gets the visibility that its form asks for, without the white space around it, or is
/// turned down; it is unlisted where the form asks for none. Unlisted and private items can always
/// be had, public ones exactly where there is a public listing.
pub proof fn items_get_the_visibility_asked_for(
    public_browse: bool,
    asked: Seq<char>,
    blank: Seq<char>,
)
    requires
        exists|i: int| 0 <= i < asked.len() && !is_white_space(#[trigger] asked[i]),
        forall|i: int| 0 <= i < blank.len() ==> is_white_space(#[trigger] blank[i]),
    ensures
        visibility_value(public_browse, None) == Ok::<Seq<char>, ErrorView>("unlisted"@),
        visibility_value(public_browse, Some(blank)) == Ok::<Seq<char>, ErrorView>("unlisted"@),
        visibility_value(public_browse, Some(asked)) matches Ok(v) ==> v == trimmed(asked),
        visibility_value(public_browse, Some(asked)) is Ok <==> trimmed(asked) == "unlisted"@
            || trimmed(asked) == "private"@ || (trimmed(asked) == "public"@ && public_browse),
        visibility_value(public_browse, Some(asked)) matches Err(e) ==> e is BadRequest,
{
    only_blank_texts_are_trimmed_away(asked);
    only_blank_texts_are_trimmed_away(blank);
    reveal_strlit("unlisted");
    reveal_strlit("private");
    reveal_strlit("public");
    assert("unlisted"@.len() == 8 && "private"@.len() == 7 && "public"@.len() == 6);
}

/// A form that holds the token of the cookie is accepted, with white space around it or without; one
/// that holds another is forbidden, and one without a token, or without a cookie to hold it against,
/// cannot be understood.
pub proof fn forms_with_the_token_are_accepted(
    cookie: Seq<char>,
    submitted: Seq<char>,
    blank: Seq<char>,
    any: Option<Seq<char>>,
)
    requires
        exists|i: int| 0 <= i < submitted.len() && !is_white_space(#[trigger] submitted[i]),
        forall|i: int| 0 <= i < blank.len() ==> is_white_space(#[trigger] blank[i]),
    ensures
        csrf_check(Some(cookie), Some(submitted)) == if trimmed(submitted) == cookie {
            Ok::<(), ErrorView>(())
        } else {
            Err(ErrorView::Forbidden)
        },
        csrf_check(Some(cookie), Some(blank)) matches Err(e) && e is BadRequest,
        csrf_check(Some(cookie), None) matches Err(e) && e is BadRequest,
        csrf_check(None, any) matches Err(e) && e is BadRequest,
{
    only_blank_texts_are_trimmed_away(submitted);
    only_blank_texts_are_trimmed_away(blank);
}

/// A response for one caller is never kept, however long public ones are; one for everybody is kept
/// for as many seconds as are configured, which is none at all where that is zero.
pub proof fn only_public_responses_are_kept(seconds: u64)
    ensures
        cache_control(seconds, CacheScope::Private) == "private, no-store"@,
        cache_control(0, CacheScope::Public) == "no-store"@,
        seconds > 0 ==> has_prefix(cache_control(seconds, CacheScope::Public), "public, max-age="@)
            && natural_value(cache_control(seconds, CacheScope::Public).skip(16)) == Some(seconds),
{
    reveal_strlit("public, max-age=");
    a_prefix_is_what_stands_in_front("public, max-age="@, decimal(seconds as nat), Seq::empty());
    written_numbers_are_read(seconds as nat);
    if seconds > 0 {
        assert(cache_control(seconds, CacheScope::Public).skip(16) =~= decimal(seconds as nat));
    }
}

/// The base of a link does not end in a slash, however many the configured one ends in, and is the
/// same otherwise.
pub proof fn bases_are_used_without_their_slashes(base: Seq<char>)
    requires
        base.len() > 0 ==> base.last() != '/',
    ensures
        app_base(base) == base,
        app_base(base.push('/')) == base,
        app_base(base.push('/').push('/')) == base,
{
    let one = base.push('/');
    let two = one.push('/');
    assert(one.drop_last() =~= base);
    assert(two.drop_last() =~= one);
    assert(one.last() == '/' && two.last() == '/');
    assert(without_trailing(base, '/') == base);
    assert(without_trailing(one, '/') == without_trailing(base, '/'));
    assert(without_trailing(two, '/') == without_trailing(one, '/'));
}

/// Files that anyone may see are linked to on the base that is set apart for files, where there is
/// one; every other file, and every file where there is none, on that of the application. The base
/// for files has no say in where a file is linked to that needs a session.
pub proof fn files_are_linked_to_where_they_are_served(
    server: &ServerConfig,
    settings: &RuntimeSettings,
    file: &FileItem,
    owner: Option<Seq<char>>,
)
    ensures
        ({
            let anyone = may_view(settings.policy.view_item, None, owner, file.visibility@);
            let origin = origin_of_file(server, settings, file);
            let own = app_base(server.public_base_url@);
            &&& !anyone ==> origin == own
            &&& settings.delivery.public_file_base_url is None ==> origin == own
            &&& settings.delivery.public_file_base_url matches Some(base) ==> {
                &&& anyone && (exists|i: int|
                    0 <= i < base@.len() && !is_white_space(#[trigger] base@[i])) ==> origin
                    == app_base(base@)
                &&& (forall|i: int| 0 <= i < base@.len() ==> is_white_space(#[trigger] base@[i]))
                    ==> origin == own
            }
        }),
{
    if let Some(base) = settings.delivery.public_file_base_url {
        only_blank_texts_are_trimmed_away(base@);
    }
}

/// A host in small letters without a dot at its end is compared as it is.
pub proof fn plain_hosts_are_compared_as_they_are(host: Seq<char>)
    requires
        host.len() > 0 ==> host.last() != '.',
        forall|i: int| 0 <= i < host.len() ==> !('A' <= #[trigger] host[i] <= 'Z'),
    ensures
        normal_host(host) == host,
{
    assert(without_trailing(host, '.') == host);
    assert forall|i: int| 0 <= i < host.len() implies lowercase(host)[i] == host[i] by {
        lower_case_changes_capitals_alone(host, i);
    }
    assert(lowercase(host) =~= host);
}

/// A text of a host, a colon and a port is read as that host and that port, and one of a host alone
/// as that host and no port.
pub proof fn authorities_are_read_as_host_and_port(host: Seq<char>, port: u16)
    requires
        host.len() > 0,
        !is_white_space(host[0]) && !is_white_space(host.last()),
        !host.contains(':'),
        host[0] != '[',
    ensures
        origin_value(host) == Some(OriginView { host: normal_host(host), port: None }),
        origin_value(host + seq![':'] + decimal(port as nat)) == Some(
            OriginView { host: normal_host(host), port: Some(port) },
        ),
{
    a_trimmed_text_stays(host);
    lemma_last_at(host, ':');
    if last_at(host, ':') >= 0 {
        assert(host.contains(host[last_at(host, ':')]));
    }
    let digits = decimal(port as nat);
    let s = host + seq![':'] + digits;
    let n = host.len() as int;
    lemma_port_digits(port);
    assert(s[0] == host[0] && s.last() == digits.last());
    a_trimmed_text_stays(s);
    assert(s[n] == ':');
    assert forall|j: int| n < j < s.len() implies s[j] != ':' by {
        assert(s[j] == digits[j - n - 1]);
        assert(is_digit(digits[j - n - 1]));
    }
    lemma_last_at(s, ':');
    assert(last_at(s, ':') == n) by {
        let at = last_at(s, ':');
        if at < n {
            assert(s[n] != ':');
        }
        if at > n {
            assert(s[at] == ':');
        }
    }
    assert(s.take(n) =~= host);
    assert(s.skip(n + 1) =~= digits);
}

/// The digits of a port are read as the port, and do not end in white space.
proof fn lemma_port_digits(port: u16)
    ensures
        decimal(port as nat).len() > 0,
        forall|i: int|
            0 <= i < decimal(port as nat).len() ==> is_digit(#[trigger] decimal(port as nat)[i]),
        !is_white_space(decimal(port as nat).last()),
        port_value(decimal(port as nat)) == Some(port),
{
    let digits = decimal(port as nat);
    decimal_reads_back(port as nat);
    written_numbers_are_read(port as nat);
    assert(is_digit(digits[digits.len() - 1]));
}

/// An address in square brackets keeps the colons in it: it is read as that address, with the port
/// behind the brackets or none.
pub proof fn bracketed_addresses_keep_their_colons(address: Seq<char>, port: u16)
    requires
        !address.contains(']'),
    ensures
        origin_value(seq!['['] + address + seq![']']) == Some(
            OriginView { host: "["@ + normal_host(address) + "]"@, port: None },
        ),
        origin_value(seq!['['] + address + seq![']', ':'] + decimal(port as nat)) == Some(
            OriginView { host: "["@ + normal_host(address) + "]"@, port: Some(port) },
        ),
{
    let digits = decimal(port as nat);
    lemma_port_digits(port);
    assert(!is_white_space('[') && !is_white_space(']'));
    lemma_bracketed(address, Seq::empty());
    assert(seq!['['] + address + seq![']'] + Seq::<char>::empty() =~= seq!['['] + address
        + seq![']']);
    let tail = seq![':'] + digits;
    assert(tail.last() == digits.last());
    lemma_bracketed(address, tail);
    assert(seq!['['] + address + seq![']'] + tail =~= seq!['['] + address + seq![']', ':']
        + digits);
    assert(tail.skip(1) =~= digits);
}

/// How an address in square brackets with a tail behind it is read.
proof fn lemma_bracketed(address: Seq<char>, tail: Seq<char>)
    requires
        !address.contains(']'),
        !is_white_space('[') && !is_white_space(']'),
        tail.len() > 0 ==> !is_white_space(tail.last()),
    ensures
        origin_value(seq!['['] + address + seq![']'] + tail) == match authority_port(tail) {
            Some(port) => Some(OriginView { host: "["@ + normal_host(address) + "]"@, port }),
            None => None,
        },
{
    let t = seq!['['] + address + seq![']'] + tail;
    assert(t[0] == '[');
    assert(t.last() == if tail.len() > 0 {
        tail.last()
    } else {
        ']'
    });
    a_trimmed_text_stays(t);
    let rest = t.skip(1);
    assert(rest.take(address.len() as int) =~= address);
    lemma_bracket(address, rest);
    assert(rest.skip(address.len() + 1int) =~= tail);
}

/// Where the bracket behind an address closes.
proof fn lemma_bracket(address: Seq<char>, rest: Seq<char>)
    requires
        !address.contains(']'),
        rest.len() > address.len(),
        rest.take(address.len() as int) == address,
        rest[address.len() as int] == ']',
    ensures
        first_at(rest, ']') == address.len(),
{
    assert forall|j: int| 0 <= j < address.len() implies rest[j] != ']' by {
        assert(rest.take(address.len() as int)[j] == rest[j]);
        assert(address.contains(address[j]));
    }
    lemma_first_at_is(rest, ']', address.len() as int);
}

/// A request reaches the file host only where one is set apart, and does so whenever it is addressed
/// to that host and to no other port.
pub proof fn the_file_host_is_reached_by_its_name(
    settings: &RuntimeSettings,
    origin: Option<OriginView>,
)
    ensures
        !settings.delivery.isolated_file_origin ==> !reaches_file_host(settings, origin),
        origin is None ==> !reaches_file_host(settings, origin),
        settings.delivery.public_file_base_url is None ==> !reaches_file_host(settings, origin),
        settings.delivery.isolated_file_origin ==> (settings.delivery.public_file_base_url matches
            Some(base) ==> (parsed_url(trimmed(base@)) matches Ok(url) ==> (url.host matches Some(
            host,
        ) ==> (origin matches Some(o) ==> (reaches_file_host(settings, origin) <==> o.host
            == normal_host(host) && (o.port is None || o.port == url.port)))))),
{
}

/// The origin that was resolved when a request came in stands, whatever its headers say; without one
/// the host header tells it.
pub proof fn a_resolved_origin_stands(
    origin: OriginView,
    headers: Map<Seq<char>, Seq<Seq<u8>>>,
    host: Seq<char>,
)
    ensures
        request_origin(Some(origin), headers) == Some(origin),
        header_line(headers, "host"@) == Some(host) ==> request_origin(None, headers)
            == origin_value(host),
        header_line(headers, "host"@) is None ==> request_origin(None, headers) is None,
{
}

/// Internal links are signed only where they are switched on and a secret is configured that is not
/// blank, and then with that secret; they are good for the configured seconds, and for one at least.
pub proof fn internal_links_follow_the_settings(settings: &RuntimeSettings, now: i64)
    ensures
        !settings.delivery.signed_internal_urls ==> internal_secret(settings) is None,
        settings.delivery.internal_url_secret is None ==> internal_secret(settings) is None,
        settings.delivery.internal_url_secret matches Some(secret) ==> {
            &&& secret@.len() == 0 ==> internal_secret(settings) is None
            &&& settings.delivery.signed_internal_urls && secret@.len() > 0 ==> internal_secret(
                settings,
            ) == Some(secret@)
        },
        internal_link_expiry(settings, now) > now,
        settings.delivery.internal_url_ttl_seconds >= 1 ==> internal_link_expiry(settings, now)
            - now == settings.delivery.internal_url_ttl_seconds,
        settings.delivery.internal_url_ttl_seconds < 1 ==> internal_link_expiry(settings, now)
            - now == 1,
{
}

/// The limit of an action is the one that is configured for it.
pub proof fn each_action_has_its_own_limit(settings: &RuntimeSettings, action: Seq<char>)
    ensures
        limit_of(settings, action) is Some <==> settings.security.rate_limits@.contains_key(action),
        limit_of(settings, action) matches Some(limit) ==> limit
            == settings.security.rate_limits@[action],
{
}

/// Whoever is signed in is counted by the account, from wherever the requests come.
pub proof fn accounts_are_counted_wherever_they_act(
    id: Seq<char>,
    ip: Option<IpView>,
    other_ip: Option<IpView>,
)
    ensures
        identity_of(Some(id), ip) == identity_of(Some(id), other_ip),
        identity_of(Some(id), ip) != identity_of(None, ip),
{
    reveal_strlit("user:");
    reveal_strlit("ip:");
    reveal_strlit("anonymous");
    assert(identity_of(Some(id), ip)[0] == 'u');
    assert(identity_of(None, ip)[0] != 'u');
}

/// Of the hops that a forwarding header reports, the one that is believed is the one that the
/// outermost of our own proxies added, with one hop behind it for each of the others.
pub proof fn the_hop_of_the_outermost_proxy_is_believed(
    before: Seq<Seq<char>>,
    hop: Seq<char>,
    behind: Seq<Seq<char>>,
)
    ensures
        forwarded_ip(before + seq![hop] + behind, behind.len() + 1) == forwarded_ip_value(hop),
        behind.len() == 0 ==> forwarded_ip(before + seq![hop] + behind, 0) == forwarded_ip_value(
            hop,
        ),
{
    let hops = before + seq![hop] + behind;
    assert(hops[before.len() as int] == hop);
}

/// Behind a proxy, the address that the hops report comes first, then that of the header for one
/// proxy, and last that of the connection.
pub proof fn reported_addresses_come_first(
    server: &ServerConfig,
    headers: Map<Seq<char>, Seq<Seq<u8>>>,
    peer: Option<IpView>,
    reported: IpView,
)
    requires
        server.behind_proxy,
    ensures
        ({
            let hops = hops_of(values_of(headers, "x-forwarded-for"@));
            let hop = forwarded_ip(hops, server.trusted_proxy_hops as nat);
            let line = header_line(headers, "x-real-ip"@);
            &&& hop == Some(reported) ==> caller_ip(server, headers, peer) == Some(reported)
            &&& hop is None && (line matches Some(text) && forwarded_ip_value(text) == Some(
                reported,
            )) ==> caller_ip(server, headers, peer) == Some(reported)
            &&& hop is None && (line is None || (line matches Some(text) && forwarded_ip_value(text)
                is None)) ==> caller_ip(server, headers, peer) == peer
        }),
{
}

/// A token is what stands behind the word for it, and a header without that word holds none.
pub proof fn tokens_stand_behind_their_word(
    headers: Map<Seq<char>, Seq<Seq<u8>>>,
    token: Seq<char>,
    line: Seq<char>,
)
    ensures
        header_line(headers, "authorization"@) == Some("Bearer "@ + token) ==> bearer_value(headers)
            == Some(token),
        header_line(headers, "authorization"@) is None ==> bearer_value(headers) is None,
        header_line(headers, "authorization"@) == Some(line) && (line.len() < 7 || line.take(7)
            != "Bearer "@) ==> bearer_value(headers) is None,
{
    reveal_strlit("Bearer ");
    a_prefix_is_what_stands_in_front("Bearer "@, token, Seq::empty());
}

/// The API is closed to everybody where it is switched off. Where it is not, a token is always
/// looked up, and a caller without one gets in exactly where the rule lets anyone use it.
pub proof fn the_api_is_for_whom_the_rule_permits(settings: &RuntimeSettings, token: Seq<char>)
    ensures
        !settings.features.api ==> api_step(settings, Some(token)) is Refused && api_step(
            settings,
            None,
        ) is Refused,
        settings.features.api ==> api_step(settings, Some(token)) == ApiStepView::LookUp(token),
        settings.features.api ==> (api_step(settings, None) is Anonymous <==>
            settings.policy.use_api == ActionRule::Anonymous),
        settings.features.api && settings.policy.use_api != ActionRule::Anonymous ==> api_step(
            settings,
            None,
        ) == ApiStepView::Refused(ErrorView::Unauthorized),
{
}

/// A token stands for whom it was given to, with all that it is good for, where the rule lets that
/// user use the API; a token that nobody holds stands for nobody.
pub proof fn tokens_stand_for_their_holders(
    settings: &RuntimeSettings,
    user: User,
    scopes: Vec<String>,
)
    ensures
        token_holder(settings, Some((user, scopes))) matches Ok(actor) ==> actor.user == user
            && actor.scopes == scopes,
        token_holder(settings, Some((user, scopes))) is Ok <==> permits(
            settings.policy.use_api,
            Some(user.role),
        ),
        token_holder(settings, Some((user, scopes))) matches Err(e) ==> e == ErrorView::Forbidden,
        token_holder(settings, None) == Err::<ApiAuthenticatedUser, ErrorView>(
            ErrorView::Unauthorized,
        ),
{
}

/// A task that asks for a role is open to those of that role and of the roles above it, and they act
/// as themselves.
pub proof fn tasks_are_open_from_their_role_on(user: User, minimum_role: Role)
    ensures
        user_of_role(Some(user), Role::User) == Ok::<User, ErrorView>(user),
        user_of_role(Some(user), Role::Moderator) is Ok <==> user.role != Role::User,
        user_of_role(Some(user), Role::Admin) is Ok <==> user.role == Role::Admin || user.role
            == Role::Owner,
        user_of_role(Some(user), Role::Owner) is Ok <==> user.role == Role::Owner,
        user_of_role(Some(user), minimum_role) matches Ok(who) ==> who == user,
        user_of_role(Some(user), minimum_role) matches Err(e) ==> e == ErrorView::Forbidden,
        user_of_role(None, minimum_role) == Err::<User, ErrorView>(ErrorView::Unauthorized),
{
}

/// No cookie that is set here can be read by a script or is sent with the form of another site.
pub proof fn cookies_are_out_of_reach_of_scripts(
    cookie: CookieParts,
    name: Seq<char>,
    value: Seq<char>,
    secure: bool,
    max_age_seconds: Option<i64>,
)
    requires
        is_site_cookie(cookie, name, value, secure, max_age_seconds),
    ensures
        cookie.http_only && cookie.same_site_lax,
        cookie.secure == secure,
        cookie.name@ == name && cookie.value@ == value && cookie.path@ == "/"@,
        cookie.max_age_seconds == max_age_seconds,
{
}

/// A fragment of a page is asked for by a header that says so, in whatever case, and by nothing else.
pub proof fn fragments_are_asked_for_in_so_many_words(
    headers: Map<Seq<char>, Seq<Seq<u8>>>,
    value: Seq<char>,
)
    ensures
        header_line(headers, "hx-request"@) is None ==> !asks_for_fragment(headers),
        header_line(headers, "hx-request"@) == Some("true"@) ==> asks_for_fragment(headers),
        header_line(headers, "hx-request"@) == Some(value) ==> (asks_for_fragment(headers)
            <==> lowercase(value) == "true"@),
{
    reveal_strlit("true");
    assert(lowercase("true"@) =~= "true"@);
}

/// An internal link leads to the bytes of its file, and carries the moment until which it is good and
/// the signature for just that file and moment, each in a field of its own.
pub proof fn an_internal_link_carries_its_signature(
    base: Seq<char>,
    secret: Seq<char>,
    public_id: Seq<char>,
    expires: i64,
)
    ensures
        ({
            let link = internal_link(base, secret, public_id, expires);
            let path = base + "/internal/files/"@ + public_id + "/raw?"@;
            let moment = "expires="@ + signed_decimal(expires as int);
            let signed = "signature="@ + signature(secret, public_id, expires);
            &&& link == path + moment + seq!['&'] + signed
            &&& internal_link(base, secret, public_id, expires).len() >= path.len()
        }),
{
    reveal_strlit("/raw?");
    reveal_strlit("/raw?expires=");
    reveal_strlit("expires=");
    reveal_strlit("&signature=");
    reveal_strlit("signature=");
    let link = internal_link(base, secret, public_id, expires);
    assert("/raw?expires="@ =~= "/raw?"@ + "expires="@);
    assert("&signature="@ =~= seq!['&'] + "signature="@);
    assert(link =~= base + "/internal/files/"@ + public_id + "/raw?"@ + ("expires="@
        + signed_decimal(expires as int)) + seq!['&'] + ("signature="@ + signature(
        secret,
        public_id,
        expires,
    )));
}

/// The link of a file ends in its slug. It leads to the application where there are pages about
/// files, and else to where the bytes are served.
pub proof fn the_link_of_a_file_leads_to_its_page_or_its_bytes(
    server: &ServerConfig,
    settings: &RuntimeSettings,
    file: &FileItem,
    slug: Seq<char>,
)
    ensures
        settings.features.preview_pages ==> link_of_file(server, settings, file, slug) == app_base(
            server.public_base_url@,
        ).push('/') + slug,
        !settings.features.preview_pages ==> link_of_file(server, settings, file, slug)
            == origin_of_file(server, settings, file).push('/') + slug,
{
    reveal_strlit("/");
    assert("/"@ =~= seq!['/']);
    let own = app_base(server.public_base_url@);
    let origin = origin_of_file(server, settings, file);
    assert(own + "/"@ + slug =~= own.push('/') + slug);
    assert(origin + "/"@ + slug =~= origin.push('/') + slug);
}

/// The hops that a forwarding header reports are the entries between its commas, without the white
/// space around them and without blank ones; a value that is no text reports none.
pub proof fn hops_are_the_entries_of_their_header(
    before: Seq<Seq<u8>>,
    text: Seq<char>,
    value: Seq<u8>,
)
    ensures
        text_of(value) == Some(text) ==> hops_of(before.push(value)) == hops_of(before) + listed(
            split(text, ','),
        ),
        text_of(value) is None ==> hops_of(before.push(value)) == hops_of(before),
        hops_of(Seq::empty()) == Seq::<Seq<char>>::empty(),
{
    assert(before.push(value).drop_last() =~= before);
}

/// Where a maximum is configured for an item of its kind, what a form is granted is no later than
/// what that maximum was read as.
pub proof fn granted_expiries_keep_the_configured_maximum<
    F: Fn(Option<&str>) -> Result<Option<i64>, String>,
>(
    settings: &RuntimeSettings,
    kind: Seq<char>,
    signed_in: bool,
    input: Option<Seq<char>>,
    default_input: Option<Seq<char>>,
    parse_expiry: F,
    now: i64,
    at: i64,
    configured: Seq<char>,
)
    requires
        now >= 0,
        expiry_limit(settings, kind, signed_in) == Some(configured),
        expiry_answer(
            settings,
            kind,
            signed_in,
            input,
            default_input,
            parse_expiry,
            now,
            Ok(Some(at)),
        ),
    ensures
        exists|t: &str, last: i64|
            #![trigger t@, saturated(last - now)]
            t@ == configured && call_ensures(parse_expiry, (Some(t),), Ok(Some(last))) && (last >= 0
                ==> at <= last),
{
    let (expiry, maximum) = choose|
        expiry: Result<Option<i64>, String>,
        maximum: Option<Result<Option<i64>, String>>,
    |
        {
            &&& #[trigger] reads_as(parse_expiry, chosen_expiry(input, default_input), expiry)
            &&& #[trigger] limit_reads_as(
                parse_expiry,
                expiry_view(expiry),
                expiry_limit(settings, kind, signed_in),
                maximum,
            )
            &&& Ok::<Option<i64>, ErrorView>(Some(at)) == expiry_check(
                settings.limits.expiry.allow_never,
                expiry_view(expiry),
                match maximum {
                    Some(maximum) => Some(expiry_view(maximum)),
                    None => None,
                },
                now,
            )
        };
    assert(expiry == Ok::<Option<i64>, String>(Some(at)));
    assert(maximum matches Some(Ok(Some(_))));
    let last = maximum->0->Ok_0->0;
    let t = choose|t: Option<&str>|
        #![trigger opt_view(t)]
        opt_view(t) == Some(configured) && call_ensures(parse_expiry, (t,), maximum->0);
    assert((t->0)@ == configured);
    assert(saturated(at - now) <= saturated(last - now));
}

/// A form that asks for an expiry which is always read as one second is granted that second where no
/// maximum is configured, and where the configured one is always read as that second or a later one.
pub proof fn an_expiry_within_the_maximum_is_granted<
    F: Fn(Option<&str>) -> Result<Option<i64>, String>,
>(
    settings: &RuntimeSettings,
    kind: Seq<char>,
    signed_in: bool,
    asked: Seq<char>,
    default_input: Option<Seq<char>>,
    parse_expiry: F,
    now: i64,
    at: i64,
    last: i64,
    answer: Result<Option<i64>, ErrorView>,
)
    requires
        exists|i: int| 0 <= i < asked.len() && !is_white_space(#[trigger] asked[i]),
        forall|e: Result<Option<i64>, String>| #[trigger]
            reads_as(parse_expiry, Some(trimmed(asked)), e) ==> e == Ok::<Option<i64>, String>(
                Some(at),
            ),
        expiry_limit(settings, kind, signed_in) matches Some(configured) ==> at <= last && forall|
            e: Result<Option<i64>, String>,
        | #[trigger]
            reads_as(parse_expiry, Some(configured), e) ==> e == Ok::<Option<i64>, String>(
                Some(last),
            ),
        expiry_answer(
            settings,
            kind,
            signed_in,
            Some(asked),
            default_input,
            parse_expiry,
            now,
            answer,
        ),
    ensures
        answer == Ok::<Option<i64>, ErrorView>(Some(at)),
{
    only_blank_texts_are_trimmed_away(asked);
    let (expiry, maximum) = choose|
        expiry: Result<Option<i64>, String>,
        maximum: Option<Result<Option<i64>, String>>,
    |
        {
            &&& #[trigger] reads_as(parse_expiry, chosen_expiry(Some(asked), default_input), expiry)
            &&& #[trigger] limit_reads_as(
                parse_expiry,
                expiry_view(expiry),
                expiry_limit(settings, kind, signed_in),
                maximum,
            )
            &&& answer == expiry_check(
                settings.limits.expiry.allow_never,
                expiry_view(expiry),
                match maximum {
                    Some(maximum) => Some(expiry_view(maximum)),
                    None => None,
                },
                now,
            )
        };
    assert(expiry == Ok::<Option<i64>, String>(Some(at)));
    if let Some(maximum) = maximum {
        let configured = expiry_limit(settings, kind, signed_in)->0;
        assert(reads_as(parse_expiry, Some(configured), maximum));
        assert(maximum == Ok::<Option<i64>, String>(Some(last)));
    }
}

/// Who was found out to make a request when it came in stands, signed in or not, whatever the cookie
/// says; without that the holder of the session in the cookie is looked up, and without a cookie
/// nobody is.
pub proof fn a_resolved_caller_stands(user: Option<User>, cookie: Option<Seq<char>>, token: Seq<char>)
    ensures
        session_step(Some(user), cookie) == SessionStepView::Known(user),
        session_step(None, Some(token)) == SessionStepView::LookUp(token),
        session_step(None, None) == SessionStepView::Known(None),
{
}

/// Nothing about accounts works where they are switched off, and no password does where signing in
/// with one is.
pub proof fn accounts_work_where_they_are_switched_on(settings: &RuntimeSettings)
    ensures
        account_check(settings, false) is Ok <==> settings.features.accounts,
        account_check(settings, true) is Ok <==> settings.features.accounts
            && settings.features.local_login,
        account_check(settings, true) is Ok ==> account_check(settings, false) is Ok,
        account_check(settings, false) matches Err(e) ==> e == ErrorView::Forbidden,
        account_check(settings, true) matches Err(e) ==> e == ErrorView::Forbidden,
{
}

/// A request is addressed to the authority of its URI where it has one, whatever its headers say,
/// and else to what its host header names.
pub proof fn the_uri_says_where_a_request_is_addressed_to(
    host: Seq<char>,
    port: Option<u16>,
    headers: Map<Seq<char>, Seq<Seq<u8>>>,
    other: Map<Seq<char>, Seq<Seq<u8>>>,
    line: Seq<char>,
)
    ensures
        addressed_origin(Some((host, port)), headers) == addressed_origin(Some((host, port)), other),
        addressed_origin(Some((host, port)), headers) matches Some(origin) && origin.port == port
            && origin.host == normal_host(host),
        header_line(headers, "host"@) == Some(line) ==> addressed_origin(None, headers)
            == origin_value(line),
        header_line(headers, "host"@) is None ==> addressed_origin(None, headers) is None,
{
}

/// A file has an internal link exactly where such links are in use: one to its bytes on the
/// application's own base, which carries the moment until which it is good and the signature of the
/// configured secret for that file and moment.
pub proof fn signed_links_are_made_where_they_are_in_use(
    server: &ServerConfig,
    settings: &RuntimeSettings,
    public_id: Seq<char>,
    now: i64,
)
    ensures
        signed_link(server, settings, public_id, now) is Some <==> (
        settings.delivery.signed_internal_urls && (settings.delivery.internal_url_secret matches
            Some(secret) && secret@.len() > 0)),
        signed_link(server, settings, public_id, now) matches Some(link) ==> ({
            let expires = internal_link_expiry(settings, now) as i64;
            let secret = settings.delivery.internal_url_secret->0@;
            link == app_base(server.public_base_url@) + "/internal/files/"@ + public_id + "/raw?"@
                + ("expires="@ + signed_decimal(expires as int)) + seq!['&'] + ("signature="@
                + signature(secret, public_id, expires))
        }),
{
    if let Some(secret) = internal_secret(settings) {
        an_internal_link_carries_its_signature(
            app_base(server.public_base_url@),
            secret,
            public_id,
            internal_link_expiry(settings, now) as i64,
        );
    }
}

/// No origin is read from a blank text, from one without a host before its port, or from one whose
/// port is no number that a port can be.
pub proof fn malformed_authorities_are_not_read(blank: Seq<char>, host: Seq<char>, tail: Seq<char>)
    requires
        forall|i: int| 0 <= i < blank.len() ==> is_white_space(#[trigger] blank[i]),
        host.len() > 0 ==> !is_white_space(host[0]) && host[0] != '[',
        !tail.contains(':'),
        tail.len() > 0 && !is_white_space(tail.last()),
        host.len() == 0 || port_value(tail) is None,
    ensures
        origin_value(blank) is None,
        origin_value(host + seq![':'] + tail) is None,
{
    only_blank_texts_are_trimmed_away(blank);
    let s = host + seq![':'] + tail;
    let n = host.len() as int;
    assert(s[0] == if n > 0 {
        host[0]
    } else {
        ':'
    });
    assert(s.last() == tail.last());
    a_trimmed_text_stays(s);
    assert(s[n] == ':');
    assert forall|j: int| n < j < s.len() implies s[j] != ':' by {
        assert(s[j] == tail[j - n - 1]);
        assert(tail.contains(tail[j - n - 1]));
    }
    lemma_last_at(s, ':');
    assert(last_at(s, ':') == n) by {
        let at = last_at(s, ':');
        if at < n {
            assert(s[n] != ':');
        }
        if at > n {
            assert(s[at] == ':');
        }
    }
    assert(s.skip(n + 1) =~= tail);
}

} // verus!
