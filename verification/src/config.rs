//! The settings that the decisions of this crate depend on.

use vstd::prelude::*;

use crate::text::same;

verus! {

/// Who may do a thing.
#[derive(Debug, Clone, Copy, PartialEq, Eq, Structural)]
pub enum ActionRule {
    Disabled,
    Anonymous,
    Authenticated,
    Moderator,
    Admin,
    Owner,
}

/// How a file of a risky type is served.
#[derive(Debug, Clone, Copy, PartialEq, Eq, Structural)]
pub enum RiskyMimeMode {
    Attachment,
    InlineOnIsolatedOrigin,
    Plaintext,
}

/// How a file of any other type is served.
#[derive(Debug, Clone, Copy, PartialEq, Eq, Structural)]
pub enum ContentDispositionMode {
    Inline,
    Attachment,
}

/// Where rate limits are counted.
#[derive(Debug, Clone, Copy, PartialEq, Eq, Structural)]
pub enum RateLimitBackend {
    Memory,
    Database,
}

/// What the scanners say of a file.
#[derive(Debug, Clone, Copy, PartialEq, Eq, Structural)]
pub enum ScanDecision {
    Allow,
    Quarantine,
    Reject,
}

/// How often one action may be taken.
#[derive(Debug, Clone, Copy)]
pub struct RateLimitConfig {
    pub requests: u32,
    pub window_seconds: u64,
    pub enabled: bool,
}

/// The limit of one named action.
#[derive(Debug, Clone)]
struct ActionLimit {
    action: String,
    limit: RateLimitConfig,
}

/// The limits of the actions that have one.
#[derive(Debug, Clone)]
pub struct RateLimits {
    entries: Vec<ActionLimit>,
}

/// The limits that a row of entries stands for: a later one replaces an earlier one.
spec fn limit_table(entries: Seq<ActionLimit>) -> Map<Seq<char>, RateLimitConfig>
    decreases entries.len(),
{
    if entries.len() == 0 {
        Map::empty()
    } else {
        limit_table(entries.drop_last()).insert(entries.last().action@, entries.last().limit)
    }
}

impl View for RateLimits {
    type V = Map<Seq<char>, RateLimitConfig>;

    closed spec fn view(&self) -> Map<Seq<char>, RateLimitConfig> {
        limit_table(self.entries@)
    }
}

impl RateLimits {
    /// No limits.
    pub fn new() -> (r: Self)
        ensures
            r@ == Map::<Seq<char>, RateLimitConfig>::empty(),
    {
        RateLimits { entries: Vec::new() }
    }

    /// Sets the limit of one action.
    pub fn insert(&mut self, action: String, limit: RateLimitConfig)
        ensures
            final(self)@ == old(self)@.insert(action@, limit),
    {
        let ghost before = self.entries@;
        self.entries.push(ActionLimit { action, limit });
        assert(self.entries@.drop_last() =~= before);
    }

    /// The limit of one action.
    pub fn get(&self, action: &str) -> (r: Option<&RateLimitConfig>)
        ensures
            match r {
                Some(limit) => self@.contains_key(action@) && *limit == self@[action@],
                None => !self@.contains_key(action@),
            },
    {
        let mut i: usize = self.entries.len();
        assert(self.entries@.take(i as int) =~= self.entries@);
        while i > 0
            invariant
                i <= self.entries@.len(),
                self@.contains_key(action@) == limit_table(
                    self.entries@.take(i as int),
                ).contains_key(action@),
                self@.contains_key(action@) ==> self@[action@] == limit_table(
                    self.entries@.take(i as int),
                )[action@],
            decreases i,
        {
            i = i - 1;
            assert(self.entries@.take(i + 1).drop_last() =~= self.entries@.take(i as int));
            if same(self.entries[i].action.as_str(), action) {
                return Some(&self.entries[i].limit);
            }
        }
        None
    }
}

#[derive(Debug, Clone)]
pub struct ServerConfig {
    pub public_base_url: String,
    pub behind_proxy: bool,
    pub trusted_proxy_hops: usize,
}

#[derive(Debug, Clone)]
pub struct FeatureSettings {
    pub preview_pages: bool,
    pub accounts: bool,
    pub local_login: bool,
    pub api: bool,
    pub public_browse: bool,
    pub paste_editing: bool,
    pub upload_by_url: bool,
}

#[derive(Debug, Clone)]
pub struct PolicySettings {
    pub upload_file: ActionRule,
    pub create_paste: ActionRule,
    pub use_api: ActionRule,
    pub view_item: ActionRule,
}

#[derive(Debug, Clone)]
pub struct DeliverySettings {
    pub public_file_base_url: Option<String>,
    pub isolated_file_origin: bool,
    pub signed_internal_urls: bool,
    pub internal_url_secret: Option<String>,
    pub internal_url_ttl_seconds: i64,
    pub public_cache_seconds: u64,
}

#[derive(Debug, Clone)]
pub struct ContentPolicy {
    pub forced_attachment_mime_types: Vec<String>,
    pub risky_mime_mode: RiskyMimeMode,
}

#[derive(Debug, Clone)]
pub struct SecuritySettings {
    pub content_policy: ContentPolicy,
    pub content_disposition: ContentDispositionMode,
    pub rate_limit_backend: RateLimitBackend,
    pub rate_limits: RateLimits,
    pub session_cookie_name: String,
}

#[derive(Debug, Clone)]
pub struct ExpirySettings {
    pub allow_never: bool,
    pub anonymous_max_file_expiry: Option<String>,
    pub user_max_file_expiry: Option<String>,
    pub anonymous_max_paste_expiry: Option<String>,
    pub user_max_paste_expiry: Option<String>,
}

#[derive(Debug, Clone)]
pub struct LimitSettings {
    pub max_upload_bytes: i64,
    pub max_paste_bytes: i64,
    pub default_file_expiry: Option<String>,
    pub default_paste_expiry: Option<String>,
    pub expiry: ExpirySettings,
}

#[derive(Debug, Clone)]
pub struct DiscoverySettings {
    pub page_size: u32,
}

#[derive(Debug, Clone)]
pub struct JobSettings {
    pub enabled: bool,
    pub interval_seconds: u64,
    pub storage_verify_interval_seconds: u64,
    pub scanner_retry_limit: u32,
    pub metadata_limit: u32,
}

#[derive(Debug, Clone)]
pub struct ScanningSettings {
    pub enabled: bool,
    pub adapters: Vec<String>,
}

#[derive(Debug, Clone)]
pub struct UploadSettings {
    pub temp_dir: Option<String>,
    pub temp_file_max_age_seconds: u64,
}

#[derive(Debug, Clone)]
pub struct ProcessingConfig {
    pub metadata_extraction: bool,
    pub thumbnails: bool,
    pub thumbnail_max_dimension: u32,
    pub thumbnail_source_max_pixels: u32,
    pub thumbnail_source_max_alloc_bytes: u64,
}

/// The settings in force while a request or a job runs.
#[derive(Debug, Clone)]
pub struct RuntimeSettings {
    pub features: FeatureSettings,
    pub policy: PolicySettings,
    pub delivery: DeliverySettings,
    pub security: SecuritySettings,
    pub limits: LimitSettings,
    pub discovery: DiscoverySettings,
    pub jobs: JobSettings,
    pub scanning: ScanningSettings,
    pub uploads: UploadSettings,
    pub processing: ProcessingConfig,
}

} // verus!
