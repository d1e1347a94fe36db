//! Background jobs: when they run, what they clean up, and what they fill in.

use vstd::hash_set::StringHashSet;
use vstd::prelude::*;

use crate::config::{RuntimeSettings, ScanDecision};
use crate::error::AppError;
use crate::model::FileItem;
use crate::processing::{file_metadata_json, thumbnail_derivative, ThumbnailLimits};
use crate::rate_limit::to_signed_seconds;
use crate::text::{opt_owned, opt_str, same, starts_with};

#[allow(unused_imports)]
use crate::error::{or_other, ErrorView};
#[allow(unused_imports)]
use crate::processing::{
    decoded_within, derivative, is_sized, json_text, metadata_members, placeholder_fits,
    thumbnail_format,
};
#[allow(unused_imports)]
use crate::rate_limit::signed_seconds;
#[allow(unused_imports)]
use crate::text::{a_prefix_is_what_stands_in_front, has_prefix, opt_string_view, views};

verus! {

/// What one pass of the jobs did.
#[derive(Debug, Clone, Copy, PartialEq, Eq, Structural)]
pub struct JobSummary {
    pub expired_files: u64,
    pub expired_pastes: u64,
    pub expired_auth_rows: u64,
    pub deleted_blobs: u64,
    pub deleted_temp_files: u64,
    pub scanner_retries: u64,
    pub metadata_updates: u64,
    pub missing_blobs: usize,
    pub orphaned_blobs: usize,
}

/// The summary of a pass that did nothing.
pub open spec fn empty_summary() -> JobSummary {
    JobSummary {
        expired_files: 0,
        expired_pastes: 0,
        expired_auth_rows: 0,
        deleted_blobs: 0,
        deleted_temp_files: 0,
        scanner_retries: 0,
        metadata_updates: 0,
        missing_blobs: 0,
        orphaned_blobs: 0,
    }
}

impl Default for JobSummary {
    fn default() -> (r: Self)
        ensures
            r == empty_summary(),
    {
        JobSummary {
            expired_files: 0,
            expired_pastes: 0,
            expired_auth_rows: 0,
            deleted_blobs: 0,
            deleted_temp_files: 0,
            scanner_retries: 0,
            metadata_updates: 0,
            missing_blobs: 0,
            orphaned_blobs: 0,
        }
    }
}

/// What is done before the next pause.
#[derive(Debug, Clone, Copy, PartialEq, Eq, Structural)]
pub enum PassPlan {
    /// Nothing: the jobs are switched off.
    Skip,
    /// One pass over the jobs, with or without a verification of the storage.
    Run { verify_storage: bool },
}

/// Whether the storage is due to be verified.
pub open spec fn verification_due(interval_seconds: u64, last: i64, now: i64) -> bool {
    now - last >= signed_seconds(interval_seconds)
}

/// What is done before the next pause, where the storage was last verified at `last`.
pub open spec fn planned(settings: &RuntimeSettings, last: i64, now: i64) -> PassPlan {
    if settings.jobs.enabled {
        PassPlan::Run {
            verify_storage: verification_due(
                settings.jobs.storage_verify_interval_seconds,
                last,
                now,
            ),
        }
    } else {
        PassPlan::Skip
    }
}

/// What is done before the next pause, where the storage was last verified at `last`.
pub fn plan_pass(settings: &RuntimeSettings, last: i64, now: i64) -> (r: PassPlan)
    ensures
        r == planned(settings, last, now),
{
    if !settings.jobs.enabled {
        return PassPlan::Skip;
    }
    let interval: i64 = to_signed_seconds(settings.jobs.storage_verify_interval_seconds);
    PassPlan::Run { verify_storage: now as i128 - last as i128 >= interval as i128 }
}

/// When the storage was last verified, after what was planned at `now` was done.
pub open spec fn verified_after(plan: PassPlan, last: i64, now: i64, succeeded: bool) -> i64 {
    if plan == (PassPlan::Run { verify_storage: true }) && succeeded {
        now
    } else {
        last
    }
}

/// When the storage was last verified, after what was planned at `now` was done.
pub fn last_verification(plan: PassPlan, last: i64, now: i64, succeeded: bool) -> (r: i64)
    ensures
        r == verified_after(plan, last, now, succeeded),
{
    match plan {
        PassPlan::Run { verify_storage } => if verify_storage && succeeded {
            now
        } else {
            last
        },
        PassPlan::Skip => last,
    }
}

/// The seconds until the next pass, where this many are configured.
pub open spec fn pause_of(interval_seconds: Option<u64>) -> u64 {
    match interval_seconds {
        Some(seconds) => if seconds < 30 {
            30
        } else {
            seconds
        },
        None => 300,
    }
}

/// The seconds until the next pass; `None` stands for settings that could not be loaded.
pub fn pause_seconds(settings: Option<&RuntimeSettings>) -> (r: u64)
    ensures
        r == pause_of(match settings {
            Some(settings) => Some(settings.jobs.interval_seconds),
            None => None,
        }),
{
    match settings {
        Some(settings) => if settings.jobs.interval_seconds < 30 {
            30
        } else {
            settings.jobs.interval_seconds
        },
        None => 300,
    }
}

/// A pass that failed does not count as a verification: what was due stays due.
pub proof fn a_failed_verification_stays_due(
    interval_seconds: u64,
    last: i64,
    failed_at: i64,
    now: i64,
)
    requires
        verification_due(interval_seconds, last, failed_at),
        failed_at <= now,
    ensures
        verification_due(
            interval_seconds,
            verified_after(PassPlan::Run { verify_storage: true }, last, failed_at, false),
            now,
        ),
{
}

/// After the storage was verified it is left alone until the interval is over.
pub proof fn a_verification_holds_for_its_interval(
    interval_seconds: u64,
    last: i64,
    verified_at: i64,
    now: i64,
)
    requires
        now < verified_at + signed_seconds(interval_seconds),
    ensures
        !verification_due(
            interval_seconds,
            verified_after(PassPlan::Run { verify_storage: true }, last, verified_at, true),
            now,
        ),
{
}

/// The summary of a pass that did nothing but clean up.
pub open spec fn cleaned_summary(
    expired_files: u64,
    deleted_blobs: u64,
    expired_pastes: u64,
    expired_auth_rows: u64,
) -> JobSummary {
    JobSummary {
        expired_files,
        deleted_blobs,
        expired_pastes,
        expired_auth_rows,
        ..empty_summary()
    }
}

/// What cleaning up did.
pub fn cleanup_expired(
    expired_files: u64,
    deleted_blobs: u64,
    expired_pastes: u64,
    expired_auth_rows: u64,
) -> (r: JobSummary)
    ensures
        r == cleaned_summary(expired_files, deleted_blobs, expired_pastes, expired_auth_rows),
{
    let mut summary: JobSummary = JobSummary::default();
    summary.expired_files = expired_files;
    summary.deleted_blobs = deleted_blobs;
    summary.expired_pastes = expired_pastes;
    summary.expired_auth_rows = expired_auth_rows;
    summary
}

/// What one pass did, given what its jobs did.
pub open spec fn pass_summary(
    cleaned: JobSummary,
    deleted_temp_files: u64,
    scanner_retries: u64,
    metadata_updates: u64,
    storage: Option<(usize, usize)>,
) -> JobSummary {
    JobSummary {
        deleted_temp_files,
        scanner_retries,
        metadata_updates,
        missing_blobs: match storage {
            Some(found) => found.0,
            None => 0,
        },
        orphaned_blobs: match storage {
            Some(found) => found.1,
            None => 0,
        },
        ..cleaned
    }
}

/// What one pass did, given what its jobs did. `storage` is what the verification of the storage
/// found, where there was one: the numbers of missing and of orphaned blobs.
pub fn run_pass(
    cleaned: JobSummary,
    deleted_temp_files: u64,
    scanner_retries: u64,
    metadata_updates: u64,
    storage: Option<(usize, usize)>,
) -> (r: JobSummary)
    ensures
        r == pass_summary(cleaned, deleted_temp_files, scanner_retries, metadata_updates, storage),
{
    let mut summary: JobSummary = cleaned;
    summary.deleted_temp_files = deleted_temp_files;
    let (missing, orphaned): (usize, usize) = match storage {
        Some(found) => found,
        None => (0, 0),
    };
    summary.scanner_retries = scanner_retries;
    summary.metadata_updates = metadata_updates;
    summary.missing_blobs = missing;
    summary.orphaned_blobs = orphaned;
    summary
}

/// Whether files are scanned again at all.
pub fn scanners_retry(settings: &RuntimeSettings) -> (r: bool)
    ensures
        r == (settings.scanning.enabled && settings.scanning.adapters@.len() > 0),
{
    settings.scanning.enabled && settings.scanning.adapters.len() > 0
}

/// The state of a file after a scan.
pub open spec fn state_after_scan(decision: ScanDecision) -> Seq<char> {
    match decision {
        ScanDecision::Allow => "active"@,
        ScanDecision::Quarantine => "quarantined"@,
        ScanDecision::Reject => "quarantined"@,
    }
}

/// The view of an optional fixed text.
pub open spec fn opt_literal(r: Option<&'static str>) -> Option<Seq<char>> {
    match r {
        Some(s) => Some(s@),
        None => None,
    }
}

/// The state that a file changes to after a scan, where it changes.
pub open spec fn scan_change(state: Seq<char>, decision: ScanDecision) -> Option<Seq<char>> {
    if state == state_after_scan(decision) {
        None
    } else {
        Some(state_after_scan(decision))
    }
}

/// The state that a file changes to after a scan, where it changes.
pub fn retry_scanners(state: &str, decision: ScanDecision) -> (r: Option<&'static str>)
    ensures
        opt_literal(r) == scan_change(state@, decision),
{
    let next: &'static str = match decision {
        ScanDecision::Allow => "active",
        ScanDecision::Quarantine => "quarantined",
        ScanDecision::Reject => "quarantined",
    };
    if same(state, next) {
        None
    } else {
        Some(next)
    }
}

/// What is recorded of a decision.
pub fn decision_text(decision: ScanDecision) -> (r: &'static str)
    ensures
        r@ == match decision {
            ScanDecision::Allow => "allow"@,
            ScanDecision::Quarantine => "quarantine"@,
            ScanDecision::Reject => "reject"@,
        },
{
    match decision {
        ScanDecision::Allow => "allow",
        ScanDecision::Quarantine => "quarantine",
        ScanDecision::Reject => "reject",
    }
}

/// A file that was scanned is in the state that the scan asks for, so the same decision changes
/// nothing more; only an allowed file is active.
pub proof fn a_scan_settles_the_state(state: Seq<char>, decision: ScanDecision)
    ensures
        ({
            let after = match scan_change(state, decision) {
                Some(next) => next,
                None => state,
            };
            &&& after == state_after_scan(decision)
            &&& scan_change(after, decision) is None
            &&& after == "active"@ <==> decision == ScanDecision::Allow
        }),
{
    reveal_strlit("active");
    reveal_strlit("quarantined");
    assert("active"@.len() != "quarantined"@.len());
}

/// Whether there is anything to fill in.
pub fn processing_enabled(settings: &RuntimeSettings) -> (r: bool)
    ensures
        r == (settings.processing.metadata_extraction || settings.processing.thumbnails),
{
    settings.processing.metadata_extraction || settings.processing.thumbnails
}

/// Whether a file lacks the metadata that it is to have.
pub open spec fn lacks_metadata(settings: &RuntimeSettings, file: &FileItem) -> bool {
    settings.processing.metadata_extraction && file.metadata_json is None
}

/// Whether a file lacks the thumbnail that it is to have.
pub open spec fn lacks_thumbnail(settings: &RuntimeSettings, file: &FileItem) -> bool {
    settings.processing.thumbnails && file.thumbnail_hash is None
}

/// The type of a file, or that of bytes of which nothing is known.
pub open spec fn file_type(file: &FileItem) -> Seq<char> {
    match file.content_type {
        Some(content_type) => content_type@,
        None => "application/octet-stream"@,
    }
}

/// The type of a file, or that of bytes of which nothing is known.
fn type_of(file: &FileItem) -> (r: &str)
    ensures
        r@ == file_type(file),
{
    match &file.content_type {
        Some(content_type) => content_type.as_str(),
        None => "application/octet-stream",
    }
}

/// The dimensions of an image: those recorded, else those read from its bytes.
pub open spec fn dimensions_of(file: &FileItem, read: Option<(i64, i64)>) -> Option<(i64, i64)> {
    match (file.image_width, file.image_height) {
        (Some(width), Some(height)) => Some((width, height)),
        _ => read,
    }
}

/// The dimensions of an image: those recorded, else those read from its bytes.
pub fn known_dimensions(file: &FileItem, read: Option<(i64, i64)>) -> (r: Option<(i64, i64)>)
    ensures
        r == dimensions_of(file, read),
{
    match (file.image_width, file.image_height) {
        (Some(width), Some(height)) => Some((width, height)),
        _ => read,
    }
}

/// What a thumbnail may cost as configured.
pub open spec fn configured_limits(settings: &RuntimeSettings) -> ThumbnailLimits {
    ThumbnailLimits {
        max_dimension: settings.processing.thumbnail_max_dimension,
        source_max_pixels: settings.processing.thumbnail_source_max_pixels,
        source_max_alloc_bytes: settings.processing.thumbnail_source_max_alloc_bytes,
    }
}

/// The thumbnail of a file, as `thumbnail_derivative` makes it with the configured limits.
pub fn file_thumbnail(
    settings: &RuntimeSettings,
    file: &FileItem,
    bytes: &[u8],
    dimensions: Option<(i64, i64)>,
    placeholder: (u32, u32),
) -> (r: Option<Vec<u8>>)
    requires
        16 * settings.processing.thumbnail_max_dimension
            * settings.processing.thumbnail_max_dimension <= isize::MAX,
        settings.processing.thumbnail_max_dimension > 0 ==> placeholder_fits(
            dimensions,
            configured_limits(settings),
            placeholder,
        ),
    ensures
        ({
            let limits = configured_limits(settings);
            let expected = derivative(file_type(file), bytes@, limits, dimensions, placeholder);
            match r {
                Some(made) => {
                    &&& expected == Some(made@)
                    &&& thumbnail_format(file_type(file)) matches Some(format)
                    &&& is_sized(
                        made@,
                        decoded_within(bytes@, format, limits),
                        limits.max_dimension,
                        placeholder,
                    )
                },
                None => expected is None,
            }
        }),
{
    let limits: ThumbnailLimits = ThumbnailLimits::from_config(&settings.processing);
    thumbnail_derivative(type_of(file), bytes, limits, dimensions, placeholder)
}

/// What happened while the metadata and the thumbnail of a file are filled in.
#[derive(Debug)]
pub enum ProcessingEvent {
    /// The file was picked.
    Started,
    /// Its bytes were read; this is what they say of its dimensions.
    BytesRead { dimensions: Option<(i64, i64)> },
    /// A thumbnail was made, with this hash; or none could be.
    ThumbnailMade { hash: Option<String> },
    /// The bytes of the thumbnail are stored.
    ThumbnailStored,
    /// The thumbnail was recorded together with the metadata, or the file had another by then.
    ThumbnailAttached { attached: bool },
    /// The records of the file were read again.
    RecordsRead { thumbnail_hash: Option<String>, metadata_json: Option<String> },
    /// The metadata was recorded.
    MetadataRecorded,
}

/// What is to be done next for a file.
#[derive(Debug)]
pub enum ProcessingAction {
    /// Read its bytes.
    ReadBytes,
    /// Make a thumbnail of its bytes.
    MakeThumbnail,
    /// Begin a change to the records of the blob with this hash: create it where it is missing, and
    /// store the bytes of the thumbnail.
    StoreThumbnail { hash: String },
    /// Record the thumbnail together with the metadata, unless the file has another by now, and
    /// commit the change that was begun.
    AttachThumbnail { hash: String, metadata_json: Option<String> },
    /// Read the records of the file again.
    ReadRecords,
    /// Record the metadata.
    RecordMetadata { metadata_json: Option<String> },
    /// Nothing more; the file counts as updated or not.
    Finish { updated: bool },
}

/// What is to be done next, with its texts as sequences of characters.
pub enum ProcessingActionView {
    ReadBytes,
    MakeThumbnail,
    StoreThumbnail { hash: Seq<char> },
    AttachThumbnail { hash: Seq<char>, metadata_json: Option<Seq<char>> },
    ReadRecords,
    RecordMetadata { metadata_json: Option<Seq<char>> },
    Finish { updated: bool },
}

impl View for ProcessingAction {
    type V = ProcessingActionView;

    open spec fn view(&self) -> ProcessingActionView {
        match self {
            ProcessingAction::ReadBytes => ProcessingActionView::ReadBytes,
            ProcessingAction::MakeThumbnail => ProcessingActionView::MakeThumbnail,
            ProcessingAction::StoreThumbnail { hash } => ProcessingActionView::StoreThumbnail {
                hash: hash@,
            },
            ProcessingAction::AttachThumbnail { hash, metadata_json } => {
                ProcessingActionView::AttachThumbnail {
                    hash: hash@,
                    metadata_json: opt_string_view(*metadata_json),
                }
            },
            ProcessingAction::ReadRecords => ProcessingActionView::ReadRecords,
            ProcessingAction::RecordMetadata { metadata_json } => {
                ProcessingActionView::RecordMetadata {
                    metadata_json: opt_string_view(*metadata_json),
                }
            },
            ProcessingAction::Finish { updated } => ProcessingActionView::Finish {
                updated: *updated,
            },
        }
    }
}

/// What is being waited for.
#[derive(Debug, Clone, Copy, PartialEq, Eq, Structural)]
pub enum ProcessingPhase {
    Picked,
    ReadingForMetadata,
    ReadingForThumbnail,
    MakingThumbnail,
    StoringThumbnail,
    AttachingThumbnail,
    ReadingRecords,
    RecordingMetadata,
    Finished,
}

/// How far the metadata and the thumbnail of a file are filled in.
#[derive(Debug)]
pub struct FileProcessing {
    pub phase: ProcessingPhase,
    pub metadata_json: Option<String>,
    /// The thumbnail of the file; while one is being recorded, that one.
    pub thumbnail_hash: Option<String>,
}

/// How far a file is filled in, with its texts as sequences of characters.
pub struct FileProcessingView {
    pub phase: ProcessingPhase,
    pub metadata_json: Option<Seq<char>>,
    pub thumbnail_hash: Option<Seq<char>>,
}

impl View for FileProcessing {
    type V = FileProcessingView;

    open spec fn view(&self) -> FileProcessingView {
        FileProcessingView {
            phase: self.phase,
            metadata_json: opt_string_view(self.metadata_json),
            thumbnail_hash: opt_string_view(self.thumbnail_hash),
        }
    }
}

impl FileProcessing {
    /// A file that was picked: it has what its records say.
    pub fn new(file: &FileItem) -> (r: Self)
        ensures
            r@ == picked(file),
    {
        FileProcessing {
            phase: ProcessingPhase::Picked,
            metadata_json: opt_owned(opt_str(&file.metadata_json)),
            thumbnail_hash: opt_owned(opt_str(&file.thumbnail_hash)),
        }
    }
}

/// A file that was picked: it has what its records say.
pub open spec fn picked(file: &FileItem) -> FileProcessingView {
    FileProcessingView {
        phase: ProcessingPhase::Picked,
        metadata_json: opt_string_view(file.metadata_json),
        thumbnail_hash: opt_string_view(file.thumbnail_hash),
    }
}

/// Whether an event is the one that is being waited for.
pub open spec fn is_awaited(phase: ProcessingPhase, event: ProcessingEvent) -> bool {
    match phase {
        ProcessingPhase::Picked => event is Started,
        ProcessingPhase::ReadingForMetadata => event is BytesRead,
        ProcessingPhase::ReadingForThumbnail => event is BytesRead,
        ProcessingPhase::MakingThumbnail => event is ThumbnailMade,
        ProcessingPhase::StoringThumbnail => event is ThumbnailStored,
        ProcessingPhase::AttachingThumbnail => event is ThumbnailAttached,
        ProcessingPhase::ReadingRecords => event is RecordsRead,
        ProcessingPhase::RecordingMetadata => event is MetadataRecorded,
        ProcessingPhase::Finished => false,
    }
}

/// The metadata that is extracted from a file, where its bytes say this of its dimensions.
pub open spec fn extracted_metadata(file: &FileItem, read: Option<(i64, i64)>) -> Result<
    Seq<char>,
    ErrorView,
> {
    or_other(
        json_text(
            metadata_members(file_type(file), file.size_bytes, dimensions_of(file, read), false),
        ),
    )
}

/// What follows once nothing more is to be made: the metadata is recorded where something changed.
pub open spec fn settled(
    file: &FileItem,
    metadata_json: Option<Seq<char>>,
    thumbnail_hash: Option<Seq<char>>,
) -> (FileProcessingView, ProcessingActionView) {
    if metadata_json != opt_string_view(file.metadata_json) || thumbnail_hash != opt_string_view(
        file.thumbnail_hash,
    ) {
        (
            FileProcessingView {
                phase: ProcessingPhase::RecordingMetadata,
                metadata_json,
                thumbnail_hash,
            },
            ProcessingActionView::RecordMetadata { metadata_json },
        )
    } else {
        (
            FileProcessingView { phase: ProcessingPhase::Finished, metadata_json, thumbnail_hash },
            ProcessingActionView::Finish { updated: false },
        )
    }
}

/// What follows once the metadata is there: a thumbnail is made where the file lacks one. Its bytes
/// are read for that unless they were read already.
pub open spec fn on_to_the_thumbnail(
    settings: &RuntimeSettings,
    file: &FileItem,
    state: FileProcessingView,
    bytes_read: bool,
) -> (FileProcessingView, ProcessingActionView) {
    if !lacks_thumbnail(settings, file) {
        settled(file, state.metadata_json, state.thumbnail_hash)
    } else if bytes_read {
        (
            FileProcessingView { phase: ProcessingPhase::MakingThumbnail, ..state },
            ProcessingActionView::MakeThumbnail,
        )
    } else {
        (
            FileProcessingView { phase: ProcessingPhase::ReadingForThumbnail, ..state },
            ProcessingActionView::ReadBytes,
        )
    }
}

/// How a file stands after an event, and what is to be done next.
pub open spec fn advanced(
    settings: &RuntimeSettings,
    file: &FileItem,
    state: FileProcessingView,
    event: ProcessingEvent,
) -> Result<(FileProcessingView, ProcessingActionView), ErrorView> {
    match event {
        ProcessingEvent::Started => if lacks_metadata(settings, file) {
            Ok(
                (
                    FileProcessingView { phase: ProcessingPhase::ReadingForMetadata, ..state },
                    ProcessingActionView::ReadBytes,
                ),
            )
        } else {
            Ok(on_to_the_thumbnail(settings, file, state, false))
        },
        ProcessingEvent::BytesRead { dimensions } => if state.phase
            == ProcessingPhase::ReadingForMetadata {
            match extracted_metadata(file, dimensions) {
                Ok(json) => Ok(
                    on_to_the_thumbnail(
                        settings,
                        file,
                        FileProcessingView { metadata_json: Some(json), ..state },
                        true,
                    ),
                ),
                Err(e) => Err(e),
            }
        } else {
            Ok(on_to_the_thumbnail(settings, file, state, true))
        },
        ProcessingEvent::ThumbnailMade { hash } => match hash {
            Some(hash) => Ok(
                (
                    FileProcessingView {
                        phase: ProcessingPhase::StoringThumbnail,
                        thumbnail_hash: Some(hash@),
                        ..state
                    },
                    ProcessingActionView::StoreThumbnail { hash: hash@ },
                ),
            ),
            None => Ok(settled(file, state.metadata_json, state.thumbnail_hash)),
        },
        ProcessingEvent::ThumbnailStored => Ok(
            (
                FileProcessingView { phase: ProcessingPhase::AttachingThumbnail, ..state },
                ProcessingActionView::AttachThumbnail {
                    hash: match state.thumbnail_hash {
                        Some(hash) => hash,
                        None => Seq::empty(),
                    },
                    metadata_json: state.metadata_json,
                },
            ),
        ),
        ProcessingEvent::ThumbnailAttached { attached } => if attached {
            Ok(
                (
                    FileProcessingView { phase: ProcessingPhase::Finished, ..state },
                    ProcessingActionView::Finish { updated: true },
                ),
            )
        } else {
            Ok(
                (
                    FileProcessingView { phase: ProcessingPhase::ReadingRecords, ..state },
                    ProcessingActionView::ReadRecords,
                ),
            )
        },
        ProcessingEvent::RecordsRead { thumbnail_hash, metadata_json } => Ok(
            settled(
                file,
                match metadata_json {
                    Some(current) => Some(current@),
                    None => state.metadata_json,
                },
                opt_string_view(thumbnail_hash),
            ),
        ),
        ProcessingEvent::MetadataRecorded => Ok(
            (
                FileProcessingView { phase: ProcessingPhase::Finished, ..state },
                ProcessingActionView::Finish { updated: true },
            ),
        ),
    }
}

/// What is to be done next or an error, each by its view.
pub open spec fn seen_step(r: Result<ProcessingAction, AppError>) -> Result<
    ProcessingActionView,
    ErrorView,
> {
    match r {
        Ok(action) => Ok(action@),
        Err(e) => Err(e@),
    }
}

/// Whether two optional texts are equal.
fn same_option(a: &Option<String>, b: &Option<String>) -> (r: bool)
    ensures
        r == (opt_string_view(*a) == opt_string_view(*b)),
{
    match (a, b) {
        (Some(a), Some(b)) => same(a.as_str(), b.as_str()),
        (None, None) => true,
        _ => false,
    }
}

/// Records the metadata where something changed, and is done otherwise.
fn settle(file: &FileItem, state: &mut FileProcessing) -> (r: ProcessingAction)
    ensures
        (final(state)@, r@) == settled(file, old(state)@.metadata_json, old(state)@.thumbnail_hash),
{
    if same_option(&state.metadata_json, &file.metadata_json) && same_option(
        &state.thumbnail_hash,
        &file.thumbnail_hash,
    ) {
        state.phase = ProcessingPhase::Finished;
        ProcessingAction::Finish { updated: false }
    } else {
        state.phase = ProcessingPhase::RecordingMetadata;
        ProcessingAction::RecordMetadata {
            metadata_json: opt_owned(opt_str(&state.metadata_json)),
        }
    }
}

/// Goes on to the thumbnail of a file.
fn go_on_to_the_thumbnail(
    settings: &RuntimeSettings,
    file: &FileItem,
    state: &mut FileProcessing,
    bytes_read: bool,
) -> (r: ProcessingAction)
    ensures
        (final(state)@, r@) == on_to_the_thumbnail(settings, file, old(state)@, bytes_read),
{
    if !settings.processing.thumbnails || file.thumbnail_hash.is_some() {
        settle(file, state)
    } else if bytes_read {
        state.phase = ProcessingPhase::MakingThumbnail;
        ProcessingAction::MakeThumbnail
    } else {
        state.phase = ProcessingPhase::ReadingForThumbnail;
        ProcessingAction::ReadBytes
    }
}

/// Takes in what happened to a file and says what is to be done next, until there is nothing more
/// to do. Metadata that cannot be written is an error, and ends the work on the file.
pub fn process_file_metadata(
    settings: &RuntimeSettings,
    file: &FileItem,
    state: &mut FileProcessing,
    event: ProcessingEvent,
) -> (r: Result<ProcessingAction, AppError>)
    requires
        is_awaited(old(state)@.phase, event),
    ensures
        match advanced(settings, file, old(state)@, event) {
            Ok((next, action)) => final(state)@ == next && seen_step(r) == Ok::<
                ProcessingActionView,
                ErrorView,
            >(action),
            Err(e) => final(state)@ == old(state)@ && seen_step(r) == Err::<
                ProcessingActionView,
                ErrorView,
            >(e),
        },
{
    match event {
        ProcessingEvent::Started => if settings.processing.metadata_extraction
            && file.metadata_json.is_none() {
            state.phase = ProcessingPhase::ReadingForMetadata;
            Ok(ProcessingAction::ReadBytes)
        } else {
            Ok(go_on_to_the_thumbnail(settings, file, state, false))
        },
        ProcessingEvent::BytesRead { dimensions } => {
            if state.phase == ProcessingPhase::ReadingForMetadata {
                match file_metadata_json(
                    type_of(file),
                    file.size_bytes,
                    known_dimensions(file, dimensions),
                    false,
                ) {
                    Ok(json) => {
                        state.metadata_json = Some(json);
                    },
                    Err(e) => {
                        return Err(e);
                    },
                }
            }
            Ok(go_on_to_the_thumbnail(settings, file, state, true))
        },
        ProcessingEvent::ThumbnailMade { hash } => match hash {
            Some(hash) => {
                state.phase = ProcessingPhase::StoringThumbnail;
                let copy: String = hash.as_str().to_owned();
                state.thumbnail_hash = Some(hash);
                Ok(ProcessingAction::StoreThumbnail { hash: copy })
            },
            None => Ok(settle(file, state)),
        },
        ProcessingEvent::ThumbnailStored => {
            state.phase = ProcessingPhase::AttachingThumbnail;
            let hash: String = match &state.thumbnail_hash {
                Some(hash) => hash.as_str().to_owned(),
                None => String::new(),
            };
            Ok(
                ProcessingAction::AttachThumbnail {
                    hash,
                    metadata_json: opt_owned(opt_str(&state.metadata_json)),
                },
            )
        },
        ProcessingEvent::ThumbnailAttached { attached } => if attached {
            state.phase = ProcessingPhase::Finished;
            Ok(ProcessingAction::Finish { updated: true })
        } else {
            state.phase = ProcessingPhase::ReadingRecords;
            Ok(ProcessingAction::ReadRecords)
        },
        ProcessingEvent::RecordsRead { thumbnail_hash, metadata_json } => {
            state.thumbnail_hash = thumbnail_hash;
            if metadata_json.is_some() {
                state.metadata_json = metadata_json;
            }
            Ok(settle(file, state))
        },
        ProcessingEvent::MetadataRecorded => {
            state.phase = ProcessingPhase::Finished;
            Ok(ProcessingAction::Finish { updated: true })
        },
    }
}

/// What holds of a file at every step: its own metadata is kept until its records are read again,
/// one that lacks none of the two is never read, and a thumbnail that is being stored has a hash.
pub open spec fn is_sound(
    settings: &RuntimeSettings,
    file: &FileItem,
    state: FileProcessingView,
) -> bool {
    let own = opt_string_view(file.metadata_json);
    let before_records_are_read_again = state.phase == ProcessingPhase::Picked || state.phase
        == ProcessingPhase::ReadingForMetadata || state.phase
        == ProcessingPhase::ReadingForThumbnail || state.phase == ProcessingPhase::MakingThumbnail
        || state.phase == ProcessingPhase::StoringThumbnail || state.phase
        == ProcessingPhase::AttachingThumbnail;
    &&& before_records_are_read_again && file.metadata_json is Some ==> state.metadata_json == own
    &&& state.phase == ProcessingPhase::ReadingForMetadata ==> lacks_metadata(settings, file)
    &&& state.phase == ProcessingPhase::ReadingForThumbnail ==> lacks_thumbnail(settings, file)
        && !lacks_metadata(settings, file)
    &&& state.phase == ProcessingPhase::MakingThumbnail ==> lacks_thumbnail(settings, file)
    &&& state.phase == ProcessingPhase::StoringThumbnail || state.phase
        == ProcessingPhase::AttachingThumbnail ==> lacks_thumbnail(settings, file)
        && state.thumbnail_hash is Some
    &&& state.phase == ProcessingPhase::RecordingMetadata ==> state.metadata_json != own
        || state.thumbnail_hash != opt_string_view(file.thumbnail_hash)
}

/// A file that was picked is sound, and every event that is awaited keeps it so.
pub proof fn processing_stays_sound(
    settings: &RuntimeSettings,
    file: &FileItem,
    state: FileProcessingView,
    event: ProcessingEvent,
)
    requires
        is_sound(settings, file, state),
        is_awaited(state.phase, event),
    ensures
        is_sound(settings, file, picked(file)),
        advanced(settings, file, state, event) matches Ok((next, _)) ==> is_sound(
            settings,
            file,
            next,
        ),
{
}

/// The bytes of a file are read at most once: they are asked for when the file is picked or not at
/// all.
pub proof fn bytes_are_read_once(
    settings: &RuntimeSettings,
    file: &FileItem,
    state: FileProcessingView,
    event: ProcessingEvent,
)
    requires
        is_awaited(state.phase, event),
        advanced(settings, file, state, event) matches Ok((_, action)) && action is ReadBytes,
    ensures
        event is Started,
        state.phase == ProcessingPhase::Picked,
{
}

/// How far a phase is from the start.
pub open spec fn phase_rank(phase: ProcessingPhase) -> int {
    match phase {
        ProcessingPhase::Picked => 0,
        ProcessingPhase::ReadingForMetadata => 1,
        ProcessingPhase::ReadingForThumbnail => 1,
        ProcessingPhase::MakingThumbnail => 2,
        ProcessingPhase::StoringThumbnail => 3,
        ProcessingPhase::AttachingThumbnail => 4,
        ProcessingPhase::ReadingRecords => 5,
        ProcessingPhase::RecordingMetadata => 6,
        ProcessingPhase::Finished => 7,
    }
}

/// The work on a file goes only forward, so it ends after seven events at the latest; and it is
/// finished exactly where nothing more is to be done.
pub proof fn processing_comes_to_an_end(
    settings: &RuntimeSettings,
    file: &FileItem,
    state: FileProcessingView,
    event: ProcessingEvent,
)
    requires
        is_awaited(state.phase, event),
    ensures
        advanced(settings, file, state, event) matches Ok((next, action)) ==> {
            &&& phase_rank(state.phase) < phase_rank(next.phase) <= 7
            &&& next.phase == ProcessingPhase::Finished <==> action is Finish
        },
{
}

/// A file counts as updated only after a record of it was written: its thumbnail with its metadata,
/// or its metadata.
pub proof fn updated_files_were_recorded(
    settings: &RuntimeSettings,
    file: &FileItem,
    state: FileProcessingView,
    event: ProcessingEvent,
)
    requires
        is_awaited(state.phase, event),
    ensures
        advanced(settings, file, state, event) matches Ok(
            (_, ProcessingActionView::Finish { updated }),
        ) ==> (updated <==> event is MetadataRecorded || event == (
            ProcessingEvent::ThumbnailAttached { attached: true }
        )),
{
}

/// A file that lacks nothing that it is to have is left alone.
pub proof fn complete_files_are_left_alone(settings: &RuntimeSettings, file: &FileItem)
    requires
        !lacks_metadata(settings, file),
        !lacks_thumbnail(settings, file),
    ensures
        advanced(settings, file, picked(file), ProcessingEvent::Started) matches Ok((_, action))
            && action == (ProcessingActionView::Finish { updated: false }),
{
}

/// Where another process was faster, its records win over what was made here.
pub proof fn the_faster_process_wins(
    settings: &RuntimeSettings,
    file: &FileItem,
    state: FileProcessingView,
    hash: Option<String>,
    json: String,
)
    requires
        state.phase == ProcessingPhase::ReadingRecords,
    ensures
        advanced(
            settings,
            file,
            state,
            ProcessingEvent::RecordsRead { thumbnail_hash: hash, metadata_json: Some(json) },
        ) matches Ok((next, _)) && next.metadata_json == Some(json@) && next.thumbnail_hash
            == opt_string_view(hash),
{
}

/// Whether a name is one of a scratch file that is made here.
pub open spec fn is_scratch(name: Seq<char>) -> bool {
    has_prefix(name, "midden-upload-"@) || has_prefix(name, "midden-scan-"@)
}

/// Whether a name is one of a scratch file that is made here.
pub fn is_scratch_name(name: &str) -> (r: bool)
    ensures
        r == is_scratch(name@),
{
    starts_with(name, "midden-upload-") || starts_with(name, "midden-scan-")
}

/// The seconds for which a scratch file is left alone.
pub open spec fn scratch_age(settings: &RuntimeSettings) -> u64 {
    if settings.uploads.temp_file_max_age_seconds < 60 {
        60
    } else {
        settings.uploads.temp_file_max_age_seconds
    }
}

/// The seconds for which a scratch file is left alone: as configured, but a minute at least.
pub fn scratch_max_age(settings: &RuntimeSettings) -> (r: u64)
    ensures
        r == scratch_age(settings),
{
    if settings.uploads.temp_file_max_age_seconds < 60 {
        60
    } else {
        settings.uploads.temp_file_max_age_seconds
    }
}

/// The moment at which a scratch file must have been written last to be removed at `now`, both in
/// nanoseconds since 1970.
pub open spec fn cutoff_at(settings: &RuntimeSettings, now: int) -> int {
    now - scratch_age(settings) * 1_000_000_000
}

/// The moment at which a scratch file must have been written last to be removed at `now`, both in
/// nanoseconds since 1970.
pub fn scratch_cutoff(settings: &RuntimeSettings, now: i128) -> (r: i128)
    requires
        cutoff_at(settings, now as int) >= i128::MIN,
    ensures
        r == cutoff_at(settings, now as int),
{
    now - scratch_max_age(settings) as i128 * 1_000_000_000
}

/// An entry of the directory for scratch files.
#[derive(Debug, Clone)]
pub struct ScratchEntry {
    /// The name, where it is one that can be read.
    pub name: Option<String>,
    /// Whether it is known to be a file.
    pub is_file: bool,
    /// When it was last written, in nanoseconds since 1970, where that is known.
    pub modified: Option<i128>,
}

/// Whether an entry is a scratch file that was last written at `cutoff` or before.
pub open spec fn is_abandoned(entry: &ScratchEntry, cutoff: i128) -> bool {
    &&& entry.name matches Some(name) && is_scratch(name@)
    &&& entry.is_file
    &&& entry.modified matches Some(modified) && modified <= cutoff
}

/// Whether an entry is removed: a scratch file of ours that was last written at `cutoff` or before.
/// An upload that goes on keeps writing, so the age counts from the last write.
pub fn cleanup_temp_files(entry: &ScratchEntry, cutoff: i128) -> (r: bool)
    ensures
        r == is_abandoned(entry, cutoff),
{
    let name: &str = match &entry.name {
        Some(name) => name.as_str(),
        None => {
            return false;
        },
    };
    if !is_scratch_name(name) || !entry.is_file {
        return false;
    }
    match entry.modified {
        Some(modified) => modified <= cutoff,
        None => false,
    }
}

/// Only files of ours are ever removed, and none that was written within the last minute.
pub proof fn nothing_else_is_removed(
    settings: &RuntimeSettings,
    entry: &ScratchEntry,
    now: i128,
    cutoff: i128,
)
    requires
        cutoff == cutoff_at(settings, now as int),
        is_abandoned(entry, cutoff),
    ensures
        entry.name matches Some(name) && is_scratch(name@),
        entry.modified matches Some(modified) && modified <= now - 60_000_000_000,
{
}

/// The set of the texts in a list.
pub open spec fn hash_set(hashes: Seq<String>) -> Set<Seq<char>> {
    views(hashes).to_set()
}

/// The set of a list of one text more.
proof fn lemma_hash_set_grows(hashes: Seq<String>, i: int)
    requires
        0 <= i < hashes.len(),
    ensures
        hash_set(hashes.take(i + 1)) == hash_set(hashes.take(i)).insert(hashes[i]@),
{
    let front = views(hashes.take(i));
    let all = views(hashes.take(i + 1));
    assert(all =~= front.push(hashes[i]@));
    assert forall|h: Seq<char>| #[trigger] all.contains(h) <==> front.contains(h) || h
        == hashes[i]@ by {
        if front.contains(h) {
            let j = choose|j: int| 0 <= j < front.len() && front[j] == h;
            assert(all[j] == h);
        }
        if h == hashes[i]@ {
            assert(all[i] == h);
        }
    }
    assert(hash_set(hashes.take(i + 1)) =~= hash_set(hashes.take(i)).insert(hashes[i]@));
}

/// The set of the texts in a list.
fn to_hash_set(hashes: &[String]) -> (r: StringHashSet)
    ensures
        r@ == hash_set(hashes@),
{
    let mut set: StringHashSet = StringHashSet::new();
    let mut i: usize = 0;
    assert(set@ =~= hash_set(hashes@.take(0)));
    while i < hashes.len()
        invariant
            i <= hashes@.len(),
            set@ == hash_set(hashes@.take(i as int)),
        decreases hashes@.len() - i,
    {
        proof {
            lemma_hash_set_grows(hashes@, i as int);
        }
        set.insert(hashes[i].as_str().to_owned());
        i = i + 1;
    }
    assert(hashes@.take(hashes@.len() as int) =~= hashes@);
    set
}

/// The number of texts in one list that are not in another; one that stands there twice counts
/// once.
fn count_missing(hashes: &[String], others: &StringHashSet) -> (r: usize)
    ensures
        hash_set(hashes@).difference(others@).finite(),
        r == hash_set(hashes@).difference(others@).len(),
{
    let mut counted: StringHashSet = StringHashSet::new();
    let mut n: usize = 0;
    let mut i: usize = 0;
    assert(hash_set(hashes@.take(0)) =~= Set::<Seq<char>>::empty());
    assert(counted@ =~= hash_set(hashes@.take(0)).difference(others@));
    while i < hashes.len()
        invariant
            i <= hashes@.len(),
            n <= i,
            counted@ == hash_set(hashes@.take(i as int)).difference(others@),
            counted@.finite(),
            n == counted@.len(),
        decreases hashes@.len() - i,
    {
        proof {
            lemma_hash_set_grows(hashes@, i as int);
        }
        let ghost before = counted@;
        let ghost wider = hash_set(hashes@.take(i + 1)).difference(others@);
        let hash: &str = hashes[i].as_str();
        if !others.contains(hash) && !counted.contains(hash) {
            counted.insert(hash.to_owned());
            n = n + 1;
            assert(wider =~= before.insert(hash@));
        } else {
            assert(wider =~= before);
        }
        i = i + 1;
    }
    assert(hashes@.take(hashes@.len() as int) =~= hashes@);
    n
}

/// The numbers of blobs that are recorded and not stored, and of those that are stored and not
/// recorded.
pub open spec fn drift(recorded: Set<Seq<char>>, stored: Set<Seq<char>>) -> (nat, nat) {
    (recorded.difference(stored).len(), stored.difference(recorded).len())
}

/// Compares the blobs that are recorded with those that are stored, and gives the numbers of those
/// that are missing and of those that nothing refers to.
pub fn verify_storage(recorded: &[String], stored: &[String]) -> (r: (usize, usize))
    ensures
        (r.0 as nat, r.1 as nat) == drift(hash_set(recorded@), hash_set(stored@)),
{
    let in_records: StringHashSet = to_hash_set(recorded);
    let in_storage: StringHashSet = to_hash_set(stored);
    (count_missing(recorded, &in_storage), count_missing(stored, &in_records))
}

/// A list of texts has a finite set.
proof fn lemma_hash_set_finite(hashes: Seq<String>)
    ensures
        hash_set(hashes).finite(),
    decreases hashes.len(),
{
    if hashes.len() == 0 {
        assert(hash_set(hashes) =~= Set::<Seq<char>>::empty());
    } else {
        let n = hashes.len() - 1;
        lemma_hash_set_finite(hashes.take(n));
        lemma_hash_set_grows(hashes, n);
        assert(hashes.take(n + 1) =~= hashes);
    }
}

/// Nothing is missing and nothing orphaned exactly where the records and the storage agree.
pub proof fn no_drift_means_agreement(recorded: Seq<String>, stored: Seq<String>)
    ensures
        hash_set(recorded).difference(hash_set(stored)).len() == 0 && hash_set(stored).difference(
            hash_set(recorded),
        ).len() == 0 <==> hash_set(recorded) == hash_set(stored),
{
    let a = hash_set(recorded);
    let b = hash_set(stored);
    lemma_hash_set_finite(recorded);
    lemma_hash_set_finite(stored);
    if a.difference(b).len() == 0 && b.difference(a).len() == 0 {
        assert(a.difference(b) =~= Set::<Seq<char>>::empty());
        assert(b.difference(a) =~= Set::<Seq<char>>::empty());
        assert forall|h: Seq<char>| a.contains(h) <==> b.contains(h) by {
            assert(!a.difference(b).contains(h));
            assert(!b.difference(a).contains(h));
        }
        assert(a =~= b);
    }
    if a == b {
        assert(a.difference(b) =~= Set::<Seq<char>>::empty());
        assert(b.difference(a) =~= Set::<Seq<char>>::empty());
    }
}

/// The jobs run exactly where they are switched on, and verify the storage in a pass exactly where
/// the configured seconds have gone by since it was last verified. Between two passes they pause for
/// the configured seconds, but never for fewer than thirty.
pub proof fn the_jobs_run_as_configured(settings: &RuntimeSettings, last: i64, now: i64)
    ensures
        !settings.jobs.enabled ==> planned(settings, last, now) == PassPlan::Skip,
        settings.jobs.enabled && settings.jobs.storage_verify_interval_seconds <= i64::MAX
            ==> planned(settings, last, now) == (PassPlan::Run {
            verify_storage: now >= last + settings.jobs.storage_verify_interval_seconds,
        }),
        pause_of(Some(settings.jobs.interval_seconds)) >= 30,
        settings.jobs.interval_seconds >= 30 ==> pause_of(Some(settings.jobs.interval_seconds))
            == settings.jobs.interval_seconds,
        settings.jobs.interval_seconds < 30 ==> pause_of(Some(settings.jobs.interval_seconds)) == 30,
        pause_of(None) == 300,
{
}

/// Only a pass that verified the storage to its end counts as a verification.
pub proof fn only_a_finished_verification_counts(
    plan: PassPlan,
    last: i64,
    now: i64,
    succeeded: bool,
)
    ensures
        verified_after(PassPlan::Run { verify_storage: true }, last, now, true) == now,
        !succeeded ==> verified_after(plan, last, now, succeeded) == last,
        verified_after(PassPlan::Run { verify_storage: false }, last, now, succeeded) == last,
        verified_after(PassPlan::Skip, last, now, succeeded) == last,
{
}

/// The summary of a pass reports each of its counts where it belongs: what was cleaned up, what the
/// jobs did, and what the verification of the storage found, which is nothing where there was none.
pub proof fn summaries_report_each_count_once(
    expired_files: u64,
    deleted_blobs: u64,
    expired_pastes: u64,
    expired_auth_rows: u64,
    deleted_temp_files: u64,
    scanner_retries: u64,
    metadata_updates: u64,
    missing: usize,
    orphaned: usize,
)
    ensures
        ({
            let cleaned = cleaned_summary(
                expired_files,
                deleted_blobs,
                expired_pastes,
                expired_auth_rows,
            );
            let plain = pass_summary(
                cleaned,
                deleted_temp_files,
                scanner_retries,
                metadata_updates,
                None,
            );
            let verified = pass_summary(
                cleaned,
                deleted_temp_files,
                scanner_retries,
                metadata_updates,
                Some((missing, orphaned)),
            );
            &&& plain.expired_files == expired_files && plain.deleted_blobs == deleted_blobs
            &&& plain.expired_pastes == expired_pastes && plain.expired_auth_rows
                == expired_auth_rows
            &&& plain.deleted_temp_files == deleted_temp_files && plain.scanner_retries
                == scanner_retries
            &&& plain.metadata_updates == metadata_updates
            &&& plain.missing_blobs == 0 && plain.orphaned_blobs == 0
            &&& verified.missing_blobs == missing && verified.orphaned_blobs == orphaned
            &&& verified.expired_files == expired_files && verified.metadata_updates
                == metadata_updates
            &&& cleaned.scanner_retries == 0 && cleaned.deleted_temp_files == 0
        }),
{
}

/// A file that a scan allows is active afterwards, and any other is in quarantine, whatever its state
/// was before; its state is written exactly where it changes.
pub proof fn a_scan_decides_on_the_state(state: Seq<char>)
    ensures
        scan_change(state, ScanDecision::Allow) == if state == "active"@ {
            None
        } else {
            Some("active"@)
        },
        scan_change(state, ScanDecision::Quarantine) == if state == "quarantined"@ {
            None
        } else {
            Some("quarantined"@)
        },
        scan_change(state, ScanDecision::Reject) == scan_change(state, ScanDecision::Quarantine),
{
}

/// The bytes of a picked file are read exactly where something is to be made of them that the file
/// lacks: its metadata, or its thumbnail.
pub proof fn files_are_read_for_what_they_lack(settings: &RuntimeSettings, file: &FileItem)
    ensures
        ({
            let metadata = settings.processing.metadata_extraction && file.metadata_json is None;
            let thumbnail = settings.processing.thumbnails && file.thumbnail_hash is None;
            let first = advanced(settings, file, picked(file), ProcessingEvent::Started);
            &&& metadata || thumbnail ==> (first matches Ok((next, action)) && action is ReadBytes
                && (metadata <==> next.phase == ProcessingPhase::ReadingForMetadata)
                && next.metadata_json == opt_string_view(file.metadata_json)
                && next.thumbnail_hash == opt_string_view(file.thumbnail_hash))
            &&& !metadata && !thumbnail ==> (first matches Ok((_, action)) && action == (
                ProcessingActionView::Finish { updated: false }
            ))
        }),
{
}

/// What is read for the metadata of a file becomes its metadata, with the dimensions that are on
/// record or else those that were read; a thumbnail is made of the same bytes where the file lacks
/// one, and else the metadata is recorded.
pub proof fn metadata_is_made_of_the_bytes(
    settings: &RuntimeSettings,
    file: &FileItem,
    state: FileProcessingView,
    read: Option<(i64, i64)>,
    json: Seq<char>,
)
    requires
        state.phase == ProcessingPhase::ReadingForMetadata,
        file.metadata_json is None,
        state.thumbnail_hash == opt_string_view(file.thumbnail_hash),
    ensures
        ({
            let dimensions = match (file.image_width, file.image_height) {
                (Some(width), Some(height)) => Some((width, height)),
                _ => read,
            };
            let written = json_text(
                metadata_members(
                    match file.content_type {
                        Some(content_type) => content_type@,
                        None => "application/octet-stream"@,
                    },
                    file.size_bytes,
                    dimensions,
                    false,
                ),
            );
            let thumbnail = settings.processing.thumbnails && file.thumbnail_hash is None;
            let after = advanced(
                settings,
                file,
                state,
                ProcessingEvent::BytesRead { dimensions: read },
            );
            &&& written == Ok::<Seq<char>, Seq<char>>(json) && thumbnail ==> (after matches Ok(
                (next, action),
            ) && action is MakeThumbnail && next.metadata_json == Some(json))
            &&& written == Ok::<Seq<char>, Seq<char>>(json) && !thumbnail ==> (after matches Ok(
                (next, action),
            ) && action == (ProcessingActionView::RecordMetadata { metadata_json: Some(json) }))
            &&& written is Err ==> after is Err
        }),
{
}

/// A thumbnail that was made is stored under its own hash, and recorded at the file under that hash
/// together with the metadata; then the file is done.
pub proof fn a_thumbnail_is_stored_and_recorded_under_its_hash(
    settings: &RuntimeSettings,
    file: &FileItem,
    state: FileProcessingView,
    hash: String,
)
    ensures
        advanced(
            settings,
            file,
            state,
            ProcessingEvent::ThumbnailMade { hash: Some(hash) },
        ) matches Ok((stored, store)) && store == (ProcessingActionView::StoreThumbnail {
            hash: hash@,
        }) && (advanced(settings, file, stored, ProcessingEvent::ThumbnailStored) matches Ok(
            (attached, attach),
        ) && attach == (ProcessingActionView::AttachThumbnail {
            hash: hash@,
            metadata_json: state.metadata_json,
        }) && (advanced(
            settings,
            file,
            attached,
            ProcessingEvent::ThumbnailAttached { attached: true },
        ) matches Ok((_, last)) && last == (ProcessingActionView::Finish { updated: true }))),
{
}

/// Where no thumbnail could be made, the metadata is recorded where it is new, and nothing is where
/// it is not. Where another process recorded its thumbnail first, the records are read again, and
/// what they hold is recorded where it differs from what the file held.
pub proof fn only_what_is_new_is_recorded(
    settings: &RuntimeSettings,
    file: &FileItem,
    state: FileProcessingView,
    hash: Option<String>,
    json: Option<String>,
)
    requires
        state.thumbnail_hash == opt_string_view(file.thumbnail_hash),
    ensures
        ({
            let none = advanced(
                settings,
                file,
                state,
                ProcessingEvent::ThumbnailMade { hash: None },
            );
            &&& state.metadata_json != opt_string_view(file.metadata_json) ==> (none matches Ok(
                (_, action),
            ) && action == (ProcessingActionView::RecordMetadata {
                metadata_json: state.metadata_json,
            }))
            &&& state.metadata_json == opt_string_view(file.metadata_json) ==> (none matches Ok(
                (_, action),
            ) && action == (ProcessingActionView::Finish { updated: false }))
        }),
        advanced(
            settings,
            file,
            state,
            ProcessingEvent::ThumbnailAttached { attached: false },
        ) matches Ok((_, action)) && action is ReadRecords,
        ({
            let again = advanced(
                settings,
                file,
                state,
                ProcessingEvent::RecordsRead { thumbnail_hash: hash, metadata_json: json },
            );
            let metadata = match json {
                Some(json) => Some(json@),
                None => state.metadata_json,
            };
            let changed = metadata != opt_string_view(file.metadata_json) || opt_string_view(hash)
                != opt_string_view(file.thumbnail_hash);
            &&& changed ==> (again matches Ok((_, action)) && action == (
                ProcessingActionView::RecordMetadata { metadata_json: metadata }
            ))
            &&& !changed ==> (again matches Ok((_, action)) && action == (
                ProcessingActionView::Finish { updated: false }
            ))
        }),
        advanced(settings, file, state, ProcessingEvent::MetadataRecorded) matches Ok((_, action))
            && action == (ProcessingActionView::Finish { updated: true }),
{
}

/// A scratch file of ours is removed once it has not been written to for as long as configured, and
/// for a minute at least; one that was written to since, one of anybody else's, and what is no file
/// stay.
pub proof fn abandoned_scratch_files_are_removed(
    settings: &RuntimeSettings,
    entry: &ScratchEntry,
    rest: Seq<char>,
    modified: i128,
    now: i128,
    cutoff: i128,
)
    requires
        cutoff == cutoff_at(settings, now as int),
        entry.name matches Some(name) && (name@ == "midden-upload-"@ + rest || name@
            == "midden-scan-"@ + rest),
        entry.modified == Some(modified),
    ensures
        ({
            let age = if settings.uploads.temp_file_max_age_seconds >= 60 {
                settings.uploads.temp_file_max_age_seconds as int
            } else {
                60
            };
            is_abandoned(entry, cutoff) <==> entry.is_file && now - modified >= age * 1_000_000_000
        }),
        forall|other: ScratchEntry|
            other.name is None || other.modified is None ==> !#[trigger] is_abandoned(
                &other,
                cutoff,
            ),
{
    a_prefix_is_what_stands_in_front("midden-upload-"@, rest, Seq::empty());
    a_prefix_is_what_stands_in_front("midden-scan-"@, rest, Seq::empty());
}

/// A blob is missing where it is recorded and not stored, and orphaned where it is stored and not
/// recorded: storing a recorded blob that is missing leaves one fewer missing, and recording a stored
/// one leaves one fewer orphaned.
pub proof fn drift_counts_what_one_side_lacks(
    recorded: Set<Seq<char>>,
    stored: Set<Seq<char>>,
    hash: Seq<char>,
)
    requires
        recorded.finite(),
        stored.finite(),
    ensures
        recorded.contains(hash) && !stored.contains(hash) ==> drift(recorded, stored) == (
            drift(recorded, stored.insert(hash)).0 + 1,
            drift(recorded, stored.insert(hash)).1,
        ),
        stored.contains(hash) && !recorded.contains(hash) ==> drift(recorded, stored) == (
            drift(recorded.insert(hash), stored).0,
            drift(recorded.insert(hash), stored).1 + 1,
        ),
        drift(recorded, recorded) == (0nat, 0nat),
        drift(recorded, Set::empty()) == (recorded.len(), 0nat),
        drift(Set::empty(), stored) == (0nat, stored.len()),
{
    let missing = recorded.difference(stored);
    let orphaned = stored.difference(recorded);
    if recorded.contains(hash) && !stored.contains(hash) {
        assert(recorded.difference(stored.insert(hash)) =~= missing.remove(hash));
        assert(stored.insert(hash).difference(recorded) =~= orphaned);
    }
    if stored.contains(hash) && !recorded.contains(hash) {
        assert(stored.difference(recorded.insert(hash)) =~= orphaned.remove(hash));
        assert(recorded.insert(hash).difference(stored) =~= missing);
    }
    let none = Set::<Seq<char>>::empty();
    assert(recorded.difference(recorded) =~= none);
    assert(recorded.difference(none) =~= recorded);
    assert(none.difference(recorded) =~= none);
    assert(stored.difference(none) =~= stored);
    assert(none.difference(stored) =~= none);
}

/// A hash is among those of a list exactly where it stands in it, once or more often.
pub proof fn a_list_holds_its_hashes(hashes: Seq<String>, hash: Seq<char>)
    ensures
        hash_set(hashes).contains(hash) <==> exists|i: int|
            0 <= i < hashes.len() && (#[trigger] hashes[i])@ == hash,
{
    let all = views(hashes);
    if all.contains(hash) {
        let i = choose|i: int| 0 <= i < all.len() && all[i] == hash;
        assert(hashes[i]@ == hash);
    }
    if exists|i: int| 0 <= i < hashes.len() && (#[trigger] hashes[i])@ == hash {
        let i = choose|i: int| 0 <= i < hashes.len() && (#[trigger] hashes[i])@ == hash;
        assert(all[i] == hash);
    }
}

/// A name that does not begin as those of our scratch files do is left alone.
pub proof fn names_of_others_are_left_alone(entry: &ScratchEntry, name: String, cutoff: i128)
    requires
        entry.name == Some(name),
        name@.len() < 14 || name@.take(14) != "midden-upload-"@,
        name@.len() < 12 || name@.take(12) != "midden-scan-"@,
    ensures
        !is_abandoned(entry, cutoff),
{
    reveal_strlit("midden-upload-");
    reveal_strlit("midden-scan-");
}

/// Thumbnails cost what is configured: their size, and the size and memory of their sources.
pub proof fn thumbnails_cost_what_is_configured(settings: &RuntimeSettings)
    ensures
        configured_limits(settings).max_dimension == settings.processing.thumbnail_max_dimension,
        configured_limits(settings).source_max_pixels
            == settings.processing.thumbnail_source_max_pixels,
        configured_limits(settings).source_max_alloc_bytes
            == settings.processing.thumbnail_source_max_alloc_bytes,
{
}

} // verus!
