//! Rate limits that are counted in memory, per action and identity.

use vstd::prelude::*;
use vstd::string::*;

use crate::config::RateLimitConfig;
use crate::error::AppError;
use crate::text::same;

#[allow(unused_imports)]
use crate::error::{seen, ErrorView};
#[allow(unused_imports)]
use crate::text::lemma_first_at_is;

verus! {

/// How often one identity took one action since a moment.
#[derive(Debug, Clone, Copy)]
pub struct Bucket {
    pub window_start: i64,
    /// The seconds for which the window stays open.
    pub window: i64,
    pub count: u32,
}

/// A bucket under its key.
struct Entry {
    key: String,
    bucket: Bucket,
}

/// The buckets of everyone who acted lately.
pub struct RateLimiter {
    entries: Vec<Entry>,
}

/// No two entries have the same key.
spec fn distinct(entries: Seq<Entry>) -> bool {
    forall|i: int, j: int|
        0 <= i < j < entries.len() ==> (#[trigger] entries[i]).key@ != (#[trigger] entries[j]).key@
}

/// The buckets by their keys.
spec fn table(entries: Seq<Entry>) -> Map<Seq<char>, Bucket>
    decreases entries.len(),
{
    if entries.len() == 0 {
        Map::empty()
    } else {
        table(entries.drop_last()).insert(entries.last().key@, entries.last().bucket)
    }
}

impl View for RateLimiter {
    type V = Map<Seq<char>, Bucket>;

    closed spec fn view(&self) -> Map<Seq<char>, Bucket> {
        table(self.entries@)
    }
}

/// A number brought into the range of `i64`.
pub open spec fn saturated(n: int) -> int {
    if n < i64::MIN {
        i64::MIN as int
    } else if n > i64::MAX {
        i64::MAX as int
    } else {
        n
    }
}

/// The difference of two moments, brought into the range of `i64`.
pub fn saturating_difference(a: i64, b: i64) -> (r: i64)
    ensures
        r == saturated(a - b),
{
    let d: i128 = a as i128 - b as i128;
    if d < i64::MIN as i128 {
        i64::MIN
    } else if d > i64::MAX as i128 {
        i64::MAX
    } else {
        d as i64
    }
}

/// A number of seconds as a signed number; one that does not fit counts as the highest that does.
pub open spec fn signed_seconds(n: u64) -> i64 {
    if n <= i64::MAX {
        n as i64
    } else {
        i64::MAX
    }
}

/// A number of seconds as a signed number; one that does not fit counts as the highest that does.
pub fn to_signed_seconds(n: u64) -> (r: i64)
    ensures
        r == signed_seconds(n),
{
    if n <= i64::MAX as u64 {
        n as i64
    } else {
        i64::MAX
    }
}

/// Whether a bucket is still open where its window lasts this long.
pub open spec fn is_open(bucket: Bucket, window: i64, now: i64) -> bool {
    saturated(now - bucket.window_start) < window
}

/// The buckets whose own windows are still open.
pub open spec fn open_buckets(buckets: Map<Seq<char>, Bucket>, now: i64) -> Map<
    Seq<char>,
    Bucket,
> {
    Map::new(
        |k: Seq<char>| buckets.contains_key(k) && is_open(buckets[k], buckets[k].window, now),
        |k: Seq<char>| buckets[k],
    )
}

/// What is counted: an action together with who takes it.
pub open spec fn bucket_key(action: Seq<char>, identity: Seq<char>) -> Seq<char> {
    action + ":"@ + identity
}

/// The bucket that a request counts in: that of its key, where it is open for the window that the
/// request is held to, or a new one.
pub open spec fn current_bucket(
    buckets: Map<Seq<char>, Bucket>,
    key: Seq<char>,
    window: i64,
    now: i64,
) -> Bucket {
    if buckets.contains_key(key) && is_open(buckets[key], window, now) {
        Bucket { window, ..buckets[key] }
    } else {
        Bucket { window_start: now, window, count: 0 }
    }
}

/// Whether one more request under a key is let through.
pub open spec fn admits(
    buckets: Map<Seq<char>, Bucket>,
    key: Seq<char>,
    requests: u32,
    window: i64,
    now: i64,
) -> bool {
    current_bucket(buckets, key, window, now).count < requests
}

/// The buckets after one more request under a key. Those of other keys are dropped once their own
/// windows are over.
pub open spec fn counted(
    buckets: Map<Seq<char>, Bucket>,
    key: Seq<char>,
    requests: u32,
    window: i64,
    now: i64,
) -> Map<Seq<char>, Bucket> {
    let bucket = current_bucket(buckets, key, window, now);
    let after = if bucket.count < requests {
        Bucket { count: (bucket.count + 1) as u32, ..bucket }
    } else {
        bucket
    };
    open_buckets(buckets, now).insert(key, after)
}

/// What counting one request in memory says of it.
pub open spec fn memory_answer(
    buckets: Map<Seq<char>, Bucket>,
    limit: Option<RateLimitConfig>,
    key: Seq<char>,
    now: i64,
) -> Result<(), ErrorView> {
    match limit {
        Some(limit) if limit.enabled => if limit.requests > 0 && limit.window_seconds > 0 && admits(
            buckets,
            key,
            limit.requests,
            signed_seconds(limit.window_seconds),
            now,
        ) {
            Ok(())
        } else {
            Err(ErrorView::TooManyRequests)
        },
        _ => Ok(()),
    }
}

/// The buckets after one request was counted in memory.
pub open spec fn memory_buckets(
    buckets: Map<Seq<char>, Bucket>,
    limit: Option<RateLimitConfig>,
    key: Seq<char>,
    now: i64,
) -> Map<Seq<char>, Bucket> {
    match limit {
        Some(limit) if limit.enabled && limit.requests > 0 && limit.window_seconds > 0 => counted(
            buckets,
            key,
            limit.requests,
            signed_seconds(limit.window_seconds),
            now,
        ),
        _ => buckets,
    }
}

/// The view of a limit that is borrowed.
pub open spec fn opt_limit(limit: Option<&RateLimitConfig>) -> Option<RateLimitConfig> {
    match limit {
        Some(limit) => Some(*limit),
        None => None,
    }
}

/// An entry is found in the table under its key.
proof fn lemma_table_at(entries: Seq<Entry>, i: int)
    requires
        distinct(entries),
        0 <= i < entries.len(),
    ensures
        table(entries).contains_key(entries[i].key@),
        table(entries)[entries[i].key@] == entries[i].bucket,
    decreases entries.len(),
{
    if i < entries.len() - 1 {
        let rest = entries.drop_last();
        assert(forall|j: int| 0 <= j < rest.len() ==> rest[j] == entries[j]);
        lemma_table_at(rest, i);
        assert(entries[i].key@ != entries[entries.len() - 1].key@);
    }
}

/// A key of the table is the key of an entry.
proof fn lemma_table_has(entries: Seq<Entry>, key: Seq<char>)
    requires
        table(entries).contains_key(key),
    ensures
        exists|i: int| 0 <= i < entries.len() && (#[trigger] entries[i]).key@ == key,
    decreases entries.len(),
{
    if entries.len() > 0 {
        if entries.last().key@ == key {
            assert(entries[entries.len() - 1].key@ == key);
        } else {
            lemma_table_has(entries.drop_last(), key);
            let i = choose|i: int|
                0 <= i < entries.drop_last().len() && (#[trigger] entries.drop_last()[i]).key@
                    == key;
            assert(entries[i].key@ == key);
        }
    }
}

/// The table has as many buckets as there are entries.
proof fn lemma_table_len(entries: Seq<Entry>)
    requires
        distinct(entries),
    ensures
        table(entries).dom().finite(),
        table(entries).len() == entries.len(),
    decreases entries.len(),
{
    if entries.len() > 0 {
        let rest = entries.drop_last();
        assert(forall|j: int| 0 <= j < rest.len() ==> rest[j] == entries[j]);
        lemma_table_len(rest);
        let key = entries.last().key@;
        if table(rest).contains_key(key) {
            lemma_table_has(rest, key);
            let i = choose|i: int| 0 <= i < rest.len() && (#[trigger] rest[i]).key@ == key;
            assert(entries[i].key@ != entries[entries.len() - 1].key@);
        }
        assert(table(entries).dom() =~= table(rest).dom().insert(key));
    } else {
        assert(table(entries).dom() =~= Set::<Seq<char>>::empty());
    }
}

impl Default for RateLimiter {
    fn default() -> (r: Self)
        ensures
            r@ == Map::<Seq<char>, Bucket>::empty(),
    {
        Self::new()
    }
}

impl RateLimiter {
    /// No key has two buckets.
    #[verifier::type_invariant]
    spec fn well_formed(self) -> bool {
        distinct(self.entries@)
    }

    /// A limiter that counted nothing yet.
    pub fn new() -> (r: Self)
        ensures
            r@ == Map::<Seq<char>, Bucket>::empty(),
    {
        RateLimiter { entries: Vec::new() }
    }

    /// The number of buckets.
    pub fn tracked_buckets(&self) -> (r: usize)
        ensures
            self@.dom().finite(),
            r == self@.len(),
    {
        proof {
            use_type_invariant(self);
            lemma_table_len(self.entries@);
        }
        self.entries.len()
    }

    /// Counts one request, or turns it down where its limit is used up.
    pub fn check(
        &mut self,
        action: &str,
        identity: &str,
        config: Option<&RateLimitConfig>,
        now: i64,
    ) -> (r: Result<(), AppError>)
        ensures
            ({
                let key = bucket_key(action@, identity@);
                let limit = opt_limit(config);
                &&& final(self)@ == memory_buckets(old(self)@, limit, key, now)
                &&& seen(r) == memory_answer(old(self)@, limit, key, now)
            }),
    {
        let config: &RateLimitConfig = match config {
            Some(config) => config,
            None => {
                return Ok(());
            },
        };
        if !config.enabled {
            return Ok(());
        }
        if config.requests == 0 || config.window_seconds == 0 {
            return Err(AppError::TooManyRequests);
        }
        let window: i64 = to_signed_seconds(config.window_seconds);
        let mut key: String = action.to_owned();
        key.append(":");
        key.append(identity);
        proof {
            use_type_invariant(&*self);
        }
        let mut entries: Vec<Entry> = Vec::new();
        std::mem::swap(&mut entries, &mut self.entries);
        let mut bucket: Bucket = match find_key(&entries, key.as_str()) {
            Some(i) => {
                proof {
                    lemma_table_at(entries@, i as int);
                }
                let bucket: Bucket = entries[i].bucket;
                if saturating_difference(now, bucket.window_start) < window {
                    Bucket { window_start: bucket.window_start, window, count: bucket.count }
                } else {
                    Bucket { window_start: now, window, count: 0 }
                }
            },
            None => {
                proof {
                    if table(entries@).contains_key(key@) {
                        lemma_table_has(entries@, key@);
                    }
                }
                Bucket { window_start: now, window, count: 0 }
            },
        };
        assert(bucket == current_bucket(old(self)@, key@, window, now));
        // Identities are partly caller-controlled (one per client IP), so finished windows have to
        // be dropped or the table grows without bound.
        let mut kept: Vec<Entry> = keep_open(entries, now);
        let admitted: bool = bucket.count < config.requests;
        if admitted {
            bucket.count = bucket.count + 1;
        }
        put(&mut kept, key, bucket);
        self.entries = kept;
        if admitted {
            Ok(())
        } else {
            Err(AppError::TooManyRequests)
        }
    }
}

/// Sets the bucket of a key.
fn put(entries: &mut Vec<Entry>, key: String, bucket: Bucket)
    requires
        distinct(old(entries)@),
    ensures
        distinct(final(entries)@),
        table(final(entries)@) == table(old(entries)@).insert(key@, bucket),
{
    let ghost before = entries@;
    match find_key(entries, key.as_str()) {
        Some(i) => {
            entries.set(i, Entry { key, bucket });
            proof {
                lemma_table_update(before, i as int, entries@[i as int]);
            }
        },
        None => {
            entries.push(Entry { key, bucket });
            assert(entries@.drop_last() =~= before);
        },
    }
}

/// Setting the bucket of an entry sets the bucket of its key in the table.
proof fn lemma_table_update(entries: Seq<Entry>, i: int, entry: Entry)
    requires
        distinct(entries),
        0 <= i < entries.len(),
        entry.key@ == entries[i].key@,
    ensures
        distinct(entries.update(i, entry)),
        table(entries.update(i, entry)) == table(entries).insert(entry.key@, entry.bucket),
    decreases entries.len(),
{
    let updated = entries.update(i, entry);
    if i == entries.len() - 1 {
        assert(updated.drop_last() =~= entries.drop_last());
        assert(table(updated) =~= table(entries).insert(entry.key@, entry.bucket));
    } else {
        let rest = entries.drop_last();
        assert(forall|j: int| 0 <= j < rest.len() ==> rest[j] == entries[j]);
        lemma_table_update(rest, i, entry);
        assert(updated.drop_last() =~= rest.update(i, entry));
        assert(entries[i].key@ != entries[entries.len() - 1].key@);
        assert(table(updated) =~= table(entries).insert(entry.key@, entry.bucket));
    }
}

/// Keeps the entries whose own windows are still open.
fn keep_open(entries: Vec<Entry>, now: i64) -> (r: Vec<Entry>)
    requires
        distinct(entries@),
    ensures
        distinct(r@),
        table(r@) == open_buckets(table(entries@), now),
{
    let ghost all = entries@;
    let ghost goal = open_buckets(table(all), now);
    let mut rest: Vec<Entry> = entries;
    let mut kept: Vec<Entry> = Vec::new();
    assert(all.take(all.len() as int) =~= all);
    while rest.len() > 0
        invariant
            distinct(all),
            distinct(kept@),
            goal == open_buckets(table(all), now),
            rest@.len() <= all.len(),
            rest@ == all.take(rest@.len() as int),
            forall|j: int|
                0 <= j < kept@.len() ==> exists|i: int|
                    rest@.len() <= i < all.len() && #[trigger] kept@[j] == #[trigger] all[i],
            forall|j: int|
                0 <= j < kept@.len() ==> is_open(
                    (#[trigger] kept@[j]).bucket,
                    kept@[j].bucket.window,
                    now,
                ),
            forall|i: int|
                rest@.len() <= i < all.len() && is_open(
                    (#[trigger] all[i]).bucket,
                    all[i].bucket.window,
                    now,
                ) ==> table(kept@).contains_key(all[i].key@),
        decreases rest@.len(),
    {
        let ghost before = rest@;
        let ghost kept_before = kept@;
        let last: Option<Entry> = rest.pop();
        if let Some(entry) = last {
            let ghost at = before.len() - 1;
            assert(entry == all[at]);
            assert(rest@ =~= all.take(at));
            if saturating_difference(now, entry.bucket.window_start) < entry.bucket.window {
                kept.push(entry);
                assert(kept@.drop_last() =~= kept_before);
                assert forall|i: int, j: int| 0 <= i < j < kept@.len() implies (
                #[trigger] kept@[i]).key@ != (#[trigger] kept@[j]).key@ by {
                    if j == kept@.len() - 1 {
                        assert(kept@[i] == kept_before[i]);
                        let k = choose|k: int|
                            before.len() <= k < all.len() && kept_before[i] == #[trigger] all[k];
                        assert(all[at].key@ != all[k].key@);
                    } else {
                        assert(kept@[i] == kept_before[i] && kept@[j] == kept_before[j]);
                    }
                }
                assert forall|j: int| 0 <= j < kept@.len() implies exists|i: int|
                    rest@.len() <= i < all.len() && #[trigger] kept@[j] == #[trigger] all[i] by {
                    if j == kept@.len() - 1 {
                        assert(kept@[j] == all[at]);
                    } else {
                        assert(kept@[j] == kept_before[j]);
                        let k = choose|k: int|
                            before.len() <= k < all.len() && kept_before[j] == #[trigger] all[k];
                        assert(kept@[j] == all[k]);
                    }
                }
            }
        }
    }
    proof {
        assert forall|k: Seq<char>| goal.contains_key(k) <==> table(kept@).contains_key(k) by {
            if goal.contains_key(k) {
                lemma_table_has(all, k);
                let i = choose|i: int| 0 <= i < all.len() && (#[trigger] all[i]).key@ == k;
                lemma_table_at(all, i);
            }
            if table(kept@).contains_key(k) {
                lemma_table_has(kept@, k);
                let j = choose|j: int| 0 <= j < kept@.len() && (#[trigger] kept@[j]).key@ == k;
                let i = choose|i: int| 0 <= i < all.len() && kept@[j] == #[trigger] all[i];
                lemma_table_at(all, i);
            }
        }
        assert forall|k: Seq<char>| goal.contains_key(k) implies goal[k] == table(kept@)[k] by {
            lemma_table_has(kept@, k);
            let j = choose|j: int| 0 <= j < kept@.len() && (#[trigger] kept@[j]).key@ == k;
            let i = choose|i: int| 0 <= i < all.len() && kept@[j] == #[trigger] all[i];
            lemma_table_at(all, i);
            lemma_table_at(kept@, j);
        }
        assert(table(kept@) =~= goal);
    }
    kept
}

/// The place of the entry with a key.
fn find_key(entries: &Vec<Entry>, key: &str) -> (r: Option<usize>)
    requires
        distinct(entries@),
    ensures
        match r {
            Some(i) => i < entries@.len() && entries@[i as int].key@ == key@,
            None => forall|i: int|
                0 <= i < entries@.len() ==> (#[trigger] entries@[i]).key@ != key@,
        },
{
    let mut i: usize = 0;
    while i < entries.len()
        invariant
            i <= entries@.len(),
            forall|j: int| 0 <= j < i ==> (#[trigger] entries@[j]).key@ != key@,
        decreases entries@.len() - i,
    {
        if same(entries[i].key.as_str(), key) {
            return Some(i);
        }
        i = i + 1;
    }
    None
}

/// One request at a moment, under a key and the limit of its action.
pub struct Attempt {
    pub key: Seq<char>,
    pub requests: u32,
    pub window: i64,
    pub now: i64,
}

/// The buckets after a run of requests.
pub open spec fn after_attempts(
    buckets: Map<Seq<char>, Bucket>,
    attempts: Seq<Attempt>,
) -> Map<Seq<char>, Bucket>
    decreases attempts.len(),
{
    if attempts.len() == 0 {
        buckets
    } else {
        let a = attempts.last();
        counted(after_attempts(buckets, attempts.drop_last()), a.key, a.requests, a.window, a.now)
    }
}

/// How many requests of a run were made under a key.
pub open spec fn attempts_under(attempts: Seq<Attempt>, key: Seq<char>) -> nat
    decreases attempts.len(),
{
    if attempts.len() == 0 {
        0
    } else {
        attempts_under(attempts.drop_last(), key) + if attempts.last().key == key {
            1nat
        } else {
            0nat
        }
    }
}

/// How many requests of a run were let through under a key.
pub open spec fn admitted_under(
    buckets: Map<Seq<char>, Bucket>,
    attempts: Seq<Attempt>,
    key: Seq<char>,
) -> nat
    decreases attempts.len(),
{
    if attempts.len() == 0 {
        0
    } else {
        let a = attempts.last();
        let before = after_attempts(buckets, attempts.drop_last());
        admitted_under(buckets, attempts.drop_last(), key) + if a.key == key && admits(
            before,
            a.key,
            a.requests,
            a.window,
            a.now,
        ) {
            1nat
        } else {
            0nat
        }
    }
}

/// Whether a run of requests lies within one window of a key: every request under the key has the
/// same limit, and every moment is within the window.
pub open spec fn within_one_window(
    attempts: Seq<Attempt>,
    key: Seq<char>,
    requests: u32,
    window: i64,
    start: i64,
) -> bool {
    forall|i: int|
        0 <= i < attempts.len() ==> {
            let a = #[trigger] attempts[i];
            &&& start <= a.now < start + window
            &&& a.key == key ==> a.requests == requests && a.window == window
        }
}

/// What holds of the bucket of a key while a run lies within one window.
proof fn lemma_within_one_window(
    buckets: Map<Seq<char>, Bucket>,
    attempts: Seq<Attempt>,
    key: Seq<char>,
    requests: u32,
    window: i64,
    start: i64,
)
    requires
        !buckets.contains_key(key),
        requests > 0,
        0 < window,
        within_one_window(attempts, key, requests, window, start),
    ensures
        ({
            let made = attempts_under(attempts, key);
            let after = after_attempts(buckets, attempts);
            &&& after.contains_key(key) == (made > 0)
            &&& made > 0 ==> {
                &&& after[key].count == if made < requests {
                    made
                } else {
                    requests as nat
                }
                &&& start <= after[key].window_start < start + window
                &&& after[key].window == window
            }
            &&& admitted_under(buckets, attempts, key) == if made < requests {
                made
            } else {
                requests as nat
            }
        }),
    decreases attempts.len(),
{
    if attempts.len() > 0 {
        let rest = attempts.drop_last();
        assert(forall|i: int| 0 <= i < rest.len() ==> rest[i] == attempts[i]);
        lemma_within_one_window(buckets, rest, key, requests, window, start);
        let a = attempts[attempts.len() - 1];
        assert(a == attempts.last());
    }
}

/// However requests under other keys are mixed in, one window of a key lets through every request
/// up to the limit and none beyond it.
pub proof fn one_window_admits_the_limit_and_no_more(
    buckets: Map<Seq<char>, Bucket>,
    attempts: Seq<Attempt>,
    key: Seq<char>,
    requests: u32,
    window: i64,
    start: i64,
)
    requires
        !buckets.contains_key(key),
        requests > 0,
        0 < window,
        within_one_window(attempts, key, requests, window, start),
    ensures
        admitted_under(buckets, attempts, key) == if attempts_under(attempts, key) < requests {
            attempts_under(attempts, key)
        } else {
            requests as nat
        },
{
    lemma_within_one_window(buckets, attempts, key, requests, window, start);
}

/// No bucket outlives its window: after a request every bucket but its own is one whose own window
/// is open, and every such bucket is as it was, whatever window the request was held to.
pub proof fn finished_windows_do_not_accumulate(
    buckets: Map<Seq<char>, Bucket>,
    key: Seq<char>,
    requests: u32,
    window: i64,
    now: i64,
    other: Seq<char>,
)
    requires
        other != key,
    ensures
        counted(buckets, key, requests, window, now).contains_key(other) <==> (
        buckets.contains_key(other) && is_open(buckets[other], buckets[other].window, now)),
        counted(buckets, key, requests, window, now).contains_key(other) ==> counted(
            buckets,
            key,
            requests,
            window,
            now,
        )[other] == buckets[other],
{
}

/// Once the window of a key is over, its next request is let through as if it were the first.
pub proof fn a_finished_window_starts_anew(
    buckets: Map<Seq<char>, Bucket>,
    key: Seq<char>,
    requests: u32,
    window: i64,
    now: i64,
)
    requires
        requests > 0,
        buckets.contains_key(key),
        !is_open(buckets[key], window, now),
    ensures
        admits(buckets, key, requests, window, now),
        counted(buckets, key, requests, window, now)[key] == (Bucket {
            window_start: now,
            window,
            count: 1,
        }),
{
}

/// A request that is turned down is not counted, and does not move the window.
pub proof fn a_refused_request_is_not_counted(
    buckets: Map<Seq<char>, Bucket>,
    key: Seq<char>,
    requests: u32,
    window: i64,
    now: i64,
)
    requires
        requests > 0,
        !admits(buckets, key, requests, window, now),
    ensures
        counted(buckets, key, requests, window, now)[key] == (Bucket { window, ..buckets[key] }),
{
}

/// The window of a key that the latest request under it fell into.
pub struct KeyWindow {
    /// The moment at which it opened.
    pub opened: i64,
    /// How many requests were let through in it.
    pub let_through: nat,
}

/// Whether a request falls into a window rather than opening a new one.
pub open spec fn falls_into(window: Option<KeyWindow>, a: Attempt) -> bool {
    window matches Some(w) && a.now - w.opened < a.window
}

/// Whether a request is let through: it opens a window of its own, or fewer than the limit were let
/// through in its window before it.
pub open spec fn passes(window: Option<KeyWindow>, a: Attempt) -> bool {
    falls_into(window, a) ==> window->0.let_through < a.requests
}

/// The window that the latest request of a run under a key fell into. The first request opens one,
/// and a later one opens a new one where the window it would fall into is over; a request that is
/// turned down neither counts nor opens or extends a window, and one under another key changes
/// nothing.
pub open spec fn window_of(attempts: Seq<Attempt>, key: Seq<char>) -> Option<KeyWindow>
    decreases attempts.len(),
{
    if attempts.len() == 0 {
        None
    } else {
        let before = window_of(attempts.drop_last(), key);
        let a = attempts.last();
        if a.key != key {
            before
        } else if !falls_into(before, a) {
            Some(KeyWindow { opened: a.now, let_through: 1 })
        } else if passes(before, a) {
            Some(KeyWindow { let_through: before->0.let_through + 1, ..before->0 })
        } else {
            before
        }
    }
}

/// Whether the moments of a run never decrease, and each key has one limit throughout.
pub open spec fn is_steady(attempts: Seq<Attempt>) -> bool {
    &&& forall|i: int| 0 <= i < attempts.len() ==> (#[trigger] attempts[i]).requests > 0
    &&& forall|i: int| 0 <= i < attempts.len() ==> (#[trigger] attempts[i]).window > 0
    &&& forall|i: int, j: int|
        0 <= i < j < attempts.len() ==> (#[trigger] attempts[i]).now <= (#[trigger] attempts[j]).now
    &&& forall|i: int, j: int|
        0 <= i < attempts.len() && 0 <= j < attempts.len() && (#[trigger] attempts[i]).key == (
        #[trigger] attempts[j]).key ==> attempts[i].requests == attempts[j].requests
            && attempts[i].window == attempts[j].window
}

/// What the buckets hold of the window of a key after a run: the window, or nothing once it is over.
proof fn lemma_buckets_hold_the_window(attempts: Seq<Attempt>, a: Attempt)
    requires
        is_steady(attempts.push(a)),
    ensures
        ({
            let after = after_attempts(Map::empty(), attempts);
            match window_of(attempts, a.key) {
                None => !after.contains_key(a.key),
                Some(w) => {
                    &&& w.opened <= a.now
                    &&& 1 <= w.let_through <= a.requests
                    &&& after.contains_key(a.key) ==> {
                        &&& after[a.key].window_start == w.opened
                        &&& after[a.key].window == a.window
                        &&& after[a.key].count == w.let_through
                    }
                    &&& !after.contains_key(a.key) ==> a.now - w.opened >= a.window
                },
            }
        }),
    decreases attempts.len(),
{
    if attempts.len() > 0 {
        let all = attempts.push(a);
        let rest = attempts.drop_last();
        let last = attempts.last();
        let n = attempts.len() as int;
        assert(all[n - 1] == last && all[n] == a);
        assert forall|i: int| 0 <= i < n - 1 implies rest[i] == #[trigger] all[i] by {}
        // The run without its latest request, followed by one at that moment under the key.
        let probe = Attempt { now: last.now, ..a };
        let run = rest.push(probe);
        assert forall|i: int| 0 <= i < run.len() implies {
            &&& (#[trigger] run[i]).requests > 0
            &&& run[i].window > 0
        } by {
            if i < n - 1 {
                assert(run[i] == all[i]);
            }
        }
        assert forall|i: int, j: int| 0 <= i < j < run.len() implies (#[trigger] run[i]).now <= (
        #[trigger] run[j]).now by {
            assert(run[i] == all[i]);
            if j < n - 1 {
                assert(run[j] == all[j]);
            }
        }
        assert forall|i: int, j: int|
            0 <= i < run.len() && 0 <= j < run.len() && (#[trigger] run[i]).key == (
            #[trigger] run[j]).key implies run[i].requests == run[j].requests && run[i].window
            == run[j].window by {
            let x = if i < n - 1 {
                i
            } else {
                n
            };
            let y = if j < n - 1 {
                j
            } else {
                n
            };
            assert(run[i].key == all[x].key && run[j].key == all[y].key);
        }
        lemma_buckets_hold_the_window(rest, probe);
        assert(last.now <= a.now);
    }
}

/// A limiter that counted nothing yet lets a request through exactly where the history of its own
/// key says so: a window opens at the first request, a later one opens a new window only once the
/// current one is over, and a request is let through where fewer than the limit were let through
/// before it in its window.
pub proof fn each_request_is_judged_by_its_own_window(attempts: Seq<Attempt>, a: Attempt)
    requires
        is_steady(attempts.push(a)),
    ensures
        admits(
            after_attempts(Map::empty(), attempts),
            a.key,
            a.requests,
            a.window,
            a.now,
        ) <==> passes(window_of(attempts, a.key), a),
{
    assert(attempts.push(a)[attempts.len() as int] == a);
    lemma_buckets_hold_the_window(attempts, a);
}

/// The requests of a run under one key.
pub open spec fn under(attempts: Seq<Attempt>, key: Seq<char>) -> Seq<Attempt>
    decreases attempts.len(),
{
    if attempts.len() == 0 {
        Seq::empty()
    } else if attempts.last().key == key {
        under(attempts.drop_last(), key).push(attempts.last())
    } else {
        under(attempts.drop_last(), key)
    }
}

/// The window of a key is that of its own requests alone: whatever was asked under other keys, and
/// with whatever limits, does not matter.
pub proof fn other_keys_do_not_matter(attempts: Seq<Attempt>, key: Seq<char>)
    ensures
        window_of(attempts, key) == window_of(under(attempts, key), key),
    decreases attempts.len(),
{
    if attempts.len() > 0 {
        let rest = attempts.drop_last();
        other_keys_do_not_matter(rest, key);
        if attempts.last().key == key {
            assert(under(attempts, key).drop_last() =~= under(rest, key));
        }
    }
}

/// Two requests are counted together only where they are the same action of the same caller. An
/// action whose name holds a colon could be taken for another, so no name may hold one.
pub proof fn actions_and_callers_are_counted_apart(
    action: Seq<char>,
    identity: Seq<char>,
    other_action: Seq<char>,
    other_identity: Seq<char>,
)
    requires
        !action.contains(':'),
        !other_action.contains(':'),
        bucket_key(action, identity) == bucket_key(other_action, other_identity),
    ensures
        action == other_action,
        identity == other_identity,
{
    reveal_strlit(":");
    let key = bucket_key(action, identity);
    let n = action.len() as int;
    let m = other_action.len() as int;
    assert forall|j: int| 0 <= j < n implies key[j] != ':' by {
        assert(key[j] == action[j]);
    }
    assert forall|j: int| 0 <= j < m implies key[j] != ':' by {
        assert(key[j] == other_action[j]);
    }
    assert(key[n] == ':');
    assert(key[m] == ':');
    lemma_first_at_is(key, ':', n);
    lemma_first_at_is(key, ':', m);
    assert(key.take(n) =~= action);
    assert(key.take(n) =~= other_action);
    assert(key.skip(n + 1) =~= identity);
    assert(key.skip(n + 1) =~= other_identity);
}

/// A number of seconds counts as it is, up to the highest that can be counted.
pub proof fn seconds_count_as_they_are(n: u64)
    ensures
        n <= i64::MAX ==> signed_seconds(n) == n,
        n > i64::MAX ==> signed_seconds(n) == i64::MAX,
{
}

/// A request whose action has no limit, or one that is switched off, is always let through and
/// counts nowhere; one that may never be made is always turned down.
pub proof fn only_limits_in_force_are_counted(
    buckets: Map<Seq<char>, Bucket>,
    limit: RateLimitConfig,
    key: Seq<char>,
    now: i64,
)
    ensures
        memory_answer(buckets, None, key, now) is Ok,
        memory_buckets(buckets, None, key, now) == buckets,
        !limit.enabled ==> memory_answer(buckets, Some(limit), key, now) is Ok && memory_buckets(
            buckets,
            Some(limit),
            key,
            now,
        ) == buckets,
        limit.enabled && (limit.requests == 0 || limit.window_seconds == 0) ==> memory_answer(
            buckets,
            Some(limit),
            key,
            now,
        ) == Err::<(), ErrorView>(ErrorView::TooManyRequests),
        limit.enabled && limit.requests > 0 && limit.window_seconds > 0 && !buckets.contains_key(
            key,
        ) ==> memory_answer(buckets, Some(limit), key, now) is Ok && memory_buckets(
            buckets,
            Some(limit),
            key,
            now,
        ).contains_key(key),
{
}

/// A limit that is in force is one for its own window: what it says of a request is what the window
/// of the configured seconds and the configured number of requests say of it.
pub proof fn a_limit_in_force_holds_for_its_seconds(
    attempts: Seq<Attempt>,
    a: Attempt,
    limit: RateLimitConfig,
)
    requires
        is_steady(attempts.push(a)),
        limit.enabled,
        limit.requests == a.requests,
        limit.window_seconds == a.window,
    ensures
        ({
            let buckets = after_attempts(Map::empty(), attempts);
            &&& memory_answer(buckets, Some(limit), a.key, a.now) is Ok <==> passes(
                window_of(attempts, a.key),
                a,
            )
            &&& memory_answer(buckets, Some(limit), a.key, a.now) matches Err(e) ==> e
                == ErrorView::TooManyRequests
            &&& memory_buckets(buckets, Some(limit), a.key, a.now) == after_attempts(
                Map::empty(),
                attempts.push(a),
            )
        }),
{
    assert(attempts.push(a)[attempts.len() as int] == a);
    assert(attempts.push(a).drop_last() =~= attempts);
    each_request_is_judged_by_its_own_window(attempts, a);
}

} // verus!
