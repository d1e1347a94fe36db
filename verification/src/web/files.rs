//! Files: who may upload and fetch them, from which origin, and how they are served.

use std::ops::Range;

use axum::http::HeaderMap;
use vstd::prelude::*;
use vstd::string::*;
#[allow(unused_imports)]
use vstd::utf8::{decode_utf8, encode_utf8, valid_utf8};

use crate::config::{ContentDispositionMode, RiskyMimeMode, RuntimeSettings};
use crate::error::{bad_request, AppError};
use crate::http::{header_str, ResponseHead};
use crate::links::{last_path_segment, parse_url, UrlParts};
use crate::model::{FileItem, User};
use crate::number::push_decimal;
use crate::policy;
use crate::signing::{is_signature, sign_internal_file_url};
use crate::text::{chars_of, contains, eq_ignore_ascii_case, opt_str, same, starts_with, string_of};
use crate::web::support::{
    authorize_item_view, file_needs_app_origin, insert_cache_control, internal_link_secret,
    parse_expiry_or_default_checked, requested_visibility, CacheScope,
};

#[allow(unused_imports)]
use crate::config::{ActionRule, ServerConfig};
#[allow(unused_imports)]
use crate::error::{seen, ErrorView};
#[allow(unused_imports)]
use crate::http::{
    at_most, has_room, header_line, header_values, is_header_text, is_visible_chars,
    lemma_decimal_is_visible, lemma_visible_concat, no_headers, with_header, with_valid_header,
};
#[allow(unused_imports)]
use crate::links::{last_segment, parsed_url, url_result, UrlView};
#[allow(unused_imports)]
use crate::model::Role;
#[allow(unused_imports)]
use crate::number::{decimal, decimal_reads_back, is_digit, natural_value};
#[allow(unused_imports)]
use crate::policy::{permits, role_of};
#[allow(unused_imports)]
use crate::processing::thumbnail_format;
#[allow(unused_imports)]
use crate::signing::signature;
#[allow(unused_imports)]
use crate::text::{
    a_prefix_is_what_stands_in_front, first_at, has_prefix, holds, is_white_space,
    lemma_first_at_is, lemma_split_append, lemma_split_whole, lowercase, opt_string_view, opt_view,
    split, trimmed, trimmed_end, trimmed_start,
};
#[allow(unused_imports)]
use crate::web::support::{
    a_granted_expiry_is_the_one_asked_for, app_base, cache_control, caller_of, expiry_answer,
    file_base, internal_link_expiry, internal_secret, items_get_the_visibility_asked_for, may_view,
    needs_app_origin, origin_of_file, visibility_value, what_anyone_may_see_needs_no_session,
};

verus! {

/// The first bound of a range, or its last.
#[derive(Debug, Clone, Copy, PartialEq, Eq, Structural)]
pub enum RangeBound {
    Included(u64),
    Excluded(u64),
    Unbounded,
}

/// The bound that a text stands for: none where it is blank.
pub open spec fn bound_value(s: Seq<char>) -> Option<RangeBound> {
    if s.len() == 0 {
        Some(RangeBound::Unbounded)
    } else {
        match natural_value(s) {
            Some(n) => Some(RangeBound::Included(n)),
            None => None,
        }
    }
}

/// The range that a text such as `2-5`, `2-` or `-5` stands for. What has no first byte counts from
/// the end, and is no range where there are not that many bytes.
pub open spec fn range_value(s: Seq<char>, total_len: u64) -> Option<(RangeBound, RangeBound)> {
    let dash = first_at(s, '-');
    if dash >= s.len() {
        None
    } else {
        match (bound_value(s.take(dash)), bound_value(s.skip(dash + 1))) {
            (Some(RangeBound::Unbounded), Some(RangeBound::Included(n))) => if n <= total_len {
                Some((RangeBound::Included((total_len - n) as u64), RangeBound::Unbounded))
            } else {
                None
            },
            (Some(start), Some(end)) => Some((start, end)),
            _ => None,
        }
    }
}

/// The ranges among a row of texts.
pub open spec fn range_values(parts: Seq<Seq<char>>, total_len: u64) -> Seq<
    (RangeBound, RangeBound),
>
    decreases parts.len(),
{
    if parts.len() == 0 {
        Seq::empty()
    } else {
        let before = range_values(parts.drop_last(), total_len);
        match range_value(trimmed(parts.last()), total_len) {
            Some(range) => before.push(range),
            None => before,
        }
    }
}

/// Whether a text is a range header that asks for bytes: it begins as such, and holds nothing but
/// visible ASCII, spaces and tabs.
pub open spec fn is_range_text(text: Seq<char>) -> bool {
    &&& has_prefix(text, "bytes="@)
    &&& forall|i: int|
        0 <= i < text.len() ==> (32 <= (#[trigger] text[i]) as u32 && (text[i] as u32) < 127)
            || text[i] as u32 == 9
}

/// The ranges that a range header asks for, one after the other; none where the text is no such
/// header.
pub open spec fn satisfiable(text: Seq<char>, total_len: u64) -> Seq<(RangeBound, RangeBound)> {
    if is_range_text(text) {
        range_values(split(text.skip(6), ','), total_len)
    } else {
        Seq::empty()
    }
}

/// `headers::Range::decode` takes a text that is a range header, and `Range::satisfiable_ranges`
/// gives the ranges in it that can be read, in their order. One of them may still reach beyond the
/// length.
#[verifier::external_body]
fn satisfiable_ranges(text: &str, total_len: u64) -> (r: Vec<(RangeBound, RangeBound)>)
    ensures
        r@ == satisfiable(text@, total_len),
{
    let value = axum::http::HeaderValue::from_str(text);
    let range: Option<headers::Range> = value.ok().and_then(
        |value| headers::Header::decode(&mut std::iter::once(&value)).ok(),
    );
    let bound = |bound: std::ops::Bound<u64>| match bound {
        std::ops::Bound::Included(n) => RangeBound::Included(n),
        std::ops::Bound::Excluded(n) => RangeBound::Excluded(n),
        std::ops::Bound::Unbounded => RangeBound::Unbounded,
    };
    let range = range.as_ref();
    let ranges = range.into_iter().flat_map(|range| range.satisfiable_ranges(total_len));
    ranges.map(|(start, end)| (bound(start), bound(end))).collect()
}

/// The first byte behind what a bound leaves out.
pub open spec fn first_byte(start: RangeBound) -> int {
    match start {
        RangeBound::Included(n) => n as int,
        RangeBound::Excluded(n) => if n == u64::MAX {
            u64::MAX as int
        } else {
            n + 1
        },
        RangeBound::Unbounded => 0,
    }
}

/// The last byte before what a bound leaves out.
pub open spec fn last_byte(end: RangeBound, total_len: u64) -> int {
    match end {
        RangeBound::Included(n) => n as int,
        RangeBound::Excluded(n) => if n == 0 {
            0
        } else {
            n - 1
        },
        RangeBound::Unbounded => if total_len == 0 {
            0
        } else {
            total_len - 1
        },
    }
}

/// The bytes between two bounds, as the first and the one behind the last, where they all exist.
pub open spec fn bytes_between(start: RangeBound, end: RangeBound, total_len: u64) -> Option<
    (int, int),
> {
    if first_byte(start) <= last_byte(end, total_len) < total_len {
        Some((first_byte(start), last_byte(end, total_len) + 1))
    } else {
        None
    }
}

/// The view of an optional range.
pub open spec fn opt_range(r: Option<Range<u64>>) -> Option<(int, int)> {
    match r {
        Some(range) => Some((range.start as int, range.end as int)),
        None => None,
    }
}

/// The bytes between two bounds, where they all exist.
pub fn range_between(start: RangeBound, end: RangeBound, total_len: u64) -> (r: Option<Range<u64>>)
    ensures
        opt_range(r) == bytes_between(start, end, total_len),
{
    let first: u64 = match start {
        RangeBound::Included(n) => n,
        RangeBound::Excluded(n) => if n == u64::MAX {
            u64::MAX
        } else {
            n + 1
        },
        RangeBound::Unbounded => 0,
    };
    let last: u64 = match end {
        RangeBound::Included(n) => n,
        RangeBound::Excluded(n) => if n == 0 {
            0
        } else {
            n - 1
        },
        RangeBound::Unbounded => if total_len == 0 {
            0
        } else {
            total_len - 1
        },
    };
    if first <= last && last < total_len {
        Some(Range { start: first, end: last + 1 })
    } else {
        None
    }
}

/// The first of a row of ranges whose bytes all exist.
pub open spec fn first_within(ranges: Seq<(RangeBound, RangeBound)>, total_len: u64) -> Option<
    (int, int),
>
    decreases ranges.len(),
{
    if ranges.len() == 0 {
        None
    } else {
        let (start, end) = ranges[0];
        match bytes_between(start, end, total_len) {
            Some(range) => Some(range),
            None => first_within(ranges.drop_first(), total_len),
        }
    }
}

/// The first of a row of ranges whose bytes all exist.
pub fn first_range_within(ranges: &[(RangeBound, RangeBound)], total_len: u64) -> (r: Option<
    Range<u64>,
>)
    ensures
        opt_range(r) == first_within(ranges@, total_len),
{
    let mut i: usize = 0;
    assert(ranges@.skip(0) =~= ranges@);
    while i < ranges.len()
        invariant
            i <= ranges@.len(),
            first_within(ranges@, total_len) == first_within(ranges@.skip(i as int), total_len),
        decreases ranges@.len() - i,
    {
        assert(ranges@.skip(i as int)[0] == ranges@[i as int]);
        assert(ranges@.skip(i as int).drop_first() =~= ranges@.skip(i + 1));
        let (start, end): (RangeBound, RangeBound) = ranges[i];
        let range: Option<Range<u64>> = range_between(start, end, total_len);
        if range.is_some() {
            return range;
        }
        i = i + 1;
    }
    None
}

/// Resolves the first range the client asked for that the object can actually satisfy.
pub fn first_satisfiable_range(requested: &str, total_len: u64) -> (r: Option<Range<u64>>)
    ensures
        opt_range(r) == first_within(satisfiable(requested@, total_len), total_len),
{
    first_range_within(satisfiable_ranges(requested, total_len).as_slice(), total_len)
}

/// The range header of a request, where it asks for bytes.
pub open spec fn range_asked(headers: Map<Seq<char>, Seq<Seq<u8>>>) -> Option<Seq<char>> {
    match header_line(headers, "range"@) {
        Some(text) if has_prefix(text, "bytes="@) => Some(text),
        _ => None,
    }
}

/// The range header of a request, where it asks for bytes. Any other is passed over, and the whole
/// file is served.
pub fn requested_range(headers: &HeaderMap) -> (r: Option<String>)
    ensures
        opt_string_view(r) == range_asked(header_values(*headers)),
{
    match header_str(headers, "range") {
        Some(text) => if starts_with(text.as_str(), "bytes=") {
            Some(text)
        } else {
            None
        },
        None => None,
    }
}

/// How a request for a file is served.
pub enum RangeStep {
    /// With all of its bytes.
    Whole,
    /// With these of its bytes.
    Part(Range<u64>),
    /// With this head and none of its bytes.
    Unsatisfiable(ResponseHead),
}

/// How a request for a file is served, by what is seen of it: the first byte and the one behind the
/// last, or the status and the headers.
pub enum RangeStepView {
    Whole,
    Part(int, int),
    Unsatisfiable(u16, Map<Seq<char>, Seq<Seq<u8>>>),
}

impl View for RangeStep {
    type V = RangeStepView;

    open spec fn view(&self) -> RangeStepView {
        match self {
            RangeStep::Whole => RangeStepView::Whole,
            RangeStep::Part(part) => RangeStepView::Part(part.start as int, part.end as int),
            RangeStep::Unsatisfiable(head) => RangeStepView::Unsatisfiable(head.status, head@),
        }
    }
}

/// How a request for a file is served.
pub open spec fn served_part(requested: Option<Seq<char>>, total_len: u64) -> RangeStepView {
    match requested {
        None => RangeStepView::Whole,
        Some(text) => match first_within(satisfiable(text, total_len), total_len) {
            Some((first, behind)) => RangeStepView::Part(first, behind),
            None => RangeStepView::Unsatisfiable(
                416,
                with_header(no_headers(), "content-range"@, unsatisfied_range(total_len)),
            ),
        },
    }
}

/// How a request for a file is served, where `requested` is its range header and `total_len` the
/// number of bytes that are stored. Without a range header the whole file is served, and the number
/// does not matter.
pub fn range_to_serve(requested: Option<&str>, total_len: u64) -> (r: RangeStep)
    ensures
        r@ == served_part(opt_view(requested), total_len),
{
    match requested {
        None => RangeStep::Whole,
        Some(text) => match first_satisfiable_range(text, total_len) {
            Some(part) => RangeStep::Part(part),
            None => RangeStep::Unsatisfiable(range_not_satisfiable(total_len)),
        },
    }
}

/// The answer to a range that lies outside the file.
pub open spec fn unsatisfied_range(total_len: u64) -> Seq<char> {
    "bytes */"@ + decimal(total_len as nat)
}

/// The answer to a range that lies outside the file.
pub fn range_not_satisfiable(total_len: u64) -> (r: ResponseHead)
    ensures
        r.status == 416,
        r@ == with_header(no_headers(), "content-range"@, unsatisfied_range(total_len)),
{
    let mut head: ResponseHead = ResponseHead::new(416);
    let mut value: String = "bytes */".to_owned();
    push_decimal(&mut value, total_len);
    proof {
        reveal_strlit("bytes */");
        lemma_decimal_is_visible(total_len as nat);
        lemma_visible_concat("bytes */"@, decimal(total_len as nat));
    }
    head.set_visible("content-range", value.as_str());
    head
}

/// Every range that is served holds something and lies within the file.
pub proof fn served_ranges_lie_within_the_file(
    ranges: Seq<(RangeBound, RangeBound)>,
    total_len: u64,
)
    ensures
        first_within(ranges, total_len) matches Some((first, behind)) ==> 0 <= first < behind
            <= total_len,
    decreases ranges.len(),
{
    if ranges.len() > 0 {
        served_ranges_lie_within_the_file(ranges.drop_first(), total_len);
    }
}

/// A range is served exactly where one of those asked for can be.
pub proof fn a_range_is_served_where_one_can_be(
    ranges: Seq<(RangeBound, RangeBound)>,
    total_len: u64,
)
    ensures
        first_within(ranges, total_len) is Some <==> exists|i: int|
            0 <= i < ranges.len() && bytes_between(
                (#[trigger] ranges[i]).0,
                ranges[i].1,
                total_len,
            ) is Some,
    decreases ranges.len(),
{
    if ranges.len() > 0 {
        let rest = ranges.drop_first();
        a_range_is_served_where_one_can_be(rest, total_len);
        if first_within(rest, total_len) is Some {
            let i = choose|i: int|
                0 <= i < rest.len() && bytes_between((#[trigger] rest[i]).0, rest[i].1, total_len)
                    is Some;
            assert(ranges[i + 1] == rest[i]);
        }
        assert forall|i: int|
            0 <= i < ranges.len() && bytes_between(
                (#[trigger] ranges[i]).0,
                ranges[i].1,
                total_len,
            ) is Some implies first_within(ranges, total_len) is Some by {
            if i > 0 {
                assert(rest[i - 1] == ranges[i]);
            }
        }
        if bytes_between(ranges[0].0, ranges[0].1, total_len) is Some {
            assert(ranges[0] == ranges[0]);
        }
    }
}

/// A range that is asked for by its first and last byte is served as asked where the file holds
/// both, and from no empty file is any range served.
pub proof fn ranges_are_served_as_asked(first: u64, last: u64, total_len: u64)
    ensures
        first <= last < total_len ==> bytes_between(
            RangeBound::Included(first),
            RangeBound::Included(last),
            total_len,
        ) == Some((first as int, last + 1)),
        bytes_between(RangeBound::Included(first), RangeBound::Included(last), 0) is None,
{
}

/// A text that holds no white space at its ends is trimmed already.
proof fn lemma_already_trimmed(s: Seq<char>)
    requires
        s.len() > 0,
        !is_white_space(s[0]),
        !is_white_space(s.last()),
    ensures
        trimmed(s) == s,
{
    assert(trimmed_start(s) == s);
    assert(trimmed_end(s) == s);
}

/// What a range header with one range asks for, where the texts of its bounds are digits or blank
/// and not both blank.
proof fn lemma_one_range(start: Seq<char>, end: Seq<char>, total_len: u64)
    requires
        start.len() + end.len() > 0,
        forall|i: int| 0 <= i < start.len() ==> is_digit(#[trigger] start[i]),
        forall|i: int| 0 <= i < end.len() ==> is_digit(#[trigger] end[i]),
    ensures
        ({
            let s = start + seq!['-'] + end;
            let range = range_value(s, total_len);
            &&& first_at(s, '-') == start.len()
            &&& s.take(start.len() as int) == start
            &&& s.skip(start.len() + 1int) == end
            &&& satisfiable("bytes="@ + s, total_len) == match range {
                Some(range) => seq![range],
                None => Seq::empty(),
            }
        }),
{
    reveal_strlit("bytes=");
    let s = start + seq!['-'] + end;
    let n = start.len() as int;
    assert forall|i: int| 0 <= i < s.len() implies is_digit(#[trigger] s[i]) || s[i] == '-' by {
        if i < n {
            assert(s[i] == start[i]);
        } else if i > n {
            assert(s[i] == end[i - n - 1]);
        }
    }
    assert forall|j: int| 0 <= j < n implies s[j] != '-' by {
        assert(s[j] == start[j]);
    }
    assert(s[n] == '-');
    lemma_first_at_is(s, '-', n);
    assert(s.take(n) =~= start);
    assert(s.skip(n + 1) =~= end);
    let text = "bytes="@ + s;
    assert(text.take(6) =~= "bytes="@);
    assert(text.skip(6) =~= s);
    assert forall|i: int| 0 <= i < text.len() implies (32 <= (#[trigger] text[i]) as u32 && (
    text[i] as u32) < 127) || text[i] as u32 == 9 by {
        if i >= 6 {
            assert(text[i] == s[i - 6]);
        }
    }
    assert(!s.contains(','));
    lemma_split_whole(s, ',');
    assert(is_digit(s[0]) || s[0] == '-');
    assert(is_digit(s[s.len() - 1]) || s[s.len() - 1] == '-');
    lemma_already_trimmed(s);
    let parts = seq![s];
    assert(parts.drop_last() =~= Seq::<Seq<char>>::empty());
    assert(range_values(parts.drop_last(), total_len) =~= Seq::<(RangeBound, RangeBound)>::empty());
    assert(satisfiable(text, total_len) =~= match range_value(s, total_len) {
        Some(range) => seq![range],
        None => Seq::empty(),
    });
}

/// A bound that is written in decimal is read as that bound.
proof fn lemma_bound_reads_back(n: u64)
    ensures
        bound_value(decimal(n as nat)) == Some(RangeBound::Included(n)),
        decimal(n as nat).len() > 0,
        forall|i: int| 0 <= i < decimal(n as nat).len() ==> is_digit(#[trigger] decimal(n as nat)[i]),
{
    decimal_reads_back(n as nat);
    assert(is_digit(decimal(n as nat)[0]));
}

/// A client that asks for the bytes from one to another, `bytes=2-5`, is served those where the
/// file holds them.
pub proof fn a_range_of_bytes_is_served_as_asked(first: u64, last: u64, total_len: u64)
    requires
        first <= last < total_len,
    ensures
        first_within(
            satisfiable(
                "bytes="@ + (decimal(first as nat) + seq!['-'] + decimal(last as nat)),
                total_len,
            ),
            total_len,
        ) == Some((first as int, last + 1)),
{
    lemma_bound_reads_back(first);
    lemma_bound_reads_back(last);
    lemma_one_range(decimal(first as nat), decimal(last as nat), total_len);
}

/// A client that asks for the bytes from one on, `bytes=2-`, is served the rest of the file where
/// there is any.
pub proof fn the_rest_of_a_file_is_served_as_asked(first: u64, total_len: u64)
    requires
        first < total_len,
    ensures
        first_within(
            satisfiable("bytes="@ + (decimal(first as nat) + seq!['-'] + Seq::empty()), total_len),
            total_len,
        ) == Some((first as int, total_len as int)),
{
    lemma_bound_reads_back(first);
    lemma_one_range(decimal(first as nat), Seq::empty(), total_len);
}

/// A client that asks for so many bytes at the end, `bytes=-5`, is served those where the file has
/// as many.
pub proof fn the_end_of_a_file_is_served_as_asked(count: u64, total_len: u64)
    requires
        0 < count <= total_len,
    ensures
        first_within(
            satisfiable("bytes="@ + (Seq::empty() + seq!['-'] + decimal(count as nat)), total_len),
            total_len,
        ) == Some((total_len - count, total_len as int)),
{
    lemma_bound_reads_back(count);
    lemma_one_range(Seq::empty(), decimal(count as nat), total_len);
}

/// What becomes of a caller who wants to upload files.
pub open spec fn upload_check(settings: &RuntimeSettings, role: Option<Role>) -> Result<
    (),
    ErrorView,
> {
    if permits(settings.policy.upload_file, role) {
        Ok(())
    } else {
        Err(ErrorView::Forbidden)
    }
}

/// Turns a caller down who may not upload files.
pub fn authorize_upload(settings: &RuntimeSettings, user: Option<&User>) -> (r: Result<(), AppError>)
    ensures
        seen(r) == upload_check(settings, role_of(user)),
{
    if policy::can_upload_file(settings, user) {
        Ok(())
    } else {
        Err(AppError::Forbidden)
    }
}

/// How long an item is kept, and who may see it.
#[derive(Debug)]
pub struct ItemTerms {
    pub expires_at: Option<i64>,
    pub visibility: &'static str,
}

/// The terms of an item, or an error, each by its view.
pub open spec fn seen_terms(r: Result<ItemTerms, AppError>) -> Result<
    (Option<i64>, Seq<char>),
    ErrorView,
> {
    match r {
        Ok(terms) => Ok((terms.expires_at, terms.visibility@)),
        Err(e) => Err(e@),
    }
}

/// The terms that a form asks for, where its expiry and its visibility are both accepted.
pub open spec fn terms_of(
    expiry: Result<Option<i64>, ErrorView>,
    visibility: Result<Seq<char>, ErrorView>,
) -> Result<(Option<i64>, Seq<char>), ErrorView> {
    match (expiry, visibility) {
        (Err(e), _) => Err(e),
        (Ok(_), Err(e)) => Err(e),
        (Ok(expires_at), Ok(visibility)) => Ok((expires_at, visibility)),
    }
}

/// Whether `terms` are what a form for an item of one kind is granted.
pub open spec fn terms_answer<F: Fn(Option<&str>) -> Result<Option<i64>, String>>(
    settings: &RuntimeSettings,
    kind: Seq<char>,
    signed_in: bool,
    expires: Option<Seq<char>>,
    default_expires: Option<Seq<char>>,
    visibility: Option<Seq<char>>,
    parse_expiry: F,
    now: i64,
    terms: Result<(Option<i64>, Seq<char>), ErrorView>,
) -> bool {
    exists|answer: Result<Option<i64>, ErrorView>|
        {
            &&& #[trigger] expiry_answer(
                settings,
                kind,
                signed_in,
                expires,
                default_expires,
                parse_expiry,
                now,
                answer,
            )
            &&& terms == terms_of(
                answer,
                visibility_value(settings.features.public_browse, visibility),
            )
        }
}

/// The terms that a form for an item of one kind asks for. `parse_expiry` reads an expiry, with
/// `None` for no text.
pub fn requested_terms<F: Fn(Option<&str>) -> Result<Option<i64>, String>>(
    settings: &RuntimeSettings,
    user: Option<&User>,
    kind: &str,
    expires: Option<&str>,
    default_expires: Option<&str>,
    visibility: Option<&str>,
    parse_expiry: F,
    now: i64,
) -> (r: Result<ItemTerms, AppError>)
    requires
        forall|text: Option<&str>| #[trigger] call_requires(parse_expiry, (text,)),
    ensures
        terms_answer(
            settings,
            kind@,
            user is Some,
            opt_view(expires),
            opt_view(default_expires),
            opt_view(visibility),
            parse_expiry,
            now,
            seen_terms(r),
        ),
{
    let expiry: Result<Option<i64>, AppError> = parse_expiry_or_default_checked(
        settings,
        user,
        kind,
        expires,
        default_expires,
        parse_expiry,
        now,
    );
    let ghost answer = seen(expiry);
    assert(expiry_answer(
        settings,
        kind@,
        user is Some,
        opt_view(expires),
        opt_view(default_expires),
        parse_expiry,
        now,
        answer,
    ));
    let expires_at: Option<i64> = match expiry {
        Ok(expires_at) => expires_at,
        Err(e) => {
            return Err(e);
        },
    };
    match requested_visibility(settings, visibility) {
        Ok(visibility) => Ok(ItemTerms { expires_at, visibility }),
        Err(e) => Err(e),
    }
}

/// Whether a request asks for data rather than for a page.
pub open spec fn asks_for_json(headers: Map<Seq<char>, Seq<Seq<u8>>>) -> bool {
    match header_line(headers, "accept"@) {
        Some(value) => holds(value, "application/json"@),
        None => false,
    }
}

/// Whether a request asks for data rather than for a page.
pub fn wants_json(headers: &HeaderMap) -> (r: bool)
    ensures
        r == asks_for_json(header_values(*headers)),
{
    match header_str(headers, "accept") {
        Some(value) => contains(value.as_str(), "application/json"),
        None => false,
    }
}

/// The link under which a file can be deleted.
pub fn delete_file_url(public_id: &str) -> (r: String)
    ensures
        r@ == "/delete/file/"@ + public_id@,
{
    let mut url: String = "/delete/file/".to_owned();
    url.append(public_id);
    url
}

/// Turns a request down where uploads by URL are switched off.
pub fn url_upload_form(settings: &RuntimeSettings) -> (r: Result<(), AppError>)
    ensures
        seen(r) == if settings.features.upload_by_url {
            Ok::<(), ErrorView>(())
        } else {
            Err(ErrorView::NotFound)
        },
{
    if settings.features.upload_by_url {
        Ok(())
    } else {
        Err(AppError::NotFound)
    }
}

/// An optional text, or an error, each by its view.
pub open spec fn seen_name(r: Result<Option<String>, AppError>) -> Result<
    Option<Seq<char>>,
    ErrorView,
> {
    match r {
        Ok(name) => Ok(opt_string_view(name)),
        Err(e) => Err(e@),
    }
}

/// What becomes of a URL that a file is to be fetched from: the name that the file gets from the
/// last segment of its path, where the URL is one to fetch from.
pub open spec fn fetched_name(url: Result<UrlView, Seq<char>>) -> Result<
    Option<Seq<char>>,
    ErrorView,
> {
    match url {
        Err(reason) => Err(ErrorView::BadRequest("invalid URL: "@ + reason)),
        Ok(url) => if url.scheme != "http"@ && url.scheme != "https"@ {
            Err(ErrorView::BadRequest("only http and https URLs are supported"@))
        } else {
            Ok(
                match last_segment(url.path) {
                    Some(segment) if segment.len() > 0 => Some(segment),
                    _ => None,
                },
            )
        },
    }
}

/// The name of a file that is fetched from a URL with these parts.
pub fn name_of_fetched(url: Result<UrlParts, String>) -> (r: Result<Option<String>, AppError>)
    ensures
        seen_name(r) == fetched_name(url_result(url)),
{
    let url: UrlParts = match url {
        Ok(url) => url,
        Err(reason) => {
            let mut message: String = "invalid URL: ".to_owned();
            message.append(reason.as_str());
            return Err(AppError::BadRequest(message));
        },
    };
    if !same(url.scheme.as_str(), "http") && !same(url.scheme.as_str(), "https") {
        return Err(bad_request("only http and https URLs are supported"));
    }
    match last_path_segment(url.path.as_str()) {
        Some(segment) => if segment.is_empty() {
            Ok(None)
        } else {
            Ok(Some(segment.to_owned()))
        },
        None => Ok(None),
    }
}

/// The name of a file that is fetched from a URL, where the URL is one to fetch from.
pub fn url_upload(url: &str) -> (r: Result<Option<String>, AppError>)
    ensures
        seen_name(r) == fetched_name(parsed_url(url@)),
{
    name_of_fetched(parse_url(url))
}

/// Which origin may serve a file's bytes.
pub open spec fn origin_check(
    isolated_file_origin: bool,
    isolated_file_host: bool,
    needs_app: bool,
) -> Result<(), ErrorView> {
    if isolated_file_origin && isolated_file_host == needs_app {
        Err(ErrorView::NotFound)
    } else {
        Ok(())
    }
}

/// Enforces which origin may serve a file's bytes.
///
/// With an isolated file origin, public bytes are only available through the file host so that
/// user-controlled content never shares the application origin. Files that need a session are the
/// exception in both directions: the file host cannot authorise them, so they stay on the
/// application origin rather than becoming unreachable from either host.
pub fn enforce_file_origin(
    settings: &RuntimeSettings,
    isolated_file_host: bool,
    file: &FileItem,
) -> (r: Result<(), AppError>)
    ensures
        seen(r) == origin_check(
            settings.delivery.isolated_file_origin,
            isolated_file_host,
            needs_app_origin(settings.policy.view_item, file.visibility@),
        ),
{
    if !settings.delivery.isolated_file_origin {
        return Ok(());
    }
    if file_needs_app_origin(settings, file) {
        if isolated_file_host {
            return Err(AppError::NotFound);
        }
        return Ok(());
    }
    if isolated_file_host {
        Ok(())
    } else {
        Err(AppError::NotFound)
    }
}

/// Who may keep the bytes of a file.
pub open spec fn scope_of(settings: &RuntimeSettings, file: &FileItem) -> CacheScope {
    if needs_app_origin(settings.policy.view_item, file.visibility@) {
        CacheScope::Private
    } else {
        CacheScope::Public
    }
}

/// A response a shared cache may keep has to be one that any caller was entitled to.
pub fn file_cache_scope(settings: &RuntimeSettings, file: &FileItem) -> (r: CacheScope)
    ensures
        r == scope_of(settings, file),
{
    if file_needs_app_origin(settings, file) {
        CacheScope::Private
    } else {
        CacheScope::Public
    }
}

/// Whether a caller may see a file.
pub open spec fn may_view_file(
    settings: &RuntimeSettings,
    user: Option<&User>,
    file: &FileItem,
) -> bool {
    may_view(
        settings.policy.view_item,
        caller_of(user),
        opt_string_view(file.owner_user_id),
        file.visibility@,
    )
}

/// What there is under the identifier of a file.
pub enum FileLookup {
    /// A file that is there to be seen.
    Active(FileItem),
    /// A file that is no longer there to be seen.
    TakenDown(FileItem),
    /// Nothing.
    Missing,
}

/// What a request for a file is answered with.
#[derive(Debug)]
pub enum FileAction {
    /// A page about the file.
    Preview,
    /// The bytes of the file, with who may keep them.
    Serve(CacheScope),
    /// A page that says in which state the file is.
    Unavailable(String),
}

/// What a request for a file is answered with, with its text as a sequence of characters.
pub enum FileActionView {
    Preview,
    Serve(CacheScope),
    Unavailable(Seq<char>),
}

impl View for FileAction {
    type V = FileActionView;

    open spec fn view(&self) -> FileActionView {
        match self {
            FileAction::Preview => FileActionView::Preview,
            FileAction::Serve(scope) => FileActionView::Serve(*scope),
            FileAction::Unavailable(state) => FileActionView::Unavailable(state@),
        }
    }
}

/// An answer or an error, each by its view.
pub open spec fn seen_action(r: Result<FileAction, AppError>) -> Result<FileActionView, ErrorView> {
    match r {
        Ok(action) => Ok(action@),
        Err(e) => Err(e@),
    }
}

/// What a request for a file by its slug is answered with.
pub open spec fn slug_answer(
    settings: &RuntimeSettings,
    slug_is_one: bool,
    isolated_file_host: bool,
    user: Option<&User>,
    lookup: FileLookup,
) -> Result<FileActionView, ErrorView> {
    let preview = settings.features.preview_pages;
    if !slug_is_one || (preview && isolated_file_host) {
        Err(ErrorView::NotFound)
    } else {
        match lookup {
            FileLookup::Missing => Err(ErrorView::NotFound),
            FileLookup::TakenDown(file) => if may_view_file(settings, user, &file) {
                Ok(FileActionView::Unavailable(file.state@))
            } else {
                Err(ErrorView::NotFound)
            },
            FileLookup::Active(file) => if !preview && origin_check(
                settings.delivery.isolated_file_origin,
                isolated_file_host,
                needs_app_origin(settings.policy.view_item, file.visibility@),
            ) is Err {
                Err(ErrorView::NotFound)
            } else if !may_view_file(settings, user, &file) {
                Err(ErrorView::Forbidden)
            } else if preview {
                Ok(FileActionView::Preview)
            } else {
                Ok(FileActionView::Serve(scope_of(settings, &file)))
            },
        }
    }
}

/// Turns a request down before anything is looked up: one whose slug holds no identifier, and one
/// for a preview page that reached the file host. A preview page is application chrome, so it only
/// exists on the application origin.
pub fn file_slug_gate(
    settings: &RuntimeSettings,
    public_id: Option<&str>,
    isolated_file_host: bool,
) -> (r: Result<(), AppError>)
    ensures
        seen(r) == if public_id is None || (settings.features.preview_pages && isolated_file_host) {
            Err::<(), ErrorView>(ErrorView::NotFound)
        } else {
            Ok(())
        },
{
    if public_id.is_none() || (settings.features.preview_pages && isolated_file_host) {
        Err(AppError::NotFound)
    } else {
        Ok(())
    }
}

/// What a request for a file by its slug is answered with. `public_id` is the identifier in the
/// slug, `lookup` what there is under it.
pub fn file_slug(
    settings: &RuntimeSettings,
    public_id: Option<&str>,
    isolated_file_host: bool,
    user: Option<&User>,
    lookup: &FileLookup,
) -> (r: Result<FileAction, AppError>)
    ensures
        seen_action(r) == slug_answer(
            settings,
            public_id is Some,
            isolated_file_host,
            user,
            *lookup,
        ),
{
    if let Err(e) = file_slug_gate(settings, public_id, isolated_file_host) {
        return Err(e);
    }
    let file: &FileItem = match lookup {
        FileLookup::Missing => {
            return Err(AppError::NotFound);
        },
        FileLookup::TakenDown(file) => {
            // Whether an item exists, and what it was taken down for, is only the viewer's
            // business if they could have viewed it in the first place.
            return match authorize_item_view(
                settings,
                user,
                opt_str(&file.owner_user_id),
                file.visibility.as_str(),
            ) {
                Ok(_) => Ok(FileAction::Unavailable(file.state.as_str().to_owned())),
                Err(_) => Err(AppError::NotFound),
            };
        },
        FileLookup::Active(file) => file,
    };
    if !settings.features.preview_pages {
        if let Err(e) = enforce_file_origin(settings, isolated_file_host, file) {
            return Err(e);
        }
    }
    if let Err(e) = authorize_item_view(
        settings,
        user,
        opt_str(&file.owner_user_id),
        file.visibility.as_str(),
    ) {
        return Err(e);
    }
    if settings.features.preview_pages {
        Ok(FileAction::Preview)
    } else {
        Ok(FileAction::Serve(file_cache_scope(settings, file)))
    }
}

/// What a request for the bytes of a file is answered with.
pub open spec fn raw_answer(
    settings: &RuntimeSettings,
    isolated_file_host: bool,
    user: Option<&User>,
    file: Option<&FileItem>,
) -> Result<CacheScope, ErrorView> {
    match file {
        None => Err(ErrorView::NotFound),
        Some(file) => if origin_check(
            settings.delivery.isolated_file_origin,
            isolated_file_host,
            needs_app_origin(settings.policy.view_item, file.visibility@),
        ) is Err {
            Err(ErrorView::NotFound)
        } else if !may_view_file(settings, user, file) {
            Err(ErrorView::Forbidden)
        } else {
            Ok(scope_of(settings, file))
        },
    }
}

/// What a request for the bytes of a file is answered with: the bytes, with who may keep them.
pub fn raw_file(
    settings: &RuntimeSettings,
    isolated_file_host: bool,
    user: Option<&User>,
    file: Option<&FileItem>,
) -> (r: Result<CacheScope, AppError>)
    ensures
        seen(r) == raw_answer(settings, isolated_file_host, user, file),
{
    let file: &FileItem = match file {
        Some(file) => file,
        None => {
            return Err(AppError::NotFound);
        },
    };
    if let Err(e) = enforce_file_origin(settings, isolated_file_host, file) {
        return Err(e);
    }
    if let Err(e) = authorize_item_view(
        settings,
        user,
        opt_str(&file.owner_user_id),
        file.visibility.as_str(),
    ) {
        return Err(e);
    }
    Ok(file_cache_scope(settings, file))
}

/// The hash of a thumbnail with who may keep it, or an error, each by its view.
pub open spec fn seen_thumbnail(r: Result<(String, CacheScope), AppError>) -> Result<
    (Seq<char>, CacheScope),
    ErrorView,
> {
    match r {
        Ok((hash, scope)) => Ok((hash@, scope)),
        Err(e) => Err(e@),
    }
}

/// What a request for the thumbnail of a file is answered with.
pub open spec fn thumbnail_answer(
    settings: &RuntimeSettings,
    isolated_file_host: bool,
    user: Option<&User>,
    file: Option<&FileItem>,
) -> Result<(Seq<char>, CacheScope), ErrorView> {
    match raw_answer(settings, isolated_file_host, user, file) {
        Err(e) => Err(e),
        Ok(scope) => match file->0.thumbnail_hash {
            Some(hash) => Ok((hash@, scope)),
            None => Err(ErrorView::NotFound),
        },
    }
}

/// What a request for the thumbnail of a file is answered with: the thumbnail with this hash, with
/// who may keep it. Thumbnails are file content and must follow the same origin rules as the raw
/// bytes.
pub fn thumbnail_file(
    settings: &RuntimeSettings,
    isolated_file_host: bool,
    user: Option<&User>,
    file: Option<&FileItem>,
) -> (r: Result<(String, CacheScope), AppError>)
    ensures
        seen_thumbnail(r) == thumbnail_answer(settings, isolated_file_host, user, file),
{
    match raw_file(settings, isolated_file_host, user, file) {
        Err(e) => Err(e),
        Ok(scope) => match file {
            Some(file) => match &file.thumbnail_hash {
                Some(hash) => Ok((hash.as_str().to_owned(), scope)),
                None => Err(AppError::NotFound),
            },
            None => Err(AppError::NotFound),
        },
    }
}

/// What an internal link holds behind its path.
#[derive(Debug, Clone)]
pub struct InternalFileQuery {
    pub expires: i64,
    pub signature: String,
}

/// What becomes of a request by an internal link, where `expected` is its proper signature.
pub open spec fn link_check(expected: Seq<char>, expires: i64, submitted: Seq<char>, now: i64) -> Result<
    (),
    ErrorView,
> {
    if expires < now || submitted != expected {
        Err(ErrorView::Forbidden)
    } else {
        Ok(())
    }
}

/// What becomes of a request by an internal link.
pub open spec fn internal_access(
    secret: Option<Seq<char>>,
    public_id: Seq<char>,
    expires: i64,
    submitted: Seq<char>,
    now: i64,
) -> Result<(), ErrorView> {
    match secret {
        None => Err(ErrorView::NotFound),
        Some(secret) => link_check(signature(secret, public_id, expires), expires, submitted, now),
    }
}

/// Turns a request by an internal link down unless the link is still good and its signature is the
/// expected one.
pub fn check_internal_link(expected: &str, query: &InternalFileQuery, now: i64) -> (r: Result<
    (),
    AppError,
>)
    ensures
        seen(r) == link_check(expected@, query.expires, query.signature@, now),
{
    if query.expires < now {
        return Err(AppError::Forbidden);
    }
    if is_signature(expected, query.signature.as_str()) {
        Ok(())
    } else {
        Err(AppError::Forbidden)
    }
}

/// Turns a request by an internal link down unless such links are in use, the link is still good,
/// and it was signed here.
pub fn internal_raw_file(
    settings: &RuntimeSettings,
    public_id: &str,
    query: &InternalFileQuery,
    now: i64,
) -> (r: Result<(), AppError>)
    ensures
        seen(r) == internal_access(
            internal_secret(settings),
            public_id@,
            query.expires,
            query.signature@,
            now,
        ),
{
    match internal_link_secret(settings) {
        None => Err(AppError::NotFound),
        Some(secret) => check_internal_link(
            sign_internal_file_url(secret, public_id, query.expires).as_str(),
            query,
            now,
        ),
    }
}

/// What a page about a file shows of it.
#[derive(Debug, Clone, Copy, PartialEq, Eq, Structural)]
pub struct PreviewKind {
    pub is_image: bool,
    pub is_text: bool,
}

/// Whether files of a type are shown as images.
pub open spec fn shown_as_image(content_type: Seq<char>) -> bool {
    content_type == "image/png"@ || content_type == "image/gif"@ || content_type == "image/jpeg"@
}

/// Whether files of a type are shown as text.
pub open spec fn shown_as_text(content_type: Seq<char>) -> bool {
    has_prefix(content_type, "text/"@) || content_type == "application/json"@ || content_type
        == "application/xml"@ || content_type == "application/javascript"@
}

/// The type of a file, or no characters where it has none.
pub open spec fn type_or_blank(content_type: Option<Seq<char>>) -> Seq<char> {
    match content_type {
        Some(content_type) => content_type,
        None => ""@,
    }
}

/// What a page about a file shows of it.
pub fn preview_kind(file: &FileItem) -> (r: PreviewKind)
    ensures
        r.is_image == shown_as_image(type_or_blank(opt_string_view(file.content_type))),
        r.is_text == shown_as_text(type_or_blank(opt_string_view(file.content_type))),
{
    let content_type: &str = match &file.content_type {
        Some(content_type) => content_type.as_str(),
        None => "",
    };
    let is_image: bool = same(content_type, "image/png") || same(content_type, "image/gif") || same(
        content_type,
        "image/jpeg",
    );
    let is_text: bool = starts_with(content_type, "text/") || same(content_type, "application/json")
        || same(content_type, "application/xml") || same(content_type, "application/javascript");
    PreviewKind { is_image, is_text }
}

/// Whether a page about a file of this type and size shows the beginning of its text.
pub open spec fn reads_text(content_type: Option<Seq<char>>, size_bytes: i64) -> bool {
    shown_as_text(type_or_blank(content_type)) && size_bytes <= 128 * 1024
}

/// Whether a page about a file shows the beginning of its text.
pub fn preview_reads_text(file: &FileItem) -> (r: bool)
    ensures
        r == reads_text(opt_string_view(file.content_type), file.size_bytes),
{
    preview_kind(file).is_text && file.size_bytes <= 128 * 1024
}

/// What `String::from_utf8_lossy` makes of bytes: their text, with a replacement character for
/// what is none.
pub uninterp spec fn lossy_text(bytes: Seq<u8>) -> Seq<char>;

/// Calls `String::from_utf8_lossy`. Bytes that are UTF-8 throughout give the text that they encode;
/// of other bytes it is only said that the same ones give the same text.
#[verifier::external_body]
fn from_utf8_lossy(bytes: &[u8]) -> (r: String)
    ensures
        r@ == lossy_text(bytes@),
        valid_utf8(bytes@) ==> r@ == decode_utf8(bytes@),
{
    String::from_utf8_lossy(bytes).into_owned()
}

/// The beginning of a text that a page shows.
pub open spec fn first_chars(text: Seq<char>) -> Seq<char> {
    if text.len() <= 8000 {
        text
    } else {
        text.take(8000)
    }
}

/// The beginning of a text that a page shows.
pub fn beginning_of(text: &str) -> (r: String)
    ensures
        r@ == first_chars(text@),
{
    let cs: Vec<char> = chars_of(text);
    let n: usize = if cs.len() <= 8000 {
        cs.len()
    } else {
        8000
    };
    let front: &[char] = vstd::slice::slice_subrange(cs.as_slice(), 0, n);
    assert(front@ =~= first_chars(text@));
    string_of(front)
}

/// The beginning of the text of a file that a page shows.
pub fn preview_text(bytes: &[u8]) -> (r: String)
    ensures
        r@ == first_chars(lossy_text(bytes@)),
        valid_utf8(bytes@) ==> r@ == first_chars(decode_utf8(bytes@)),
{
    beginning_of(from_utf8_lossy(bytes).as_str())
}

/// Whether a type is on the list of types that are handled with care.
pub open spec fn is_listed_type(listed: Seq<String>, content_type: Seq<char>) -> bool {
    exists|i: int|
        0 <= i < listed.len() && lowercase(#[trigger] listed[i]@) == lowercase(content_type)
}

/// Whether files of a type are handled with care.
pub fn is_risky_mime(settings: &RuntimeSettings, content_type: &str) -> (r: bool)
    ensures
        r == is_listed_type(
            settings.security.content_policy.forced_attachment_mime_types@,
            content_type@,
        ),
{
    let listed: &Vec<String> = &settings.security.content_policy.forced_attachment_mime_types;
    let mut i: usize = 0;
    while i < listed.len()
        invariant
            listed@ == settings.security.content_policy.forced_attachment_mime_types@,
            i <= listed@.len(),
            forall|j: int|
                0 <= j < i ==> lowercase(#[trigger] listed@[j]@) != lowercase(content_type@),
        decreases listed@.len() - i,
    {
        if eq_ignore_ascii_case(listed[i].as_str(), content_type) {
            assert(lowercase(listed@[i as int]@) == lowercase(content_type@));
            return true;
        }
        i = i + 1;
    }
    false
}

/// Whether a browser is told to show a file or to save it.
pub open spec fn disposition_of(
    settings: &RuntimeSettings,
    risky_type: bool,
    isolated_file_host: bool,
) -> Seq<char> {
    let inline = if risky_type {
        match settings.security.content_policy.risky_mime_mode {
            RiskyMimeMode::Attachment => false,
            RiskyMimeMode::InlineOnIsolatedOrigin => isolated_file_host,
            RiskyMimeMode::Plaintext => true,
        }
    } else {
        settings.security.content_disposition == ContentDispositionMode::Inline
    };
    if inline {
        "inline"@
    } else {
        "attachment"@
    }
}

/// Whether a browser is told to show a file or to save it.
pub fn file_disposition_kind(
    settings: &RuntimeSettings,
    risky_type: bool,
    isolated_file_host: bool,
) -> (r: &'static str)
    ensures
        r@ == disposition_of(settings, risky_type, isolated_file_host),
{
    if risky_type {
        return match settings.security.content_policy.risky_mime_mode {
            RiskyMimeMode::Attachment => "attachment",
            RiskyMimeMode::InlineOnIsolatedOrigin => if isolated_file_host {
                "inline"
            } else {
                "attachment"
            },
            RiskyMimeMode::Plaintext => "inline",
        };
    }
    match settings.security.content_disposition {
        ContentDispositionMode::Inline => "inline",
        ContentDispositionMode::Attachment => "attachment",
    }
}

/// The policy of a document on the file host: it runs nothing and is embedded nowhere.
pub open spec fn sandbox_policy() -> Seq<char> {
    "default-src 'none'; sandbox; style-src 'unsafe-inline'; img-src 'self' data: blob:; media-src 'self' blob:; frame-ancestors 'none'"@
}

/// Headers with the protections of user-controlled content.
pub open spec fn with_security_headers(
    headers: Map<Seq<char>, Seq<Seq<u8>>>,
    isolated_file_host: bool,
) -> Map<Seq<char>, Seq<Seq<u8>>> {
    let plain = with_header(
        with_header(
            with_header(headers, "x-content-type-options"@, "nosniff"@),
            "referrer-policy"@,
            "no-referrer"@,
        ),
        "cross-origin-resource-policy"@,
        "cross-origin"@,
    );
    if isolated_file_host {
        with_header(plain, "content-security-policy"@, sandbox_policy())
    } else {
        plain
    }
}

/// The fixed texts of the protections are visible ASCII.
proof fn lemma_security_texts_are_visible()
    ensures
        is_visible_chars("nosniff"@),
        is_visible_chars("no-referrer"@),
        is_visible_chars("cross-origin"@),
        is_visible_chars(sandbox_policy()),
{
    reveal_strlit("nosniff");
    reveal_strlit("no-referrer");
    reveal_strlit("cross-origin");
    reveal_strlit(
        "default-src 'none'; sandbox; style-src 'unsafe-inline'; img-src 'self' data: blob:; media-src 'self' blob:; frame-ancestors 'none'",
    );
}

/// Protects a response that carries user-controlled content.
pub fn insert_file_security_headers(response: &mut ResponseHead, isolated_file_host: bool)
    requires
        has_room(old(response)@, 4),
    ensures
        final(response).status == old(response).status,
        final(response)@ == with_security_headers(old(response)@, isolated_file_host),
        forall|n: nat| #[trigger] at_most(old(response)@, n) ==> at_most(final(response)@, n + 4),
{
    proof {
        lemma_security_texts_are_visible();
    }
    assert(at_most(response@, 3272));
    response.set_visible("x-content-type-options", "nosniff");
    assert(at_most(response@, 3273));
    response.set_visible("referrer-policy", "no-referrer");
    assert(at_most(response@, 3274));
    response.set_visible("cross-origin-resource-policy", "cross-origin");
    assert(at_most(response@, 3275));
    if isolated_file_host {
        response.set_visible(
            "content-security-policy",
            "default-src 'none'; sandbox; style-src 'unsafe-inline'; img-src 'self' data: blob:; media-src 'self' blob:; frame-ancestors 'none'",
        );
    }
}

/// The head of a response with a thumbnail.
pub open spec fn thumbnail_headers(
    settings: &RuntimeSettings,
    isolated_file_host: bool,
    scope: CacheScope,
) -> Map<Seq<char>, Seq<Seq<u8>>> {
    with_header(
        with_security_headers(
            with_header(no_headers(), "content-type"@, "image/png"@),
            isolated_file_host,
        ),
        "cache-control"@,
        cache_control(settings.delivery.public_cache_seconds, scope),
    )
}

/// The head of a response with a thumbnail.
pub fn thumbnail_head(
    settings: &RuntimeSettings,
    isolated_file_host: bool,
    scope: CacheScope,
) -> (r: ResponseHead)
    ensures
        r.status == 200,
        r@ == thumbnail_headers(settings, isolated_file_host, scope),
{
    proof {
        reveal_strlit("image/png");
    }
    let mut head: ResponseHead = ResponseHead::new(200);
    assert(is_visible_chars("image/png"@));
    head.set_visible("content-type", "image/png");
    assert(at_most(head@, 1));
    insert_file_security_headers(&mut head, isolated_file_host);
    assert(at_most(head@, 5));
    insert_cache_control(&mut head, settings.delivery.public_cache_seconds, scope);
    head
}

/// The bytes of a stored file that a response carries.
#[derive(Debug, Clone, Copy)]
pub struct BlobPart {
    /// The first byte.
    pub start: u64,
    /// The byte behind the last.
    pub end: u64,
    /// The number of bytes that are stored.
    pub size: u64,
}

impl BlobPart {
    /// Whether a response carries less than the whole.
    pub open spec fn partial(self) -> bool {
        self.start != 0 || self.end != self.size
    }

    /// The status of the response.
    pub open spec fn status(self) -> u16 {
        if self.partial() {
            206
        } else {
            200
        }
    }

    /// The number of bytes that a response carries.
    pub open spec fn length(self) -> nat {
        if self.end <= self.start {
            0
        } else {
            (self.end - self.start) as nat
        }
    }

    /// Which of the bytes a response carries.
    pub open spec fn content_range(self) -> Seq<char> {
        let last: nat = if self.end == 0 {
            0
        } else {
            (self.end - 1) as nat
        };
        "bytes "@ + decimal(self.start as nat) + "-"@ + decimal(last) + "/"@ + decimal(
            self.size as nat,
        )
    }

    /// Writes which of the bytes a response carries.
    fn write_content_range(&self) -> (r: String)
        ensures
            r@ == self.content_range(),
            is_visible_chars(r@),
    {
        let last: u64 = if self.end == 0 {
            0
        } else {
            self.end - 1
        };
        let mut text: String = "bytes ".to_owned();
        push_decimal(&mut text, self.start);
        text.append("-");
        push_decimal(&mut text, last);
        text.append("/");
        push_decimal(&mut text, self.size);
        proof {
            reveal_strlit("bytes ");
            reveal_strlit("-");
            reveal_strlit("/");
            let a = decimal(self.start as nat);
            let b = decimal(last as nat);
            let c = decimal(self.size as nat);
            lemma_decimal_is_visible(self.start as nat);
            lemma_decimal_is_visible(last as nat);
            lemma_decimal_is_visible(self.size as nat);
            assert(is_visible_chars("bytes "@));
            assert(is_visible_chars("-"@));
            assert(is_visible_chars("/"@));
            lemma_visible_concat("bytes "@, a);
            lemma_visible_concat("bytes "@ + a, "-"@);
            lemma_visible_concat("bytes "@ + a + "-"@, b);
            lemma_visible_concat("bytes "@ + a + "-"@ + b, "/"@);
            lemma_visible_concat("bytes "@ + a + "-"@ + b + "/"@, c);
        }
        text
    }
}

/// The type of a file that was stored without one.
pub open spec fn type_or_bytes(content_type: Option<Seq<char>>) -> Seq<char> {
    match content_type {
        Some(content_type) => content_type,
        None => "application/octet-stream"@,
    }
}

/// The type that a response names: the stored one, plain text for a risky file that is served as
/// such, and unspecific bytes where the stored one cannot stand in a header.
pub open spec fn served_type(settings: &RuntimeSettings, content_type: Option<Seq<char>>) -> Seq<
    char,
> {
    let stored = type_or_bytes(content_type);
    let risky = is_listed_type(
        settings.security.content_policy.forced_attachment_mime_types@,
        stored,
    );
    if risky && settings.security.content_policy.risky_mime_mode == RiskyMimeMode::Plaintext {
        "text/plain; charset=utf-8"@
    } else if is_header_text(stored) {
        stored
    } else {
        "application/octet-stream"@
    }
}

/// A text without the quotes in it.
pub open spec fn unquoted(s: Seq<char>) -> Seq<char>
    decreases s.len(),
{
    if s.len() == 0 {
        s
    } else if s.last() == '"' {
        unquoted(s.drop_last())
    } else {
        unquoted(s.drop_last()).push(s.last())
    }
}

/// A text without the quotes in it.
fn without_quotes(s: &str) -> (r: String)
    ensures
        r@ == unquoted(s@),
{
    let cs: Vec<char> = chars_of(s);
    let mut out: String = String::new();
    let mut i: usize = 0;
    assert(out@ =~= unquoted(cs@.take(0)));
    while i < cs.len()
        invariant
            i <= cs@.len(),
            out@ == unquoted(cs@.take(i as int)),
        decreases cs@.len() - i,
    {
        assert(cs@.take(i + 1).drop_last() =~= cs@.take(i as int));
        if cs[i] != '"' {
            out.push(cs[i]);
        }
        i = i + 1;
    }
    assert(cs@.take(cs@.len() as int) =~= cs@);
    out
}

/// How a browser is told to handle a file, and under which name to save it.
pub open spec fn content_disposition(
    settings: &RuntimeSettings,
    isolated_file_host: bool,
    file: &FileItem,
) -> Seq<char> {
    let risky = is_listed_type(
        settings.security.content_policy.forced_attachment_mime_types@,
        type_or_bytes(opt_string_view(file.content_type)),
    );
    let name = match file.original_filename {
        Some(name) => name@,
        None => file.public_id@,
    };
    disposition_of(settings, risky, isolated_file_host) + "; filename=\""@ + unquoted(name)
        + "\""@
}

/// The headers of a response that carries bytes of a file.
pub open spec fn file_headers(
    settings: &RuntimeSettings,
    isolated_file_host: bool,
    file: &FileItem,
    scope: CacheScope,
    part: BlobPart,
) -> Map<Seq<char>, Seq<Seq<u8>>> {
    let ranged = if part.partial() {
        with_header(no_headers(), "content-range"@, part.content_range())
    } else {
        no_headers()
    };
    let sized = with_header(
        with_header(ranged, "accept-ranges"@, "bytes"@),
        "content-length"@,
        decimal(part.length()),
    );
    let typed = with_header(
        sized,
        "content-type"@,
        served_type(settings, opt_string_view(file.content_type)),
    );
    let disposed = with_valid_header(
        typed,
        "content-disposition"@,
        content_disposition(settings, isolated_file_host, file),
    );
    with_header(
        with_security_headers(disposed, isolated_file_host),
        "cache-control"@,
        cache_control(settings.delivery.public_cache_seconds, scope),
    )
}

/// The fixed texts in the head of a file are visible ASCII.
proof fn lemma_head_texts_are_visible()
    ensures
        is_visible_chars("bytes"@),
        is_visible_chars("application/octet-stream"@),
        is_visible_chars("text/plain; charset=utf-8"@),
{
    reveal_strlit("bytes");
    reveal_strlit("application/octet-stream");
    reveal_strlit("text/plain; charset=utf-8");
}

/// The head of a response that carries bytes of a file.
///
/// The recorded size of a file can drift from what was actually stored. The range and the length
/// have to describe the bytes the response will really carry, so both come from the stored bytes.
pub fn serve_file(
    settings: &RuntimeSettings,
    isolated_file_host: bool,
    file: &FileItem,
    scope: CacheScope,
    part: BlobPart,
) -> (r: ResponseHead)
    ensures
        r.status == part.status(),
        r@ == file_headers(settings, isolated_file_host, file, scope, part),
{
    proof {
        lemma_head_texts_are_visible();
        lemma_decimal_is_visible(part.length());
    }
    let is_partial: bool = part.start != 0 || part.end != part.size;
    let mut head: ResponseHead = ResponseHead::new(if is_partial {
        206
    } else {
        200
    });
    if is_partial {
        let range: String = part.write_content_range();
        head.set_visible("content-range", range.as_str());
    }
    assert(at_most(head@, 1));
    head.set_visible("accept-ranges", "bytes");
    assert(at_most(head@, 2));
    let length: u64 = if part.end <= part.start {
        0
    } else {
        part.end - part.start
    };
    let mut length_text: String = String::new();
    push_decimal(&mut length_text, length);
    assert(length_text@ =~= decimal(part.length()));
    head.set_visible("content-length", length_text.as_str());
    assert(at_most(head@, 3));
    let stored: &str = match &file.content_type {
        Some(content_type) => content_type.as_str(),
        None => "application/octet-stream",
    };
    let risky: bool = is_risky_mime(settings, stored);
    let plaintext: bool = risky && settings.security.content_policy.risky_mime_mode
        == RiskyMimeMode::Plaintext;
    let ghost sized = head@;
    if plaintext {
        head.set_visible("content-type", "text/plain; charset=utf-8");
    } else {
        head.set_visible("content-type", "application/octet-stream");
        assert(at_most(head@, 4));
        head.set("content-type", stored);
    }
    assert(at_most(head@, 5));
    assert(head@ =~= with_header(
        sized,
        "content-type"@,
        served_type(settings, opt_string_view(file.content_type)),
    ));
    let name: String = match &file.original_filename {
        Some(name) => without_quotes(name.as_str()),
        None => without_quotes(file.public_id.as_str()),
    };
    let mut disposition: String = file_disposition_kind(
        settings,
        risky,
        isolated_file_host,
    ).to_owned();
    disposition.append("; filename=\"");
    disposition.append(name.as_str());
    disposition.append("\"");
    head.set("content-disposition", disposition.as_str());
    assert(at_most(head@, 6));
    // Every response here is user-controlled content, so it always gets the sniffing and referrer
    // protections. Only the sandbox policy is specific to the isolated origin.
    insert_file_security_headers(&mut head, isolated_file_host);
    assert(at_most(head@, 10));
    insert_cache_control(&mut head, settings.delivery.public_cache_seconds, scope);
    head
}

/// With an isolated file origin, the bytes of a file are served on exactly one of the two origins:
/// that which its links point to.
pub proof fn links_point_to_the_origin_that_serves(
    server: &ServerConfig,
    settings: &RuntimeSettings,
    file: &FileItem,
    isolated_file_host: bool,
)
    requires
        settings.delivery.isolated_file_origin,
    ensures
        origin_check(
            true,
            isolated_file_host,
            needs_app_origin(settings.policy.view_item, file.visibility@),
        ) is Ok <==> isolated_file_host == !needs_app_origin(
            settings.policy.view_item,
            file.visibility@,
        ),
        origin_of_file(server, settings, file) == if needs_app_origin(
            settings.policy.view_item,
            file.visibility@,
        ) {
            app_base(server.public_base_url@)
        } else {
            file_base(
                server.public_base_url@,
                opt_string_view(settings.delivery.public_file_base_url),
            )
        },
{
}

/// A caller who may not see a file that was taken down is answered as if there were none.
pub proof fn hidden_files_look_missing(
    settings: &RuntimeSettings,
    slug_is_one: bool,
    isolated_file_host: bool,
    user: Option<&User>,
    file: FileItem,
)
    requires
        !may_view_file(settings, user, &file),
    ensures
        slug_answer(settings, slug_is_one, isolated_file_host, user, FileLookup::TakenDown(file))
            == slug_answer(
            settings,
            slug_is_one,
            isolated_file_host,
            user,
            FileLookup::Missing,
        ),
{
}

/// No file is shown or served to a caller who may not see it, and none whose bytes need a session
/// is served through the isolated host.
pub proof fn only_who_may_see_a_file_gets_it(
    settings: &RuntimeSettings,
    slug_is_one: bool,
    isolated_file_host: bool,
    user: Option<&User>,
    file: FileItem,
)
    ensures
        slug_answer(
            settings,
            slug_is_one,
            isolated_file_host,
            user,
            FileLookup::Active(file),
        ) is Ok ==> may_view_file(settings, user, &file),
        raw_answer(settings, isolated_file_host, user, Some(&file)) is Ok ==> may_view_file(
            settings,
            user,
            &file,
        ),
        settings.delivery.isolated_file_origin && isolated_file_host && raw_answer(
            settings,
            isolated_file_host,
            user,
            Some(&file),
        ) is Ok ==> !needs_app_origin(settings.policy.view_item, file.visibility@),
{
}

/// What a shared cache may keep is what an anonymous caller may see.
pub proof fn only_what_anyone_may_see_is_cached(
    settings: &RuntimeSettings,
    isolated_file_host: bool,
    user: Option<&User>,
    file: FileItem,
)
    requires
        raw_answer(settings, isolated_file_host, user, Some(&file)) == Ok::<CacheScope, ErrorView>(
            CacheScope::Public,
        ),
    ensures
        may_view_file(settings, None, &file),
{
}

/// An internal link that was made here is good until it expires, and no longer.
pub proof fn internal_links_are_good_until_they_expire(
    settings: &RuntimeSettings,
    public_id: Seq<char>,
    made: i64,
    now: i64,
)
    requires
        internal_secret(settings) is Some,
        internal_link_expiry(settings, made) <= i64::MAX,
    ensures
        ({
            let expires = internal_link_expiry(settings, made) as i64;
            let signed = signature(internal_secret(settings)->0, public_id, expires);
            internal_access(internal_secret(settings), public_id, expires, signed, now) == if now
                <= expires {
                Ok::<(), ErrorView>(())
            } else {
                Err(ErrorView::Forbidden)
            }
        }),
        made < internal_link_expiry(settings, made),
{
}

/// Whatever a file is called, the name in its disposition holds no quote that could end it early.
pub proof fn names_cannot_leave_their_quotes(name: Seq<char>)
    ensures
        !unquoted(name).contains('"'),
    decreases name.len(),
{
    if name.len() > 0 {
        names_cannot_leave_their_quotes(name.drop_last());
        let front = unquoted(name.drop_last());
        assert forall|i: int| 0 <= i < unquoted(name).len() implies unquoted(name)[i] != '"' by {
            if i < front.len() {
                assert(unquoted(name)[i] == front[i]);
                assert(front.contains(front[i]));
            }
        }
    }
}

/// A name without quotes is kept as it is.
pub proof fn plain_names_are_kept(name: Seq<char>)
    requires
        !name.contains('"'),
    ensures
        unquoted(name) == name,
    decreases name.len(),
{
    if name.len() > 0 {
        assert(name.contains(name.last()));
        assert forall|c: char| #[trigger] name.drop_last().contains(c) implies name.contains(c) by {
            let i = choose|i: int| 0 <= i < name.drop_last().len() && name.drop_last()[i] == c;
            assert(name[i] == c);
        }
        plain_names_are_kept(name.drop_last());
        assert(name.drop_last().push(name.last()) =~= name);
    }
}

/// Every response with bytes of a file forbids guessing at its type, and one on the isolated host
/// confines what the file can do.
pub proof fn every_file_is_served_with_its_protections(
    settings: &RuntimeSettings,
    isolated_file_host: bool,
    file: &FileItem,
    scope: CacheScope,
    part: BlobPart,
)
    ensures
        ({
            let headers = file_headers(settings, isolated_file_host, file, scope, part);
            &&& headers.contains_key("x-content-type-options"@)
            &&& headers["x-content-type-options"@] == seq![encode_utf8("nosniff"@)]
            &&& isolated_file_host ==> headers.contains_key("content-security-policy"@)
                && headers["content-security-policy"@] == seq![encode_utf8(sandbox_policy())]
        }),
{
    reveal_strlit("x-content-type-options");
    reveal_strlit("referrer-policy");
    reveal_strlit("cross-origin-resource-policy");
    reveal_strlit("content-security-policy");
    reveal_strlit("cache-control");
    let a = "x-content-type-options"@;
    let d = "content-security-policy"@;
    assert(a.len() == 22 && d.len() == 23);
    assert("referrer-policy"@.len() == 15);
    assert("cross-origin-resource-policy"@.len() == 28);
    assert("cache-control"@.len() == 13);
}

/// A response says that it is partial exactly where it says which bytes it carries.
pub proof fn partial_responses_say_which_bytes(
    settings: &RuntimeSettings,
    isolated_file_host: bool,
    file: &FileItem,
    scope: CacheScope,
    part: BlobPart,
)
    ensures
        file_headers(settings, isolated_file_host, file, scope, part).contains_key(
            "content-range"@,
        ) <==> part.partial(),
{
    reveal_strlit("content-range");
    reveal_strlit("accept-ranges");
    reveal_strlit("content-length");
    reveal_strlit("content-type");
    reveal_strlit("content-disposition");
    reveal_strlit("x-content-type-options");
    reveal_strlit("referrer-policy");
    reveal_strlit("cross-origin-resource-policy");
    reveal_strlit("content-security-policy");
    reveal_strlit("cache-control");
    let r = "content-range"@;
    assert(r.len() == 13 && r[0] == 'c' && r[1] == 'o');
    assert("accept-ranges"@[0] == 'a');
    assert("cache-control"@[1] == 'a');
    assert("content-length"@.len() == 14);
    assert("content-type"@.len() == 12);
    assert("content-disposition"@.len() == 19);
    assert("x-content-type-options"@.len() == 22);
    assert("referrer-policy"@.len() == 15);
    assert("cross-origin-resource-policy"@.len() == 28);
    assert("content-security-policy"@.len() == 23);
}

/// Uploads follow the rule for uploads, whatever the other rules say: nobody may upload under a rule
/// that is switched off, everybody under one for everybody, and under one for accounts whoever is
/// signed in.
pub proof fn uploads_follow_their_own_rule(settings: &RuntimeSettings, role: Role)
    ensures
        settings.policy.upload_file == ActionRule::Disabled ==> upload_check(settings, Some(role))
            is Err && upload_check(settings, None) is Err,
        settings.policy.upload_file == ActionRule::Anonymous ==> upload_check(settings, Some(role))
            is Ok && upload_check(settings, None) is Ok,
        settings.policy.upload_file == ActionRule::Authenticated ==> upload_check(
            settings,
            Some(role),
        ) is Ok && upload_check(settings, None) is Err,
        settings.policy.upload_file == ActionRule::Moderator ==> (upload_check(settings, Some(role))
            is Ok <==> role != Role::User),
        settings.policy.upload_file == ActionRule::Admin ==> (upload_check(settings, Some(role))
            is Ok <==> role == Role::Admin || role == Role::Owner),
        settings.policy.upload_file == ActionRule::Owner ==> (upload_check(settings, Some(role))
            is Ok <==> role == Role::Owner),
        upload_check(settings, Some(role)) matches Err(e) ==> e == ErrorView::Forbidden,
{
}

/// A form gets the expiry and the visibility that it was granted, each unchanged, where it was
/// granted both, and is told of the first that it was not.
pub proof fn terms_are_granted_together(
    expires_at: Option<i64>,
    visibility: Seq<char>,
    e: ErrorView,
    other: ErrorView,
    any: Result<Seq<char>, ErrorView>,
)
    ensures
        terms_of(Ok(expires_at), Ok(visibility)) == Ok::<(Option<i64>, Seq<char>), ErrorView>(
            (expires_at, visibility),
        ),
        terms_of(Err(e), any) == Err::<(Option<i64>, Seq<char>), ErrorView>(e),
        terms_of(Ok(expires_at), Err(other)) == Err::<(Option<i64>, Seq<char>), ErrorView>(other),
{
}

/// Two bounds stand for the bytes from the one to the other, both of them counted, where the file
/// holds them all; an open end reaches to the last byte, an open start from the first. Bytes that
/// the file does not hold are not served, and neither are none.
pub proof fn bounds_stand_for_the_bytes_between_them(first: u64, last: u64, total_len: u64)
    ensures
        bytes_between(RangeBound::Included(first), RangeBound::Included(last), total_len) == if first
            <= last && last < total_len {
            Some((first as int, last + 1))
        } else {
            None
        },
        bytes_between(RangeBound::Included(first), RangeBound::Unbounded, total_len) == if first
            < total_len {
            Some((first as int, total_len as int))
        } else {
            None
        },
        bytes_between(RangeBound::Unbounded, RangeBound::Unbounded, total_len) == if 0 < total_len {
            Some((0int, total_len as int))
        } else {
            None
        },
        first < last ==> bytes_between(
            RangeBound::Excluded(first),
            RangeBound::Included(last),
            total_len,
        ) == bytes_between(
            RangeBound::Included((first + 1) as u64),
            RangeBound::Included(last),
            total_len,
        ),
        0 < last ==> bytes_between(
            RangeBound::Included(first),
            RangeBound::Excluded(last),
            total_len,
        ) == bytes_between(
            RangeBound::Included(first),
            RangeBound::Included((last - 1) as u64),
            total_len,
        ),
{
}

/// Of several ranges the first that can be served is, whatever follows it; one that cannot be served
/// is passed over.
pub proof fn the_first_range_that_can_be_is_served(
    start: RangeBound,
    end: RangeBound,
    rest: Seq<(RangeBound, RangeBound)>,
    total_len: u64,
)
    ensures
        first_within(seq![(start, end)] + rest, total_len) == match bytes_between(
            start,
            end,
            total_len,
        ) {
            Some(range) => Some(range),
            None => first_within(rest, total_len),
        },
        first_within(Seq::empty(), total_len) is None,
{
    assert((seq![(start, end)] + rest).drop_first() =~= rest);
}

/// Without a range header the whole file is served. One that asks for bytes of the file is served
/// those, and one that asks for bytes that are not there is answered with the status for that, the
/// number of bytes that are, and none of them.
pub proof fn requests_are_served_what_they_ask_for(first: u64, last: u64, total_len: u64)
    requires
        first <= last,
    ensures
        served_part(None, total_len) == RangeStepView::Whole,
        ({
            let text = "bytes="@ + (decimal(first as nat) + seq!['-'] + decimal(last as nat));
            let step = served_part(Some(text), total_len);
            &&& last < total_len ==> step == RangeStepView::Part(first as int, last + 1)
            &&& last >= total_len ==> (step matches RangeStepView::Unsatisfiable(status, headers)
                && status == 416 && headers["content-range"@] == seq![
                encode_utf8("bytes */"@ + decimal(total_len as nat)),
            ])
        }),
{
    lemma_bound_reads_back(first);
    lemma_bound_reads_back(last);
    lemma_one_range(decimal(first as nat), decimal(last as nat), total_len);
    let asked = seq![(RangeBound::Included(first), RangeBound::Included(last))];
    let nothing = Seq::<(RangeBound, RangeBound)>::empty();
    the_first_range_that_can_be_is_served(asked[0].0, asked[0].1, nothing, total_len);
    assert(seq![(asked[0].0, asked[0].1)] + nothing =~= asked);
    let s = decimal(first as nat) + seq!['-'] + decimal(last as nat);
    assert(range_value(s, total_len) == Some(asked[0]));
    assert(satisfiable("bytes="@ + s, total_len) =~= asked);
}

/// A range header that asks for bytes is taken as it stands; one that asks for anything else, and
/// none at all, asks for the whole file.
pub proof fn only_bytes_are_asked_for(headers: Map<Seq<char>, Seq<Seq<u8>>>, text: Seq<char>)
    ensures
        header_line(headers, "range"@) is None ==> range_asked(headers) is None,
        header_line(headers, "range"@) == Some("bytes="@ + text) ==> range_asked(headers) == Some(
            "bytes="@ + text,
        ),
        header_line(headers, "range"@) == Some(text) && (text.len() < 6 || text.take(6)
            != "bytes="@) ==> range_asked(headers) is None,
{
    reveal_strlit("bytes=");
    a_prefix_is_what_stands_in_front("bytes="@, text, Seq::empty());
}

/// Data is asked for by a header that names its type anywhere, and by nothing else.
pub proof fn data_is_asked_for_by_its_type(
    headers: Map<Seq<char>, Seq<Seq<u8>>>,
    before: Seq<char>,
    behind: Seq<char>,
)
    ensures
        header_line(headers, "accept"@) is None ==> !asks_for_json(headers),
        header_line(headers, "accept"@) == Some(before + "application/json"@ + behind)
            ==> asks_for_json(headers),
        header_line(headers, "accept"@) == Some("text/html"@) ==> !asks_for_json(headers),
{
    a_prefix_is_what_stands_in_front("application/json"@, before, behind);
    reveal_strlit("text/html");
    reveal_strlit("application/json");
    assert forall|i: int| 0 <= i <= "text/html"@.len() implies !#[trigger] has_prefix(
        "text/html"@.skip(i),
        "application/json"@,
    ) by {
        assert("text/html"@.skip(i).len() < "application/json"@.len());
    }
}

/// A file that is fetched from the web is named after what stands behind the last slash of the path,
/// and has no name where nothing does; it is not fetched from anywhere else.
pub proof fn fetched_files_are_named_after_their_path(url: UrlView, front: Seq<char>, name: Seq<char>)
    requires
        name.len() > 0,
        !name.contains('/'),
    ensures
        url.scheme == "http"@ || url.scheme == "https"@ ==> {
            &&& url.path == seq!['/'] + name ==> fetched_name(Ok(url)) == Ok::<
                Option<Seq<char>>,
                ErrorView,
            >(Some(name))
            &&& url.path == seq!['/'] + front + seq!['/'] + name ==> fetched_name(Ok(url)) == Ok::<
                Option<Seq<char>>,
                ErrorView,
            >(Some(name))
            &&& url.path == seq!['/'] + front + seq!['/'] ==> fetched_name(Ok(url)) == Ok::<
                Option<Seq<char>>,
                ErrorView,
            >(None)
            &&& url.path == seq!['/'] ==> fetched_name(Ok(url)) == Ok::<
                Option<Seq<char>>,
                ErrorView,
            >(None)
        },
        url.scheme == "http"@ && (url.path.len() == 0 || url.path[0] != '/') ==> fetched_name(
            Ok(url),
        ) == Ok::<Option<Seq<char>>, ErrorView>(None),
        url.scheme != "http"@ && url.scheme != "https"@ ==> (fetched_name(Ok(url)) matches Err(e)
            && e is BadRequest),
{
    if url.path.len() > 0 {
        assert(url.path.take(1)[0] == url.path[0]);
    }
    reveal_strlit("/");
    let plain = seq!['/'] + name;
    assert(plain.take(1) =~= "/"@);
    assert(plain.skip(1) =~= name);
    lemma_split_whole(name, '/');
    let nested = seq!['/'] + front + seq!['/'] + name;
    assert(nested.take(1) =~= "/"@);
    assert(nested.skip(1) =~= front + seq!['/'] + name);
    lemma_split_append(front, name, '/');
    let ended = seq!['/'] + front + seq!['/'];
    assert(ended.take(1) =~= "/"@);
    assert(ended.skip(1) =~= front + seq!['/'] + Seq::empty());
    assert(!Seq::<char>::empty().contains('/'));
    lemma_split_append(front, Seq::empty(), '/');
    let root = seq!['/'];
    assert(root.take(1) =~= "/"@);
    assert(root.skip(1) =~= Seq::<char>::empty());
    lemma_split_whole(Seq::empty(), '/');
}

/// Where files have no origin of their own, every origin serves every file; where they have one, what
/// anyone may see is served there alone and all else on the application's origin alone.
pub proof fn each_file_is_served_on_its_own_origin(
    settings: &RuntimeSettings,
    isolated_file_host: bool,
    file: &FileItem,
)
    ensures
        ({
            let check = origin_check(
                settings.delivery.isolated_file_origin,
                isolated_file_host,
                needs_app_origin(settings.policy.view_item, file.visibility@),
            );
            let anyone = may_view_file(settings, None, file);
            &&& !settings.delivery.isolated_file_origin ==> check is Ok
            &&& settings.delivery.isolated_file_origin ==> (check is Ok <==> anyone
                == isolated_file_host)
            &&& check matches Err(e) ==> e == ErrorView::NotFound
        }),
{
    what_anyone_may_see_needs_no_session(
        settings.policy.view_item,
        opt_string_view(file.owner_user_id),
        file.visibility@,
    );
}

/// Every caller who may see a file gets it from the origin that serves it: its page where there are
/// pages, its bytes otherwise, to be kept by any cache exactly where anyone may see it. A caller who
/// may not see it is turned down, and where there is no file there is none for anyone.
pub proof fn who_may_see_a_file_gets_it(
    settings: &RuntimeSettings,
    isolated_file_host: bool,
    user: Option<&User>,
    file: FileItem,
)
    requires
        settings.delivery.isolated_file_origin ==> isolated_file_host == may_view_file(
            settings,
            None,
            &file,
        ),
    ensures
        ({
            let scope = if may_view_file(settings, None, &file) {
                CacheScope::Public
            } else {
                CacheScope::Private
            };
            let raw = raw_answer(settings, isolated_file_host, user, Some(&file));
            let found = slug_answer(
                settings,
                true,
                isolated_file_host,
                user,
                FileLookup::Active(file),
            );
            &&& may_view_file(settings, user, &file) ==> raw == Ok::<CacheScope, ErrorView>(scope)
            &&& !may_view_file(settings, user, &file) ==> raw == Err::<CacheScope, ErrorView>(
                ErrorView::Forbidden,
            )
            &&& !settings.features.preview_pages ==> found == match raw {
                Ok(scope) => Ok::<FileActionView, ErrorView>(FileActionView::Serve(scope)),
                Err(e) => Err(e),
            }
            &&& settings.features.preview_pages && !isolated_file_host ==> found
                == if may_view_file(settings, user, &file) {
                Ok::<FileActionView, ErrorView>(FileActionView::Preview)
            } else {
                Err(ErrorView::Forbidden)
            }
        }),
        raw_answer(settings, isolated_file_host, user, None) == Err::<CacheScope, ErrorView>(
            ErrorView::NotFound,
        ),
        slug_answer(settings, true, isolated_file_host, user, FileLookup::Missing) == Err::<
            FileActionView,
            ErrorView,
        >(ErrorView::NotFound),
        slug_answer(settings, false, isolated_file_host, user, FileLookup::Active(file)) == Err::<
            FileActionView,
            ErrorView,
        >(ErrorView::NotFound),
{
    what_anyone_may_see_needs_no_session(
        settings.policy.view_item,
        opt_string_view(file.owner_user_id),
        file.visibility@,
    );
}

/// A file that was taken down is shown to nobody; who might have seen it is told its state, and no
/// page is shown on the host for files.
pub proof fn taken_down_files_tell_their_state(
    settings: &RuntimeSettings,
    user: Option<&User>,
    file: FileItem,
    lookup: FileLookup,
)
    ensures
        may_view_file(settings, user, &file) ==> slug_answer(
            settings,
            true,
            false,
            user,
            FileLookup::TakenDown(file),
        ) == Ok::<FileActionView, ErrorView>(FileActionView::Unavailable(file.state@)),
        settings.features.preview_pages ==> slug_answer(settings, true, true, user, lookup) == Err::<
            FileActionView,
            ErrorView,
        >(ErrorView::NotFound),
{
}

/// A thumbnail is had exactly by whom the file is, where one is recorded: the recorded one, to be
/// kept just as the file may be.
pub proof fn thumbnails_go_with_their_files(
    settings: &RuntimeSettings,
    isolated_file_host: bool,
    user: Option<&User>,
    file: FileItem,
)
    ensures
        ({
            let raw = raw_answer(settings, isolated_file_host, user, Some(&file));
            let thumbnail = thumbnail_answer(settings, isolated_file_host, user, Some(&file));
            &&& raw matches Err(e) ==> thumbnail == Err::<(Seq<char>, CacheScope), ErrorView>(e)
            &&& raw matches Ok(scope) ==> (file.thumbnail_hash matches Some(hash) ==> thumbnail
                == Ok::<(Seq<char>, CacheScope), ErrorView>((hash@, scope)))
            &&& raw is Ok && file.thumbnail_hash is None ==> thumbnail == Err::<
                (Seq<char>, CacheScope),
                ErrorView,
            >(ErrorView::NotFound)
        }),
        thumbnail_answer(settings, isolated_file_host, user, None) == Err::<
            (Seq<char>, CacheScope),
            ErrorView,
        >(ErrorView::NotFound),
{
}

/// An internal link opens the file and the moment that it was signed for, until that moment, and
/// nothing else; where such links are not in use none opens anything.
pub proof fn internal_links_open_what_they_were_signed_for(
    secret: Seq<char>,
    public_id: Seq<char>,
    expires: i64,
    submitted: Seq<char>,
    now: i64,
)
    ensures
        internal_access(Some(secret), public_id, expires, submitted, now) is Ok <==> now <= expires
            && submitted == signature(secret, public_id, expires),
        internal_access(Some(secret), public_id, expires, submitted, now) matches Err(e) ==> e
            == ErrorView::Forbidden,
        internal_access(None, public_id, expires, submitted, now) == Err::<(), ErrorView>(
            ErrorView::NotFound,
        ),
{
}

/// Pages show as images just what thumbnails are made of, and as text whatever calls itself text; no
/// image is text. What is read for a page is text of at most 128 KiB.
pub proof fn pages_show_images_and_text(
    content_type: Seq<char>,
    subtype: Seq<char>,
    size_bytes: i64,
)
    ensures
        shown_as_image(content_type) <==> thumbnail_format(content_type) is Some,
        shown_as_text("text/"@ + subtype),
        shown_as_text("application/json"@),
        !(shown_as_image(content_type) && shown_as_text(content_type)),
        reads_text(Some("text/"@ + subtype), size_bytes) <==> size_bytes <= 131072,
        !shown_as_text(content_type) ==> !reads_text(Some(content_type), size_bytes),
        !reads_text(None, size_bytes),
{
    a_prefix_is_what_stands_in_front("text/"@, subtype, Seq::empty());
    reveal_strlit("");
    reveal_strlit("text/");
    reveal_strlit("image/png");
    reveal_strlit("image/gif");
    reveal_strlit("image/jpeg");
    reveal_strlit("application/json");
    reveal_strlit("application/xml");
    reveal_strlit("application/javascript");
    assert("image/png"@[0] == 'i' && "image/gif"@[0] == 'i' && "image/jpeg"@[0] == 'i');
    assert("application/json"@[0] == 'a' && "application/xml"@[0] == 'a');
    assert("application/javascript"@[0] == 'a');
    assert("application/json"@.len() == 16 && "application/xml"@.len() == 15);
    assert("application/javascript"@.len() == 22);
    if has_prefix(content_type, "text/"@) {
        assert(content_type.take(5)[0] == content_type[0]);
        assert("text/"@[0] == 't');
    }
}

/// The beginning of a text is all of it up to 8000 characters, and the first 8000 of a longer one.
pub proof fn a_text_is_shown_from_its_beginning(text: Seq<char>, more: Seq<char>)
    ensures
        text.len() <= 8000 ==> first_chars(text) == text,
        text.len() == 8000 ==> first_chars(text + more) == text,
{
    assert((text + more).take(text.len() as int) =~= text);
    if more.len() == 0 {
        assert(text + more =~= text);
    }
}

/// A type is handled with care where it is on the list, in whatever case it is written there or
/// here, and no other type is.
pub proof fn listed_types_are_handled_with_care(
    types: Seq<String>,
    i: int,
    content_type: Seq<char>,
    other: Seq<char>,
)
    requires
        0 <= i < types.len(),
    ensures
        is_listed_type(types, types[i]@),
        lowercase(content_type) == lowercase(other) ==> is_listed_type(types, content_type)
            == is_listed_type(types, other),
        !is_listed_type(Seq::empty(), content_type),
        (forall|j: int|
            0 <= j < types.len() ==> lowercase(#[trigger] types[j]@) != lowercase(content_type))
            ==> !is_listed_type(types, content_type),
{
    assert(lowercase(types[i]@) == lowercase(types[i]@));
    if lowercase(content_type) == lowercase(other) {
        if is_listed_type(types, content_type) {
            let j = choose|j: int|
                0 <= j < types.len() && lowercase(#[trigger] types[j]@) == lowercase(content_type);
            assert(lowercase(types[j]@) == lowercase(other));
        }
        if is_listed_type(types, other) {
            let j = choose|j: int|
                0 <= j < types.len() && lowercase(#[trigger] types[j]@) == lowercase(other);
            assert(lowercase(types[j]@) == lowercase(content_type));
        }
    }
}

/// A file of a risky type is shown in the browser only as plain text or on the host for files, and
/// only where that is configured; other files are shown or saved as configured.
pub proof fn risky_files_are_not_shown_on_the_application(
    settings: &RuntimeSettings,
    isolated_file_host: bool,
    content_type: Seq<char>,
)
    ensures
        ({
            let mode = settings.security.content_policy.risky_mime_mode;
            let risky = is_listed_type(
                settings.security.content_policy.forced_attachment_mime_types@,
                content_type,
            );
            &&& mode == RiskyMimeMode::Attachment ==> disposition_of(
                settings,
                true,
                isolated_file_host,
            ) == "attachment"@
            &&& mode == RiskyMimeMode::InlineOnIsolatedOrigin ==> disposition_of(
                settings,
                true,
                isolated_file_host,
            ) == if isolated_file_host {
                "inline"@
            } else {
                "attachment"@
            }
            &&& mode == RiskyMimeMode::Plaintext ==> disposition_of(
                settings,
                true,
                isolated_file_host,
            ) == "inline"@
            &&& mode == RiskyMimeMode::Plaintext && risky ==> served_type(
                settings,
                Some(content_type),
            ) == "text/plain; charset=utf-8"@
            &&& disposition_of(settings, false, isolated_file_host)
                == if settings.security.content_disposition == ContentDispositionMode::Inline {
                "inline"@
            } else {
                "attachment"@
            }
            &&& !(risky && mode == RiskyMimeMode::Plaintext) && is_header_text(content_type)
                ==> served_type(settings, Some(content_type)) == content_type
            &&& !(risky && mode == RiskyMimeMode::Plaintext) && !is_header_text(content_type)
                ==> served_type(settings, Some(content_type)) == "application/octet-stream"@
        }),
{
}

/// The quotes alone are taken out of a name: what stands between them stays, in its order.
pub proof fn only_quotes_are_taken_out_of_names(front: Seq<char>, back: Seq<char>)
    ensures
        unquoted(front + seq!['"'] + back) == unquoted(front) + unquoted(back),
        unquoted(front + back) == unquoted(front) + unquoted(back),
    decreases back.len(),
{
    let quoted = front + seq!['"'];
    if back.len() == 0 {
        assert(front + back =~= front);
        assert(quoted + back =~= quoted);
        assert(quoted.drop_last() =~= front);
        assert(unquoted(front) + unquoted(back) =~= unquoted(front));
    } else {
        only_quotes_are_taken_out_of_names(front, back.drop_last());
        assert((front + back).drop_last() =~= front + back.drop_last());
        assert((quoted + back).drop_last() =~= quoted + back.drop_last());
        assert((front + back).last() == back.last() && (quoted + back).last() == back.last());
        assert(unquoted(front + back) =~= unquoted(front) + unquoted(back));
        assert(unquoted(quoted + back) =~= unquoted(front) + unquoted(back));
    }
}

/// The names of the headers of a response with a file are different texts.
proof fn lemma_header_names_differ()
    ensures
        "content-range"@.len() == 13 && "content-range"@[0] == 'c' && "content-range"@[1] == 'o',
        "cache-control"@.len() == 13 && "cache-control"@[0] == 'c' && "cache-control"@[1] == 'a',
        "accept-ranges"@.len() == 13 && "accept-ranges"@[0] == 'a',
        "content-length"@.len() == 14,
        "content-type"@.len() == 12,
        "content-disposition"@.len() == 19,
        "x-content-type-options"@.len() == 22,
        "referrer-policy"@.len() == 15,
        "cross-origin-resource-policy"@.len() == 28,
        "content-security-policy"@.len() == 23,
{
    reveal_strlit("content-range");
    reveal_strlit("cache-control");
    reveal_strlit("accept-ranges");
    reveal_strlit("content-length");
    reveal_strlit("content-type");
    reveal_strlit("content-disposition");
    reveal_strlit("x-content-type-options");
    reveal_strlit("referrer-policy");
    reveal_strlit("cross-origin-resource-policy");
    reveal_strlit("content-security-policy");
}

/// A response with bytes of a file says how many it carries and, where they are not all, which; of
/// what type they are, how they are to be handled and under which name; and who may keep them.
pub proof fn a_response_describes_the_bytes_it_carries(
    settings: &RuntimeSettings,
    isolated_file_host: bool,
    file: &FileItem,
    scope: CacheScope,
    part: BlobPart,
)
    requires
        part.start < part.end,
    ensures
        ({
            let headers = file_headers(settings, isolated_file_host, file, scope, part);
            let listed = settings.security.content_policy.forced_attachment_mime_types@;
            let stored = match file.content_type {
                Some(content_type) => content_type@,
                None => "application/octet-stream"@,
            };
            let name = match file.original_filename {
                Some(name) => name@,
                None => file.public_id@,
            };
            let disposition = disposition_of(
                settings,
                is_listed_type(listed, stored),
                isolated_file_host,
            ) + "; filename=\""@ + unquoted(name) + "\""@;
            &&& headers["content-length"@] == seq![
                encode_utf8(decimal((part.end - part.start) as nat)),
            ]
            &&& headers["accept-ranges"@] == seq![encode_utf8("bytes"@)]
            &&& part.start > 0 || part.end < part.size ==> headers["content-range"@] == seq![
                encode_utf8(
                    "bytes "@ + decimal(part.start as nat) + "-"@ + decimal((part.end - 1) as nat)
                        + "/"@ + decimal(part.size as nat),
                ),
            ]
            &&& headers["content-type"@] == seq![
                encode_utf8(served_type(settings, Some(stored))),
            ]
            &&& is_header_text(disposition) ==> headers["content-disposition"@] == seq![
                encode_utf8(disposition),
            ]
            &&& headers["cache-control"@] == seq![
                encode_utf8(cache_control(settings.delivery.public_cache_seconds, scope)),
            ]
            &&& headers["referrer-policy"@] == seq![encode_utf8("no-referrer"@)]
            &&& headers["cross-origin-resource-policy"@] == seq![encode_utf8("cross-origin"@)]
        }),
{
    lemma_header_names_differ();
}

/// A response with a thumbnail calls it a PNG image and has the protections of any other response
/// with a file.
pub proof fn a_thumbnail_is_served_with_its_protections(
    settings: &RuntimeSettings,
    isolated_file_host: bool,
    scope: CacheScope,
)
    ensures
        ({
            let headers = thumbnail_headers(settings, isolated_file_host, scope);
            &&& headers["content-type"@] == seq![encode_utf8("image/png"@)]
            &&& headers["x-content-type-options"@] == seq![encode_utf8("nosniff"@)]
            &&& headers["referrer-policy"@] == seq![encode_utf8("no-referrer"@)]
            &&& isolated_file_host ==> headers["content-security-policy"@] == seq![
                encode_utf8(sandbox_policy()),
            ]
            &&& headers["cache-control"@] == seq![
                encode_utf8(cache_control(settings.delivery.public_cache_seconds, scope)),
            ]
        }),
{
    lemma_header_names_differ();
}

/// A form whose expiry and visibility are both asked for is granted just those: the second that its
/// own text was read as, whatever the default, and the visibility that it names.
pub proof fn granted_terms_are_those_asked_for<
    F: Fn(Option<&str>) -> Result<Option<i64>, String>,
>(
    settings: &RuntimeSettings,
    kind: Seq<char>,
    signed_in: bool,
    asked: Seq<char>,
    default_expires: Option<Seq<char>>,
    visibility: Seq<char>,
    parse_expiry: F,
    now: i64,
    expires_at: Option<i64>,
    granted: Seq<char>,
)
    requires
        exists|i: int| 0 <= i < asked.len() && !is_white_space(#[trigger] asked[i]),
        exists|i: int| 0 <= i < visibility.len() && !is_white_space(#[trigger] visibility[i]),
        terms_answer(
            settings,
            kind,
            signed_in,
            Some(asked),
            default_expires,
            Some(visibility),
            parse_expiry,
            now,
            Ok((expires_at, granted)),
        ),
    ensures
        granted == trimmed(visibility),
        exists|t: &str|
            #![trigger t@]
            t@ == trimmed(asked) && call_ensures(parse_expiry, (Some(t),), Ok(expires_at)),
{
    let answer = choose|answer: Result<Option<i64>, ErrorView>|
        {
            &&& #[trigger] expiry_answer(
                settings,
                kind,
                signed_in,
                Some(asked),
                default_expires,
                parse_expiry,
                now,
                answer,
            )
            &&& Ok::<(Option<i64>, Seq<char>), ErrorView>((expires_at, granted)) == terms_of(
                answer,
                visibility_value(settings.features.public_browse, Some(visibility)),
            )
        };
    assert(answer == Ok::<Option<i64>, ErrorView>(expires_at));
    a_granted_expiry_is_the_one_asked_for(
        settings,
        kind,
        signed_in,
        asked,
        default_expires,
        parse_expiry,
        now,
        expires_at,
    );
    items_get_the_visibility_asked_for(settings.features.public_browse, visibility, Seq::empty());
}

/// A response with all bytes of a file is a plain one, and one with fewer says that it is partial.
pub proof fn only_partial_responses_are_called_so(
    settings: &RuntimeSettings,
    isolated_file_host: bool,
    file: &FileItem,
    scope: CacheScope,
    part: BlobPart,
)
    ensures
        part.start == 0 && part.end == part.size ==> part.status() == 200 && !file_headers(
            settings,
            isolated_file_host,
            file,
            scope,
            part,
        ).contains_key("content-range"@),
        part.start > 0 || part.end < part.size ==> part.status() == 206 && file_headers(
            settings,
            isolated_file_host,
            file,
            scope,
            part,
        ).contains_key("content-range"@),
{
    partial_responses_say_which_bytes(settings, isolated_file_host, file, scope, part);
}

/// An origin that does not serve a file answers as if there were none, whoever asks.
pub proof fn the_other_origin_knows_of_no_file(
    settings: &RuntimeSettings,
    isolated_file_host: bool,
    user: Option<&User>,
    file: FileItem,
)
    requires
        settings.delivery.isolated_file_origin,
        isolated_file_host != may_view_file(settings, None, &file),
    ensures
        raw_answer(settings, isolated_file_host, user, Some(&file)) == Err::<CacheScope, ErrorView>(
            ErrorView::NotFound,
        ),
        !settings.features.preview_pages ==> slug_answer(
            settings,
            true,
            isolated_file_host,
            user,
            FileLookup::Active(file),
        ) == Err::<FileActionView, ErrorView>(ErrorView::NotFound),
{
    what_anyone_may_see_needs_no_session(
        settings.policy.view_item,
        opt_string_view(file.owner_user_id),
        file.visibility@,
    );
}

} // verus!
