//! Header maps, and the head of a response.
//!
//! The header map is that of the `http` crate, as `axum` hands it on.

use axum::http::{HeaderMap, HeaderValue};
use vstd::prelude::*;
use vstd::string::*;

#[allow(unused_imports)]
use crate::text::{lemma_char_code, opt_string_view};
#[allow(unused_imports)]
use crate::number::{decimal, decimal_reads_back, is_digit};
#[allow(unused_imports)]
use vstd::utf8::{encode_utf8, is_ascii_chars, is_ascii_chars_encode_utf8};

verus! {

/// A header map of the `http` crate.
#[verifier::external_type_specification]
#[verifier::external_body]
#[verifier::reject_recursive_types(T)]
pub struct ExHeaderMap<T>(axum::http::HeaderMap<T>);

/// A header value of the `http` crate.
#[verifier::external_type_specification]
#[verifier::external_body]
pub struct ExHeaderValue(axum::http::HeaderValue);

/// The values of each header of a map, in the order in which they were added, by the name of the
/// header in small letters.
pub uninterp spec fn header_values(headers: HeaderMap) -> Map<Seq<char>, Seq<Seq<u8>>>;

/// The bytes of a header value.
pub uninterp spec fn header_bytes(value: HeaderValue) -> Seq<u8>;

/// The headers that this crate reads or sets.
pub open spec fn is_header_name(name: Seq<char>) -> bool {
    ||| name == "accept"@
    ||| name == "accept-ranges"@
    ||| name == "authorization"@
    ||| name == "cache-control"@
    ||| name == "content-disposition"@
    ||| name == "content-length"@
    ||| name == "content-range"@
    ||| name == "content-security-policy"@
    ||| name == "content-type"@
    ||| name == "cross-origin-resource-policy"@
    ||| name == "host"@
    ||| name == "hx-request"@
    ||| name == "range"@
    ||| name == "referrer-policy"@
    ||| name == "x-content-type-options"@
    ||| name == "x-forwarded-for"@
    ||| name == "x-real-ip"@
}

/// The headers of a map without any.
pub open spec fn no_headers() -> Map<Seq<char>, Seq<Seq<u8>>> {
    Map::empty()
}

/// The values of a header; none where it is not there.
pub open spec fn values_of(
    headers: Map<Seq<char>, Seq<Seq<u8>>>,
    name: Seq<char>,
) -> Seq<Seq<u8>> {
    if headers.contains_key(name) {
        headers[name]
    } else {
        Seq::empty()
    }
}

/// The first value of a header.
pub open spec fn first_of(
    headers: Map<Seq<char>, Seq<Seq<u8>>>,
    name: Seq<char>,
) -> Option<Seq<u8>> {
    if values_of(headers, name).len() > 0 {
        Some(values_of(headers, name)[0])
    } else {
        None
    }
}

/// The view of an optional row of bytes.
pub open spec fn opt_bytes(v: Option<Vec<u8>>) -> Option<Seq<u8>> {
    match v {
        Some(v) => Some(v@),
        None => None,
    }
}

/// The views of rows of bytes.
pub open spec fn byte_views(v: Seq<Vec<u8>>) -> Seq<Seq<u8>> {
    v.map_values(|b: Vec<u8>| b@)
}

/// `HeaderMap::get` gives the first value of a header.
#[verifier::external_body]
pub(crate) fn first_value(headers: &HeaderMap, name: &str) -> (r: Option<Vec<u8>>)
    requires
        is_header_name(name@),
    ensures
        opt_bytes(r) == first_of(header_values(*headers), name@),
{
    headers.get(name).map(|value| value.as_bytes().to_vec())
}

/// `HeaderMap::get_all` gives every value of a header, in the order in which they were added.
#[verifier::external_body]
pub(crate) fn all_values(headers: &HeaderMap, name: &str) -> (r: Vec<Vec<u8>>)
    requires
        is_header_name(name@),
    ensures
        byte_views(r@) == values_of(header_values(*headers), name@),
{
    headers.get_all(name).iter().map(|value| value.as_bytes().to_vec()).collect()
}

/// `HeaderMap::new` makes a map without headers.
#[verifier::external_body]
pub(crate) fn new_headers() -> (r: HeaderMap)
    ensures
        header_values(r) == no_headers(),
{
    HeaderMap::new()
}

/// Whether a byte may stand in a header value.
pub open spec fn is_header_byte(b: u8) -> bool {
    (b >= 32 && b != 127) || b == 9
}

/// Whether a text may be a header value.
pub open spec fn is_header_text(text: Seq<char>) -> bool {
    forall|i: int|
        0 <= i < encode_utf8(text).len() ==> is_header_byte(#[trigger] encode_utf8(text)[i])
}

/// `HeaderValue::from_str` takes a text whose bytes may all stand in a header value, and no other.
#[verifier::external_body]
pub(crate) fn header_value(text: &str) -> (r: Option<HeaderValue>)
    ensures
        match r {
            Some(value) => is_header_text(text@) && header_bytes(value) == encode_utf8(text@),
            None => !is_header_text(text@),
        },
{
    HeaderValue::from_str(text).ok()
}

/// `HeaderMap::insert` makes a value the only one of its header and leaves the others alone. It
/// panics where its table would outgrow 32768 places. A table grows to ten places for each header at
/// the most, so that cannot happen below the number of headers allowed here.
#[verifier::external_body]
pub(crate) fn insert_header(headers: &mut HeaderMap, name: &'static str, value: HeaderValue)
    requires
        is_header_name(name@),
        has_room(header_values(*old(headers)), 1),
    ensures
        header_values(*final(headers)) == header_values(*old(headers)).insert(
            name@,
            seq![header_bytes(value)],
        ),
{
    headers.insert(name, value);
}

/// Whether a byte is visible ASCII, a space or a tab.
pub open spec fn is_visible(b: u8) -> bool {
    (32 <= b && b < 127) || b == 9
}

/// Whether every byte is visible ASCII, a space or a tab.
pub open spec fn is_visible_text(bytes: Seq<u8>) -> bool {
    forall|i: int| 0 <= i < bytes.len() ==> is_visible(#[trigger] bytes[i])
}

/// The characters of ASCII bytes.
pub open spec fn ascii_chars(bytes: Seq<u8>) -> Seq<char> {
    bytes.map_values(|b: u8| b as char)
}

/// The text of a header value, where it has one.
pub open spec fn text_of(bytes: Seq<u8>) -> Option<Seq<char>> {
    if is_visible_text(bytes) {
        Some(ascii_chars(bytes))
    } else {
        None
    }
}

/// The text of a header value, where all of it is visible ASCII.
pub fn header_text(bytes: &[u8]) -> (r: Option<String>)
    ensures
        opt_string_view(r) == text_of(bytes@),
{
    let mut out: String = String::new();
    let mut i: usize = 0;
    while i < bytes.len()
        invariant
            i <= bytes@.len(),
            forall|j: int| 0 <= j < i ==> is_visible(#[trigger] bytes@[j]),
            out@ =~= ascii_chars(bytes@).take(i as int),
        decreases bytes@.len() - i,
    {
        let b: u8 = bytes[i];
        if !((32 <= b && b < 127) || b == 9) {
            assert(!is_visible(bytes@[i as int]));
            return None;
        }
        out.push(b as char);
        i = i + 1;
    }
    assert(ascii_chars(bytes@).take(bytes@.len() as int) =~= ascii_chars(bytes@));
    Some(out)
}

/// The text of the first value of a header, where it is there and has one.
pub open spec fn header_line(
    headers: Map<Seq<char>, Seq<Seq<u8>>>,
    name: Seq<char>,
) -> Option<Seq<char>> {
    match first_of(headers, name) {
        Some(bytes) => text_of(bytes),
        None => None,
    }
}

/// The text of the first value of a header.
pub(crate) fn header_str(headers: &HeaderMap, name: &str) -> (r: Option<String>)
    requires
        is_header_name(name@),
    ensures
        opt_string_view(r) == header_line(header_values(*headers), name@),
{
    match first_value(headers, name) {
        Some(bytes) => header_text(bytes.as_slice()),
        None => None,
    }
}

/// The status and the headers of a response.
pub struct ResponseHead {
    pub status: u16,
    pub headers: HeaderMap,
}

/// The headers of a response after one was set.
pub open spec fn with_header(
    headers: Map<Seq<char>, Seq<Seq<u8>>>,
    name: Seq<char>,
    text: Seq<char>,
) -> Map<Seq<char>, Seq<Seq<u8>>> {
    headers.insert(name, seq![encode_utf8(text)])
}

/// The headers of a response after one was set, where its text may be a header value.
pub open spec fn with_valid_header(
    headers: Map<Seq<char>, Seq<Seq<u8>>>,
    name: Seq<char>,
    text: Seq<char>,
) -> Map<Seq<char>, Seq<Seq<u8>>> {
    if is_header_text(text) {
        with_header(headers, name, text)
    } else {
        headers
    }
}

/// Whether `n` more headers can be set.
pub open spec fn has_room(headers: Map<Seq<char>, Seq<Seq<u8>>>, n: nat) -> bool {
    headers.dom().finite() && headers.len() + n <= 3276
}

/// Whether at most `n` headers are set.
pub open spec fn at_most(headers: Map<Seq<char>, Seq<Seq<u8>>>, n: nat) -> bool {
    headers.dom().finite() && headers.len() <= n
}

impl ResponseHead {
    /// The headers by their names.
    pub open spec fn view(&self) -> Map<Seq<char>, Seq<Seq<u8>>> {
        header_values(self.headers)
    }

    /// A head without headers.
    pub fn new(status: u16) -> (r: Self)
        ensures
            r.status == status,
            r@ == no_headers(),
            at_most(r@, 0),
    {
        let headers: HeaderMap = new_headers();
        assert(no_headers().dom() =~= Set::<Seq<char>>::empty());
        ResponseHead { status, headers }
    }

    /// Sets a header where its text may be a header value, and leaves the head alone otherwise.
    pub fn set(&mut self, name: &'static str, text: &str)
        requires
            is_header_name(name@),
            has_room(old(self)@, 1),
        ensures
            final(self).status == old(self).status,
            final(self)@ == with_valid_header(old(self)@, name@, text@),
            forall|n: nat| #[trigger] at_most(old(self)@, n) ==> at_most(final(self)@, n + 1),
    {
        let ghost before = self@;
        match header_value(text) {
            Some(value) => {
                insert_header(&mut self.headers, name, value);
                assert(self@.dom() =~= before.dom().insert(name@));
            },
            None => {},
        }
    }

    /// Sets a header to a visible ASCII text.
    pub fn set_visible(&mut self, name: &'static str, text: &str)
        requires
            is_header_name(name@),
            has_room(old(self)@, 1),
            is_visible_chars(text@),
        ensures
            final(self).status == old(self).status,
            final(self)@ == with_header(old(self)@, name@, text@),
            forall|n: nat| #[trigger] at_most(old(self)@, n) ==> at_most(final(self)@, n + 1),
    {
        proof {
            lemma_visible_is_header_text(text@);
        }
        self.set(name, text);
    }
}

/// Whether every character is visible ASCII or a space.
pub open spec fn is_visible_chars(s: Seq<char>) -> bool {
    forall|i: int| 0 <= i < s.len() ==> 32 <= (#[trigger] s[i]) as u32 && (s[i] as u32) < 127
}

/// A visible ASCII text may be a header value.
pub proof fn lemma_visible_is_header_text(s: Seq<char>)
    requires
        is_visible_chars(s),
    ensures
        is_header_text(s),
{
    assert forall|i: int| 0 <= i < s.len() implies '\0' <= #[trigger] s[i] <= '\u{7f}' by {
        lemma_char_code(s[i]);
    }
    assert(is_ascii_chars(s));
    is_ascii_chars_encode_utf8(s);
    assert forall|i: int| 0 <= i < encode_utf8(s).len() implies is_header_byte(
        #[trigger] encode_utf8(s)[i],
    ) by {
        assert(s[i] as u8 == encode_utf8(s)[i]);
    }
}

/// Two visible ASCII texts in a row are one.
pub proof fn lemma_visible_concat(a: Seq<char>, b: Seq<char>)
    requires
        is_visible_chars(a),
        is_visible_chars(b),
    ensures
        is_visible_chars(a + b),
{
    assert forall|i: int| 0 <= i < (a + b).len() implies 32 <= (#[trigger] (a + b)[i]) as u32 && ((a
        + b)[i] as u32) < 127 by {
        if i < a.len() {
            assert((a + b)[i] == a[i]);
        } else {
            assert((a + b)[i] == b[i - a.len()]);
        }
    }
}

/// The decimal text of a number is visible ASCII.
pub proof fn lemma_decimal_is_visible(n: nat)
    ensures
        is_visible_chars(decimal(n)),
{
    decimal_reads_back(n);
    assert forall|i: int| 0 <= i < decimal(n).len() implies 32 <= (#[trigger] decimal(n)[i]) as u32
        && (decimal(n)[i] as u32) < 127 by {
        assert(is_digit(decimal(n)[i]));
    }
}

/// A header that is set to a visible text is read as that text; one that is not there, or whose first
/// value holds anything else, is read as none.
pub proof fn a_header_is_read_as_it_was_set(
    headers: Map<Seq<char>, Seq<Seq<u8>>>,
    name: Seq<char>,
    text: Seq<char>,
    bytes: Seq<u8>,
    more: Seq<Seq<u8>>,
    i: int,
)
    requires
        is_visible_chars(text),
        0 <= i < bytes.len(),
        bytes[i] != 9 && (bytes[i] < 32 || bytes[i] > 126),
    ensures
        header_line(with_header(headers, name, text), name) == Some(text),
        !headers.contains_key(name) ==> header_line(headers, name) is None,
        header_line(headers.insert(name, seq![bytes] + more), name) is None,
        header_line(headers.insert(name, seq![encode_utf8(text)] + more), name) == Some(text),
{
    assert(is_ascii_chars(text)) by {
        assert forall|j: int| 0 <= j < text.len() implies '\0' <= #[trigger] text[j] && text[j]
            <= '\u{7f}' by {
            lemma_char_code(text[j]);
        }
    }
    is_ascii_chars_encode_utf8(text);
    let b = encode_utf8(text);
    assert forall|j: int| 0 <= j < b.len() implies is_visible(#[trigger] b[j]) && b[j] as char
        == text[j] by {
        assert(text[j] as u8 == b[j]);
        lemma_char_code(text[j]);
    }
    assert(ascii_chars(b) =~= text);
    assert(!is_visible(bytes[i]));
}

} // verus!
