//! URLs that are taken apart, and query strings that are put together.

use vstd::prelude::*;
use vstd::string::*;

use crate::text::{chars_of, find_last};
#[allow(unused_imports)]
use crate::text::{
    has_prefix, last_at, lemma_split_append, lemma_split_last, lemma_split_whole, opt_string_view,
    opt_view, split,
};
#[allow(unused_imports)]
use vstd::utf8::encode_utf8;

verus! {

/// The parts of a URL that decisions are made on.
#[derive(Debug, Clone)]
pub struct UrlParts {
    pub scheme: String,
    pub host: Option<String>,
    pub port: Option<u16>,
    pub path: String,
}

/// The parts of a URL with their texts as sequences of characters.
pub struct UrlView {
    pub scheme: Seq<char>,
    pub host: Option<Seq<char>>,
    pub port: Option<u16>,
    pub path: Seq<char>,
}

impl View for UrlParts {
    type V = UrlView;

    open spec fn view(&self) -> UrlView {
        UrlView {
            scheme: self.scheme@,
            host: opt_string_view(self.host),
            port: self.port,
            path: self.path@,
        }
    }
}

/// The parts of a URL, or the text of the error of one that cannot be read.
pub open spec fn url_result(r: Result<UrlParts, String>) -> Result<UrlView, Seq<char>> {
    match r {
        Ok(parts) => Ok(parts@),
        Err(e) => Err(e@),
    }
}

/// What `url::Url::parse` makes of a text: its scheme, its host, its port with the default of the
/// scheme, and its path; or the text of its error.
pub uninterp spec fn parsed_url(text: Seq<char>) -> Result<UrlView, Seq<char>>;

/// Calls `url::Url::parse` and hands on the parts of the URL. The result depends on the text alone.
#[verifier::external_body]
pub(crate) fn parse_url(text: &str) -> (r: Result<UrlParts, String>)
    ensures
        url_result(r) == parsed_url(text@),
{
    let url = url::Url::parse(text).map_err(|err| err.to_string())?;
    Ok(UrlParts {
        scheme: url.scheme().to_owned(),
        host: url.host_str().map(|host| host.to_owned()),
        port: url.port_or_known_default(),
        path: url.path().to_owned(),
    })
}

/// The last segment of a path: what stands behind its last slash. A path that does not begin with a
/// slash has none.
pub open spec fn last_segment(path: Seq<char>) -> Option<Seq<char>> {
    if has_prefix(path, "/"@) {
        Some(split(path.skip(1), '/').last())
    } else {
        None
    }
}

/// The last segment of a path.
pub fn last_path_segment(path: &str) -> (r: Option<&str>)
    ensures
        opt_view(r) == last_segment(path@),
{
    let cs: Vec<char> = chars_of(path);
    let n: usize = cs.len();
    proof {
        reveal_strlit("/");
        assert(has_prefix(path@, "/"@) <==> n > 0 && path@[0] == '/') by {
            if n > 0 && path@[0] == '/' {
                assert(path@.take(1) =~= "/"@);
            }
            if has_prefix(path@, "/"@) {
                assert(path@[0] == path@.take(1)[0]);
            }
        }
    }
    if n == 0 || cs[0] != '/' {
        return None;
    }
    let rest: &[char] = vstd::slice::slice_subrange(cs.as_slice(), 1, n);
    assert(rest@ =~= path@.skip(1));
    proof {
        lemma_split_last(rest@, '/');
    }
    let start: usize = match find_last(rest, '/') {
        Some(at) => at + 2,
        None => 1,
    };
    assert(path@.subrange(start as int, n as int) =~= rest@.skip(last_at(rest@, '/') + 1));
    Some(path.substring_char(start, n))
}

/// The character of a hexadecimal digit, in capitals.
pub open spec fn upper_hex(d: u8) -> char {
    if d < 10 {
        ((0x30 + d) as u8) as char
    } else {
        ((0x37 + d) as u8) as char
    }
}

/// Whether a byte stands for itself in a form.
pub open spec fn is_form_plain(b: u8) -> bool {
    ||| 0x30 <= b <= 0x39
    ||| 0x41 <= b <= 0x5a
    ||| 0x61 <= b <= 0x7a
    ||| b == 0x2a
    ||| b == 0x2d
    ||| b == 0x2e
    ||| b == 0x5f
}

/// A byte in the encoding of forms: itself, a plus sign for a space, or a percent sign and two
/// hexadecimal digits.
pub open spec fn form_byte(b: u8) -> Seq<char> {
    if is_form_plain(b) {
        seq![b as char]
    } else if b == 0x20 {
        seq!['+']
    } else {
        seq!['%', upper_hex(b / 16), upper_hex(b % 16)]
    }
}

/// Bytes in the encoding of forms.
pub open spec fn form_bytes(bytes: Seq<u8>) -> Seq<char>
    decreases bytes.len(),
{
    if bytes.len() == 0 {
        Seq::empty()
    } else {
        form_bytes(bytes.drop_last()) + form_byte(bytes.last())
    }
}

/// A text in the encoding of forms.
pub open spec fn form_text(s: Seq<char>) -> Seq<char> {
    form_bytes(encode_utf8(s))
}

/// A name and a value in the encoding of forms.
pub open spec fn form_pair(name: Seq<char>, value: Seq<char>) -> Seq<char> {
    form_text(name) + seq!['='] + form_text(value)
}

/// A query string with one more pair at its end.
pub open spec fn with_pair(query: Seq<char>, name: Seq<char>, value: Seq<char>) -> Seq<char> {
    if query.len() == 0 {
        form_pair(name, value)
    } else {
        query + seq!['&'] + form_pair(name, value)
    }
}

/// `form_urlencoded::Serializer::append_pair` puts one pair at the end of a query string, with an
/// ampersand before it where the string holds anything.
#[verifier::external_body]
pub(crate) fn append_pair(query: String, name: &str, value: &str) -> (r: String)
    ensures
        r@ == with_pair(query@, name@, value@),
{
    let mut pairs = url::form_urlencoded::Serializer::new(query);
    pairs.append_pair(name, value);
    pairs.finish()
}

/// The query string of a row of pairs.
pub open spec fn query_of(pairs: Seq<(Seq<char>, Seq<char>)>) -> Seq<char>
    decreases pairs.len(),
{
    if pairs.len() == 0 {
        Seq::empty()
    } else {
        with_pair(query_of(pairs.drop_last()), pairs.last().0, pairs.last().1)
    }
}

/// What the encoding of forms leaves out of a text.
pub open spec fn is_form_safe(c: char) -> bool {
    c != '&' && c != '=' && c != '#' && c != '?' && c != '/' && c != ' '
}

/// Bytes in the encoding of forms hold none of the characters that part a URL.
proof fn lemma_form_bytes_safe(bytes: Seq<u8>)
    ensures
        forall|i: int| 0 <= i < form_bytes(bytes).len() ==> is_form_safe(
            #[trigger] form_bytes(bytes)[i],
        ),
    decreases bytes.len(),
{
    if bytes.len() > 0 {
        let front = form_bytes(bytes.drop_last());
        let last = form_byte(bytes.last());
        lemma_form_bytes_safe(bytes.drop_last());
        assert forall|i: int| 0 <= i < form_bytes(bytes).len() implies is_form_safe(
            #[trigger] form_bytes(bytes)[i],
        ) by {
            if i < front.len() {
                assert(form_bytes(bytes)[i] == front[i]);
            } else {
                assert(form_bytes(bytes)[i] == last[i - front.len()]);
            }
        }
    }
}

/// Whatever a text holds, its encoding holds none of the characters that part a URL, so a value
/// cannot end the pair that it stands in or the query.
pub proof fn form_text_cannot_part_a_url(s: Seq<char>)
    ensures
        forall|i: int| 0 <= i < form_text(s).len() ==> is_form_safe(#[trigger] form_text(s)[i]),
{
    lemma_form_bytes_safe(encode_utf8(s));
}

/// The pairs of a query string, each in the encoding of forms.
pub open spec fn encoded_pairs(pairs: Seq<(Seq<char>, Seq<char>)>) -> Seq<Seq<char>> {
    pairs.map_values(|p: (Seq<char>, Seq<char>)| form_pair(p.0, p.1))
}

/// Cut at its ampersands, a query string gives back exactly its pairs, whatever they hold.
pub proof fn a_query_keeps_its_pairs_apart(pairs: Seq<(Seq<char>, Seq<char>)>)
    requires
        pairs.len() > 0,
    ensures
        split(query_of(pairs), '&') == encoded_pairs(pairs),
        query_of(pairs).len() > 0,
    decreases pairs.len(),
{
    let last = pairs.last();
    let pair = form_pair(last.0, last.1);
    let front = query_of(pairs.drop_last());
    form_text_cannot_part_a_url(last.0);
    form_text_cannot_part_a_url(last.1);
    assert(!pair.contains('&')) by {
        assert forall|i: int| 0 <= i < pair.len() implies pair[i] != '&' by {
            let n = form_text(last.0).len() as int;
            if i < n {
                assert(pair[i] == form_text(last.0)[i]);
            } else if i > n {
                assert(pair[i] == form_text(last.1)[i - n - 1]);
            }
        }
    }
    if pairs.len() == 1 {
        assert(front =~= Seq::<char>::empty());
        lemma_split_whole(pair, '&');
        assert(encoded_pairs(pairs) =~= seq![pair]);
    } else {
        a_query_keeps_its_pairs_apart(pairs.drop_last());
        lemma_split_append(front, pair, '&');
        assert(encoded_pairs(pairs) =~= encoded_pairs(pairs.drop_last()).push(pair));
    }
}

/// The encoding of a pair holds one equals sign: that between the name and the value.
pub proof fn a_pair_keeps_its_name_and_value_apart(name: Seq<char>, value: Seq<char>)
    ensures
        split(form_pair(name, value), '=') == seq![form_text(name), form_text(value)],
{
    form_text_cannot_part_a_url(name);
    form_text_cannot_part_a_url(value);
    assert(!form_text(name).contains('='));
    assert(!form_text(value).contains('='));
    lemma_split_whole(form_text(name), '=');
    lemma_split_append(form_text(name), form_text(value), '=');
    assert(split(form_pair(name, value), '=') =~= seq![form_text(name), form_text(value)]);
}

} // verus!
