//! What is read out of uploaded bytes, taken out of them, and made of them.

use vstd::prelude::*;
use vstd::string::*;

use std::io::Cursor;

use crate::config::ProcessingConfig;
use crate::error::AppError;
use crate::text::same;

#[allow(unused_imports)]
use crate::error::{or_other, seen_text};
#[allow(unused_imports)]
use crate::text::{opt_view, result_view};

verus! {

/// The two bytes at the front of a sequence as a number, the higher byte first.
pub open spec fn be_u16(s: Seq<u8>) -> int {
    s[0] * 0x100 + s[1]
}

/// The four bytes at the front of a sequence as a number, the highest byte first.
pub open spec fn be_u32(s: Seq<u8>) -> int {
    s[0] * 0x100_0000 + s[1] * 0x1_0000 + s[2] * 0x100 + s[3]
}

/// Whether a JPEG marker starts a metadata segment: `APP0` to `APP15`, or a comment.
pub open spec fn is_jpeg_metadata(marker: u8) -> bool {
    0xe0 <= marker <= 0xef || marker == 0xfe
}

/// Whether what stands here is no JPEG segment to be walked over: entropy-coded data, the start
/// of the scan or the end of the image.
pub open spec fn is_jpeg_tail(s: Seq<u8>) -> bool {
    s[0] != 0xff || s[1] == 0xda || s[1] == 0xd9
}

/// The bytes of the JPEG segment at the front: two for its marker, the rest by its own length.
pub open spec fn jpeg_segment_len(s: Seq<u8>) -> int {
    2 + be_u16(s.skip(2))
}

/// Whether the JPEG segment at the front is whole.
pub open spec fn jpeg_segment_fits(s: Seq<u8>) -> bool {
    jpeg_segment_len(s) >= 4 && jpeg_segment_len(s) <= s.len()
}

/// What is left of the segments of a JPEG image once those with metadata are gone; `None` where a
/// segment is broken. Fewer than four bytes at the end are no segment and are left out.
pub open spec fn jpeg_kept(s: Seq<u8>) -> Option<Seq<u8>>
    decreases s.len(),
{
    if s.len() < 4 {
        Some(Seq::empty())
    } else if is_jpeg_tail(s) {
        Some(s)
    } else if !jpeg_segment_fits(s) {
        None
    } else {
        let n = jpeg_segment_len(s);
        match jpeg_kept(s.skip(n)) {
            Some(rest) => Some(
                if is_jpeg_metadata(s[1]) {
                    rest
                } else {
                    s.take(n) + rest
                },
            ),
            None => None,
        }
    }
}

/// The two bytes that every JPEG image starts with.
pub open spec fn jpeg_start() -> Seq<u8> {
    seq![0xff, 0xd8]
}

/// A JPEG image without its metadata segments; `None` where the bytes are no JPEG image.
pub open spec fn jpeg_stripped(s: Seq<u8>) -> Option<Seq<u8>> {
    if s.len() < 4 || s.take(2) != jpeg_start() {
        None
    } else {
        match jpeg_kept(s.skip(2)) {
            Some(kept) => Some(jpeg_start() + kept),
            None => None,
        }
    }
}

/// Puts the bytes that were kept before those kept from the rest.
pub open spec fn behind(kept: Seq<u8>, rest: Option<Seq<u8>>) -> Option<Seq<u8>> {
    match rest {
        Some(rest) => Some(kept + rest),
        None => None,
    }
}

/// Appends a part of a slice to a vector.
fn push_part(out: &mut Vec<u8>, bytes: &[u8], from: usize, to: usize)
    requires
        from <= to <= bytes@.len(),
    ensures
        final(out)@ == old(out)@ + bytes@.subrange(from as int, to as int),
{
    let ghost before = out@;
    out.extend_from_slice(vstd::slice::slice_subrange(bytes, from, to));
    assert(out@ =~= before + bytes@.subrange(from as int, to as int));
}

/// Takes the metadata segments out of a JPEG image.
pub fn strip_jpeg_metadata(bytes: &[u8]) -> (r: Option<Vec<u8>>)
    ensures
        match r {
            Some(out) => jpeg_stripped(bytes@) == Some(out@),
            None => jpeg_stripped(bytes@) is None,
        },
{
    let n: usize = bytes.len();
    if n < 4 || bytes[0] != 0xff || bytes[1] != 0xd8 {
        assert(n >= 4 ==> (bytes@.take(2)[0] == bytes@[0] && bytes@.take(2)[1] == bytes@[1]));
        return None;
    }
    assert(bytes@.take(2) =~= jpeg_start());
    let mut out: Vec<u8> = Vec::new();
    out.push(0xff);
    out.push(0xd8);
    let mut offset: usize = 2;
    let ghost mut kept: Seq<u8> = Seq::empty();
    assert(out@ =~= jpeg_start() + kept);
    proof {
        if let Some(rest) = jpeg_kept(bytes@.skip(2)) {
            assert(kept + rest =~= rest);
        }
    }
    while n - offset >= 4
        invariant
            n == bytes@.len(),
            2 <= offset <= n,
            bytes@.take(2) == jpeg_start(),
            n >= 4,
            out@ == jpeg_start() + kept,
            jpeg_kept(bytes@.skip(2)) == behind(kept, jpeg_kept(bytes@.skip(offset as int))),
        decreases n - offset,
    {
        let ghost s = bytes@.skip(offset as int);
        let marker: u8 = bytes[offset + 1];
        if bytes[offset] != 0xff || marker == 0xda || marker == 0xd9 {
            push_part(&mut out, bytes, offset, n);
            assert(bytes@.subrange(offset as int, n as int) =~= s);
            assert(out@ =~= jpeg_start() + (kept + s));
            return Some(out);
        }
        let length: usize = bytes[offset + 2] as usize * 0x100 + bytes[offset + 3] as usize;
        assert(length == be_u16(s.skip(2)));
        if length < 2 || length + 2 > n - offset {
            return None;
        }
        let end: usize = offset + 2 + length;
        let is_metadata: bool = (0xe0 <= marker && marker <= 0xef) || marker == 0xfe;
        assert(s.skip(jpeg_segment_len(s)) =~= bytes@.skip(end as int));
        if !is_metadata {
            push_part(&mut out, bytes, offset, end);
            let ghost part = s.take(jpeg_segment_len(s));
            assert(bytes@.subrange(offset as int, end as int) =~= part);
            proof {
                let rest = jpeg_kept(bytes@.skip(end as int));
                if let Some(rest) = rest {
                    assert(kept + (part + rest) =~= (kept + part) + rest);
                }
                kept = kept + part;
            }
            assert(out@ =~= jpeg_start() + kept);
        }
        offset = end;
    }
    assert(kept + Seq::<u8>::empty() =~= kept);
    Some(out)
}

/// The eight bytes that every PNG image starts with.
pub open spec fn png_signature() -> Seq<u8> {
    seq![0x89, 0x50, 0x4e, 0x47, 0x0d, 0x0a, 0x1a, 0x0a]
}

/// The bytes of the PNG chunk at the front: length, type, data and checksum.
pub open spec fn png_chunk_len(s: Seq<u8>) -> int {
    12 + be_u32(s)
}

/// The type of the PNG chunk at the front.
pub open spec fn png_chunk_type(s: Seq<u8>) -> Seq<u8> {
    s.subrange(4, 8)
}

/// Whether a PNG chunk is critical: its type starts with a capital letter.
pub open spec fn is_png_critical(s: Seq<u8>) -> bool {
    0x41 <= s[4] <= 0x5a
}

/// The type of the last chunk of a PNG image.
pub open spec fn png_end() -> Seq<u8> {
    seq![0x49, 0x45, 0x4e, 0x44]
}

/// What is left of the chunks of a PNG image once the ancillary ones are gone; `None` where a
/// chunk is broken. Nothing behind the end chunk is kept, nor fewer bytes than a chunk needs.
pub open spec fn png_kept(s: Seq<u8>) -> Option<Seq<u8>>
    decreases s.len(),
{
    if s.len() < 12 {
        Some(Seq::empty())
    } else if png_chunk_len(s) > s.len() {
        None
    } else {
        let n = png_chunk_len(s);
        let part = if is_png_critical(s) {
            s.take(n)
        } else {
            Seq::empty()
        };
        if png_chunk_type(s) == png_end() {
            Some(part)
        } else {
            behind(part, png_kept(s.skip(n)))
        }
    }
}

/// A PNG image without its ancillary chunks; `None` where the bytes are no PNG image.
pub open spec fn png_stripped(s: Seq<u8>) -> Option<Seq<u8>> {
    if s.len() < 8 || s.take(8) != png_signature() {
        None
    } else {
        behind(png_signature(), png_kept(s.skip(8)))
    }
}

/// Whether the bytes start with the signature of PNG.
fn has_png_signature(bytes: &[u8]) -> (r: bool)
    ensures
        r == (bytes@.len() >= 8 && bytes@.take(8) == png_signature()),
{
    if bytes.len() < 8 {
        return false;
    }
    let ghost s = bytes@.take(8);
    let r: bool = bytes[0] == 0x89 && bytes[1] == 0x50 && bytes[2] == 0x4e && bytes[3] == 0x47
        && bytes[4] == 0x0d && bytes[5] == 0x0a && bytes[6] == 0x1a && bytes[7] == 0x0a;
    assert(forall|i: int| 0 <= i < 8 ==> s[i] == bytes@[i]);
    assert(r ==> s =~= png_signature());
    r
}

/// Takes the ancillary chunks out of a PNG image.
pub fn strip_png_metadata(bytes: &[u8]) -> (r: Option<Vec<u8>>)
    ensures
        match r {
            Some(out) => png_stripped(bytes@) == Some(out@),
            None => png_stripped(bytes@) is None,
        },
{
    let n: usize = bytes.len();
    if !has_png_signature(bytes) {
        return None;
    }
    let mut out: Vec<u8> = Vec::new();
    push_part(&mut out, bytes, 0, 8);
    let ghost mut kept: Seq<u8> = png_signature();
    assert(bytes@.subrange(0, 8) =~= bytes@.take(8));
    assert(out@ =~= kept);
    let mut offset: usize = 8;
    while n - offset >= 12
        invariant_except_break
            n == bytes@.len(),
            8 <= offset <= n,
            out@ == kept,
            png_stripped(bytes@) == behind(kept, png_kept(bytes@.skip(offset as int))),
        ensures
            png_stripped(bytes@) == Some(out@),
        decreases n - offset,
    {
        let ghost s = bytes@.skip(offset as int);
        let length: u64 = bytes[offset] as u64 * 0x100_0000 + bytes[offset + 1] as u64 * 0x1_0000
            + bytes[offset + 2] as u64 * 0x100 + bytes[offset + 3] as u64;
        assert(length == be_u32(s));
        if length > (n - offset - 12) as u64 {
            return None;
        }
        let end: usize = offset + 12 + length as usize;
        assert(s.skip(png_chunk_len(s)) =~= bytes@.skip(end as int));
        let is_critical: bool = 0x41 <= bytes[offset + 4] && bytes[offset + 4] <= 0x5a;
        let ghost part = if is_png_critical(s) {
            s.take(png_chunk_len(s))
        } else {
            Seq::empty()
        };
        if is_critical {
            push_part(&mut out, bytes, offset, end);
            assert(bytes@.subrange(offset as int, end as int) =~= part);
        }
        assert(out@ =~= kept + part);
        let is_end: bool = bytes[offset + 4] == 0x49 && bytes[offset + 5] == 0x45 && bytes[offset
            + 6] == 0x4e && bytes[offset + 7] == 0x44;
        assert(is_end == (png_chunk_type(s) == png_end())) by {
            let t = png_chunk_type(s);
            assert(t[0] == s[4] && t[1] == s[5] && t[2] == s[6] && t[3] == s[7]);
            assert(is_end ==> t =~= png_end());
        }
        offset = end;
        if is_end {
            break;
        }
        proof {
            if let Some(rest) = png_kept(bytes@.skip(end as int)) {
                assert(kept + (part + rest) =~= (kept + part) + rest);
            }
            kept = kept + part;
        }
        assert(n - offset < 12 ==> kept + Seq::<u8>::empty() =~= kept);
    }
    Some(out)
}

/// The bytes of a file without its metadata. Bytes that are not what their content type says stay
/// as they are, and so do files of other types.
pub open spec fn stripped(content_type: Seq<char>, bytes: Seq<u8>) -> Seq<u8> {
    let out = if content_type == "image/jpeg"@ {
        jpeg_stripped(bytes)
    } else if content_type == "image/png"@ {
        png_stripped(bytes)
    } else {
        None
    };
    match out {
        Some(out) => out,
        None => bytes,
    }
}

/// Takes the metadata out of an image file.
pub fn strip_file_metadata(content_type: &str, bytes: Vec<u8>) -> (r: Vec<u8>)
    ensures
        r@ == stripped(content_type@, bytes@),
{
    let out: Option<Vec<u8>> = if same(content_type, "image/jpeg") {
        strip_jpeg_metadata(bytes.as_slice())
    } else if same(content_type, "image/png") {
        strip_png_metadata(bytes.as_slice())
    } else {
        None
    };
    match out {
        Some(out) => out,
        None => bytes,
    }
}

/// The parts of a JPEG image that are no metadata, in order: its other segments, and whatever
/// stands behind them.
pub open spec fn jpeg_parts(s: Seq<u8>) -> Seq<Seq<u8>>
    decreases s.len(),
{
    if s.len() < 4 {
        Seq::empty()
    } else if is_jpeg_tail(s) || !jpeg_segment_fits(s) {
        seq![s]
    } else {
        let n = jpeg_segment_len(s);
        let rest = jpeg_parts(s.skip(n));
        if is_jpeg_metadata(s[1]) {
            rest
        } else {
            seq![s.take(n)] + rest
        }
    }
}

/// Whether a metadata segment stands among the segments of a JPEG image.
pub open spec fn jpeg_has_metadata(s: Seq<u8>) -> bool
    decreases s.len(),
{
    if s.len() < 4 || is_jpeg_tail(s) || !jpeg_segment_fits(s) {
        false
    } else {
        is_jpeg_metadata(s[1]) || jpeg_has_metadata(s.skip(jpeg_segment_len(s)))
    }
}

/// What was kept of the segments of a JPEG image is kept whole by a second pass, holds no
/// metadata, holds every other part, and is no longer than it was.
proof fn lemma_jpeg_kept(s: Seq<u8>)
    requires
        jpeg_kept(s) is Some,
    ensures
        jpeg_kept(jpeg_kept(s)->0) == Some(jpeg_kept(s)->0),
        !jpeg_has_metadata(jpeg_kept(s)->0),
        jpeg_parts(jpeg_kept(s)->0) == jpeg_parts(s),
        jpeg_kept(s)->0.len() <= s.len(),
        jpeg_kept(s)->0.len() == 0 || jpeg_kept(s)->0.len() >= 4,
    decreases s.len(),
{
    if s.len() >= 4 && !is_jpeg_tail(s) {
        let n = jpeg_segment_len(s);
        lemma_jpeg_kept(s.skip(n));
        if !is_jpeg_metadata(s[1]) {
            let rest = jpeg_kept(s.skip(n))->0;
            let out = s.take(n) + rest;
            assert(jpeg_kept(s) == Some(out));
            assert(out[0] == s[0] && out[1] == s[1]);
            assert(out.skip(2)[0] == s.skip(2)[0] && out.skip(2)[1] == s.skip(2)[1]);
            assert(jpeg_segment_len(out) == n);
            assert(out.skip(n) =~= rest);
            assert(out.take(n) =~= s.take(n));
        }
    }
}

/// The critical chunks of a PNG image, in order, up to the end chunk.
pub open spec fn png_critical_chunks(s: Seq<u8>) -> Seq<Seq<u8>>
    decreases s.len(),
{
    if s.len() < 12 || png_chunk_len(s) > s.len() {
        Seq::empty()
    } else {
        let n = png_chunk_len(s);
        let part = if is_png_critical(s) {
            seq![s.take(n)]
        } else {
            Seq::empty()
        };
        if png_chunk_type(s) == png_end() {
            part
        } else {
            part + png_critical_chunks(s.skip(n))
        }
    }
}

/// Whether an ancillary chunk stands among the chunks of a PNG image.
pub open spec fn png_has_ancillary(s: Seq<u8>) -> bool
    decreases s.len(),
{
    if s.len() < 12 || png_chunk_len(s) > s.len() {
        false
    } else {
        ||| !is_png_critical(s)
        ||| png_chunk_type(s) != png_end() && png_has_ancillary(s.skip(png_chunk_len(s)))
    }
}

/// What was kept of the chunks of a PNG image is kept whole by a second pass, holds no ancillary
/// chunk, holds every critical one, and is no longer than it was.
proof fn lemma_png_kept(s: Seq<u8>)
    requires
        png_kept(s) is Some,
    ensures
        png_kept(png_kept(s)->0) == Some(png_kept(s)->0),
        !png_has_ancillary(png_kept(s)->0),
        png_critical_chunks(png_kept(s)->0) == png_critical_chunks(s),
        png_kept(s)->0.len() <= s.len(),
    decreases s.len(),
{
    if s.len() >= 12 {
        let n = png_chunk_len(s);
        let last = png_chunk_type(s) == png_end();
        assert(last ==> is_png_critical(s)) by {
            if last {
                assert(png_chunk_type(s)[0] == s[4]);
            }
        }
        let rest = if last {
            Seq::empty()
        } else {
            lemma_png_kept(s.skip(n));
            png_kept(s.skip(n))->0
        };
        if is_png_critical(s) {
            let out = s.take(n) + rest;
            assert(png_kept(s)->0 =~= out);
            assert(forall|i: int| 0 <= i < 12 ==> out[i] == s[i]);
            assert(png_chunk_len(out) == n);
            assert(png_chunk_type(out) =~= png_chunk_type(s));
            assert(out.skip(n) =~= rest);
            assert(out.take(n) =~= s.take(n));
            assert(out.take(n) + rest =~= out);
        } else {
            assert(png_kept(s)->0 =~= rest);
            assert(png_critical_chunks(s) =~= png_critical_chunks(s.skip(n)));
        }
    }
}

/// Taking the metadata out of a file a second time changes nothing.
pub proof fn stripping_twice_is_stripping_once(content_type: Seq<char>, bytes: Seq<u8>)
    ensures
        stripped(content_type, stripped(content_type, bytes)) == stripped(content_type, bytes),
{
    let out = stripped(content_type, bytes);
    if content_type == "image/jpeg"@ {
        if jpeg_stripped(bytes) is Some {
            lemma_jpeg_kept(bytes.skip(2));
            let kept = jpeg_kept(bytes.skip(2))->0;
            assert(out.skip(2) =~= kept);
            assert(out.take(2) =~= jpeg_start());
        }
    } else if content_type == "image/png"@ {
        if png_stripped(bytes) is Some {
            lemma_png_kept(bytes.skip(8));
            let kept = png_kept(bytes.skip(8))->0;
            assert(out.skip(8) =~= kept);
            assert(out.take(8) =~= png_signature());
        }
    }
}

/// Taking the metadata out of a file never makes it longer.
pub proof fn stripping_never_lengthens(content_type: Seq<char>, bytes: Seq<u8>)
    ensures
        stripped(content_type, bytes).len() <= bytes.len(),
{
    if content_type == "image/jpeg"@ && jpeg_stripped(bytes) is Some {
        lemma_jpeg_kept(bytes.skip(2));
    }
    if content_type == "image/png"@ && png_stripped(bytes) is Some {
        lemma_png_kept(bytes.skip(8));
    }
}

/// A JPEG image that was stripped holds no metadata segment, and holds every other part of the
/// image unchanged and in its order.
pub proof fn a_stripped_jpeg_keeps_only_the_picture(bytes: Seq<u8>)
    requires
        jpeg_stripped(bytes) is Some,
    ensures
        !jpeg_has_metadata(jpeg_stripped(bytes)->0.skip(2)),
        jpeg_parts(jpeg_stripped(bytes)->0.skip(2)) == jpeg_parts(bytes.skip(2)),
{
    lemma_jpeg_kept(bytes.skip(2));
    assert(jpeg_stripped(bytes)->0.skip(2) =~= jpeg_kept(bytes.skip(2))->0);
}

/// A PNG image that was stripped holds no ancillary chunk, and holds every critical chunk of the
/// image unchanged and in its order.
pub proof fn a_stripped_png_keeps_only_the_picture(bytes: Seq<u8>)
    requires
        png_stripped(bytes) is Some,
    ensures
        !png_has_ancillary(png_stripped(bytes)->0.skip(8)),
        png_critical_chunks(png_stripped(bytes)->0.skip(8)) == png_critical_chunks(bytes.skip(8)),
{
    lemma_png_kept(bytes.skip(8));
    assert(png_stripped(bytes)->0.skip(8) =~= png_kept(bytes.skip(8))->0);
}

/// What `infer::get` tells of the bytes: the content type of the first known file signature that
/// they match.
pub uninterp spec fn inferred_type(bytes: Seq<u8>) -> Option<Seq<char>>;

/// Whether bytes bear the mark of an electronic book in the Mobipocket format: `BOOKMOBI`, from byte
/// 60 on.
pub open spec fn bears_mobi_mark(bytes: Seq<u8>) -> bool {
    bytes.len() >= 68 && bytes.subrange(60, 68) == seq![
        0x42u8,
        0x4f,
        0x4f,
        0x4b,
        0x4d,
        0x4f,
        0x42,
        0x49,
    ]
}

/// Whether bytes are told to be a PNG image by their signature. Its first four bytes are enough, but
/// the mark of a Mobipocket book goes before them.
pub open spec fn is_told_as_png(bytes: Seq<u8>) -> bool {
    bytes.len() >= 4 && bytes.take(4) == png_signature().take(4) && !bears_mobi_mark(bytes)
}

/// Calls `infer::get` and hands on the content type of the kind that it found. The result depends
/// on the bytes alone, and of the kinds that are tried before PNG only one could match bytes that
/// begin as a PNG image does.
#[verifier::external_body]
fn infer_type(bytes: &[u8]) -> (r: Option<&'static str>)
    ensures
        opt_view(r) == inferred_type(bytes@),
        is_told_as_png(bytes@) ==> opt_view(r) == Some("image/png"@),
{
    infer::get(bytes).map(|kind| kind.mime_type())
}

/// Whether a byte is printable ASCII, a tab or a line break.
pub open spec fn is_plain_text_byte(b: u8) -> bool {
    b == 0x09 || b == 0x0a || b == 0x0d || 0x20 <= b <= 0x7e
}

/// Whether every byte is printable ASCII, a tab or a line break.
pub open spec fn is_plain_text(bytes: Seq<u8>) -> bool {
    forall|i: int| 0 <= i < bytes.len() ==> is_plain_text_byte(#[trigger] bytes[i])
}

/// The content type of bytes, given what their signature says.
pub open spec fn sniffed_type(inferred: Option<Seq<char>>, bytes: Seq<u8>) -> Seq<char> {
    match inferred {
        Some(kind) => kind,
        None => if is_plain_text(bytes) {
            "text/plain"@
        } else {
            "application/octet-stream"@
        },
    }
}

/// The content type of bytes, given what their signature says.
pub fn resolve_sniffed(inferred: Option<&'static str>, bytes: &[u8]) -> (r: Option<&'static str>)
    ensures
        opt_view(r) == Some(sniffed_type(opt_view(inferred), bytes@)),
{
    if inferred.is_some() {
        return inferred;
    }
    let mut i: usize = 0;
    while i < bytes.len()
        invariant
            i <= bytes@.len(),
            opt_view(inferred) is None,
            forall|j: int| 0 <= j < i ==> is_plain_text_byte(#[trigger] bytes@[j]),
        decreases bytes@.len() - i,
    {
        let b: u8 = bytes[i];
        if !(b == 0x09 || b == 0x0a || b == 0x0d || (0x20 <= b && b <= 0x7e)) {
            assert(!is_plain_text_byte(bytes@[i as int]));
            return Some("application/octet-stream");
        }
        i = i + 1;
    }
    Some("text/plain")
}

/// The content type that bytes look like.
pub fn sniff_mime(bytes: &[u8]) -> (r: Option<&'static str>)
    ensures
        opt_view(r) == Some(sniffed_type(inferred_type(bytes@), bytes@)),
        is_told_as_png(bytes@) ==> opt_view(r) == Some("image/png"@),
{
    resolve_sniffed(infer_type(bytes), bytes)
}

/// A member of a JSON object, as far as the metadata of a file needs it.
#[derive(Debug, Clone)]
pub enum JsonItem {
    Null,
    Bool(bool),
    Integer(i64),
    Text(String),
}

/// A member of a JSON object with its text as a sequence of characters.
pub enum JsonView {
    Null,
    Bool(bool),
    Integer(i64),
    Text(Seq<char>),
}

impl View for JsonItem {
    type V = JsonView;

    open spec fn view(&self) -> JsonView {
        match self {
            JsonItem::Null => JsonView::Null,
            JsonItem::Bool(b) => JsonView::Bool(*b),
            JsonItem::Integer(n) => JsonView::Integer(*n),
            JsonItem::Text(s) => JsonView::Text(s@),
        }
    }
}

/// A JSON object of `serde_json`.
#[verifier::external_type_specification]
#[verifier::external_body]
#[verifier::reject_recursive_types(K)]
#[verifier::reject_recursive_types(V)]
pub struct ExJsonMap<K, V>(serde_json::Map<K, V>);

/// A JSON value of `serde_json`.
#[verifier::external_type_specification]
#[verifier::external_body]
pub struct ExJsonValue(serde_json::Value);

/// The members of a JSON object by their names.
pub uninterp spec fn json_members(
    object: serde_json::Map<String, serde_json::Value>,
) -> Map<Seq<char>, JsonView>;

/// The members of an object without any.
pub open spec fn no_members() -> Map<Seq<char>, JsonView> {
    Map::empty()
}

/// `serde_json::Map::new` makes an object without members.
#[verifier::external_body]
fn json_object() -> (r: serde_json::Map<String, serde_json::Value>)
    ensures
        json_members(r) == no_members(),
{
    serde_json::Map::new()
}

/// `serde_json::Map::insert` sets one member and leaves the others alone.
#[verifier::external_body]
fn json_insert(
    object: &mut serde_json::Map<String, serde_json::Value>,
    name: &str,
    item: JsonItem,
)
    ensures
        json_members(*final(object)) == json_members(*old(object)).insert(name@, item@),
{
    let value = match item {
        JsonItem::Null => serde_json::Value::Null,
        JsonItem::Bool(b) => serde_json::Value::from(b),
        JsonItem::Integer(n) => serde_json::Value::from(n),
        JsonItem::Text(s) => serde_json::Value::from(s),
    };
    object.insert(name.to_owned(), value);
}

/// What `serde_json::to_string` writes for an object with these members, or the text of its error.
pub uninterp spec fn json_text(members: Map<Seq<char>, JsonView>) -> Result<Seq<char>, Seq<char>>;

/// Calls `serde_json::to_string` on an object. The members are kept in the order of their names,
/// so the result depends on the members alone.
#[verifier::external_body]
fn json_to_string(object: &serde_json::Map<String, serde_json::Value>) -> (r: Result<
    String,
    String,
>)
    ensures
        result_view(r) == json_text(json_members(*object)),
{
    serde_json::to_string(object).map_err(|err| err.to_string())
}

/// An optional number as a JSON member.
pub open spec fn json_number(n: Option<i64>) -> JsonView {
    match n {
        Some(n) => JsonView::Integer(n),
        None => JsonView::Null,
    }
}

/// The members of the metadata of a file.
pub open spec fn metadata_members(
    content_type: Seq<char>,
    size_bytes: i64,
    image_dimensions: Option<(i64, i64)>,
    metadata_stripped: bool,
) -> Map<Seq<char>, JsonView> {
    let width = match image_dimensions {
        Some(d) => Some(d.0),
        None => None,
    };
    let height = match image_dimensions {
        Some(d) => Some(d.1),
        None => None,
    };
    no_members().insert(
        "content_type"@,
        JsonView::Text(content_type),
    ).insert("size_bytes"@, JsonView::Integer(size_bytes)).insert(
        "image_width"@,
        json_number(width),
    ).insert("image_height"@, json_number(height)).insert(
        "metadata_stripped"@,
        JsonView::Bool(metadata_stripped),
    )
}

/// An optional number as a JSON member.
fn json_number_item(n: Option<i64>) -> (r: JsonItem)
    ensures
        r@ == json_number(n),
{
    match n {
        Some(n) => JsonItem::Integer(n),
        None => JsonItem::Null,
    }
}

/// The metadata of a file as a JSON object.
pub fn file_metadata_json(
    content_type: &str,
    size_bytes: i64,
    image_dimensions: Option<(i64, i64)>,
    metadata_stripped: bool,
) -> (r: Result<String, AppError>)
    ensures
        seen_text(r) == or_other(
            json_text(
                metadata_members(content_type@, size_bytes, image_dimensions, metadata_stripped),
            ),
        ),
{
    let (width, height): (Option<i64>, Option<i64>) = match image_dimensions {
        Some((width, height)) => (Some(width), Some(height)),
        None => (None, None),
    };
    let mut object = json_object();
    json_insert(&mut object, "content_type", JsonItem::Text(content_type.to_owned()));
    json_insert(&mut object, "size_bytes", JsonItem::Integer(size_bytes));
    json_insert(&mut object, "image_width", json_number_item(width));
    json_insert(&mut object, "image_height", json_number_item(height));
    json_insert(&mut object, "metadata_stripped", JsonItem::Bool(metadata_stripped));
    match json_to_string(&object) {
        Ok(s) => Ok(s),
        Err(message) => Err(AppError::Other(message)),
    }
}

/// What a thumbnail may cost: its size, and the size and memory of the image that it is made of.
#[derive(Debug, Clone, Copy)]
pub struct ThumbnailLimits {
    pub max_dimension: u32,
    pub source_max_pixels: u32,
    pub source_max_alloc_bytes: u64,
}

impl ThumbnailLimits {
    /// The limits that the settings ask for.
    pub fn from_config(processing: &ProcessingConfig) -> (r: Self)
        ensures
            r.max_dimension == processing.thumbnail_max_dimension,
            r.source_max_pixels == processing.thumbnail_source_max_pixels,
            r.source_max_alloc_bytes == processing.thumbnail_source_max_alloc_bytes,
    {
        Self {
            max_dimension: processing.thumbnail_max_dimension,
            source_max_pixels: processing.thumbnail_source_max_pixels,
            source_max_alloc_bytes: processing.thumbnail_source_max_alloc_bytes,
        }
    }
}

/// The image formats that thumbnails are made of.
#[derive(Debug, Clone, Copy, PartialEq, Eq, Structural)]
pub enum ThumbnailFormat {
    Jpeg,
    Png,
    Gif,
}

/// The format that a content type stands for.
pub open spec fn thumbnail_format(content_type: Seq<char>) -> Option<ThumbnailFormat> {
    if content_type == "image/jpeg"@ {
        Some(ThumbnailFormat::Jpeg)
    } else if content_type == "image/png"@ {
        Some(ThumbnailFormat::Png)
    } else if content_type == "image/gif"@ {
        Some(ThumbnailFormat::Gif)
    } else {
        None
    }
}

/// The format that a content type stands for.
pub fn format_of(content_type: &str) -> (r: Option<ThumbnailFormat>)
    ensures
        r == thumbnail_format(content_type@),
{
    if same(content_type, "image/jpeg") {
        Some(ThumbnailFormat::Jpeg)
    } else if same(content_type, "image/png") {
        Some(ThumbnailFormat::Png)
    } else if same(content_type, "image/gif") {
        Some(ThumbnailFormat::Gif)
    } else {
        None
    }
}

/// A decoded image of the `image` crate.
#[verifier::external_type_specification]
#[verifier::external_body]
pub struct ExDynamicImage(image::DynamicImage);

/// The width and the height of an image, as `DynamicImage::width` and `height` tell them.
pub uninterp spec fn image_size(image: image::DynamicImage) -> (u32, u32);

/// Calls `DynamicImage::width` and `DynamicImage::height`.
#[verifier::external_body]
fn size_of_image(image: &image::DynamicImage) -> (r: (u32, u32))
    ensures
        r == image_size(*image),
{
    (image.width(), image.height())
}

/// The bytes that a pixel of an image takes and the channels it has, as `DynamicImage::color` tells
/// them.
pub uninterp spec fn pixel_layout(image: image::DynamicImage) -> (u8, u8);

/// Calls `DynamicImage::color`, and on what it returns `ColorType::bytes_per_pixel` and
/// `ColorType::channel_count`.
#[verifier::external_body]
fn layout_of_pixels(image: &image::DynamicImage) -> (r: (u8, u8))
    ensures
        r == pixel_layout(*image),
{
    let color = image.color();
    (color.bytes_per_pixel(), color.channel_count())
}

/// Why an image could not be decoded.
#[derive(Debug, Clone, Copy, PartialEq, Eq, Structural)]
pub enum DecodeFailure {
    /// It is wider, higher or larger in memory than allowed.
    Limits,
    /// Anything else: the bytes are broken or cut off.
    Other,
}

/// What `image::ImageReader::decode` makes of the bytes within these limits.
pub uninterp spec fn decoded_image(
    bytes: Seq<u8>,
    format: ThumbnailFormat,
    max_width: u32,
    max_height: u32,
    max_alloc: u64,
) -> Result<image::DynamicImage, DecodeFailure>;

/// Calls `image::ImageReader::decode` for one format, with limits on the width, the height and the
/// memory and with no others. The result depends on the bytes, the format and the limits alone, and
/// an image that is decoded is no wider and no higher than the limits.
#[verifier::external_body]
fn decode_image(
    bytes: &[u8],
    format: ThumbnailFormat,
    max_width: u32,
    max_height: u32,
    max_alloc: u64,
) -> (r: Result<image::DynamicImage, DecodeFailure>)
    ensures
        r == decoded_image(bytes@, format, max_width, max_height, max_alloc),
        r matches Ok(image) ==> image_size(image).0 <= max_width && image_size(image).1
            <= max_height,
{
    let mut reader = image::ImageReader::new(Cursor::new(bytes));
    reader.set_format(match format {
        ThumbnailFormat::Jpeg => image::ImageFormat::Jpeg,
        ThumbnailFormat::Png => image::ImageFormat::Png,
        ThumbnailFormat::Gif => image::ImageFormat::Gif,
    });
    let mut limits = image::Limits::no_limits();
    limits.max_image_width = Some(max_width);
    limits.max_image_height = Some(max_height);
    limits.max_alloc = Some(max_alloc);
    reader.limits(limits);
    reader.decode().map_err(|err| match err {
        image::ImageError::Limits(_) => DecodeFailure::Limits,
        _ => DecodeFailure::Other,
    })
}

/// What `image::DynamicImage::thumbnail` makes of an image for a box of this size.
pub uninterp spec fn shrunk_image(
    image: image::DynamicImage,
    width: u32,
    height: u32,
) -> image::DynamicImage;

/// How many times one length goes into another, rounded up.
pub open spec fn times_over(length: u32, unit: u32) -> int {
    (length + unit - 1) / unit as int
}

/// How long a block of pixels can be that becomes one where an image is scaled down to a box: half
/// as many pixels again as the image is times larger than the box, and three more for rounding; but
/// never longer than the image.
pub open spec fn longest_block(length: u32, size: (u32, u32), width: u32, height: u32) -> int {
    let across = times_over(size.0, width);
    let down = times_over(size.1, height);
    let longest = if across > down {
        across * 3 / 2 + 3
    } else {
        down * 3 / 2 + 3
    };
    if longest < length {
        longest
    } else {
        length as int
    }
}

/// How many samples can be summed up in 32 bits, and half as many be added to the sum: fewer where a
/// sample takes more than a byte.
pub open spec fn most_samples(layout: (u8, u8)) -> int {
    if layout.0 == layout.1 {
        16_800_000
    } else {
        65_535
    }
}

/// Whether an image can be scaled down to a box: the samples of the pixels that become one can be
/// summed up, and the sides of the image are exact as floating point numbers of 32 bits.
pub open spec fn can_be_shrunk(image: image::DynamicImage, width: u32, height: u32) -> bool {
    let size = image_size(image);
    &&& size.0 <= 0x100_0000 && size.1 <= 0x100_0000
    &&& longest_block(size.0, size, width, height) * longest_block(size.1, size, width, height)
        <= most_samples(pixel_layout(image))
}

/// How long a block of pixels can be that becomes one where an image is scaled down to a box.
fn block_length(length: u32, size: (u32, u32), width: u32, height: u32) -> (r: u32)
    requires
        width > 0,
        height > 0,
    ensures
        r == longest_block(length, size, width, height),
        r <= length,
{
    let across: u64 = (size.0 as u64 + width as u64 - 1) / width as u64;
    let down: u64 = (size.1 as u64 + height as u64 - 1) / height as u64;
    assert(across <= size.0 + width && down <= size.1 + height) by (nonlinear_arith)
        requires
            width > 0,
            height > 0,
            across == (size.0 + width - 1) / width as int,
            down == (size.1 + height - 1) / height as int,
    ;
    let longest: u64 = if across > down {
        across * 3 / 2 + 3
    } else {
        down * 3 / 2 + 3
    };
    if longest < length as u64 {
        longest as u32
    } else {
        length
    }
}

/// Whether an image can be scaled down to a box.
fn shrinks_to(image: &image::DynamicImage, width: u32, height: u32) -> (r: bool)
    requires
        width > 0,
        height > 0,
    ensures
        r == can_be_shrunk(*image, width, height),
{
    let size: (u32, u32) = size_of_image(image);
    if size.0 > 0x100_0000 || size.1 > 0x100_0000 {
        return false;
    }
    let (bytes, channels): (u8, u8) = layout_of_pixels(image);
    let most: u64 = if bytes == channels {
        16_800_000
    } else {
        65_535
    };
    let across: u32 = block_length(size.0, size, width, height);
    let down: u32 = block_length(size.1, size, width, height);
    assert(across * down <= 0x100_0000 * 0x100_0000) by (nonlinear_arith)
        requires
            across <= 0x100_0000,
            down <= 0x100_0000,
    ;
    across as u64 * down as u64 <= most
}

/// Calls `image::DynamicImage::thumbnail`, which scales an image to the largest size within a box
/// that keeps its proportions: the result has at least one pixel, fits the box and fills it in one
/// direction.
///
/// A pixel of the result is the average of a block of the image. The samples of a block are summed
/// up in 32 bits, which would overflow for blocks larger than those allowed here. No pixel takes
/// more than sixteen bytes, so a box of the size that is asked for here fits in memory.
#[verifier::external_body]
fn shrink_image(image: &image::DynamicImage, width: u32, height: u32) -> (r: image::DynamicImage)
    requires
        width > 0,
        height > 0,
        16 * width * height <= isize::MAX,
        can_be_shrunk(*image, width, height),
    ensures
        r == shrunk_image(*image, width, height),
        1 <= image_size(r).0 <= width && 1 <= image_size(r).1 <= height,
        image_size(*image).0 > 0 && image_size(*image).1 > 0 ==> image_size(r).0 == width
            || image_size(r).1 == height,
{
    image.thumbnail(width, height)
}

/// The image of this size that `image::RgbaImage::from_pixel` makes of one pixel, given as its red,
/// green, blue and opacity.
pub uninterp spec fn filled_image(width: u32, height: u32, pixel: Seq<u8>) -> image::DynamicImage;

/// Calls `image::RgbaImage::from_pixel`, which makes an image of this size and panics for one that
/// does not fit in memory.
#[verifier::external_body]
fn make_filled_image(width: u32, height: u32, pixel: [u8; 4]) -> (r: image::DynamicImage)
    requires
        4 * width * height <= isize::MAX,
    ensures
        r == filled_image(width, height, pixel@),
        image_size(r) == (width, height),
{
    image::DynamicImage::from(image::RgbaImage::from_pixel(width, height, image::Rgba(pixel)))
}

/// The pixel that nothing is seen of.
pub open spec fn transparent_pixel() -> Seq<u8> {
    seq![0, 0, 0, 0]
}

/// What `image::DynamicImage::write_to` writes for an image as PNG; `None` for an error.
pub uninterp spec fn png_encoding(image: image::DynamicImage) -> Option<Seq<u8>>;

/// The width and the height that the header of a PNG image tells; `None` where there is no such
/// header.
pub open spec fn png_size(bytes: Seq<u8>) -> Option<(int, int)> {
    if bytes.len() >= 24 && bytes.take(8) == png_signature() {
        Some((be_u32(bytes.skip(16)), be_u32(bytes.skip(20))))
    } else {
        None
    }
}

/// Calls `image::DynamicImage::write_to` with the format PNG on an empty buffer. The result depends
/// on the image alone. What is written begins with the signature of PNG and the header, which tells
/// the size of the image.
#[verifier::external_body]
fn encode_png(image: &image::DynamicImage) -> (r: Option<Vec<u8>>)
    ensures
        match r {
            Some(bytes) => {
                &&& png_encoding(*image) == Some(bytes@)
                &&& png_size(bytes@) == Some(
                    (image_size(*image).0 as int, image_size(*image).1 as int),
                )
            },
            None => png_encoding(*image) is None,
        },
{
    let mut out = Cursor::new(Vec::new());
    image.write_to(&mut out, image::ImageFormat::Png).ok()?;
    Some(out.into_inner())
}

/// The image or nothing.
pub open spec fn image_or_none(r: Result<image::DynamicImage, DecodeFailure>) -> Option<
    image::DynamicImage,
> {
    match r {
        Ok(image) => Some(image),
        Err(_) => None,
    }
}

/// What decoding makes of the bytes of an image within the limits.
pub open spec fn decoded_within(
    bytes: Seq<u8>,
    format: ThumbnailFormat,
    limits: ThumbnailLimits,
) -> Result<image::DynamicImage, DecodeFailure> {
    decoded_image(
        bytes,
        format,
        limits.source_max_pixels,
        limits.source_max_pixels,
        limits.source_max_alloc_bytes,
    )
}

/// Decodes an image, unless it is wider, higher or larger in memory than the limits allow.
pub fn decode_within_limits(
    bytes: &[u8],
    format: ThumbnailFormat,
    limits: ThumbnailLimits,
) -> (r: Option<image::DynamicImage>)
    ensures
        r == image_or_none(decoded_within(bytes@, format, limits)),
        r matches Some(image) ==> image_size(image).0 <= limits.source_max_pixels && image_size(
            image,
        ).1 <= limits.source_max_pixels,
{
    match decode_or_tell_why(bytes, format, limits) {
        Ok(image) => Some(image),
        Err(_) => None,
    }
}

/// Decodes an image within the limits, or tells why it could not be.
pub fn decode_or_tell_why(
    bytes: &[u8],
    format: ThumbnailFormat,
    limits: ThumbnailLimits,
) -> (r: Result<image::DynamicImage, DecodeFailure>)
    ensures
        r == decoded_within(bytes@, format, limits),
        r matches Ok(image) ==> image_size(image).0 <= limits.source_max_pixels && image_size(
            image,
        ).1 <= limits.source_max_pixels,
{
    decode_image(
        bytes,
        format,
        limits.source_max_pixels,
        limits.source_max_pixels,
        limits.source_max_alloc_bytes,
    )
}

/// Whether an image that could not be decoded gets a placeholder: its header told a size, and that
/// size is within the limits.
pub open spec fn wants_placeholder(
    dimensions: Option<(i64, i64)>,
    limits: ThumbnailLimits,
) -> bool {
    match dimensions {
        Some((width, height)) => width <= limits.source_max_pixels && height
            <= limits.source_max_pixels,
        None => false,
    }
}

/// Whether an image that could not be decoded gets a placeholder.
pub fn placeholder_wanted(dimensions: Option<(i64, i64)>, limits: ThumbnailLimits) -> (r: bool)
    ensures
        r == wants_placeholder(dimensions, limits),
{
    match dimensions {
        Some((width, height)) => width <= limits.source_max_pixels as i64 && height
            <= limits.source_max_pixels as i64,
        None => false,
    }
}

/// The picture that becomes the thumbnail of an image, given what decoding made of it. An image that
/// blew the limits gets none, nor does one that is too large to be scaled down to them; one that
/// could not be decoded for another reason may get a placeholder.
pub open spec fn picture(
    decoded: Result<image::DynamicImage, DecodeFailure>,
    limits: ThumbnailLimits,
    dimensions: Option<(i64, i64)>,
    placeholder: (u32, u32),
) -> Option<image::DynamicImage> {
    match decoded {
        Ok(image) => if can_be_shrunk(image, limits.max_dimension, limits.max_dimension) {
            Some(shrunk_image(image, limits.max_dimension, limits.max_dimension))
        } else {
            None
        },
        Err(DecodeFailure::Limits) => None,
        Err(DecodeFailure::Other) => if wants_placeholder(dimensions, limits) {
            Some(filled_image(placeholder.0, placeholder.1, transparent_pixel()))
        } else {
            None
        },
    }
}

/// The thumbnail of an image, given what decoding made of it: its picture as PNG.
pub open spec fn thumbnail(
    decoded: Result<image::DynamicImage, DecodeFailure>,
    limits: ThumbnailLimits,
    dimensions: Option<(i64, i64)>,
    placeholder: (u32, u32),
) -> Option<Seq<u8>> {
    match picture(decoded, limits, dimensions, placeholder) {
        Some(picture) => png_encoding(picture),
        None => None,
    }
}

/// Whether bytes are a PNG image of the size that a thumbnail has: both sides are at least one and
/// within the limit. One that was scaled down reaches the limit with one side, unless its source is
/// empty; a placeholder has the size that it was to have.
pub open spec fn is_sized(
    bytes: Seq<u8>,
    decoded: Result<image::DynamicImage, DecodeFailure>,
    max_dimension: u32,
    placeholder: (u32, u32),
) -> bool {
    &&& png_size(bytes) matches Some((width, height))
    &&& 1 <= width <= max_dimension && 1 <= height <= max_dimension
    &&& match decoded {
        Ok(image) => image_size(image).0 > 0 && image_size(image).1 > 0 ==> width == max_dimension
            || height == max_dimension,
        Err(_) => width == placeholder.0 && height == placeholder.1,
    }
}

/// The thumbnail of a file with this content type, `None` where there is none.
pub open spec fn derivative(
    content_type: Seq<char>,
    bytes: Seq<u8>,
    limits: ThumbnailLimits,
    dimensions: Option<(i64, i64)>,
    placeholder: (u32, u32),
) -> Option<Seq<u8>> {
    match thumbnail_format(content_type) {
        Some(format) if limits.max_dimension > 0 => thumbnail(
            decoded_within(bytes, format, limits),
            limits,
            dimensions,
            placeholder,
        ),
        _ => None,
    }
}

/// Whether a placeholder of this size can be made where one is wanted: both of its sides are at
/// least one and within the limit.
pub open spec fn placeholder_fits(
    dimensions: Option<(i64, i64)>,
    limits: ThumbnailLimits,
    placeholder: (u32, u32),
) -> bool {
    wants_placeholder(dimensions, limits) ==> 1 <= placeholder.0 <= limits.max_dimension && 1
        <= placeholder.1 <= limits.max_dimension
}

/// An image that blew the limits gets nothing, not even a placeholder: neither one that decoding
/// refused for its size, nor one whose header tells of too large a size.
pub proof fn images_beyond_the_limits_get_nothing(
    failure: DecodeFailure,
    limits: ThumbnailLimits,
    width: i64,
    height: i64,
    placeholder: (u32, u32),
)
    requires
        failure == DecodeFailure::Limits || width > limits.source_max_pixels || height
            > limits.source_max_pixels,
    ensures
        thumbnail(Err(failure), limits, Some((width, height)), placeholder) is None,
{
}

/// The thumbnail of an image, given what decoding made of it. The picture in it has at least one
/// pixel and fits the box that the limits give.
pub fn thumbnail_of_decoded(
    decoded: Result<image::DynamicImage, DecodeFailure>,
    limits: ThumbnailLimits,
    dimensions: Option<(i64, i64)>,
    placeholder: (u32, u32),
) -> (r: Option<Vec<u8>>)
    requires
        limits.max_dimension > 0,
        16 * limits.max_dimension * limits.max_dimension <= isize::MAX,
        placeholder_fits(dimensions, limits, placeholder),
    ensures
        match r {
            Some(bytes) => {
                &&& thumbnail(decoded, limits, dimensions, placeholder) == Some(bytes@)
                &&& is_sized(bytes@, decoded, limits.max_dimension, placeholder)
            },
            None => thumbnail(decoded, limits, dimensions, placeholder) is None,
        },
{
    match decoded {
        Ok(image) => {
            if !shrinks_to(&image, limits.max_dimension, limits.max_dimension) {
                return None;
            }
            encode_png(&shrink_image(&image, limits.max_dimension, limits.max_dimension))
        },
        Err(DecodeFailure::Limits) => None,
        Err(DecodeFailure::Other) => {
            // The header may still be readable even when a full decode fails, but a placeholder is
            // never made for an image whose size is beyond the limits.
            if !placeholder_wanted(dimensions, limits) {
                return None;
            }
            assert(4 * placeholder.0 * placeholder.1 <= 16 * limits.max_dimension
                * limits.max_dimension) by (nonlinear_arith)
                requires
                    placeholder.0 <= limits.max_dimension,
                    placeholder.1 <= limits.max_dimension,
            ;
            let pixel: [u8; 4] = [0, 0, 0, 0];
            assert(pixel@ =~= transparent_pixel());
            encode_png(&make_filled_image(placeholder.0, placeholder.1, pixel))
        },
    }
}

/// Renders a downscaled PNG preview, or `None` when the source cannot be decoded within limits or is
/// too many times larger than they allow.
///
/// `dimensions` is the size that the header of the file tells and `placeholder` that size scaled
/// down to the limits: an image that is within the limits and cannot be decoded for another reason
/// becomes a transparent placeholder.
pub fn thumbnail_derivative(
    content_type: &str,
    bytes: &[u8],
    limits: ThumbnailLimits,
    dimensions: Option<(i64, i64)>,
    placeholder: (u32, u32),
) -> (r: Option<Vec<u8>>)
    requires
        16 * limits.max_dimension * limits.max_dimension <= isize::MAX,
        limits.max_dimension > 0 ==> placeholder_fits(dimensions, limits, placeholder),
    ensures
        match r {
            Some(made) => {
                &&& derivative(content_type@, bytes@, limits, dimensions, placeholder) == Some(made@)
                &&& thumbnail_format(content_type@) matches Some(format)
                &&& is_sized(
                    made@,
                    decoded_within(bytes@, format, limits),
                    limits.max_dimension,
                    placeholder,
                )
            },
            None => derivative(content_type@, bytes@, limits, dimensions, placeholder) is None,
        },
{
    if limits.max_dimension == 0 {
        return None;
    }
    match format_of(content_type) {
        Some(format) => thumbnail_of_decoded(
            decode_or_tell_why(bytes, format, limits),
            limits,
            dimensions,
            placeholder,
        ),
        None => None,
    }
}

/// A segment of a JPEG image: its marker and its payload.
pub struct JpegSegment {
    pub marker: u8,
    pub payload: Seq<u8>,
}

impl JpegSegment {
    /// Whether this can stand among the segments of an image: its marker neither starts the scan
    /// nor ends the image, and its length fits into two bytes.
    pub open spec fn is_whole(self) -> bool {
        self.marker != 0xda && self.marker != 0xd9 && self.payload.len() <= 65533
    }

    /// The bytes of the segment: 255, the marker, the length with its own two bytes, the payload.
    pub open spec fn bytes(self) -> Seq<u8> {
        let n = self.payload.len() + 2;
        seq![0xffu8, self.marker, (n / 256) as u8, (n % 256) as u8] + self.payload
    }
}

/// The bytes of a row of segments.
pub open spec fn jpeg_bytes(segments: Seq<JpegSegment>) -> Seq<u8>
    decreases segments.len(),
{
    if segments.len() == 0 {
        Seq::empty()
    } else {
        segments[0].bytes() + jpeg_bytes(segments.drop_first())
    }
}

/// The segments of a row that are neither application data nor comments.
pub open spec fn picture_segments(segments: Seq<JpegSegment>) -> Seq<JpegSegment>
    decreases segments.len(),
{
    if segments.len() == 0 {
        segments
    } else {
        let rest = picture_segments(segments.drop_first());
        let marker = segments[0].marker;
        if marker == 0xfe || (0xe0 <= marker && marker <= 0xef) {
            rest
        } else {
            seq![segments[0]] + rest
        }
    }
}

/// A row of whole segments is walked over one by one.
proof fn lemma_jpeg_segments(segments: Seq<JpegSegment>, tail: Seq<u8>)
    requires
        forall|i: int| 0 <= i < segments.len() ==> (#[trigger] segments[i]).is_whole(),
    ensures
        jpeg_kept(jpeg_bytes(segments) + tail) == match jpeg_kept(tail) {
            Some(kept) => Some(jpeg_bytes(picture_segments(segments)) + kept),
            None => None,
        },
    decreases segments.len(),
{
    if segments.len() == 0 {
        assert(jpeg_bytes(segments) + tail =~= tail);
        if let Some(kept) = jpeg_kept(tail) {
            assert(jpeg_bytes(segments) + kept =~= kept);
        }
    } else {
        let first = segments[0];
        let rest = segments.drop_first();
        assert(first.is_whole());
        assert forall|i: int| 0 <= i < rest.len() implies (#[trigger] rest[i]).is_whole() by {
            assert(rest[i] == segments[i + 1]);
        }
        lemma_jpeg_segments(rest, tail);
        let s = jpeg_bytes(segments) + tail;
        let n = first.bytes().len() as int;
        let size = first.payload.len() + 2;
        assert(s[0] == 0xff && s[1] == first.marker);
        assert(s.skip(2)[0] == (size / 256) as u8);
        assert(s.skip(2)[1] == (size % 256) as u8);
        assert(be_u16(s.skip(2)) == size) by {
            assert(size / 256 < 256);
            assert(256 * (size / 256) + size % 256 == size);
        }
        assert(jpeg_segment_len(s) == n);
        assert(s.skip(n) =~= jpeg_bytes(rest) + tail);
        assert(s.take(n) =~= first.bytes());
        let picture = picture_segments(rest);
        if let Some(kept) = jpeg_kept(tail) {
            let all = seq![first] + picture;
            assert(all.drop_first() =~= picture);
            assert(first.bytes() + (jpeg_bytes(picture) + kept) =~= (first.bytes() + jpeg_bytes(
                picture,
            )) + kept);
        }
    }
}

/// A JPEG image whose segments are whole is stripped, whatever they are: exactly the application
/// data and the comments are gone, and all else stands there in its order and unchanged, up to what
/// begins the scan or ends the image and everything behind it. Fewer than four bytes at the end are
/// nothing that could be shown.
pub proof fn a_whole_jpeg_loses_its_metadata_alone(segments: Seq<JpegSegment>, tail: Seq<u8>)
    requires
        forall|i: int| 0 <= i < segments.len() ==> (#[trigger] segments[i]).is_whole(),
        segments.len() > 0 || tail.len() >= 2,
        tail.len() >= 4 ==> tail[0] != 0xff || tail[1] == 0xda || tail[1] == 0xd9,
    ensures
        ({
            let image = seq![0xffu8, 0xd8] + jpeg_bytes(segments) + tail;
            let shown = if tail.len() >= 4 {
                tail
            } else {
                Seq::empty()
            };
            let kept = seq![0xffu8, 0xd8] + jpeg_bytes(picture_segments(segments)) + shown;
            &&& jpeg_stripped(image) == Some(kept)
            &&& stripped("image/jpeg"@, image) == kept
        }),
{
    let image = seq![0xffu8, 0xd8] + jpeg_bytes(segments) + tail;
    lemma_jpeg_segments(segments, tail);
    if segments.len() > 0 {
        assert(jpeg_bytes(segments).len() >= segments[0].bytes().len());
    }
    assert(image.take(2) =~= seq![0xffu8, 0xd8]);
    assert(image.skip(2) =~= jpeg_bytes(segments) + tail);
    let shown = if tail.len() >= 4 {
        tail
    } else {
        Seq::empty()
    };
    assert(jpeg_kept(tail) == Some(shown));
    assert(seq![0xffu8, 0xd8] + (jpeg_bytes(picture_segments(segments)) + shown) =~= seq![
        0xffu8,
        0xd8,
    ] + jpeg_bytes(picture_segments(segments)) + shown);
}

/// A JPEG image with a broken segment, one whose length is less than its own two bytes or more than
/// what is there, is left as it is, and so are bytes that are no JPEG image at all.
pub proof fn a_broken_jpeg_is_left_alone(segments: Seq<JpegSegment>, broken: Seq<u8>, other: Seq<u8>)
    requires
        forall|i: int| 0 <= i < segments.len() ==> (#[trigger] segments[i]).is_whole(),
        broken.len() >= 4,
        broken[0] == 0xff && broken[1] != 0xda && broken[1] != 0xd9,
        broken[2] * 256 + broken[3] < 2 || broken[2] * 256 + broken[3] + 2 > broken.len(),
        other.len() < 2 || other[0] != 0xff || other[1] != 0xd8,
    ensures
        ({
            let image = seq![0xffu8, 0xd8] + jpeg_bytes(segments) + broken;
            &&& jpeg_stripped(image) is None
            &&& stripped("image/jpeg"@, image) == image
        }),
        jpeg_stripped(other) is None,
        stripped("image/jpeg"@, other) == other,
{
    let image = seq![0xffu8, 0xd8] + jpeg_bytes(segments) + broken;
    lemma_jpeg_segments(segments, broken);
    assert(image.skip(2) =~= jpeg_bytes(segments) + broken);
    assert(broken.skip(2)[0] == broken[2] && broken.skip(2)[1] == broken[3]);
    assert(jpeg_kept(broken) is None);
    if other.len() >= 2 {
        assert(other.take(2)[0] == other[0] && other.take(2)[1] == other[1]);
    }
}

/// A chunk of a PNG image: its type, its data and its checksum.
pub struct PngChunk {
    pub kind: Seq<u8>,
    pub data: Seq<u8>,
    pub checksum: Seq<u8>,
}

impl PngChunk {
    /// Whether the parts have the lengths that they have in an image.
    pub open spec fn is_whole(self) -> bool {
        self.kind.len() == 4 && self.checksum.len() == 4 && self.data.len() < 0x1_0000_0000
    }

    /// Whether this is the chunk `IEND`.
    pub open spec fn is_end(self) -> bool {
        self.kind[0] == 0x49 && self.kind[1] == 0x45 && self.kind[2] == 0x4e && self.kind[3]
            == 0x44
    }

    /// The bytes of the chunk: the length of the data, the type, the data, the checksum.
    pub open spec fn bytes(self) -> Seq<u8> {
        let n = self.data.len();
        seq![
            (n / 0x100_0000) as u8,
            (n / 0x1_0000 % 256) as u8,
            (n / 256 % 256) as u8,
            (n % 256) as u8,
        ] + self.kind + self.data + self.checksum
    }
}

/// The bytes of a row of chunks.
pub open spec fn png_bytes(chunks: Seq<PngChunk>) -> Seq<u8>
    decreases chunks.len(),
{
    if chunks.len() == 0 {
        Seq::empty()
    } else {
        chunks[0].bytes() + png_bytes(chunks.drop_first())
    }
}

/// The chunks of a row whose types begin with a capital letter.
pub open spec fn picture_chunks(chunks: Seq<PngChunk>) -> Seq<PngChunk>
    decreases chunks.len(),
{
    if chunks.len() == 0 {
        chunks
    } else {
        let rest = picture_chunks(chunks.drop_first());
        let letter = chunks[0].kind[0];
        if 0x41 <= letter && letter <= 0x5a {
            seq![chunks[0]] + rest
        } else {
            rest
        }
    }
}

/// What the front of a chunk says of it.
proof fn lemma_png_chunk(chunk: PngChunk, rest: Seq<u8>)
    requires
        chunk.is_whole(),
    ensures
        ({
            let s = chunk.bytes() + rest;
            &&& s.len() >= 12
            &&& png_chunk_len(s) == chunk.bytes().len()
            &&& png_chunk_type(s) == chunk.kind
            &&& s[4] == chunk.kind[0]
            &&& s.take(chunk.bytes().len() as int) == chunk.bytes()
            &&& s.skip(chunk.bytes().len() as int) == rest
            &&& png_chunk_type(s) == png_end() <==> chunk.is_end()
        }),
{
    let s = chunk.bytes() + rest;
    let n = chunk.data.len();
    assert(s[0] == (n / 0x100_0000) as u8);
    assert(s[1] == (n / 0x1_0000 % 256) as u8);
    assert(s[2] == (n / 256 % 256) as u8);
    assert(s[3] == (n % 256) as u8);
    assert(n / 0x100_0000 < 256) by (nonlinear_arith)
        requires
            n < 0x1_0000_0000,
    ;
    assert(n / 0x100_0000 * 0x100_0000 + n / 0x1_0000 % 256 * 0x1_0000 + n / 256 % 256 * 0x100 + n
        % 256 == n) by (nonlinear_arith)
        requires
            n < 0x1_0000_0000,
    ;
    assert(be_u32(s) == n);
    assert(s.subrange(4, 8) =~= chunk.kind);
    assert(s.take(chunk.bytes().len() as int) =~= chunk.bytes());
    assert(s.skip(chunk.bytes().len() as int) =~= rest);
    if chunk.is_end() {
        assert(chunk.kind =~= png_end());
    }
}

/// A row of whole chunks before the end chunk is walked over one by one.
proof fn lemma_png_chunks(chunks: Seq<PngChunk>, tail: Seq<u8>)
    requires
        forall|i: int|
            0 <= i < chunks.len() ==> (#[trigger] chunks[i]).is_whole() && !chunks[i].is_end(),
    ensures
        png_kept(png_bytes(chunks) + tail) == match png_kept(tail) {
            Some(kept) => Some(png_bytes(picture_chunks(chunks)) + kept),
            None => None,
        },
    decreases chunks.len(),
{
    if chunks.len() == 0 {
        assert(png_bytes(chunks) + tail =~= tail);
        if let Some(kept) = png_kept(tail) {
            assert(png_bytes(chunks) + kept =~= kept);
        }
    } else {
        let first = chunks[0];
        let rest = chunks.drop_first();
        assert(first.is_whole());
        assert forall|i: int| 0 <= i < rest.len() implies (#[trigger] rest[i]).is_whole()
            && !rest[i].is_end() by {
            assert(rest[i] == chunks[i + 1]);
        }
        lemma_png_chunks(rest, tail);
        let s = png_bytes(chunks) + tail;
        assert(s =~= first.bytes() + (png_bytes(rest) + tail));
        lemma_png_chunk(first, png_bytes(rest) + tail);
        let picture = picture_chunks(rest);
        if let Some(kept) = png_kept(tail) {
            let all = seq![first] + picture;
            assert(all.drop_first() =~= picture);
            assert(first.bytes() + (png_bytes(picture) + kept) =~= (first.bytes() + png_bytes(
                picture,
            )) + kept);
            assert(Seq::<u8>::empty() + (png_bytes(picture) + kept) =~= png_bytes(picture) + kept);
        }
    }
}

/// A PNG image whose chunks are whole is stripped, whatever they are: the critical chunks up to the
/// end chunk stand there in their order and unchanged, and nothing else does, be it an ancillary
/// chunk or what stands behind the end.
pub proof fn a_whole_png_keeps_its_critical_chunks_alone(
    chunks: Seq<PngChunk>,
    end: PngChunk,
    behind_the_end: Seq<u8>,
)
    requires
        forall|i: int|
            0 <= i < chunks.len() ==> (#[trigger] chunks[i]).is_whole() && !chunks[i].is_end(),
        end.is_whole() && end.is_end(),
    ensures
        ({
            let signature = seq![0x89u8, 0x50, 0x4e, 0x47, 0x0d, 0x0a, 0x1a, 0x0a];
            let image = signature + png_bytes(chunks) + end.bytes() + behind_the_end;
            let kept = signature + png_bytes(picture_chunks(chunks)) + end.bytes();
            &&& png_stripped(image) == Some(kept)
            &&& stripped("image/png"@, image) == kept
        }),
{
    let signature = seq![0x89u8, 0x50, 0x4e, 0x47, 0x0d, 0x0a, 0x1a, 0x0a];
    let tail = end.bytes() + behind_the_end;
    let image = signature + png_bytes(chunks) + end.bytes() + behind_the_end;
    lemma_png_chunks(chunks, tail);
    lemma_png_chunk(end, behind_the_end);
    assert(png_kept(tail) == Some(end.bytes()));
    assert(image.take(8) =~= signature);
    assert(image.skip(8) =~= png_bytes(chunks) + tail);
    assert(signature + (png_bytes(picture_chunks(chunks)) + end.bytes()) =~= signature + png_bytes(
        picture_chunks(chunks),
    ) + end.bytes());
    lemma_types_differ();
}

/// The content types of images that are told apart here are different texts.
proof fn lemma_types_differ()
    ensures
        "image/png"@ != "image/jpeg"@,
        "image/gif"@ != "image/jpeg"@,
        "image/gif"@ != "image/png"@,
{
    reveal_strlit("image/png");
    reveal_strlit("image/jpeg");
    reveal_strlit("image/gif");
    assert("image/jpeg"@.len() == 10);
    assert("image/png"@[6] == 'p' && "image/gif"@[6] == 'g');
}

/// A PNG image that is cut off within a chunk is left as it is, and so are bytes that are no PNG
/// image at all; one that is cut off between two chunks keeps what is there.
pub proof fn a_broken_png_is_left_alone(chunks: Seq<PngChunk>, broken: Seq<u8>, other: Seq<u8>)
    requires
        forall|i: int|
            0 <= i < chunks.len() ==> (#[trigger] chunks[i]).is_whole() && !chunks[i].is_end(),
        broken.len() >= 12,
        broken[0] * 0x100_0000 + broken[1] * 0x1_0000 + broken[2] * 256 + broken[3] + 12
            > broken.len(),
        other.len() < 8 || other.take(8) != seq![0x89u8, 0x50, 0x4e, 0x47, 0x0d, 0x0a, 0x1a, 0x0a],
    ensures
        ({
            let signature = seq![0x89u8, 0x50, 0x4e, 0x47, 0x0d, 0x0a, 0x1a, 0x0a];
            let image = signature + png_bytes(chunks) + broken;
            &&& png_stripped(image) is None
            &&& stripped("image/png"@, image) == image
            &&& png_stripped(signature + png_bytes(chunks)) == Some(
                signature + png_bytes(picture_chunks(chunks)),
            )
        }),
        png_stripped(other) is None,
        stripped("image/png"@, other) == other,
{
    let signature = seq![0x89u8, 0x50, 0x4e, 0x47, 0x0d, 0x0a, 0x1a, 0x0a];
    let image = signature + png_bytes(chunks) + broken;
    lemma_png_chunks(chunks, broken);
    assert(image.take(8) =~= signature);
    assert(image.skip(8) =~= png_bytes(chunks) + broken);
    assert(png_kept(broken) is None);
    let whole = signature + png_bytes(chunks);
    lemma_png_chunks(chunks, Seq::empty());
    assert(png_bytes(chunks) + Seq::<u8>::empty() =~= png_bytes(chunks));
    assert(png_bytes(picture_chunks(chunks)) + Seq::<u8>::empty() =~= png_bytes(
        picture_chunks(chunks),
    ));
    assert(whole.take(8) =~= signature);
    assert(whole.skip(8) =~= png_bytes(chunks));
    lemma_types_differ();
}

/// Nothing is taken out of a file that is neither a JPEG nor a PNG image.
pub proof fn other_files_keep_every_byte(content_type: Seq<char>, bytes: Seq<u8>)
    requires
        content_type != "image/jpeg"@,
        content_type != "image/png"@,
    ensures
        stripped(content_type, bytes) == bytes,
{
}

/// Bytes without a known signature are text exactly where each of them is a tab, a line break or
/// printable; a known signature says more than that.
pub proof fn bytes_are_text_where_all_can_be_printed(kind: Seq<char>, bytes: Seq<u8>)
    ensures
        sniffed_type(Some(kind), bytes) == kind,
        (forall|i: int|
            0 <= i < bytes.len() ==> #[trigger] bytes[i] == 9 || bytes[i] == 10 || bytes[i] == 13
                || (32 <= bytes[i] && bytes[i] <= 126)) ==> sniffed_type(None, bytes)
            == "text/plain"@,
        (exists|i: int|
            0 <= i < bytes.len() && #[trigger] bytes[i] != 9 && bytes[i] != 10 && bytes[i] != 13
                && (bytes[i] < 32 || bytes[i] > 126)) ==> sniffed_type(None, bytes)
            == "application/octet-stream"@,
{
}

/// The metadata of a file says of it what is known: its type, its size, whether it was stripped, and
/// of an image its width and its height.
pub proof fn metadata_says_what_is_known(
    content_type: Seq<char>,
    size_bytes: i64,
    width: i64,
    height: i64,
    metadata_stripped: bool,
)
    ensures
        ({
            let image = metadata_members(
                content_type,
                size_bytes,
                Some((width, height)),
                metadata_stripped,
            );
            let other = metadata_members(content_type, size_bytes, None, metadata_stripped);
            &&& image["image_width"@] == JsonView::Integer(width)
            &&& image["image_height"@] == JsonView::Integer(height)
            &&& image["content_type"@] == JsonView::Text(content_type)
            &&& image["size_bytes"@] == JsonView::Integer(size_bytes)
            &&& image["metadata_stripped"@] == JsonView::Bool(metadata_stripped)
            &&& other == image.insert("image_width"@, JsonView::Null).insert(
                "image_height"@,
                JsonView::Null,
            )
            &&& forall|name: Seq<char>| #[trigger]
                image.contains_key(name) <==> name == "image_width"@ || name == "image_height"@
                    || name == "content_type"@ || name == "size_bytes"@ || name
                    == "metadata_stripped"@
        }),
{
    reveal_strlit("image_width");
    reveal_strlit("image_height");
    reveal_strlit("content_type");
    reveal_strlit("size_bytes");
    reveal_strlit("metadata_stripped");
    assert("image_width"@.len() == 11 && "size_bytes"@.len() == 10);
    assert("metadata_stripped"@.len() == 17);
    assert("image_height"@.len() == 12 && "content_type"@.len() == 12);
    assert("image_height"@[0] == 'i' && "content_type"@[0] == 'c');
    let image = metadata_members(content_type, size_bytes, Some((width, height)), metadata_stripped);
    let other = metadata_members(content_type, size_bytes, None, metadata_stripped);
    assert(other =~= image.insert("image_width"@, JsonView::Null).insert(
        "image_height"@,
        JsonView::Null,
    ));
}

/// Whether an image is not out of all proportion to a box: it is at most 160 times as wide and as
/// high, or 2700 times where its samples are single bytes, or has at most 65535 pixels.
pub open spec fn is_in_proportion(image: image::DynamicImage, width: u32, height: u32) -> bool {
    let (w, h) = image_size(image);
    let (bytes, channels) = pixel_layout(image);
    &&& w <= 0x100_0000 && h <= 0x100_0000
    &&& {
        ||| w <= 160 * width && h <= 160 * height
        ||| bytes == channels && w <= 2700 * width && h <= 2700 * height
        ||| w * h <= 65535
    }
}

/// How long a block can be in an image that is so many times as large as its box.
proof fn lemma_longest_block(size: (u32, u32), width: u32, height: u32, times: int)
    requires
        width > 0,
        height > 0,
        times >= 0,
        size.0 <= times * width,
        size.1 <= times * height,
    ensures
        0 <= longest_block(size.0, size, width, height) <= times * 3 / 2 + 3,
        0 <= longest_block(size.1, size, width, height) <= times * 3 / 2 + 3,
{
    let across = times_over(size.0, width);
    let down = times_over(size.1, height);
    assert(0 <= across <= times) by (nonlinear_arith)
        requires
            width > 0,
            size.0 <= times * width,
            across == (size.0 + width - 1) / width as int,
    ;
    assert(0 <= down <= times) by (nonlinear_arith)
        requires
            height > 0,
            size.1 <= times * height,
            down == (size.1 + height - 1) / height as int,
    ;
}

/// Every image that is not out of all proportion to a box can be scaled down to it.
pub proof fn ordinary_images_can_be_shrunk(image: image::DynamicImage, width: u32, height: u32)
    requires
        width > 0,
        height > 0,
        is_in_proportion(image, width, height),
    ensures
        can_be_shrunk(image, width, height),
{
    let size = image_size(image);
    let a = longest_block(size.0, size, width, height);
    let b = longest_block(size.1, size, width, height);
    if size.0 <= 160 * width && size.1 <= 160 * height {
        lemma_longest_block(size, width, height, 160);
        assert(a * b <= 243 * 243) by (nonlinear_arith)
            requires
                0 <= a <= 243,
                0 <= b <= 243,
        ;
    } else if size.0 <= 2700 * width && size.1 <= 2700 * height {
        lemma_longest_block(size, width, height, 2700);
        assert(a * b <= 4053 * 4053) by (nonlinear_arith)
            requires
                0 <= a <= 4053,
                0 <= b <= 4053,
        ;
    }
    let times = size.0 + size.1;
    assert(size.0 <= times * width && size.1 <= times * height) by (nonlinear_arith)
        requires
            width > 0,
            height > 0,
            times == size.0 + size.1,
    ;
    lemma_longest_block(size, width, height, times);
    assert(0 <= a <= size.0 && 0 <= b <= size.1);
    assert(a * b <= size.0 * size.1) by (nonlinear_arith)
        requires
            0 <= a <= size.0,
            0 <= b <= size.1,
    ;
}

/// Every JPEG, PNG and GIF image that can be decoded in its own format within the limits, and is not
/// out of all proportion to them, gets a thumbnail: the image scaled down to the limits, as PNG.
pub proof fn every_decodable_image_gets_a_thumbnail(
    content_type: Seq<char>,
    format: ThumbnailFormat,
    bytes: Seq<u8>,
    limits: ThumbnailLimits,
    dimensions: Option<(i64, i64)>,
    placeholder: (u32, u32),
    image: image::DynamicImage,
)
    requires
        (content_type == "image/jpeg"@ && format == ThumbnailFormat::Jpeg) || (content_type
            == "image/png"@ && format == ThumbnailFormat::Png) || (content_type == "image/gif"@
            && format == ThumbnailFormat::Gif),
        limits.max_dimension > 0,
        decoded_image(
            bytes,
            format,
            limits.source_max_pixels,
            limits.source_max_pixels,
            limits.source_max_alloc_bytes,
        ) == Ok::<image::DynamicImage, DecodeFailure>(image),
        is_in_proportion(image, limits.max_dimension, limits.max_dimension),
    ensures
        derivative(content_type, bytes, limits, dimensions, placeholder) == png_encoding(
            shrunk_image(image, limits.max_dimension, limits.max_dimension),
        ),
{
    lemma_types_differ();
    ordinary_images_can_be_shrunk(image, limits.max_dimension, limits.max_dimension);
}

/// An image of a known type that is broken gets a transparent placeholder where its header tells a
/// size within the limits, and nothing otherwise.
pub proof fn a_broken_image_gets_a_placeholder(
    content_type: Seq<char>,
    format: ThumbnailFormat,
    bytes: Seq<u8>,
    limits: ThumbnailLimits,
    width: i64,
    height: i64,
    placeholder: (u32, u32),
)
    requires
        (content_type == "image/jpeg"@ && format == ThumbnailFormat::Jpeg) || (content_type
            == "image/png"@ && format == ThumbnailFormat::Png) || (content_type == "image/gif"@
            && format == ThumbnailFormat::Gif),
        limits.max_dimension > 0,
        decoded_image(
            bytes,
            format,
            limits.source_max_pixels,
            limits.source_max_pixels,
            limits.source_max_alloc_bytes,
        ) == Err::<image::DynamicImage, DecodeFailure>(DecodeFailure::Other),
    ensures
        width <= limits.source_max_pixels && height <= limits.source_max_pixels ==> derivative(
            content_type,
            bytes,
            limits,
            Some((width, height)),
            placeholder,
        ) == png_encoding(filled_image(placeholder.0, placeholder.1, seq![0u8, 0, 0, 0])),
        width > limits.source_max_pixels || height > limits.source_max_pixels ==> derivative(
            content_type,
            bytes,
            limits,
            Some((width, height)),
            placeholder,
        ) is None,
        derivative(content_type, bytes, limits, None, placeholder) is None,
{
    lemma_types_differ();
}

/// No other file gets a thumbnail, no image gets one that may have no size, and none that decoding
/// refused for its size gets one.
pub proof fn nothing_else_gets_a_thumbnail(
    content_type: Seq<char>,
    bytes: Seq<u8>,
    limits: ThumbnailLimits,
    dimensions: Option<(i64, i64)>,
    placeholder: (u32, u32),
)
    ensures
        content_type != "image/jpeg"@ && content_type != "image/png"@ && content_type
            != "image/gif"@ ==> derivative(content_type, bytes, limits, dimensions, placeholder)
            is None,
        limits.max_dimension == 0 ==> derivative(
            content_type,
            bytes,
            limits,
            dimensions,
            placeholder,
        ) is None,
        (forall|format: ThumbnailFormat| #[trigger]
            decoded_image(
                bytes,
                format,
                limits.source_max_pixels,
                limits.source_max_pixels,
                limits.source_max_alloc_bytes,
            ) == Err::<image::DynamicImage, DecodeFailure>(DecodeFailure::Limits))
            ==> derivative(content_type, bytes, limits, dimensions, placeholder) is None,
{
}

/// An image that was decoded is had as it was decoded, and one that was not is not had, for whatever
/// reason.
pub proof fn decoded_images_are_had(image: image::DynamicImage, failure: DecodeFailure)
    ensures
        image_or_none(Ok(image)) == Some(image),
        image_or_none(Err(failure)) is None,
{
}

} // verus!
