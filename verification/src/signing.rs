//! Signatures of internal links.

use base64::Engine;
use sha2::Digest;
use vstd::prelude::*;
use vstd::string::*;

use crate::number::push_signed_decimal;

#[allow(unused_imports)]
use crate::number::{
    decimal, decimal_reads_back, is_digit, signed_decimal, signed_decimal_reads_back,
};
#[allow(unused_imports)]
use crate::text::lemma_char_code;
#[allow(unused_imports)]
use vstd::utf8::{encode_utf8, encode_utf8_decode_utf8, is_ascii_chars, is_ascii_chars_encode_utf8};

verus! {

/// The SHA-256 digest of a message.
pub uninterp spec fn sha256(message: Seq<u8>) -> Seq<u8>;

/// Calls `sha2::Sha256::digest`: thirty-two bytes that depend on the message alone.
#[verifier::external_body]
fn sha256_digest(message: &[u8]) -> (r: Vec<u8>)
    ensures
        r@ == sha256(message@),
        r@.len() == 32,
{
    sha2::Sha256::digest(message).to_vec()
}

/// The digit of base 64 for a number of six bits, in the URL-safe alphabet.
pub open spec fn base64_digit(n: int) -> char {
    if n < 26 {
        (0x41 + n) as char
    } else if n < 52 {
        (0x61 + n - 26) as char
    } else if n < 62 {
        (0x30 + n - 52) as char
    } else if n == 62 {
        '-'
    } else {
        '_'
    }
}

/// The byte at a place, zero behind the end.
pub open spec fn byte_or_zero(bytes: Seq<u8>, i: int) -> int {
    if i < bytes.len() {
        bytes[i] as int
    } else {
        0
    }
}

/// The six bits of bytes at a place, where three bytes hold four times six bits.
pub open spec fn sextet(bytes: Seq<u8>, i: int) -> int {
    let first = byte_or_zero(bytes, i / 4 * 3);
    let second = byte_or_zero(bytes, i / 4 * 3 + 1);
    let third = byte_or_zero(bytes, i / 4 * 3 + 2);
    if i % 4 == 0 {
        first / 4
    } else if i % 4 == 1 {
        first % 4 * 16 + second / 16
    } else if i % 4 == 2 {
        second % 16 * 4 + third / 64
    } else {
        third % 64
    }
}

/// Bytes in the URL-safe alphabet of base 64, without padding: a digit for every six bits, the last
/// of them filled up with zeros.
pub open spec fn base64_url(bytes: Seq<u8>) -> Seq<char> {
    Seq::new((bytes.len() * 4 + 2) / 3, |i: int| base64_digit(sextet(bytes, i)))
}

/// `encode` of `base64`'s `URL_SAFE_NO_PAD` writes a digit of its alphabet for every six bits. The
/// result must fit in memory.
#[verifier::external_body]
fn base64_encode(bytes: &[u8]) -> (r: String)
    requires
        bytes@.len() * 2 <= isize::MAX,
    ensures
        r@ == base64_url(bytes@),
{
    base64::engine::general_purpose::URL_SAFE_NO_PAD.encode(bytes)
}

/// The message that is signed: the secret, the identifier of the file and the moment at which the
/// link ends, with a zero byte between them.
pub open spec fn signed_message(secret: Seq<char>, public_id: Seq<char>, expires: i64) -> Seq<u8> {
    encode_utf8(secret) + seq![0u8] + encode_utf8(public_id) + seq![0u8] + encode_utf8(
        signed_decimal(expires as int),
    )
}

/// The signature of a link.
pub open spec fn signature(secret: Seq<char>, public_id: Seq<char>, expires: i64) -> Seq<char> {
    base64_url(sha256(signed_message(secret, public_id, expires)))
}

/// Puts the message together that is signed.
pub fn message_to_sign(secret: &str, public_id: &str, expires: i64) -> (r: Vec<u8>)
    ensures
        r@ == signed_message(secret@, public_id@, expires),
{
    let mut when: String = String::new();
    push_signed_decimal(&mut when, expires);
    assert(when@ =~= signed_decimal(expires as int));
    let mut message: Vec<u8> = Vec::new();
    message.extend_from_slice(secret.as_bytes());
    message.push(0);
    message.extend_from_slice(public_id.as_bytes());
    message.push(0);
    message.extend_from_slice(when.as_str().as_bytes());
    assert(message@ =~= signed_message(secret@, public_id@, expires));
    message
}

/// Signs a link to a file.
pub fn sign_internal_file_url(secret: &str, public_id: &str, expires: i64) -> (r: String)
    ensures
        r@ == signature(secret@, public_id@, expires),
{
    let message: Vec<u8> = message_to_sign(secret, public_id, expires);
    base64_encode(sha256_digest(message.as_slice()).as_slice())
}

/// Whether two rows of bytes are equal, without stopping at the first difference.
pub fn constant_time_eq(left: &[u8], right: &[u8]) -> (r: bool)
    ensures
        r == (left@ == right@),
{
    let n: usize = left.len();
    let m: usize = right.len();
    let mut diff: usize = n ^ m;
    let end: usize = if n > m {
        n
    } else {
        m
    };
    let mut i: usize = 0;
    assert((n ^ m == 0) == (n == m)) by (bit_vector);
    while i < end
        invariant
            n == left@.len(),
            m == right@.len(),
            end == if n > m {
                n
            } else {
                m
            },
            i <= end,
            (diff == 0) == (n == m && forall|j: int| 0 <= j < i ==> left@[j] == right@[j]),
        decreases end - i,
    {
        let a: u8 = if i < n {
            left[i]
        } else {
            0
        };
        let b: u8 = if i < m {
            right[i]
        } else {
            0
        };
        let x: usize = (a ^ b) as usize;
        assert(((a ^ b) == 0) == (a == b)) by (bit_vector);
        assert((diff | x == 0) == (diff == 0 && x == 0)) by (bit_vector);
        diff = diff | x;
        i = i + 1;
    }
    assert((n == m && forall|j: int| 0 <= j < n ==> left@[j] == right@[j]) ==> left@ =~= right@);
    diff == 0
}

/// The text of a moment holds no zero byte.
proof fn lemma_moment_has_no_zero(expires: i64)
    ensures
        !encode_utf8(signed_decimal(expires as int)).contains(0u8),
{
    let s = signed_decimal(expires as int);
    let magnitude = if expires < 0 {
        (-expires) as nat
    } else {
        expires as nat
    };
    decimal_reads_back(magnitude);
    assert forall|i: int| 0 <= i < s.len() implies '-' == #[trigger] s[i] || is_digit(s[i]) by {
        if expires < 0 {
            if i > 0 {
                assert(s[i] == decimal(magnitude)[i - 1]);
            }
        } else {
            assert(s[i] == decimal(magnitude)[i]);
        }
    }
    assert(is_ascii_chars(s)) by {
        assert forall|i: int| 0 <= i < s.len() implies '\0' <= #[trigger] s[i] && s[i] <= '\u{7f}' by {
            assert('-' == s[i] || is_digit(s[i]));
            lemma_char_code(s[i]);
        }
    }
    is_ascii_chars_encode_utf8(s);
    let b = encode_utf8(s);
    assert forall|i: int| 0 <= i < b.len() implies b[i] != 0 by {
        assert(s[i] as u8 == b[i]);
        assert('-' == s[i] || is_digit(s[i]));
        lemma_char_code(s[i]);
    }
}

/// Texts with the same bytes are the same.
proof fn lemma_encode_is_injective(a: Seq<char>, b: Seq<char>)
    requires
        encode_utf8(a) == encode_utf8(b),
    ensures
        a == b,
{
    encode_utf8_decode_utf8(a);
    encode_utf8_decode_utf8(b);
}

/// Whether a text is the expected signature, without stopping at the first difference.
pub fn is_signature(expected: &str, submitted: &str) -> (r: bool)
    ensures
        r == (submitted@ == expected@),
{
    let r: bool = constant_time_eq(expected.as_bytes(), submitted.as_bytes());
    proof {
        if r {
            lemma_encode_is_injective(expected@, submitted@);
        }
    }
    r
}

/// No two links that are signed with one secret share a message: the message tells the file and
/// the moment apart, whatever the identifiers hold.
pub proof fn signed_messages_tell_links_apart(
    secret: Seq<char>,
    id1: Seq<char>,
    expires1: i64,
    id2: Seq<char>,
    expires2: i64,
)
    requires
        signed_message(secret, id1, expires1) == signed_message(secret, id2, expires2),
    ensures
        id1 == id2,
        expires1 == expires2,
{
    let m = signed_message(secret, id1, expires1);
    let front = encode_utf8(secret).len() as int + 1;
    let a = encode_utf8(id1);
    let b = encode_utf8(id2);
    let t1 = encode_utf8(signed_decimal(expires1 as int));
    let t2 = encode_utf8(signed_decimal(expires2 as int));
    lemma_moment_has_no_zero(expires1);
    lemma_moment_has_no_zero(expires2);
    let z1 = front + a.len();
    let z2 = front + b.len();
    let m2 = signed_message(secret, id2, expires2);
    assert(m[z1] == 0);
    assert(m2[z2] == 0);
    assert(m.len() == z1 + 1 + t1.len());
    assert(m2.len() == z2 + 1 + t2.len());
    if z1 < z2 {
        assert(t1[z2 - z1 - 1] == m[z2]);
        assert(t1.contains(0u8));
    }
    if z2 < z1 {
        assert(t2[z1 - z2 - 1] == m[z1]);
        assert(t2.contains(0u8));
    }
    assert(m.subrange(front, z1) =~= a);
    assert(m.subrange(front, z2) =~= b);
    assert(m.skip(z1 + 1) =~= t1);
    assert(m.skip(z2 + 1) =~= t2);
    lemma_encode_is_injective(id1, id2);
    lemma_encode_is_injective(signed_decimal(expires1 as int), signed_decimal(expires2 as int));
    signed_decimal_reads_back(expires1);
    signed_decimal_reads_back(expires2);
}

/// The signature of a link is the digest of the secret, the identifier and the moment, with zero
/// bytes between them, in digits of base 64.
pub proof fn a_signature_covers_the_whole_link(secret: Seq<char>, public_id: Seq<char>, expires: i64)
    ensures
        signature(secret, public_id, expires) == base64_url(
            sha256(
                encode_utf8(secret).push(0) + encode_utf8(public_id).push(0) + encode_utf8(
                    signed_decimal(expires as int),
                ),
            ),
        ),
{
    assert(signed_message(secret, public_id, expires) =~= encode_utf8(secret).push(0)
        + encode_utf8(public_id).push(0) + encode_utf8(signed_decimal(expires as int)));
}

/// Two secrets never share the message of a link.
pub proof fn signed_messages_tell_secrets_apart(
    secret: Seq<char>,
    other: Seq<char>,
    public_id: Seq<char>,
    expires: i64,
)
    requires
        signed_message(secret, public_id, expires) == signed_message(other, public_id, expires),
    ensures
        secret == other,
{
    let m = signed_message(secret, public_id, expires);
    let n = signed_message(other, public_id, expires);
    let tail = 2 + encode_utf8(public_id).len() + encode_utf8(signed_decimal(expires as int)).len();
    assert(m.len() == encode_utf8(secret).len() + tail);
    assert(n.len() == encode_utf8(other).len() + tail);
    assert(m.take(m.len() - tail) =~= encode_utf8(secret));
    assert(n.take(n.len() - tail) =~= encode_utf8(other));
    lemma_encode_is_injective(secret, other);
}

} // verus!
