//! Internet addresses and their text.

use vstd::prelude::*;
use vstd::string::*;

use crate::number::{push_decimal, read_digits};
use crate::text::{chars_of, find_first, split_on, string_of, trim};

#[allow(unused_imports)]
use crate::number::{bounded_value, decimal, decimal_reads_back, digit, is_digit, is_digits};
#[allow(unused_imports)]
use crate::text::{
    a_trimmed_text_stays, first_at, is_white_space, lemma_first_at, lemma_first_at_is,
    lemma_split_append, lemma_split_nonempty, lemma_split_whole, split, trimmed, views,
};

verus! {

/// An internet address of either version.
#[derive(Debug, Clone, Copy, PartialEq, Eq)]
pub enum IpAddr {
    V4([u8; 4]),
    V6([u16; 8]),
}

/// An address as its row of octets or of groups.
pub enum IpView {
    V4(Seq<u8>),
    V6(Seq<u16>),
}

impl IpView {
    /// Whether an address has as many parts as its kind asks for.
    pub open spec fn wf(self) -> bool {
        match self {
            IpView::V4(octets) => octets.len() == 4,
            IpView::V6(groups) => groups.len() == 8,
        }
    }
}

impl View for IpAddr {
    type V = IpView;

    open spec fn view(&self) -> IpView {
        match self {
            IpAddr::V4(octets) => IpView::V4(octets@),
            IpAddr::V6(groups) => IpView::V6(groups@),
        }
    }
}

/// The view of an optional address.
pub open spec fn opt_ip(ip: Option<IpAddr>) -> Option<IpView> {
    match ip {
        Some(ip) => Some(ip@),
        None => None,
    }
}

/// The octet that a text stands for: up to three digits, with no zero before others.
pub open spec fn octet_value(s: Seq<char>) -> Option<u8> {
    if s.len() > 3 || (s.len() > 1 && s[0] == '0') {
        None
    } else {
        match bounded_value(s, 255) {
            Some(n) => Some(n as u8),
            None => None,
        }
    }
}

/// The four octets that a text stands for: four numbers with dots between them.
pub open spec fn v4_value(s: Seq<char>) -> Option<Seq<u8>> {
    let parts = split(s, '.');
    if parts.len() == 4 && octet_value(parts[0]) is Some && octet_value(parts[1]) is Some
        && octet_value(parts[2]) is Some && octet_value(parts[3]) is Some {
        Some(
            seq![
                octet_value(parts[0])->0,
                octet_value(parts[1])->0,
                octet_value(parts[2])->0,
                octet_value(parts[3])->0,
            ],
        )
    } else {
        None
    }
}

/// What a hexadecimal digit stands for.
pub open spec fn hex_digit(c: char) -> Option<nat> {
    let u = c as u32;
    if 0x30 <= u <= 0x39 {
        Some((u - 0x30) as nat)
    } else if 0x61 <= u <= 0x66 {
        Some((u - 0x57) as nat)
    } else if 0x41 <= u <= 0x46 {
        Some((u - 0x37) as nat)
    } else {
        None
    }
}

/// What a row of hexadecimal digits stands for.
pub open spec fn hex_value(s: Seq<char>) -> Option<nat>
    decreases s.len(),
{
    if s.len() == 0 {
        Some(0)
    } else {
        match (hex_value(s.drop_last()), hex_digit(s.last())) {
            (Some(n), Some(d)) => Some(16 * n + d),
            _ => None,
        }
    }
}

/// The group that a text stands for: one to four hexadecimal digits.
pub open spec fn group_value(s: Seq<char>) -> Option<u16> {
    if 1 <= s.len() <= 4 {
        match hex_value(s) {
            Some(n) => Some(n as u16),
            None => None,
        }
    } else {
        None
    }
}

/// The groups that texts stand for, one each.
pub open spec fn group_values(parts: Seq<Seq<char>>) -> Option<Seq<u16>>
    decreases parts.len(),
{
    if parts.len() == 0 {
        Some(Seq::empty())
    } else {
        match (group_values(parts.drop_last()), group_value(parts.last())) {
            (Some(groups), Some(group)) => Some(groups.push(group)),
            _ => None,
        }
    }
}

/// Four octets as two groups.
pub open spec fn paired(octets: Seq<u8>) -> Seq<u16> {
    seq![(octets[0] * 256 + octets[1]) as u16, (octets[2] * 256 + octets[3]) as u16]
}

/// The groups that the last part of a row stands for: one, or two in the dotted form.
pub open spec fn last_part_value(s: Seq<char>, dotted: bool) -> Option<Seq<u16>> {
    match group_value(s) {
        Some(group) => Some(seq![group]),
        None => match v4_value(s) {
            Some(octets) if dotted => Some(paired(octets)),
            _ => None,
        },
    }
}

/// The groups that a row of parts with colons between them stands for; a row may be empty, and
/// `dotted` tells whether the last part may be in the dotted form.
pub open spec fn row_value(s: Seq<char>, dotted: bool) -> Option<Seq<u16>> {
    if s.len() == 0 {
        Some(Seq::empty())
    } else {
        let parts = split(s, ':');
        match (group_values(parts.drop_last()), last_part_value(parts.last(), dotted)) {
            (Some(groups), Some(last)) => Some(groups + last),
            _ => None,
        }
    }
}

/// The place of the first two colons in a row, or the text's length.
pub open spec fn double_colon(s: Seq<char>) -> int
    decreases s.len(),
{
    if s.len() < 2 {
        s.len() as int
    } else if s[0] == ':' && s[1] == ':' {
        0
    } else {
        1 + double_colon(s.drop_first())
    }
}

/// A row of zero groups.
pub open spec fn zeros(n: nat) -> Seq<u16> {
    Seq::new(n, |i: int| 0u16)
}

/// The eight groups that a text stands for: all of them, or fewer with two colons in the place of
/// one zero group or more.
pub open spec fn v6_value(s: Seq<char>) -> Option<Seq<u16>> {
    let at = double_colon(s);
    if at == s.len() {
        match row_value(s, true) {
            Some(groups) if groups.len() == 8 => Some(groups),
            _ => None,
        }
    } else {
        match (row_value(s.take(at), false), row_value(s.skip(at + 2), true)) {
            (Some(head), Some(tail)) if head.len() + tail.len() <= 7 => Some(
                head + zeros((8 - head.len() - tail.len()) as nat) + tail,
            ),
            _ => None,
        }
    }
}

/// The address that a text stands for.
pub open spec fn ip_value(s: Seq<char>) -> Option<IpView> {
    match v4_value(s) {
        Some(octets) => Some(IpView::V4(octets)),
        None => match v6_value(s) {
            Some(groups) => Some(IpView::V6(groups)),
            None => None,
        },
    }
}

/// Reads one octet.
fn read_octet(s: &str) -> (r: Option<u8>)
    ensures
        r == octet_value(s@),
{
    let cs: Vec<char> = chars_of(s);
    if cs.len() > 3 || (cs.len() > 1 && cs[0] == '0') {
        return None;
    }
    match read_digits(cs.as_slice(), 255) {
        Some(n) => Some(n as u8),
        None => None,
    }
}

/// Reads four octets.
fn read_v4(s: &str) -> (r: Option<[u8; 4]>)
    ensures
        match r {
            Some(octets) => v4_value(s@) == Some(octets@),
            None => v4_value(s@) is None,
        },
{
    let parts: Vec<String> = split_on(s, '.');
    let ghost all = split(s@, '.');
    assert(all == views(parts@));
    if parts.len() != 4 {
        return None;
    }
    assert(all[0] == parts@[0]@ && all[1] == parts@[1]@ && all[2] == parts@[2]@ && all[3]
        == parts@[3]@);
    match (
        read_octet(parts[0].as_str()),
        read_octet(parts[1].as_str()),
        read_octet(parts[2].as_str()),
        read_octet(parts[3].as_str()),
    ) {
        (Some(a), Some(b), Some(c), Some(d)) => {
            let octets: [u8; 4] = [a, b, c, d];
            assert(octets@ =~= seq![a, b, c, d]);
            Some(octets)
        },
        _ => None,
    }
}

/// Reads one hexadecimal digit.
fn read_hex_digit(c: char) -> (r: Option<u16>)
    ensures
        match r {
            Some(d) => hex_digit(c) == Some(d as nat) && d < 16,
            None => hex_digit(c) is None,
        },
{
    let u: u32 = c as u32;
    if 0x30 <= u && u <= 0x39 {
        Some((u - 0x30) as u16)
    } else if 0x61 <= u && u <= 0x66 {
        Some((u - 0x57) as u16)
    } else if 0x41 <= u && u <= 0x46 {
        Some((u - 0x37) as u16)
    } else {
        None
    }
}

/// A row that has a part without a value has none.
proof fn lemma_hex_value_prefix(s: Seq<char>, i: int)
    requires
        0 <= i <= s.len(),
        hex_value(s.take(i)) is None,
    ensures
        hex_value(s) is None,
    decreases s.len() - i,
{
    if i < s.len() {
        assert(s.take(i + 1).drop_last() =~= s.take(i));
        lemma_hex_value_prefix(s, i + 1);
    } else {
        assert(s.take(i) =~= s);
    }
}

/// Reads one group.
fn read_group(s: &str) -> (r: Option<u16>)
    ensures
        r == group_value(s@),
{
    let cs: Vec<char> = chars_of(s);
    if cs.len() == 0 || cs.len() > 4 {
        return None;
    }
    let mut value: u32 = 0;
    let mut i: usize = 0;
    assert(s@.take(0) =~= Seq::<char>::empty());
    while i < cs.len()
        invariant
            cs@ == s@,
            1 <= cs@.len() <= 4,
            i <= cs@.len(),
            hex_value(s@.take(i as int)) == Some(value as nat),
            i == 0 ==> value == 0,
            i == 1 ==> value < 0x10,
            i == 2 ==> value < 0x100,
            i == 3 ==> value < 0x1000,
            i == 4 ==> value < 0x1_0000,
        decreases cs@.len() - i,
    {
        assert(s@.take(i + 1).drop_last() =~= s@.take(i as int));
        match read_hex_digit(cs[i]) {
            Some(d) => {
                value = value * 16 + d as u32;
            },
            None => {
                proof {
                    lemma_hex_value_prefix(s@, i + 1);
                }
                return None;
            },
        }
        i = i + 1;
    }
    assert(s@.take(s@.len() as int) =~= s@);
    Some(value as u16)
}

/// A row of parts of which the front has no value has none.
proof fn lemma_group_values_prefix(parts: Seq<Seq<char>>, i: int)
    requires
        0 <= i <= parts.len(),
        group_values(parts.take(i)) is None,
    ensures
        group_values(parts) is None,
    decreases parts.len() - i,
{
    if i < parts.len() {
        assert(parts.take(i + 1).drop_last() =~= parts.take(i));
        lemma_group_values_prefix(parts, i + 1);
    } else {
        assert(parts.take(i) =~= parts);
    }
}

/// Reads a row of groups with colons between them.
fn read_row(s: &str, dotted: bool) -> (r: Option<Vec<u16>>)
    ensures
        match r {
            Some(groups) => row_value(s@, dotted) == Some(groups@),
            None => row_value(s@, dotted) is None,
        },
{
    if s.is_empty() {
        let none: Vec<u16> = Vec::new();
        assert(none@ =~= Seq::<u16>::empty());
        return Some(none);
    }
    let parts: Vec<String> = split_on(s, ':');
    let ghost all = split(s@, ':');
    proof {
        lemma_split_nonempty(s@, ':');
        assert(all == views(parts@));
        assert(all.len() == parts@.len());
    }
    let ghost front = all.drop_last();
    let mut groups: Vec<u16> = Vec::new();
    let mut i: usize = 0;
    assert(front.take(0) =~= Seq::<Seq<char>>::empty());
    assert(groups@ =~= Seq::<u16>::empty());
    while i < parts.len() - 1
        invariant
            parts@.len() >= 1,
            all == split(s@, ':'),
            s@.len() > 0,
            all == views(parts@),
            front == all.drop_last(),
            i <= parts@.len() - 1,
            group_values(front.take(i as int)) == Some(groups@),
        decreases parts@.len() - i,
    {
        assert(front.take(i + 1).drop_last() =~= front.take(i as int));
        assert(front.take(i + 1).last() == parts@[i as int]@);
        match read_group(parts[i].as_str()) {
            Some(group) => {
                groups.push(group);
            },
            None => {
                proof {
                    lemma_group_values_prefix(front, i + 1);
                }
                return None;
            },
        }
        i = i + 1;
    }
    assert(front.take(front.len() as int) =~= front);
    let ghost before = groups@;
    let last: &str = parts[parts.len() - 1].as_str();
    assert(last@ == all.last());
    match read_group(last) {
        Some(group) => {
            groups.push(group);
            assert(groups@ =~= before + seq![group]);
            Some(groups)
        },
        None => {
            match read_v4(last) {
                Some(octets) => {
                    if !dotted {
                        return None;
                    }
                    groups.push(octets[0] as u16 * 256 + octets[1] as u16);
                    groups.push(octets[2] as u16 * 256 + octets[3] as u16);
                    assert(groups@ =~= before + paired(octets@));
                    Some(groups)
                },
                None => None,
            }
        },
    }
}

/// The first two colons in a row are where no two stand before them.
proof fn lemma_double_colon_is(s: Seq<char>, i: int)
    requires
        0 <= i <= s.len(),
        i < s.len() ==> i + 1 < s.len() && s[i] == ':' && s[i + 1] == ':',
        forall|j: int| 0 <= j < i && j + 1 < s.len() ==> !(s[j] == ':' && #[trigger] s[j + 1] == ':'),
    ensures
        double_colon(s) == i,
    decreases s.len(),
{
    if s.len() >= 2 && i > 0 {
        let t = s.drop_first();
        assert(s[0int + 1] == s[1]);
        assert forall|j: int| 0 <= j < i - 1 && j + 1 < t.len() implies !(t[j] == ':'
            && #[trigger] t[j + 1] == ':') by {
            assert(s[(j + 1) + 1] == t[j + 1]);
            assert(s[j + 1] == t[j]);
        }
        lemma_double_colon_is(t, i - 1);
    }
}

/// The place of the first two colons in a row, or the number of characters.
fn find_double_colon(cs: &[char]) -> (r: usize)
    ensures
        r == double_colon(cs@),
        r < cs@.len() ==> r + 1 < cs@.len(),
        r <= cs@.len(),
{
    let n: usize = cs.len();
    let mut i: usize = 0;
    while i < n
        invariant
            n == cs@.len(),
            i <= n,
            forall|j: int|
                0 <= j < i && j + 1 < cs@.len() ==> !(cs@[j] == ':' && #[trigger] cs@[j + 1]
                    == ':'),
        decreases n - i,
    {
        if cs[i] == ':' && n - i > 1 && cs[i + 1] == ':' {
            proof {
                lemma_double_colon_is(cs@, i as int);
            }
            return i;
        }
        i = i + 1;
    }
    proof {
        lemma_double_colon_is(cs@, n as int);
    }
    n
}

/// Eight groups as an array.
fn eight(groups: &Vec<u16>) -> (r: [u16; 8])
    requires
        groups@.len() == 8,
    ensures
        r@ == groups@,
{
    let r: [u16; 8] = [
        groups[0],
        groups[1],
        groups[2],
        groups[3],
        groups[4],
        groups[5],
        groups[6],
        groups[7],
    ];
    assert(r@ =~= groups@);
    r
}

/// Reads eight groups.
fn read_v6(s: &str) -> (r: Option<[u16; 8]>)
    ensures
        match r {
            Some(groups) => v6_value(s@) == Some(groups@),
            None => v6_value(s@) is None,
        },
{
    let cs: Vec<char> = chars_of(s);
    let n: usize = cs.len();
    let at: usize = find_double_colon(cs.as_slice());
    if at == n {
        match read_row(s, true) {
            Some(groups) => {
                if groups.len() == 8 {
                    Some(eight(&groups))
                } else {
                    None
                }
            },
            None => None,
        }
    } else {
        let front: String = string_of(vstd::slice::slice_subrange(cs.as_slice(), 0, at));
        let back: String = string_of(vstd::slice::slice_subrange(cs.as_slice(), at + 2, n));
        assert(front@ =~= s@.take(at as int));
        assert(back@ =~= s@.skip(at + 2));
        match (read_row(front.as_str(), false), read_row(back.as_str(), true)) {
            (Some(head), Some(tail)) => {
                if head.len() > 7 || tail.len() > 7 - head.len() {
                    return None;
                }
                let fill: usize = 8 - head.len() - tail.len();
                let ghost h = head@;
                let mut groups: Vec<u16> = head;
                let mut i: usize = 0;
                while i < fill
                    invariant
                        i <= fill,
                        groups@ =~= h + zeros(i as nat),
                    decreases fill - i,
                {
                    groups.push(0);
                    i = i + 1;
                }
                let mut rest: Vec<u16> = tail;
                groups.append(&mut rest);
                assert(groups@ =~= h + zeros(fill as nat) + tail@);
                Some(eight(&groups))
            },
            _ => None,
        }
    }
}

/// Reads an address.
pub fn parse_ip(s: &str) -> (r: Option<IpAddr>)
    ensures
        opt_ip(r) == ip_value(s@),
{
    match read_v4(s) {
        Some(octets) => Some(IpAddr::V4(octets)),
        None => match read_v6(s) {
            Some(groups) => Some(IpAddr::V6(groups)),
            None => None,
        },
    }
}

/// Whether a text is a port number without a sign.
pub open spec fn is_port(s: Seq<char>) -> bool {
    bounded_value(s, u16::MAX as nat) is Some
}

/// The groups of an address that may carry a scope: a percent sign and a number behind it.
pub open spec fn scoped_v6_value(s: Seq<char>) -> Option<Seq<u16>> {
    let at = first_at(s, '%');
    if at == s.len() {
        v6_value(s)
    } else if bounded_value(s.skip(at + 1), u32::MAX as nat) is Some {
        v6_value(s.take(at))
    } else {
        None
    }
}

/// The address of an address with a port: four octets, a colon and the port, or eight groups in
/// square brackets, a colon and the port.
pub open spec fn socket_ip_value(s: Seq<char>) -> Option<IpView> {
    if s.len() > 0 && s[0] == '[' {
        let at = first_at(s, ']');
        if at + 1 < s.len() && s[at + 1] == ':' && is_port(s.skip(at + 2)) {
            match scoped_v6_value(s.subrange(1, at)) {
                Some(groups) => Some(IpView::V6(groups)),
                None => None,
            }
        } else {
            None
        }
    } else {
        let at = first_at(s, ':');
        if at < s.len() && is_port(s.skip(at + 1)) {
            match v4_value(s.take(at)) {
                Some(octets) => Some(IpView::V4(octets)),
                None => None,
            }
        } else {
            None
        }
    }
}

/// The address in square brackets.
pub open spec fn bracketed_ip_value(s: Seq<char>) -> Option<IpView> {
    if s.len() >= 2 && s[0] == '[' && s.last() == ']' {
        ip_value(s.subrange(1, s.len() - 1))
    } else {
        None
    }
}

/// The address that a hop of a forwarding header stands for: an address, one with a port, or one
/// in square brackets, with white space around it left out.
pub open spec fn forwarded_ip_value(s: Seq<char>) -> Option<IpView> {
    let t = trimmed(s);
    match ip_value(t) {
        Some(ip) => Some(ip),
        None => match socket_ip_value(t) {
            Some(ip) => Some(ip),
            None => bracketed_ip_value(t),
        },
    }
}

/// Reads a part of a row of characters as text.
fn part(cs: &Vec<char>, from: usize, to: usize) -> (r: String)
    requires
        from <= to <= cs@.len(),
    ensures
        r@ == cs@.subrange(from as int, to as int),
{
    string_of(vstd::slice::slice_subrange(cs.as_slice(), from, to))
}

/// Whether the characters from a place on are a number up to `max`.
fn number_behind(cs: &Vec<char>, from: usize, max: u64) -> (r: bool)
    requires
        from <= cs@.len(),
    ensures
        r == (bounded_value(cs@.skip(from as int), max as nat) is Some),
{
    let n: usize = cs.len();
    assert(cs@.subrange(from as int, n as int) =~= cs@.skip(from as int));
    read_digits(vstd::slice::slice_subrange(cs.as_slice(), from, n), max).is_some()
}

/// Reads eight groups that may carry a scope.
fn read_scoped_v6(s: &str) -> (r: Option<[u16; 8]>)
    ensures
        match r {
            Some(groups) => scoped_v6_value(s@) == Some(groups@),
            None => scoped_v6_value(s@) is None,
        },
{
    let cs: Vec<char> = chars_of(s);
    let at: usize = find_first(cs.as_slice(), '%');
    if at == cs.len() {
        read_v6(s)
    } else if number_behind(&cs, at + 1, u32::MAX as u64) {
        let front: String = part(&cs, 0, at);
        assert(front@ =~= s@.take(at as int));
        read_v6(front.as_str())
    } else {
        None
    }
}

/// Reads the address of an address with a port.
fn read_socket_ip(s: &str) -> (r: Option<IpAddr>)
    ensures
        opt_ip(r) == socket_ip_value(s@),
{
    let cs: Vec<char> = chars_of(s);
    let n: usize = cs.len();
    if n > 0 && cs[0] == '[' {
        let at: usize = find_first(cs.as_slice(), ']');
        proof {
            lemma_first_at(s@, ']');
        }
        if at < n && n - at > 1 && cs[at + 1] == ':' && number_behind(
            &cs,
            at + 2,
            u16::MAX as u64,
        ) {
            assert(at >= 1);
            let inner: String = part(&cs, 1, at);
            match read_scoped_v6(inner.as_str()) {
                Some(groups) => Some(IpAddr::V6(groups)),
                None => None,
            }
        } else {
            None
        }
    } else {
        let at: usize = find_first(cs.as_slice(), ':');
        if at < n && number_behind(&cs, at + 1, u16::MAX as u64) {
            let front: String = part(&cs, 0, at);
            assert(front@ =~= s@.take(at as int));
            match read_v4(front.as_str()) {
                Some(octets) => Some(IpAddr::V4(octets)),
                None => None,
            }
        } else {
            None
        }
    }
}

/// Reads the address in a hop of a forwarding header.
pub fn parse_forwarded_ip(value: &str) -> (r: Option<IpAddr>)
    ensures
        opt_ip(r) == forwarded_ip_value(value@),
{
    let t: &str = trim(value);
    let plain: Option<IpAddr> = parse_ip(t);
    if plain.is_some() {
        return plain;
    }
    let socket: Option<IpAddr> = read_socket_ip(t);
    if socket.is_some() {
        return socket;
    }
    let cs: Vec<char> = chars_of(t);
    let n: usize = cs.len();
    if n >= 2 && cs[0] == '[' && cs[n - 1] == ']' {
        let inner: String = part(&cs, 1, n - 1);
        parse_ip(inner.as_str())
    } else {
        None
    }
}

/// The text of four octets.
pub open spec fn v4_text(octets: Seq<u8>) -> Seq<char> {
    decimal(octets[0] as nat) + seq!['.'] + decimal(octets[1] as nat) + seq!['.'] + decimal(
        octets[2] as nat,
    ) + seq!['.'] + decimal(octets[3] as nat)
}

/// The character of a hexadecimal digit.
pub open spec fn hex_char(d: nat) -> char {
    if d < 10 {
        ((0x30 + d) as u32) as char
    } else {
        ((0x57 + d) as u32) as char
    }
}

/// The hexadecimal text of a number, without zeros before it.
pub open spec fn hex_text(n: nat) -> Seq<char>
    decreases n,
{
    if n < 16 {
        seq![hex_char(n)]
    } else {
        hex_text(n / 16).push(hex_char(n % 16))
    }
}

/// The text of a row of groups, with colons between them.
pub open spec fn row_text(groups: Seq<u16>) -> Seq<char>
    decreases groups.len(),
{
    if groups.len() == 0 {
        Seq::empty()
    } else if groups.len() == 1 {
        hex_text(groups[0] as nat)
    } else {
        row_text(groups.drop_last()) + seq![':'] + hex_text(groups.last() as nat)
    }
}

/// How many zero groups stand in a row from a place on.
pub open spec fn zero_run(groups: Seq<u16>, i: int) -> nat
    decreases groups.len() - i,
{
    if 0 <= i < groups.len() && groups[i] == 0 {
        1 + zero_run(groups, i + 1)
    } else {
        0
    }
}

/// Among the first `n` places, the first at which the longest row of zero groups starts.
pub open spec fn longest_run(groups: Seq<u16>, n: nat) -> int
    decreases n,
{
    if n <= 1 {
        0
    } else {
        let best = longest_run(groups, (n - 1) as nat);
        if zero_run(groups, n - 1) > zero_run(groups, best) {
            n - 1
        } else {
            best
        }
    }
}

/// Whether eight groups stand for an address of four octets.
pub open spec fn is_mapped(groups: Seq<u16>) -> bool {
    groups[0] == 0 && groups[1] == 0 && groups[2] == 0 && groups[3] == 0 && groups[4] == 0
        && groups[5] == 0xffff
}

/// The four octets in the last two groups.
pub open spec fn mapped_octets(groups: Seq<u16>) -> Seq<u8> {
    seq![
        (groups[6] / 256) as u8,
        (groups[6] % 256) as u8,
        (groups[7] / 256) as u8,
        (groups[7] % 256) as u8,
    ]
}

/// The text of eight groups: the dotted form for an address of four octets, else the groups with
/// two colons in the place of the longest row of two zero groups or more.
pub open spec fn v6_text(groups: Seq<u16>) -> Seq<char> {
    let start = longest_run(groups, groups.len());
    let n = zero_run(groups, start) as int;
    if is_mapped(groups) {
        "::ffff:"@ + v4_text(mapped_octets(groups))
    } else if n > 1 {
        row_text(groups.take(start)) + seq![':', ':'] + row_text(groups.skip(start + n))
    } else {
        row_text(groups)
    }
}

/// The text of an address.
pub open spec fn ip_text(ip: IpView) -> Seq<char> {
    match ip {
        IpView::V4(octets) => v4_text(octets),
        IpView::V6(groups) => v6_text(groups),
    }
}

/// Writes four octets at the end of a text.
fn push_v4(out: &mut String, a: u8, b: u8, c: u8, d: u8)
    ensures
        final(out)@ == old(out)@ + v4_text(seq![a, b, c, d]),
{
    let ghost before = out@;
    push_decimal(out, a as u64);
    out.push('.');
    push_decimal(out, b as u64);
    out.push('.');
    push_decimal(out, c as u64);
    out.push('.');
    push_decimal(out, d as u64);
    assert(out@ =~= before + v4_text(seq![a, b, c, d]));
}

/// Writes a number in hexadecimal at the end of a text.
fn push_hex(out: &mut String, n: u16)
    ensures
        final(out)@ == old(out)@ + hex_text(n as nat),
    decreases n,
{
    let ghost before = out@;
    if n >= 16 {
        push_hex(out, n / 16);
    }
    let d: u8 = (n % 16) as u8;
    let c: u8 = if d < 10 {
        0x30 + d
    } else {
        0x57 + d
    };
    out.push(c as char);
    assert(out@ =~= before + hex_text(n as nat));
}

/// Writes a row of groups at the end of a text.
fn push_row(out: &mut String, groups: &[u16; 8], from: usize, to: usize)
    requires
        from <= to <= 8,
    ensures
        final(out)@ == old(out)@ + row_text(groups@.subrange(from as int, to as int)),
{
    let ghost before = out@;
    let mut i: usize = from;
    assert(out@ =~= before + row_text(groups@.subrange(from as int, from as int)));
    while i < to
        invariant
            from <= i <= to <= 8,
            out@ == before + row_text(groups@.subrange(from as int, i as int)),
        decreases to - i,
    {
        let ghost row = groups@.subrange(from as int, i as int);
        let ghost next = groups@.subrange(from as int, i + 1);
        assert(next.drop_last() =~= row);
        let ghost mid = out@;
        if i > from {
            out.push(':');
        }
        push_hex(out, groups[i]);
        assert(out@ =~= before + row_text(next));
        i = i + 1;
    }
}

/// How many zero groups stand in a row from a place on.
fn count_zeros(groups: &[u16; 8], i: usize) -> (r: usize)
    requires
        i <= 8,
    ensures
        r == zero_run(groups@, i as int),
        r <= 8 - i,
    decreases 8 - i,
{
    if i < 8 && groups[i] == 0 {
        1 + count_zeros(groups, i + 1)
    } else {
        0
    }
}

/// Writes the text of an address.
pub fn write_ip(ip: &IpAddr) -> (r: String)
    ensures
        r@ == ip_text(ip@),
{
    let mut out: String = String::new();
    match ip {
        IpAddr::V4(octets) => {
            push_v4(&mut out, octets[0], octets[1], octets[2], octets[3]);
            assert(octets@ =~= seq![octets@[0], octets@[1], octets@[2], octets@[3]]);
            assert(out@ =~= ip_text(ip@));
        },
        IpAddr::V6(groups) => {
            let mut best: usize = 0;
            let mut length: usize = count_zeros(groups, 0);
            let mut i: usize = 1;
            while i < 8
                invariant
                    1 <= i <= 8,
                    best < 8,
                    best == longest_run(groups@, i as nat),
                    length == zero_run(groups@, best as int),
                    length <= 8 - best,
                decreases 8 - i,
            {
                let n: usize = count_zeros(groups, i);
                if n > length {
                    best = i;
                    length = n;
                }
                i = i + 1;
            }
            if groups[0] == 0 && groups[1] == 0 && groups[2] == 0 && groups[3] == 0 && groups[4]
                == 0 && groups[5] == 0xffff {
                out.append("::ffff:");
                push_v4(
                    &mut out,
                    (groups[6] / 256) as u8,
                    (groups[6] % 256) as u8,
                    (groups[7] / 256) as u8,
                    (groups[7] % 256) as u8,
                );
                assert(out@ =~= ip_text(ip@));
            } else if length > 1 {
                push_row(&mut out, groups, 0, best);
                out.push(':');
                out.push(':');
                push_row(&mut out, groups, best + length, 8);
                assert(groups@.subrange(0, best as int) =~= groups@.take(best as int));
                assert(groups@.subrange(best + length, 8) =~= groups@.skip(best + length));
                assert(out@ =~= ip_text(ip@));
            } else {
                push_row(&mut out, groups, 0, 8);
                assert(groups@.subrange(0, 8) =~= groups@);
                assert(out@ =~= ip_text(ip@));
            }
        },
    }
    out
}

/// The decimal text of an octet is read back as that octet.
proof fn lemma_octet_reads_back(n: u8)
    ensures
        octet_value(decimal(n as nat)) == Some(n),
        !decimal(n as nat).contains('.'),
        !decimal(n as nat).contains(':'),
        1 <= decimal(n as nat).len() <= 3,
{
    let s = decimal(n as nat);
    decimal_reads_back(n as nat);
    reveal_with_fuel(decimal, 3);
    assert forall|i: int| 0 <= i < s.len() implies s[i] != '.' && s[i] != ':' by {
        assert(is_digit(s[i]));
    }
    if n >= 100 {
        assert(s.len() == 3);
        assert(s[0] == digit((n / 100) as nat));
    } else if n >= 10 {
        assert(s.len() == 2);
        assert(s[0] == digit((n / 10) as nat));
    } else {
        assert(s.len() == 1);
    }
}

/// The text of four octets is read back as those octets, and holds no colon.
proof fn lemma_v4_reads_back(octets: Seq<u8>)
    requires
        octets.len() == 4,
    ensures
        v4_value(v4_text(octets)) == Some(octets),
        !v4_text(octets).contains(':'),
        v4_text(octets).len() > 4,
{
    let a = decimal(octets[0] as nat);
    let b = decimal(octets[1] as nat);
    let c = decimal(octets[2] as nat);
    let d = decimal(octets[3] as nat);
    lemma_octet_reads_back(octets[0]);
    lemma_octet_reads_back(octets[1]);
    lemma_octet_reads_back(octets[2]);
    lemma_octet_reads_back(octets[3]);
    lemma_split_whole(a, '.');
    lemma_split_append(a, b, '.');
    lemma_split_append(a + seq!['.'] + b, c, '.');
    lemma_split_append(a + seq!['.'] + b + seq!['.'] + c, d, '.');
    let s = v4_text(octets);
    assert(split(s, '.') =~= seq![a, b, c, d]);
    assert(v4_value(s)->0 =~= octets);
    assert forall|i: int| 0 <= i < s.len() implies s[i] != ':' by {
        let n1 = a.len() as int;
        let n2 = n1 + 1 + b.len();
        let n3 = n2 + 1 + c.len();
        if i < n1 {
            assert(s[i] == a[i]);
        } else if n1 < i < n2 {
            assert(s[i] == b[i - n1 - 1]);
        } else if n2 < i < n3 {
            assert(s[i] == c[i - n2 - 1]);
        } else if n3 < i {
            assert(s[i] == d[i - n3 - 1]);
        }
    }
}

/// The hexadecimal text of a number is made of hexadecimal digits and stands for that number.
proof fn lemma_hex_reads_back(n: nat)
    ensures
        hex_value(hex_text(n)) == Some(n),
        forall|i: int| 0 <= i < hex_text(n).len() ==> hex_digit(#[trigger] hex_text(n)[i]) is Some,
        hex_text(n).len() >= 1,
    decreases n,
{
    let s = hex_text(n);
    if n < 16 {
        assert(s.drop_last() =~= Seq::<char>::empty());
        assert(hex_value(Seq::<char>::empty()) == Some(0nat));
        assert(s.last() == hex_char(n));
    } else {
        lemma_hex_reads_back(n / 16);
        assert(s.drop_last() =~= hex_text(n / 16));
        assert(s.last() == hex_char(n % 16));
        assert forall|i: int| 0 <= i < s.len() implies hex_digit(#[trigger] s[i]) is Some by {
            if i < s.len() - 1 {
                assert(s[i] == hex_text(n / 16)[i]);
            }
        }
    }
}

/// The text of a group is read back as that group, and holds no colon and no dot.
proof fn lemma_group_reads_back(n: u16)
    ensures
        group_value(hex_text(n as nat)) == Some(n),
        !hex_text(n as nat).contains(':'),
        !hex_text(n as nat).contains('.'),
        1 <= hex_text(n as nat).len() <= 4,
{
    let s = hex_text(n as nat);
    lemma_hex_reads_back(n as nat);
    reveal_with_fuel(hex_text, 4);
    assert forall|i: int| 0 <= i < s.len() implies s[i] != ':' && s[i] != '.' by {
        assert(hex_digit(s[i]) is Some);
    }
}

/// The texts of the groups of a row.
spec fn group_texts(groups: Seq<u16>) -> Seq<Seq<char>> {
    groups.map_values(|g: u16| hex_text(g as nat))
}

/// The pieces of the text of a row are the texts of its groups, and no two colons stand in it side
/// by side, nor any at its ends.
proof fn lemma_row_pieces(groups: Seq<u16>)
    requires
        groups.len() > 0,
    ensures
        split(row_text(groups), ':') == group_texts(groups),
        row_text(groups).len() > 0,
        row_text(groups)[0] != ':',
        row_text(groups).last() != ':',
        !row_text(groups).contains('.'),
        forall|j: int|
            0 <= j && j + 1 < row_text(groups).len() ==> !(row_text(groups)[j] == ':'
                && #[trigger] row_text(groups)[j + 1] == ':'),
    decreases groups.len(),
{
    let s = row_text(groups);
    let last = hex_text(groups.last() as nat);
    lemma_group_reads_back(groups.last());
    if groups.len() == 1 {
        lemma_split_whole(s, ':');
        assert(split(s, ':') =~= group_texts(groups));
        assert(s.contains(s[0]));
        assert(s.contains(s.last()));
        assert forall|j: int| 0 <= j && j + 1 < s.len() implies !(s[j] == ':'
            && #[trigger] s[j + 1] == ':') by {
            assert(s.contains(s[j]));
        }
    } else {
        let front = row_text(groups.drop_last());
        lemma_row_pieces(groups.drop_last());
        lemma_split_append(front, last, ':');
        assert(split(s, ':') =~= group_texts(groups));
        let n = front.len() as int;
        assert(s[0] == front[0]);
        assert(s.last() == last.last());
        assert(last.contains(last.last()));
        assert forall|j: int| 0 <= j < s.len() implies s[j] != '.' by {
            if j < n {
                assert(front.contains(s[j]));
            } else if j > n {
                assert(last.contains(s[j])) by {
                    assert(last[j - n - 1] == s[j]);
                }
            }
        }
        assert forall|j: int| 0 <= j && j + 1 < s.len() implies !(s[j] == ':'
            && #[trigger] s[j + 1] == ':') by {
            if j + 1 < n {
                assert(front[j + 1] == s[j + 1]);
                assert(front[j] == s[j]);
            } else if j + 1 == n {
                assert(s[j] == front.last());
            } else {
                assert(last[j + 1 - n - 1] == s[j + 1]);
                assert(last.contains(s[j + 1]));
            }
        }
    }
}

/// The texts of groups are read back as those groups.
proof fn lemma_group_texts_read_back(groups: Seq<u16>)
    ensures
        group_values(group_texts(groups)) == Some(groups),
    decreases groups.len(),
{
    if groups.len() > 0 {
        let texts = group_texts(groups);
        lemma_group_texts_read_back(groups.drop_last());
        lemma_group_reads_back(groups.last());
        assert(texts.drop_last() =~= group_texts(groups.drop_last()));
        assert(groups.drop_last().push(groups.last()) =~= groups);
    } else {
        assert(groups =~= Seq::<u16>::empty());
    }
}

/// The text of a row is read back as that row.
proof fn lemma_row_reads_back(groups: Seq<u16>, dotted: bool)
    ensures
        row_value(row_text(groups), dotted) == Some(groups),
{
    if groups.len() > 0 {
        lemma_row_pieces(groups);
        let texts = group_texts(groups);
        assert(texts.drop_last() =~= group_texts(groups.drop_last()));
        lemma_group_texts_read_back(groups.drop_last());
        lemma_group_reads_back(groups.last());
        assert(groups.drop_last() + seq![groups.last()] =~= groups);
    } else {
        assert(groups =~= Seq::<u16>::empty());
    }
}

/// Every group in a row of zero groups is zero, and the row ends within the groups.
proof fn lemma_zero_run(groups: Seq<u16>, i: int)
    requires
        0 <= i <= groups.len(),
    ensures
        i + zero_run(groups, i) <= groups.len(),
        forall|j: int| i <= j < i + zero_run(groups, i) ==> groups[j] == 0,
    decreases groups.len() - i,
{
    if i < groups.len() && groups[i] == 0 {
        lemma_zero_run(groups, i + 1);
    }
}

/// The longest row of zero groups starts within the groups.
proof fn lemma_longest_run(groups: Seq<u16>, n: nat)
    requires
        0 < n <= groups.len(),
    ensures
        0 <= longest_run(groups, n) < n,
    decreases n,
{
    if n > 1 {
        lemma_longest_run(groups, (n - 1) as nat);
    }
}

/// A text without dots stands for no address of four octets.
proof fn lemma_no_dots_no_v4(s: Seq<char>)
    requires
        !s.contains('.'),
    ensures
        v4_value(s) is None,
{
    lemma_split_whole(s, '.');
}

/// Where two rows stand with two colons between them, the first two colons in a row are those.
proof fn lemma_gap_place(head: Seq<u16>, tail: Seq<u16>)
    ensures
        double_colon(row_text(head) + seq![':', ':'] + row_text(tail)) == row_text(head).len(),
{
    let h = row_text(head);
    let s = h + seq![':', ':'] + row_text(tail);
    if head.len() > 0 {
        lemma_row_pieces(head);
    }
    assert forall|j: int| 0 <= j < h.len() && j + 1 < s.len() implies !(s[j] == ':'
        && #[trigger] s[j + 1] == ':') by {
        if j + 1 < h.len() {
            assert(h[j + 1] == s[j + 1] && h[j] == s[j]);
        } else {
            assert(s[j] == h.last());
        }
    }
    lemma_double_colon_is(s, h.len() as int);
}

/// Two rows with two colons between them stand for no four octets.
proof fn lemma_gap_is_no_v4(head: Seq<u16>, tail: Seq<u16>)
    ensures
        v4_value(row_text(head) + seq![':', ':'] + row_text(tail)) is None,
{
    let h = row_text(head);
    let t = row_text(tail);
    let s = h + seq![':', ':'] + t;
    if head.len() > 0 {
        lemma_row_pieces(head);
    }
    if tail.len() > 0 {
        lemma_row_pieces(tail);
    }
    assert(!s.contains('.')) by {
        assert forall|j: int| 0 <= j < s.len() implies s[j] != '.' by {
            if j < h.len() {
                assert(h.contains(s[j]));
            } else if j >= h.len() + 2 {
                assert(t[j - h.len() - 2] == s[j]);
                assert(t.contains(s[j]));
            }
        }
    }
    lemma_no_dots_no_v4(s);
}

/// Two rows with two colons between them are read back with zeros between them.
proof fn lemma_gap_reads_back(head: Seq<u16>, tail: Seq<u16>)
    requires
        head.len() + tail.len() <= 7,
    ensures
        v6_value(row_text(head) + seq![':', ':'] + row_text(tail)) == Some(
            head + zeros((8 - head.len() - tail.len()) as nat) + tail,
        ),
{
    let h = row_text(head);
    let t = row_text(tail);
    let s = h + seq![':', ':'] + t;
    lemma_gap_place(head, tail);
    lemma_row_reads_back(head, false);
    lemma_row_reads_back(tail, true);
    assert(s.take(h.len() as int) =~= h);
    assert(s.skip(h.len() as int + 2) =~= t);
}

/// The text of eight groups is read back as those groups.
proof fn lemma_v6_reads_back(groups: Seq<u16>)
    requires
        groups.len() == 8,
    ensures
        ip_value(v6_text(groups)) == Some(IpView::V6(groups)),
{
    let start = longest_run(groups, groups.len());
    let n = zero_run(groups, start) as int;
    lemma_longest_run(groups, groups.len());
    lemma_zero_run(groups, start);
    if is_mapped(groups) {
        lemma_mapped_reads_back(groups);
    } else if n > 1 {
        let head = groups.take(start);
        let tail = groups.skip(start + n);
        lemma_gap_reads_back(head, tail);
        lemma_gap_is_no_v4(head, tail);
        assert(head + zeros((8 - head.len() - tail.len()) as nat) + tail =~= groups);
    } else {
        let s = row_text(groups);
        lemma_row_pieces(groups);
        lemma_double_colon_is(s, s.len() as int);
        lemma_row_reads_back(groups, true);
        lemma_no_dots_no_v4(s);
    }
}

/// Four hexadecimal digits of all ones stand for the highest group.
proof fn lemma_highest_group(label: Seq<char>)
    requires
        label == seq!['f', 'f', 'f', 'f'],
    ensures
        group_value(label) == Some(0xffffu16),
        group_values(seq![label]) == Some(seq![0xffffu16]),
{
    assert(hex_value(label) == Some(0xffffnat)) by {
        reveal_with_fuel(hex_value, 5);
        assert(label.drop_last() =~= seq!['f', 'f', 'f']);
        assert(label.drop_last().drop_last() =~= seq!['f', 'f']);
        assert(label.drop_last().drop_last().drop_last() =~= seq!['f']);
        assert(label.drop_last().drop_last().drop_last().drop_last() =~= Seq::<char>::empty());
    }
    let row = seq![label];
    assert(row.drop_last() =~= Seq::<Seq<char>>::empty());
    assert(group_values(row.drop_last()) == Some(Seq::<u16>::empty()));
    assert(row.last() == label);
    assert(Seq::<u16>::empty().push(0xffffu16) =~= seq![0xffffu16]);
}

/// The highest group and four octets in the dotted form stand for three groups.
proof fn lemma_mapped_row(octets: Seq<u8>)
    requires
        octets.len() == 4,
    ensures
        row_value(seq!['f', 'f', 'f', 'f'] + seq![':'] + v4_text(octets), true) == Some(
            seq![0xffffu16] + paired(octets),
        ),
{
    let label = seq!['f', 'f', 'f', 'f'];
    let dotted = v4_text(octets);
    let rest = label + seq![':'] + dotted;
    lemma_v4_reads_back(octets);
    lemma_highest_group(label);
    assert(!label.contains(':'));
    lemma_split_whole(label, ':');
    lemma_split_append(label, dotted, ':');
    let parts = split(rest, ':');
    assert(parts.drop_last() =~= seq![label]);
    assert(parts.last() == dotted);
}

/// The text of an address of four octets in eight groups stands for no four octets by itself.
proof fn lemma_mapped_is_no_v4(octets: Seq<u8>)
    requires
        octets.len() == 4,
    ensures
        v4_value(seq![':', ':', 'f', 'f', 'f', 'f', ':'] + v4_text(octets)) is None,
{
    let a = decimal(octets[0] as nat);
    let b = decimal(octets[1] as nat);
    let c = decimal(octets[2] as nat);
    let d = decimal(octets[3] as nat);
    let head = seq![':', ':', 'f', 'f', 'f', 'f', ':'] + a;
    let s = seq![':', ':', 'f', 'f', 'f', 'f', ':'] + v4_text(octets);
    lemma_octet_reads_back(octets[0]);
    lemma_octet_reads_back(octets[1]);
    lemma_octet_reads_back(octets[2]);
    lemma_octet_reads_back(octets[3]);
    assert(s =~= head + seq!['.'] + b + seq!['.'] + c + seq!['.'] + d);
    assert(!head.contains('.')) by {
        assert forall|j: int| 0 <= j < head.len() implies head[j] != '.' by {
            if j >= 7 {
                assert(a[j - 7] == head[j]);
                assert(a.contains(head[j]));
            }
        }
    }
    lemma_split_whole(head, '.');
    lemma_split_append(head, b, '.');
    lemma_split_append(head + seq!['.'] + b, c, '.');
    lemma_split_append(head + seq!['.'] + b + seq!['.'] + c, d, '.');
    assert(split(s, '.')[0] == head);
    assert(octet_value(head) is None);
}

/// The text of an address of four octets in eight groups is read back as those groups.
proof fn lemma_mapped_reads_back(groups: Seq<u16>)
    requires
        groups.len() == 8,
        is_mapped(groups),
    ensures
        ip_value(v6_text(groups)) == Some(IpView::V6(groups)),
{
    let octets = mapped_octets(groups);
    let dotted = v4_text(octets);
    let s = v6_text(groups);
    let rest = seq!['f', 'f', 'f', 'f'] + seq![':'] + dotted;
    reveal_strlit("::ffff:");
    assert(s =~= seq![':', ':', 'f', 'f', 'f', 'f', ':'] + dotted);
    lemma_mapped_is_no_v4(octets);
    lemma_mapped_row(octets);
    assert(s[0int] == ':' && s[0int + 1] == ':');
    lemma_double_colon_is(s, 0);
    assert(s.skip(2) =~= rest);
    assert(s.take(0) =~= Seq::<char>::empty());
    assert(paired(octets) =~= seq![groups[6], groups[7]]);
    let tail = seq![0xffffu16] + paired(octets);
    assert(row_value(s.take(0), false) == Some(Seq::<u16>::empty()));
    assert(Seq::<u16>::empty() + zeros(5) + tail =~= groups);
}

/// The text of an address is read back as that address.
pub proof fn ip_text_reads_back(ip: IpView)
    requires
        ip.wf(),
    ensures
        ip_value(ip_text(ip)) == Some(ip),
{
    match ip {
        IpView::V4(octets) => {
            lemma_v4_reads_back(octets);
        },
        IpView::V6(groups) => {
            lemma_v6_reads_back(groups);
        },
    }
}

/// Whether a character can stand in the text of an address.
spec fn is_address_char(c: char) -> bool {
    hex_digit(c) is Some || c == ':' || c == '.'
}

/// What two texts of characters of an address make is one of such characters.
proof fn lemma_address_concat(a: Seq<char>, b: Seq<char>)
    requires
        forall|i: int| 0 <= i < a.len() ==> is_address_char(#[trigger] a[i]),
        forall|i: int| 0 <= i < b.len() ==> is_address_char(#[trigger] b[i]),
    ensures
        forall|i: int| 0 <= i < (a + b).len() ==> is_address_char(#[trigger] (a + b)[i]),
{
    assert forall|i: int| 0 <= i < (a + b).len() implies is_address_char(#[trigger] (a + b)[i]) by {
        if i < a.len() {
            assert((a + b)[i] == a[i]);
        } else {
            assert((a + b)[i] == b[i - a.len()]);
        }
    }
}

/// A decimal number is made of characters of an address.
proof fn lemma_decimal_address_chars(n: nat)
    ensures
        forall|i: int| 0 <= i < decimal(n).len() ==> is_address_char(#[trigger] decimal(n)[i]),
{
    decimal_reads_back(n);
    assert forall|i: int| 0 <= i < decimal(n).len() implies is_address_char(
        #[trigger] decimal(n)[i],
    ) by {
        assert(is_digit(decimal(n)[i]));
    }
}

/// The text of four octets is made of characters of an address.
proof fn lemma_v4_chars(octets: Seq<u8>)
    ensures
        forall|i: int|
            0 <= i < v4_text(octets).len() ==> is_address_char(#[trigger] v4_text(octets)[i]),
{
    let a = decimal(octets[0] as nat);
    let b = decimal(octets[1] as nat);
    let c = decimal(octets[2] as nat);
    let d = decimal(octets[3] as nat);
    lemma_decimal_address_chars(octets[0] as nat);
    lemma_decimal_address_chars(octets[1] as nat);
    lemma_decimal_address_chars(octets[2] as nat);
    lemma_decimal_address_chars(octets[3] as nat);
    let dot = seq!['.'];
    assert(is_address_char(dot[0]));
    lemma_address_concat(a, dot);
    lemma_address_concat(a + dot, b);
    lemma_address_concat(a + dot + b, dot);
    lemma_address_concat(a + dot + b + dot, c);
    lemma_address_concat(a + dot + b + dot + c, dot);
    lemma_address_concat(a + dot + b + dot + c + dot, d);
}

/// The text of a row of groups is made of characters of an address.
proof fn lemma_row_chars(groups: Seq<u16>)
    ensures
        forall|i: int|
            0 <= i < row_text(groups).len() ==> is_address_char(#[trigger] row_text(groups)[i]),
    decreases groups.len(),
{
    if groups.len() > 0 {
        let last = hex_text(groups.last() as nat);
        lemma_hex_reads_back(groups.last() as nat);
        assert forall|i: int| 0 <= i < last.len() implies is_address_char(#[trigger] last[i]) by {
            assert(hex_digit(last[i]) is Some);
        }
        if groups.len() > 1 {
            let front = row_text(groups.drop_last());
            let colon = seq![':'];
            assert(is_address_char(colon[0]));
            lemma_row_chars(groups.drop_last());
            lemma_address_concat(front, colon);
            lemma_address_concat(front + colon, last);
        } else {
            assert(groups.last() == groups[0]);
        }
    }
}

/// The text of eight groups is made of characters of an address, and holds some.
proof fn lemma_v6_chars(groups: Seq<u16>)
    requires
        groups.len() == 8,
    ensures
        forall|i: int|
            0 <= i < v6_text(groups).len() ==> is_address_char(#[trigger] v6_text(groups)[i]),
        v6_text(groups).len() > 0,
{
    let start = longest_run(groups, groups.len());
    let n = zero_run(groups, start) as int;
    if is_mapped(groups) {
        reveal_strlit("::ffff:");
        let front = "::ffff:"@;
        assert forall|i: int| 0 <= i < front.len() implies is_address_char(#[trigger] front[i]) by {
            assert(front[i] == ':' || front[i] == 'f');
        }
        lemma_v4_chars(mapped_octets(groups));
        lemma_address_concat(front, v4_text(mapped_octets(groups)));
    } else if n > 1 {
        let head = row_text(groups.take(start));
        let tail = row_text(groups.skip(start + n));
        let gap = seq![':', ':'];
        assert(is_address_char(gap[0]) && is_address_char(gap[1]));
        lemma_row_chars(groups.take(start));
        lemma_row_chars(groups.skip(start + n));
        lemma_address_concat(head, gap);
        lemma_address_concat(head + gap, tail);
    } else {
        lemma_row_chars(groups);
        lemma_row_pieces(groups);
    }
}

/// A text of characters of an address is trimmed already.
proof fn lemma_address_is_trimmed(s: Seq<char>)
    requires
        s.len() > 0 ==> is_address_char(s[0]) && is_address_char(s.last()),
    ensures
        trimmed(s) == s,
{
    a_trimmed_text_stays(s);
}

/// The first piece of a text is what stands before its first separator.
proof fn lemma_split_first(s: Seq<char>, sep: char)
    ensures
        split(s, sep).len() >= 1,
        s.len() > 0 && s[0] != sep ==> split(s, sep)[0].len() > 0 && split(s, sep)[0][0] == s[0],
    decreases s.len(),
{
    if s.len() > 0 {
        let rest = s.drop_last();
        lemma_split_first(rest, sep);
        if s[0] != sep && rest.len() == 0 {
            assert(s.last() == s[0]);
            assert(split(rest, sep) =~= seq![Seq::<char>::empty()]);
        }
    }
}

/// A text that begins with a bracket is not in the plain form of any address.
proof fn lemma_brackets_are_not_plain(s: Seq<char>)
    requires
        s.len() > 0,
        s[0] == '[',
    ensures
        ip_value(s) is None,
{
    lemma_split_first(s, '.');
    let octet = split(s, '.')[0];
    assert(!is_digit(octet[0]));
    assert(octet_value(octet) is None);
    assert(v4_value(s) is None);
    let at = double_colon(s);
    lemma_double_colon_bound(s);
    if at == s.len() {
        lemma_bracket_is_no_row(s, true);
    } else {
        assert(s.take(at)[0] == s[0]);
        lemma_bracket_is_no_row(s.take(at), false);
    }
}

/// The first two colons in a row stand in the text, or there are none; a text that begins otherwise
/// does not begin with them.
proof fn lemma_double_colon_bound(s: Seq<char>)
    ensures
        0 <= double_colon(s) <= s.len(),
        s.len() > 0 && s[0] != ':' ==> double_colon(s) > 0,
    decreases s.len(),
{
    if s.len() >= 2 && !(s[0] == ':' && s[1] == ':') {
        lemma_double_colon_bound(s.drop_first());
    }
}

/// A text that begins with a bracket is no row of groups.
proof fn lemma_bracket_is_no_row(s: Seq<char>, dotted: bool)
    requires
        s.len() > 0,
        s[0] == '[',
    ensures
        row_value(s, dotted) is None,
{
    lemma_split_first(s, ':');
    let parts = split(s, ':');
    let first = parts[0];
    assert(first.take(1).drop_last() =~= Seq::<char>::empty());
    assert(hex_digit('[') is None);
    assert(first.take(1).last() == '[');
    assert(hex_value(first.take(1)) is None);
    lemma_hex_value_prefix(first, 1);
    assert(group_value(first) is None);
    if parts.len() == 1 {
        assert(parts.last() == first);
        lemma_split_first(first, '.');
        let octet = split(first, '.')[0];
        assert(!is_digit(octet[0]));
        assert(octet_value(octet) is None);
        assert(v4_value(first) is None);
    } else {
        let front = parts.drop_last();
        assert(front.take(1).last() == first);
        assert(group_values(front.take(1)) is None);
        lemma_group_values_prefix(front, 1);
    }
}

/// A hop that is an address stands for that address, with white space around it or without.
pub proof fn plain_hops_stand_for_their_address(ip: IpView, s: Seq<char>)
    requires
        ip.wf(),
        trimmed(s) == ip_text(ip),
    ensures
        forwarded_ip_value(s) == Some(ip),
        forwarded_ip_value(ip_text(ip)) == Some(ip),
{
    ip_text_reads_back(ip);
    match ip {
        IpView::V4(octets) => {
            lemma_v4_reads_back(octets);
            lemma_v4_chars(octets);
        },
        IpView::V6(groups) => {
            lemma_v6_chars(groups);
        },
    }
    lemma_address_is_trimmed(ip_text(ip));
}

/// A hop of four octets, a colon and a port stands for the address of those octets.
pub proof fn hops_with_a_port_stand_for_their_address(octets: Seq<u8>, port: u16)
    requires
        octets.len() == 4,
    ensures
        forwarded_ip_value(v4_text(octets) + seq![':'] + decimal(port as nat)) == Some(
            IpView::V4(octets),
        ),
{
    let t = v4_text(octets);
    let digits = decimal(port as nat);
    let s = t + seq![':'] + digits;
    let n = t.len() as int;
    lemma_v4_reads_back(octets);
    lemma_v4_chars(octets);
    lemma_decimal_address_chars(port as nat);
    decimal_reads_back(port as nat);
    assert(s[0] == t[0] && s.last() == digits.last());
    lemma_address_is_trimmed(s);
    assert(!digits.contains(':')) by {
        assert forall|i: int| 0 <= i < digits.len() implies digits[i] != ':' by {
            assert(is_digit(digits[i]));
        }
    }
    // It is no plain address: its last octet holds a colon, and its first group is too long.
    lemma_split_whole(t, ':');
    lemma_split_append(t, digits, ':');
    let parts = split(s, ':');
    assert(parts =~= seq![t, digits]);
    assert(group_value(t) is None);
    let front = parts.drop_last();
    assert(front.take(1).last() == t);
    assert(group_values(front.take(1)) is None);
    lemma_group_values_prefix(front, 1);
    assert(row_value(s, true) is None);
    assert forall|j: int| 0 <= j && j + 1 < s.len() implies !(s[j] == ':' && #[trigger] s[j + 1]
        == ':') by {
        if j < n {
            assert(t.contains(t[j]));
            assert(s[j] == t[j]);
        } else {
            assert(s[j + 1] == digits[j - n]);
            assert(digits.contains(digits[j - n]));
        }
    }
    lemma_double_colon_is(s, s.len() as int);
    assert(v6_value(s) is None);
    lemma_dotted_with_colon_is_no_v4(octets, seq![':'] + digits);
    assert(s =~= t + (seq![':'] + digits));
    assert(ip_value(s) is None);
    assert(s[n] == ':');
    assert forall|j: int| 0 <= j < n implies s[j] != ':' by {
        assert(t.contains(t[j]));
    }
    lemma_first_at_is(s, ':', n);
    assert(s.take(n) =~= t);
    assert(s.skip(n + 1) =~= digits);
    assert(is_port(digits));
    assert(s[0] != '[') by {
        assert(is_address_char(t[0]));
    }
}

/// Four octets with more behind them that begins with a colon and holds no dot are no four octets.
proof fn lemma_dotted_with_colon_is_no_v4(octets: Seq<u8>, more: Seq<char>)
    requires
        octets.len() == 4,
        more.len() > 0,
        more[0] == ':',
        forall|i: int| 1 <= i < more.len() ==> is_digit(#[trigger] more[i]),
    ensures
        v4_value(v4_text(octets) + more) is None,
{
    let a = decimal(octets[0] as nat);
    let b = decimal(octets[1] as nat);
    let c = decimal(octets[2] as nat);
    let d = decimal(octets[3] as nat);
    lemma_octet_reads_back(octets[0]);
    lemma_octet_reads_back(octets[1]);
    lemma_octet_reads_back(octets[2]);
    lemma_octet_reads_back(octets[3]);
    let last = d + more;
    assert(!last.contains('.')) by {
        assert forall|i: int| 0 <= i < last.len() implies last[i] != '.' by {
            if i < d.len() {
                assert(d.contains(d[i]));
                assert(last[i] == d[i]);
            } else {
                assert(last[i] == more[i - d.len()]);
            }
        }
    }
    let s = v4_text(octets) + more;
    assert(s =~= a + seq!['.'] + b + seq!['.'] + c + seq!['.'] + last);
    lemma_split_whole(a, '.');
    lemma_split_append(a, b, '.');
    lemma_split_append(a + seq!['.'] + b, c, '.');
    lemma_split_append(a + seq!['.'] + b + seq!['.'] + c, last, '.');
    let parts = split(s, '.');
    assert(parts[3] == last);
    assert(last[d.len() as int] == ':');
    assert(!is_digits(last)) by {
        assert(!is_digit(last[d.len() as int]));
    }
    assert(octet_value(last) is None);
}

/// A hop of eight groups in square brackets, with a colon and a port behind them or without, stands
/// for the address of those groups.
pub proof fn bracketed_hops_stand_for_their_address(groups: Seq<u16>, port: u16)
    requires
        groups.len() == 8,
    ensures
        forwarded_ip_value(seq!['['] + v6_text(groups) + seq![']']) == Some(IpView::V6(groups)),
        forwarded_ip_value(seq!['['] + v6_text(groups) + seq![']', ':'] + decimal(port as nat))
            == Some(IpView::V6(groups)),
{
    let t = v6_text(groups);
    lemma_v6_reads_back(groups);
    lemma_v6_chars(groups);
    lemma_brackets_alone(t);
    lemma_brackets_with_port(t, groups, port);
}

/// How a text in square brackets is read.
proof fn lemma_brackets_alone(t: Seq<char>)
    requires
        forall|i: int| 0 <= i < t.len() ==> is_address_char(#[trigger] t[i]),
    ensures
        forwarded_ip_value(seq!['['] + t + seq![']']) == ip_value(t),
{
    let s = seq!['['] + t + seq![']'];
    assert(!is_white_space('[') && !is_white_space(']'));
    assert(s[0] == '[' && s.last() == ']');
    a_trimmed_text_stays(s);
    lemma_brackets_are_not_plain(s);
    assert(s.subrange(1, t.len() + 1int) =~= t);
    lemma_closing_bracket(t, s);
    assert(s.subrange(1, s.len() - 1) =~= t);
}

/// How eight groups in square brackets are read that a port follows.
proof fn lemma_brackets_with_port(t: Seq<char>, groups: Seq<u16>, port: u16)
    requires
        forall|i: int| 0 <= i < t.len() ==> is_address_char(#[trigger] t[i]),
        v6_value(t) == Some(groups),
    ensures
        forwarded_ip_value(seq!['['] + t + seq![']', ':'] + decimal(port as nat)) == Some(
            IpView::V6(groups),
        ),
{
    let digits = decimal(port as nat);
    let s = seq!['['] + t + seq![']', ':'] + digits;
    let at = t.len() + 1int;
    lemma_decimal_address_chars(port as nat);
    decimal_reads_back(port as nat);
    assert(is_address_char(digits[digits.len() - 1]));
    assert(s[0] == '[' && s.last() == digits.last());
    assert(!is_white_space('['));
    assert(!is_white_space(s.last()));
    a_trimmed_text_stays(s);
    lemma_brackets_are_not_plain(s);
    assert(s.subrange(1, at) =~= t);
    lemma_closing_bracket(t, s);
    assert(s[at + 1] == ':');
    assert(s.skip(at + 2) =~= digits);
    assert(is_port(digits));
    lemma_no_scope(t);
    assert(scoped_v6_value(t) == Some(groups));
    assert(socket_ip_value(s) == Some(IpView::V6(groups)));
}

/// A text of characters of an address carries no scope.
proof fn lemma_no_scope(t: Seq<char>)
    requires
        forall|i: int| 0 <= i < t.len() ==> is_address_char(#[trigger] t[i]),
    ensures
        first_at(t, '%') == t.len(),
{
    assert forall|j: int| 0 <= j < t.len() implies t[j] != '%' by {
        assert(is_address_char(t[j]));
    }
    lemma_first_at_is(t, '%', t.len() as int);
}

/// Where the bracket behind an address closes.
proof fn lemma_closing_bracket(t: Seq<char>, s: Seq<char>)
    requires
        forall|i: int| 0 <= i < t.len() ==> is_address_char(#[trigger] t[i]),
        s.len() >= t.len() + 2,
        s[0] == '[',
        s.subrange(1, t.len() + 1int) == t,
        s[t.len() + 1int] == ']',
    ensures
        first_at(s, ']') == t.len() + 1,
{
    assert forall|j: int| 0 <= j < t.len() + 1 implies s[j] != ']' by {
        if j > 0 {
            assert(s.subrange(1, t.len() + 1int)[j - 1] == s[j]);
            assert(is_address_char(t[j - 1]));
        }
    }
    lemma_first_at_is(s, ']', t.len() + 1int);
}

/// An octet is a number up to 255, written without zeros before it.
pub proof fn octets_are_plain_numbers(n: nat)
    ensures
        n <= 255 ==> octet_value(decimal(n)) == Some(n as u8),
        n > 255 ==> octet_value(decimal(n)) is None,
        octet_value(seq!['0'] + decimal(n)) is None,
        octet_value(Seq::empty()) is None,
{
    decimal_reads_back(n);
    if n <= 255 {
        lemma_octet_reads_back(n as u8);
    }
    assert((seq!['0'] + decimal(n))[0] == '0');
}

} // verus!
