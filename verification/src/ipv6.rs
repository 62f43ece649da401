//! IPv6 addresses and their text.
//!
//! The text is eight groups of one to four hex digits, joined by colons. One
//! run of zero groups may be left out and written `::`, and the last two
//! groups may be written as a dotted IPv4 address.

use vstd::prelude::*;
use crate::ascii::{COLON, DOT, LOWER_F};
use crate::bytes::{
    cut_at_first, cut_at_first_pair, free_of, lemma_cut_at_first_joined, lemma_cut_at_first_none,
    lemma_first_pair_is, pair_at, split_first, split_first_pair,
};
use crate::hex::{
    group_of, hex_text, is_hex_digit, lemma_group_text, lemma_hex_text, parse_group, push_hex,
};
use crate::ipv4::{ipv4_of, ipv4_text, lemma_ipv4_text_is_read, lemma_ipv4_text_shape, Ipv4Addr};

verus! {

/// An IPv6 address.
#[derive(Clone, Copy, Debug, Hash)]
pub struct Ipv6Addr {
    segments: [u16; 8],
}

impl View for Ipv6Addr {
    type V = Seq<u16>;

    /// The eight groups, the first one first.
    closed spec fn view(&self) -> Seq<u16> {
        self.segments@
    }
}

/// The two groups that four octets fill.
pub open spec fn embedded_groups(octets: Seq<u8>) -> Seq<u16> {
    seq![(octets[0] * 256 + octets[1]) as u16, (octets[2] * 256 + octets[3]) as u16]
}

/// `n` groups of zero.
pub open spec fn zero_groups(n: int) -> Seq<u16> {
    Seq::new(n as nat, |i: int| 0u16)
}

/// `first` in front of `rest`, where there is a `rest`.
pub open spec fn followed_by(first: Seq<u16>, rest: Option<Seq<u16>>) -> Option<Seq<u16>> {
    match rest {
        Some(groups) => Some(first + groups),
        None => None,
    }
}

/// What the last piece of a list stands for: one group, or, where
/// `v4_last` allows it, the two groups of a dotted IPv4 address.
pub open spec fn last_groups(s: Seq<u8>, v4_last: bool) -> Option<Seq<u16>> {
    match group_of(s) {
        Some(group) => Some(seq![group]),
        None => if v4_last {
            match ipv4_of(s) {
                Some(octets) => Some(embedded_groups(octets)),
                None => None,
            }
        } else {
            None
        },
    }
}

/// The groups that a list of one or more pieces joined by colons stands for.
pub open spec fn group_list(s: Seq<u8>, v4_last: bool) -> Option<Seq<u16>>
    decreases s.len(),
{
    match cut_at_first(s, COLON) {
        Some((piece, rest)) => match group_of(piece) {
            Some(group) => followed_by(seq![group], group_list(rest, v4_last)),
            None => None,
        },
        None => last_groups(s, v4_last),
    }
}

/// The groups on one side of `::`, or of a text without `::`: none for empty
/// text, else a list.
pub open spec fn groups_of(s: Seq<u8>, v4_last: bool) -> Option<Seq<u16>> {
    if s.len() == 0 {
        Some(Seq::empty())
    } else {
        group_list(s, v4_last)
    }
}

/// The eight groups that `s` is a text of.
///
/// Without `::` the text lists all eight. With `::`, at most seven are
/// listed, and zeros fill the gap; a dotted IPv4 address may stand at the very
/// end only.
pub open spec fn ipv6_of(s: Seq<u8>) -> Option<Seq<u16>> {
    match cut_at_first_pair(s, COLON) {
        Some((head, tail)) => match (groups_of(head, false), groups_of(tail, true)) {
            (Some(front), Some(back)) => if front.len() + back.len() <= 7 {
                Some(front + zero_groups(8 - front.len() - back.len()) + back)
            } else {
                None
            },
            _ => None,
        },
        None => match groups_of(s, true) {
            Some(groups) => if groups.len() == 8 {
                Some(groups)
            } else {
                None
            },
            None => None,
        },
    }
}

/// Length of the run of zero groups that begins at `i`.
pub open spec fn zero_run(groups: Seq<u16>, i: int) -> int
    decreases groups.len() - i,
{
    if 0 <= i < groups.len() && groups[i] == 0 {
        1 + zero_run(groups, i + 1)
    } else {
        0
    }
}

/// Where the longest run of zero groups begins, among the runs that begin
/// at `0` to `n`; the first of them where several are as long.
pub open spec fn longest_run_start(groups: Seq<u16>, n: int) -> int
    decreases n,
{
    if n <= 0 {
        0
    } else {
        let best = longest_run_start(groups, n - 1);
        if zero_run(groups, n) > zero_run(groups, best) {
            n
        } else {
            best
        }
    }
}

/// An IPv4 address mapped into IPv6: five zero groups, then `ffff`.
pub open spec fn is_v4_mapped(groups: Seq<u16>) -> bool {
    &&& groups[0] == 0
    &&& groups[1] == 0
    &&& groups[2] == 0
    &&& groups[3] == 0
    &&& groups[4] == 0
    &&& groups[5] == 0xffff
}

/// The four octets that two groups hold.
pub open spec fn embedded_octets(high: u16, low: u16) -> Seq<u8> {
    seq![(high / 256) as u8, (high % 256) as u8, (low / 256) as u8, (low % 256) as u8]
}

/// The texts of the groups, joined by colons; empty for no group.
pub open spec fn joined_groups(groups: Seq<u16>) -> Seq<u8>
    decreases groups.len(),
{
    if groups.len() == 0 {
        Seq::empty()
    } else if groups.len() == 1 {
        hex_text(groups[0] as nat)
    } else {
        hex_text(groups[0] as nat) + seq![COLON] + joined_groups(groups.drop_first())
    }
}

/// `::ffff:`, which stands in front of a mapped IPv4 address.
pub open spec fn mapped_prefix() -> Seq<u8> {
    seq![COLON, COLON, LOWER_F, LOWER_F, LOWER_F, LOWER_F, COLON]
}

/// The text of eight groups.
///
/// A mapped IPv4 address is written `::ffff:` and the dotted address. Else
/// the longest run of two or more zero groups, the first of them where
/// several are as long, is written `::`, and the groups around it in lower
/// case without needless zeros.
pub open spec fn ipv6_text(groups: Seq<u16>) -> Seq<u8> {
    if is_v4_mapped(groups) {
        mapped_prefix() + ipv4_text(embedded_octets(groups[6], groups[7]))
    } else {
        let start = longest_run_start(groups, 7);
        let len = zero_run(groups, start);
        if len >= 2 {
            joined_groups(groups.take(start)) + seq![COLON, COLON] + joined_groups(
                groups.skip(start + len),
            )
        } else {
            joined_groups(groups)
        }
    }
}

/// A run ends inside the address, and holds zeros only.
pub proof fn lemma_zero_run(groups: Seq<u16>, i: int)
    requires
        0 <= i <= groups.len(),
    ensures
        0 <= zero_run(groups, i) <= groups.len() - i,
        forall|j: int| i <= j < i + zero_run(groups, i) ==> #[trigger] groups[j] == 0,
    decreases groups.len() - i,
{
    if i < groups.len() && groups[i] == 0 {
        lemma_zero_run(groups, i + 1);
    }
}

/// The longest run begins inside the range that was searched.
pub proof fn lemma_longest_run_start(groups: Seq<u16>, n: int)
    ensures
        0 <= longest_run_start(groups, n) <= if n < 0 { 0 } else { n },
    decreases n,
{
    if n > 0 {
        lemma_longest_run_start(groups, n - 1);
    }
}

/// The joined texts of one or more groups neither begin nor end with a
/// colon, and hold no two colons side by side.
pub proof fn lemma_joined_groups_shape(groups: Seq<u16>)
    requires
        groups.len() >= 1,
    ensures
        joined_groups(groups).len() >= 1,
        joined_groups(groups)[0] != COLON,
        joined_groups(groups).last() != COLON,
        forall|j: int| !#[trigger] pair_at(joined_groups(groups), COLON, j),
    decreases groups.len(),
{
    let text = joined_groups(groups);
    let first = hex_text(groups[0] as nat);
    lemma_group_text(groups[0]);
    if groups.len() > 1 {
        let rest = joined_groups(groups.drop_first());
        lemma_joined_groups_shape(groups.drop_first());
        let n = first.len() as int;
        assert(text[0] == first[0]);
        assert(text.last() == rest.last());
        assert forall|j: int| !#[trigger] pair_at(text, COLON, j) by {
            if 0 <= j && j + 1 < text.len() {
                if j < n {
                    assert(text[j] == first[j]);
                } else if j == n {
                    assert(text[j + 1] == rest[0]);
                } else {
                    assert(!pair_at(rest, COLON, j - n - 1));
                    assert(text[j] == rest[j - n - 1]);
                    assert(text[j + 1] == rest[j - n]);
                }
            }
        }
    }
}

/// The joined texts of one or more groups are read back as those groups.
pub proof fn lemma_joined_groups_are_read(groups: Seq<u16>, v4_last: bool)
    requires
        groups.len() >= 1,
    ensures
        group_list(joined_groups(groups), v4_last) == Some(groups),
    decreases groups.len(),
{
    let first = hex_text(groups[0] as nat);
    lemma_group_text(groups[0]);
    if groups.len() == 1 {
        lemma_cut_at_first_none(first, COLON);
        assert(seq![groups[0]] =~= groups);
    } else {
        let rest = groups.drop_first();
        lemma_joined_groups_are_read(rest, v4_last);
        lemma_cut_at_first_joined(first, COLON, joined_groups(rest));
        assert(seq![groups[0]] + rest =~= groups);
    }
}

/// The joined texts of any number of groups are read back as those groups.
pub proof fn lemma_joined_groups_of(groups: Seq<u16>, v4_last: bool)
    ensures
        groups_of(joined_groups(groups), v4_last) == Some(groups),
{
    if groups.len() == 0 {
        assert(groups =~= Seq::<u16>::empty());
    } else {
        lemma_joined_groups_shape(groups);
        lemma_joined_groups_are_read(groups, v4_last);
    }
}

/// Two joined lists with `::` between them are cut at that `::`.
pub proof fn lemma_cut_around_gap(front: Seq<u16>, back: Seq<u16>)
    ensures
        cut_at_first_pair(joined_groups(front) + seq![COLON, COLON] + joined_groups(back), COLON)
            == Some((joined_groups(front), joined_groups(back))),
{
    let head = joined_groups(front);
    let tail = joined_groups(back);
    let text = head + seq![COLON, COLON] + tail;
    let n = head.len() as int;
    if front.len() >= 1 {
        lemma_joined_groups_shape(front);
    } else {
        assert(n == 0);
    }
    assert forall|j: int| 0 <= j < n implies !#[trigger] pair_at(text, COLON, j) by {
        assert(text[j] == head[j]);
        if j + 1 < n {
            assert(text[j + 1] == head[j + 1]);
            assert(!pair_at(head, COLON, j));
        }
    }
    assert(pair_at(text, COLON, n));
    lemma_first_pair_is(text, COLON, n);
    assert(text.take(n) =~= head);
    assert(text.skip(n + 2) =~= tail);
}

/// What is read as an IPv6 address has eight groups.
pub proof fn lemma_ipv6_of_len(s: Seq<u8>)
    requires
        ipv6_of(s) is Some,
    ensures
        ipv6_of(s)->0.len() == 8,
{
}

/// The joined texts of groups hold hex digits and colons only.
pub proof fn lemma_joined_groups_bytes(groups: Seq<u16>)
    ensures
        forall|i: int|
            0 <= i < joined_groups(groups).len() ==> is_hex_digit(
                #[trigger] joined_groups(groups)[i],
            ) || joined_groups(groups)[i] == COLON,
    decreases groups.len(),
{
    let text = joined_groups(groups);
    if groups.len() >= 1 {
        let first = hex_text(groups[0] as nat);
        lemma_hex_text(groups[0] as nat);
        if groups.len() > 1 {
            let rest = joined_groups(groups.drop_first());
            lemma_joined_groups_bytes(groups.drop_first());
            let n = first.len() as int;
            assert forall|i: int| 0 <= i < text.len() implies is_hex_digit(#[trigger] text[i])
                || text[i] == COLON by {
                if i < n {
                    assert(text[i] == first[i]);
                } else if i > n {
                    assert(text[i] == rest[i - n - 1]);
                }
            }
        }
    }
}

/// The text of an address holds hex digits, colons and dots only.
pub proof fn lemma_ipv6_text_bytes(groups: Seq<u16>)
    requires
        groups.len() == 8,
    ensures
        forall|i: int|
            0 <= i < ipv6_text(groups).len() ==> is_hex_digit(#[trigger] ipv6_text(groups)[i])
                || ipv6_text(groups)[i] == COLON || ipv6_text(groups)[i] == DOT,
{
    let text = ipv6_text(groups);
    if is_v4_mapped(groups) {
        let dotted = ipv4_text(embedded_octets(groups[6], groups[7]));
        lemma_ipv4_text_shape(embedded_octets(groups[6], groups[7]));
        assert forall|i: int| 0 <= i < text.len() implies is_hex_digit(#[trigger] text[i])
            || text[i] == COLON || text[i] == DOT by {
            if i >= 7 {
                assert(text[i] == dotted[i - 7]);
            }
        }
    } else {
        let start = longest_run_start(groups, 7);
        let len = zero_run(groups, start);
        if len >= 2 {
            let head = joined_groups(groups.take(start));
            let tail = joined_groups(groups.skip(start + len));
            lemma_joined_groups_bytes(groups.take(start));
            lemma_joined_groups_bytes(groups.skip(start + len));
            let n = head.len() as int;
            assert forall|i: int| 0 <= i < text.len() implies is_hex_digit(#[trigger] text[i])
                || text[i] == COLON || text[i] == DOT by {
                if i < n {
                    assert(text[i] == head[i]);
                } else if i >= n + 2 {
                    assert(text[i] == tail[i - n - 2]);
                }
            }
        } else {
            lemma_joined_groups_bytes(groups);
        }
    }
}

/// The text `ffff` is read as the group `ffff`.
proof fn lemma_ffff()
    ensures
        hex_text(0xffff) == seq![LOWER_F, LOWER_F, LOWER_F, LOWER_F],
        group_of(seq![LOWER_F, LOWER_F, LOWER_F, LOWER_F]) == Some(0xffffu16),
        free_of(seq![LOWER_F, LOWER_F, LOWER_F, LOWER_F], COLON),
{
    assert(hex_text(0xffff) =~= seq![LOWER_F, LOWER_F, LOWER_F, LOWER_F]) by {
        reveal_with_fuel(hex_text, 4);
    }
    lemma_group_text(0xffff);
}

/// Dotted text behind `ffff:` is read as three groups.
proof fn lemma_mapped_tail_is_read(octets: Seq<u8>)
    requires
        octets.len() == 4,
    ensures
        group_list(
            seq![LOWER_F, LOWER_F, LOWER_F, LOWER_F] + seq![COLON] + ipv4_text(octets),
            true,
        ) == Some(seq![0xffffu16] + embedded_groups(octets)),
{
    let dotted = ipv4_text(octets);
    let ffff = seq![LOWER_F, LOWER_F, LOWER_F, LOWER_F];
    lemma_ipv4_text_is_read(octets);
    lemma_ipv4_text_shape(octets);
    lemma_ffff();
    lemma_cut_at_first_joined(ffff, COLON, dotted);
    assert(free_of(dotted, COLON));
    lemma_cut_at_first_none(dotted, COLON);
    assert(group_of(dotted) is None);
    assert(last_groups(dotted, true) == Some(embedded_groups(octets)));
    assert(group_list(dotted, true) == Some(embedded_groups(octets)));
}

/// The text of a mapped IPv4 address is read back as that address.
proof fn lemma_mapped_text_is_read(groups: Seq<u16>)
    requires
        groups.len() == 8,
        is_v4_mapped(groups),
    ensures
        ipv6_of(ipv6_text(groups)) == Some(groups),
{
    let text = ipv6_text(groups);
    let octets = embedded_octets(groups[6], groups[7]);
    let dotted = ipv4_text(octets);
    let tail = seq![LOWER_F, LOWER_F, LOWER_F, LOWER_F] + seq![COLON] + dotted;
    let back = seq![0xffffu16] + embedded_groups(octets);
    lemma_mapped_tail_is_read(octets);
    assert(cut_at_first_pair(text, COLON) == Some((Seq::<u8>::empty(), tail))) by {
        assert(pair_at(text, COLON, 0));
        lemma_first_pair_is(text, COLON, 0);
        assert(text.take(0) =~= Seq::<u8>::empty());
        assert(text.skip(2) =~= tail);
    }
    assert(groups_of(Seq::<u8>::empty(), false) == Some(Seq::<u16>::empty()));
    assert(groups_of(tail, true) == Some(back));
    assert(embedded_groups(octets) =~= seq![groups[6], groups[7]]);
    assert(back.len() == 3);
    assert(Seq::<u16>::empty() + zero_groups(8 - 0 - 3) + back =~= groups);
}

/// Two joined lists with `::` between them are read back as the lists with
/// zeros between them.
proof fn lemma_gap_text_is_read(front: Seq<u16>, back: Seq<u16>)
    requires
        front.len() + back.len() <= 7,
    ensures
        ipv6_of(joined_groups(front) + seq![COLON, COLON] + joined_groups(back)) == Some(
            front + zero_groups(8 - front.len() - back.len()) + back,
        ),
{
    lemma_cut_around_gap(front, back);
    lemma_joined_groups_of(front, false);
    lemma_joined_groups_of(back, true);
}

/// The joined texts of eight groups are read back as those groups.
proof fn lemma_plain_text_is_read(groups: Seq<u16>)
    requires
        groups.len() == 8,
    ensures
        ipv6_of(joined_groups(groups)) == Some(groups),
{
    let text = joined_groups(groups);
    lemma_joined_groups_shape(groups);
    lemma_first_pair_is(text, COLON, text.len() as int);
    assert(cut_at_first_pair(text, COLON) is None);
    lemma_joined_groups_are_read(groups, true);
    assert(groups_of(text, true) == Some(groups));
}

/// The groups around a run of zeros, with zeros between them, are all the
/// groups.
proof fn lemma_around_zero_run(groups: Seq<u16>, start: int)
    requires
        0 <= start <= groups.len(),
    ensures
        groups.take(start) + zero_groups(zero_run(groups, start)) + groups.skip(
            start + zero_run(groups, start),
        ) == groups,
        start + zero_run(groups, start) <= groups.len(),
{
    lemma_zero_run(groups, start);
    let len = zero_run(groups, start);
    assert(groups.take(start) + zero_groups(len) + groups.skip(start + len) =~= groups);
}

/// The text of an address is read back as that address.
pub proof fn lemma_ipv6_text_is_read(groups: Seq<u16>)
    requires
        groups.len() == 8,
    ensures
        ipv6_of(ipv6_text(groups)) == Some(groups),
{
    if is_v4_mapped(groups) {
        lemma_mapped_text_is_read(groups);
    } else {
        let start = longest_run_start(groups, 7);
        let len = zero_run(groups, start);
        lemma_longest_run_start(groups, 7);
        if len >= 2 {
            let front = groups.take(start);
            let back = groups.skip(start + len);
            lemma_around_zero_run(groups, start);
            lemma_gap_text_is_read(front, back);
            assert(8 - front.len() - back.len() == len);
        } else {
            lemma_plain_text_is_read(groups);
        }
    }
}

/// Reads a list of one or more pieces joined by colons.
fn parse_group_list(s: &[u8], v4_last: bool) -> (r: Option<Vec<u16>>)
    ensures
        match r {
            Some(groups) => group_list(s@, v4_last) == Some(groups@),
            None => group_list(s@, v4_last) is None,
        },
{
    let mut groups: Vec<u16> = Vec::new();
    let mut rest = s;
    loop
        invariant
            group_list(s@, v4_last) == followed_by(groups@, group_list(rest@, v4_last)),
        decreases rest@.len(),
    {
        match split_first(rest, COLON) {
            Some((piece, behind)) => {
                match parse_group(piece) {
                    Some(group) => {
                        proof {
                            let ghost before = groups@;
                            if let Some(more) = group_list(behind@, v4_last) {
                                assert(before + (seq![group] + more) =~= before.push(group) + more);
                            }
                        }
                        groups.push(group);
                        rest = behind;
                    },
                    None => {
                        return None;
                    },
                }
            },
            None => {
                match parse_group(rest) {
                    Some(group) => {
                        assert(groups@ + seq![group] =~= groups@.push(group));
                        groups.push(group);
                        return Some(groups);
                    },
                    None => {
                        if !v4_last {
                            return None;
                        }
                        match Ipv4Addr::parse(rest) {
                            Some(ip) => {
                                let o = ip.octets();
                                let high: u16 = o[0] as u16 * 256 + o[1] as u16;
                                let low: u16 = o[2] as u16 * 256 + o[3] as u16;
                                assert(groups@ + embedded_groups(ip@) =~= groups@.push(high).push(
                                    low,
                                ));
                                groups.push(high);
                                groups.push(low);
                                return Some(groups);
                            },
                            None => {
                                return None;
                            },
                        }
                    },
                }
            },
        }
    }
}

/// Reads the groups on one side of `::`.
fn parse_groups(s: &[u8], v4_last: bool) -> (r: Option<Vec<u16>>)
    ensures
        match r {
            Some(groups) => groups_of(s@, v4_last) == Some(groups@),
            None => groups_of(s@, v4_last) is None,
        },
{
    if s.len() == 0 {
        Some(Vec::new())
    } else {
        parse_group_list(s, v4_last)
    }
}

impl Ipv6Addr {
    /// The address with the given groups.
    pub fn new(segments: [u16; 8]) -> (r: Self)
        ensures
            r@ == segments@,
    {
        Ipv6Addr { segments }
    }

    /// The eight groups.
    pub fn segments(&self) -> (r: [u16; 8])
        ensures
            r@ == self@,
    {
        self.segments
    }

    /// An address has eight groups.
    pub proof fn lemma_len(self)
        ensures
            self@.len() == 8,
    {
    }

    /// The address with `front` at its start, `back` at its end and zeros
    /// between them.
    fn around_zeros(front: &Vec<u16>, back: &Vec<u16>) -> (r: Self)
        requires
            front@.len() + back@.len() <= 8,
        ensures
            r@ == front@ + zero_groups(8 - front@.len() - back@.len()) + back@,
    {
        let mut segments: [u16; 8] = [0u16; 8];
        let mut i: usize = 0;
        while i < front.len()
            invariant
                i <= front@.len(),
                front@.len() + back@.len() <= 8,
                forall|j: int| 0 <= j < i ==> segments@[j] == front@[j],
                forall|j: int| i <= j < 8 ==> segments@[j] == 0,
            decreases front.len() - i,
        {
            segments[i] = front[i];
            i += 1;
        }
        let gap: usize = 8 - back.len();
        let mut k: usize = 0;
        while k < back.len()
            invariant
                k <= back@.len(),
                gap == 8 - back@.len(),
                front@.len() + back@.len() <= 8,
                forall|j: int| 0 <= j < front@.len() ==> segments@[j] == front@[j],
                forall|j: int| front@.len() <= j < gap ==> segments@[j] == 0,
                forall|j: int| 0 <= j < k ==> segments@[gap + j] == back@[j],
            decreases back.len() - k,
        {
            segments[gap + k] = back[k];
            k += 1;
        }
        let r = Ipv6Addr { segments };
        assert(r@ =~= front@ + zero_groups(8 - front@.len() - back@.len()) + back@);
        r
    }

    /// Length of the run of zero groups that begins at `i`.
    fn zero_run_at(&self, i: usize) -> (n: usize)
        requires
            i <= 8,
        ensures
            n == zero_run(self@, i as int),
            i + n <= 8,
    {
        let mut j: usize = i;
        while j < 8 && self.segments[j] == 0
            invariant
                i <= j <= 8,
                zero_run(self@, i as int) == (j - i) + zero_run(self@, j as int),
            decreases 8 - j,
        {
            j += 1;
        }
        j - i
    }

    /// Where the longest run of zero groups begins, and how long it is.
    fn longest_zero_run(&self) -> (r: (usize, usize))
        ensures
            r.0 == longest_run_start(self@, 7),
            r.1 == zero_run(self@, r.0 as int),
            r.0 + r.1 <= 8,
    {
        let mut best: usize = 0;
        let mut best_len: usize = self.zero_run_at(0);
        let mut n: usize = 1;
        while n < 8
            invariant
                1 <= n <= 8,
                best < n,
                best == longest_run_start(self@, n - 1),
                best_len == zero_run(self@, best as int),
                best + best_len <= 8,
            decreases 8 - n,
        {
            let len = self.zero_run_at(n);
            if len > best_len {
                best = n;
                best_len = len;
            }
            n += 1;
        }
        (best, best_len)
    }

    /// Writes the texts of the groups from `from` up to `to`, joined by
    /// colons, behind what `out` holds.
    fn write_groups(&self, out: &mut Vec<u8>, from: usize, to: usize)
        requires
            from <= to <= 8,
        ensures
            final(out)@ == old(out)@ + joined_groups(self@.subrange(from as int, to as int)),
        decreases to - from,
    {
        let ghost groups = self@.subrange(from as int, to as int);
        if from < to {
            push_hex(out, self.segments[from]);
            if from + 1 < to {
                out.push(COLON);
                self.write_groups(out, from + 1, to);
                assert(groups.drop_first() =~= self@.subrange(from + 1, to as int));
            }
        }
        assert(final(out)@ =~= old(out)@ + joined_groups(groups));
    }

    /// Writes the text of the address behind what `out` holds.
    pub fn write(&self, out: &mut Vec<u8>)
        ensures
            final(out)@ == old(out)@ + ipv6_text(self@),
    {
        let s = &self.segments;
        if s[0] == 0 && s[1] == 0 && s[2] == 0 && s[3] == 0 && s[4] == 0 && s[5] == 0xffff {
            out.push(COLON);
            out.push(COLON);
            out.push(LOWER_F);
            out.push(LOWER_F);
            out.push(LOWER_F);
            out.push(LOWER_F);
            out.push(COLON);
            let v4 = Ipv4Addr::new(
                (s[6] / 256) as u8,
                (s[6] % 256) as u8,
                (s[7] / 256) as u8,
                (s[7] % 256) as u8,
            );
            v4.write(out);
            assert(final(out)@ =~= old(out)@ + ipv6_text(self@));
        } else {
            let (start, len) = self.longest_zero_run();
            if len >= 2 {
                self.write_groups(out, 0, start);
                out.push(COLON);
                out.push(COLON);
                self.write_groups(out, start + len, 8);
                assert(self@.take(start as int) =~= self@.subrange(0, start as int));
                assert(self@.skip(start + len) =~= self@.subrange(start + len, 8));
                assert(final(out)@ =~= old(out)@ + ipv6_text(self@));
            } else {
                self.write_groups(out, 0, 8);
                assert(self@.subrange(0, 8) =~= self@);
            }
        }
    }

    /// Reads the text of an address.
    pub fn parse(s: &[u8]) -> (r: Option<Self>)
        ensures
            match r {
                Some(ip) => ipv6_of(s@) == Some(ip@),
                None => ipv6_of(s@) is None,
            },
    {
        match split_first_pair(s, COLON) {
            Some((head, tail)) => {
                match (parse_groups(head, false), parse_groups(tail, true)) {
                    (Some(front), Some(back)) => {
                        if front.len() <= 7 && back.len() <= 7 - front.len() {
                            Some(Ipv6Addr::around_zeros(&front, &back))
                        } else {
                            None
                        }
                    },
                    _ => None,
                }
            },
            None => {
                match parse_groups(s, true) {
                    Some(groups) => {
                        if groups.len() == 8 {
                            let back: Vec<u16> = Vec::new();
                            let r = Ipv6Addr::around_zeros(&groups, &back);
                            assert(r@ =~= groups@);
                            Some(r)
                        } else {
                            None
                        }
                    },
                    None => None,
                }
            },
        }
    }
}

impl PartialEq for Ipv6Addr {
    fn eq(&self, other: &Self) -> (r: bool) {
        let mut i: usize = 0;
        while i < 8
            invariant
                i <= 8,
                forall|j: int| 0 <= j < i ==> self@[j] == other@[j],
            decreases 8 - i,
        {
            if self.segments[i] != other.segments[i] {
                return false;
            }
            i += 1;
        }
        assert(self@ =~= other@);
        true
    }
}

impl Eq for Ipv6Addr {

}

impl vstd::std_specs::cmp::PartialEqSpecImpl for Ipv6Addr {
    open spec fn obeys_eq_spec() -> bool {
        true
    }

    open spec fn eq_spec(&self, other: &Self) -> bool {
        self@ == other@
    }
}

} // verus!
