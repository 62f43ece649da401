//! IPv4 addresses and their dotted text: four numbers from 0 to 255, each in
//! short form, joined by dots.

use vstd::prelude::*;
use crate::ascii::{is_digit, DIGIT_0, DOT};
use crate::bytes::{
    cut_at_first, free_of, lemma_cut_at_first, lemma_cut_at_first_joined, split_first,
};
use crate::decimal::{
    all_digits, decimal_text, decimal_value, is_short_form, lemma_decimal_text,
    lemma_decimal_text_len, lemma_short_form_is_text, parse_number, push_decimal,
};

verus! {

/// An IPv4 address.
#[derive(Clone, Copy, Debug, Hash)]
pub struct Ipv4Addr {
    octets: [u8; 4],
}

impl View for Ipv4Addr {
    type V = Seq<u8>;

    /// The four octets, the first one first.
    closed spec fn view(&self) -> Seq<u8> {
        self.octets@
    }
}

/// The octet that `s` is the text of.
pub open spec fn octet_of(s: Seq<u8>) -> Option<u8> {
    if is_short_form(s) && decimal_value(s) <= 255 {
        Some(decimal_value(s) as u8)
    } else {
        None
    }
}

/// The four octets that `s` is the dotted text of.
pub open spec fn ipv4_of(s: Seq<u8>) -> Option<Seq<u8>> {
    match cut_at_first(s, DOT) {
        Some((first, behind_first)) => match cut_at_first(behind_first, DOT) {
            Some((second, behind_second)) => match cut_at_first(behind_second, DOT) {
                Some((third, fourth)) => match (
                    octet_of(first),
                    octet_of(second),
                    octet_of(third),
                    octet_of(fourth),
                ) {
                    (Some(a), Some(b), Some(c), Some(d)) => Some(seq![a, b, c, d]),
                    _ => None,
                },
                None => None,
            },
            None => None,
        },
        None => None,
    }
}

/// The dotted text of four octets.
pub open spec fn ipv4_text(octets: Seq<u8>) -> Seq<u8> {
    decimal_text(octets[0] as nat) + seq![DOT] + (decimal_text(octets[1] as nat) + seq![DOT] + (
    decimal_text(octets[2] as nat) + seq![DOT] + decimal_text(octets[3] as nat)))
}

/// The text of an octet is read back as that octet, and holds digits only.
pub proof fn lemma_octet_text(v: u8)
    ensures
        octet_of(decimal_text(v as nat)) == Some(v),
        all_digits(decimal_text(v as nat)),
        free_of(decimal_text(v as nat), DOT),
        1 <= decimal_text(v as nat).len() <= 3,
{
    lemma_decimal_text(v as nat);
    lemma_decimal_text_len(v as nat);
    let t = decimal_text(v as nat);
    assert forall|i: int| 0 <= i < t.len() implies #[trigger] t[i] != DOT by {
        assert(is_digit(t[i]));
    }
}

/// What is read as an octet is the text of that octet.
pub proof fn lemma_octet_of(s: Seq<u8>)
    requires
        octet_of(s) is Some,
    ensures
        s == decimal_text(octet_of(s)->0 as nat),
        1 <= s.len() <= 3,
{
    lemma_short_form_is_text(s);
    lemma_decimal_text_len(decimal_value(s));
}

/// Dotted text is read back as the octets it was written from.
pub proof fn lemma_ipv4_text_is_read(octets: Seq<u8>)
    requires
        octets.len() == 4,
    ensures
        ipv4_of(ipv4_text(octets)) == Some(octets),
{
    let a = decimal_text(octets[0] as nat);
    let b = decimal_text(octets[1] as nat);
    let c = decimal_text(octets[2] as nat);
    let d = decimal_text(octets[3] as nat);
    lemma_octet_text(octets[0]);
    lemma_octet_text(octets[1]);
    lemma_octet_text(octets[2]);
    lemma_octet_text(octets[3]);
    lemma_cut_at_first_joined(a, DOT, b + seq![DOT] + (c + seq![DOT] + d));
    lemma_cut_at_first_joined(b, DOT, c + seq![DOT] + d);
    lemma_cut_at_first_joined(c, DOT, d);
    assert(seq![octets[0], octets[1], octets[2], octets[3]] =~= octets);
}

/// What is read as an IPv4 address is the dotted text of what was read: no
/// two texts stand for one address.
pub proof fn lemma_ipv4_of_is_text(s: Seq<u8>)
    requires
        ipv4_of(s) is Some,
    ensures
        ipv4_of(s)->0.len() == 4,
        ipv4_text(ipv4_of(s)->0) == s,
{
    let (first, behind_first) = cut_at_first(s, DOT)->0;
    let (second, behind_second) = cut_at_first(behind_first, DOT)->0;
    let (third, fourth) = cut_at_first(behind_second, DOT)->0;
    let a = octet_of(first)->0;
    let b = octet_of(second)->0;
    let c = octet_of(third)->0;
    let d = octet_of(fourth)->0;
    let octets = seq![a, b, c, d];
    assert(ipv4_of(s) == Some(octets));
    assert(s == first + seq![DOT] + behind_first) by {
        lemma_cut_at_first(s, DOT);
    }
    assert(behind_first == second + seq![DOT] + behind_second) by {
        lemma_cut_at_first(behind_first, DOT);
    }
    assert(behind_second == third + seq![DOT] + fourth) by {
        lemma_cut_at_first(behind_second, DOT);
    }
    assert(first == decimal_text(a as nat)) by {
        lemma_octet_of(first);
    }
    assert(second == decimal_text(b as nat)) by {
        lemma_octet_of(second);
    }
    assert(third == decimal_text(c as nat)) by {
        lemma_octet_of(third);
    }
    assert(fourth == decimal_text(d as nat)) by {
        lemma_octet_of(fourth);
    }
}

/// Dotted text has at least seven bytes and at most fifteen, begins with a
/// digit and holds digits and dots only.
pub proof fn lemma_ipv4_text_shape(octets: Seq<u8>)
    requires
        octets.len() == 4,
    ensures
        7 <= ipv4_text(octets).len() <= 15,
        is_digit(ipv4_text(octets)[0]),
        forall|i: int|
            0 <= i < ipv4_text(octets).len() ==> is_digit(#[trigger] ipv4_text(octets)[i])
                || ipv4_text(octets)[i] == DOT,
{
    let a = decimal_text(octets[0] as nat);
    let b = decimal_text(octets[1] as nat);
    let c = decimal_text(octets[2] as nat);
    let d = decimal_text(octets[3] as nat);
    lemma_octet_text(octets[0]);
    lemma_octet_text(octets[1]);
    lemma_octet_text(octets[2]);
    lemma_octet_text(octets[3]);
    let t = ipv4_text(octets);
    assert(t[0] == a[0]);
    assert forall|i: int| 0 <= i < t.len() implies is_digit(#[trigger] t[i]) || t[i] == DOT by {
        let la = a.len() as int;
        let lb = b.len() as int;
        let lc = c.len() as int;
        if i < la {
            assert(t[i] == a[i]);
        } else if i == la {
        } else if i < la + 1 + lb {
            assert(t[i] == b[i - la - 1]);
        } else if i == la + 1 + lb {
        } else if i < la + 1 + lb + 1 + lc {
            assert(t[i] == c[i - la - lb - 2]);
        } else if i == la + 1 + lb + 1 + lc {
        } else {
            assert(t[i] == d[i - la - lb - lc - 3]);
        }
    }
}

/// Reads one octet: one to three digits, no zero in front of another digit,
/// at most 255.
pub fn parse_octet(s: &[u8]) -> (r: Option<u8>)
    ensures
        r == octet_of(s@),
{
    if s.len() == 0 || s.len() > 3 || (s.len() > 1 && s[0] == DIGIT_0) {
        proof {
            if octet_of(s@) is Some {
                lemma_octet_of(s@);
            }
        }
        return None;
    }
    match parse_number(s, 255) {
        Some(n) => Some(n as u8),
        None => None,
    }
}

impl Ipv4Addr {
    /// The address with the octets `a.b.c.d`.
    pub fn new(a: u8, b: u8, c: u8, d: u8) -> (r: Self)
        ensures
            r@ == seq![a, b, c, d],
    {
        let r = Ipv4Addr { octets: [a, b, c, d] };
        assert(r@ =~= seq![a, b, c, d]);
        r
    }

    /// The four octets.
    pub fn octets(&self) -> (r: [u8; 4])
        ensures
            r@ == self@,
    {
        self.octets
    }

    /// An address has four octets.
    pub proof fn lemma_len(self)
        ensures
            self@.len() == 4,
    {
    }

    /// Reads dotted text.
    pub fn parse(s: &[u8]) -> (r: Option<Self>)
        ensures
            match r {
                Some(ip) => ipv4_of(s@) == Some(ip@),
                None => ipv4_of(s@) is None,
            },
    {
        let (first, rest) = match split_first(s, DOT) {
            Some(cut) => cut,
            None => { return None; },
        };
        let (second, rest) = match split_first(rest, DOT) {
            Some(cut) => cut,
            None => { return None; },
        };
        let (third, fourth) = match split_first(rest, DOT) {
            Some(cut) => cut,
            None => { return None; },
        };
        match (parse_octet(first), parse_octet(second), parse_octet(third), parse_octet(fourth)) {
            (Some(a), Some(b), Some(c), Some(d)) => Some(Ipv4Addr::new(a, b, c, d)),
            _ => None,
        }
    }

    /// Writes the dotted text behind what `out` holds.
    pub fn write(&self, out: &mut Vec<u8>)
        ensures
            final(out)@ == old(out)@ + ipv4_text(self@),
    {
        push_decimal(out, self.octets[0] as u32);
        out.push(DOT);
        push_decimal(out, self.octets[1] as u32);
        out.push(DOT);
        push_decimal(out, self.octets[2] as u32);
        out.push(DOT);
        push_decimal(out, self.octets[3] as u32);
        assert(final(out)@ =~= old(out)@ + ipv4_text(self@));
    }
}

impl PartialEq for Ipv4Addr {
    fn eq(&self, other: &Self) -> (r: bool) {
        let r = self.octets[0] == other.octets[0] && self.octets[1] == other.octets[1]
            && self.octets[2] == other.octets[2] && self.octets[3] == other.octets[3];
        assert(r == (self@ =~= other@));
        r
    }
}

impl Eq for Ipv4Addr {

}

impl vstd::std_specs::cmp::PartialEqSpecImpl for Ipv4Addr {
    open spec fn obeys_eq_spec() -> bool {
        true
    }

    open spec fn eq_spec(&self, other: &Self) -> bool {
        self@ == other@
    }
}

} // verus!
