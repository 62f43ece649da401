//! Hexadecimal numbers as text: the value of a string of hex digits, and the
//! one string in lower case, without needless zeros, that stands for a value.

use vstd::prelude::*;
use crate::ascii::{digit, is_digit, COLON, DIGIT_0, DOT, LOWER_A, LOWER_F, UPPER_A, UPPER_F};
use crate::bytes::free_of;

verus! {

/// A digit, or a letter from `a` to `f` in either case.
pub open spec fn is_hex_digit(b: u8) -> bool {
    is_digit(b) || (LOWER_A <= b <= LOWER_F) || (UPPER_A <= b <= UPPER_F)
}

/// What a hex digit counts for.
pub open spec fn hex_digit_value(b: u8) -> nat {
    if is_digit(b) {
        (b - DIGIT_0) as nat
    } else if LOWER_A <= b <= LOWER_F {
        (b - LOWER_A + 10) as nat
    } else {
        (b - UPPER_A + 10) as nat
    }
}

/// The hex digit, in lower case, that counts for `v`.
pub open spec fn hex_digit(v: nat) -> u8 {
    if v < 10 {
        (DIGIT_0 + v) as u8
    } else {
        (LOWER_A + v - 10) as u8
    }
}

/// Hex digits and nothing else.
pub open spec fn all_hex(s: Seq<u8>) -> bool {
    forall|i: int| 0 <= i < s.len() ==> is_hex_digit(#[trigger] s[i])
}

/// The number that a string of hex digits stands for, the first digit
/// weighing most.
pub open spec fn hex_value(s: Seq<u8>) -> nat
    decreases s.len(),
{
    if s.len() == 0 {
        0
    } else {
        hex_value(s.drop_last()) * 16 + hex_digit_value(s.last())
    }
}

/// The hex digits of `n`, in lower case, without a zero in front unless `n`
/// is zero.
pub open spec fn hex_text(n: nat) -> Seq<u8>
    decreases n,
{
    if n < 16 {
        seq![hex_digit(n)]
    } else {
        hex_text(n / 16).push(hex_digit(n % 16))
    }
}

/// The 16-bit group that `s` is a text of: one to four hex digits.
pub open spec fn group_of(s: Seq<u8>) -> Option<u16> {
    if 1 <= s.len() <= 4 && all_hex(s) {
        Some(hex_value(s) as u16)
    } else {
        None
    }
}

/// A string of up to four hex digits stands for a number below 65536.
pub proof fn lemma_hex_value_bound(s: Seq<u8>)
    requires
        all_hex(s),
    ensures
        s.len() <= 1 ==> hex_value(s) < 0x10,
        s.len() <= 2 ==> hex_value(s) < 0x100,
        s.len() <= 3 ==> hex_value(s) < 0x1000,
        s.len() <= 4 ==> hex_value(s) < 0x10000,
    decreases s.len(),
{
    if s.len() > 0 {
        let h = s.drop_last();
        assert forall|i: int| 0 <= i < h.len() implies is_hex_digit(#[trigger] h[i]) by {
            assert(h[i] == s[i]);
        }
        lemma_hex_value_bound(h);
        assert(is_hex_digit(s.last()));
    }
}

/// `hex_text(n)` holds hex digits only and stands for `n`; below 65536 it has
/// at most four of them.
pub proof fn lemma_hex_text(n: nat)
    ensures
        all_hex(hex_text(n)),
        hex_value(hex_text(n)) == n,
        hex_text(n).len() >= 1,
        n < 0x10 ==> hex_text(n).len() == 1,
        n < 0x100 ==> hex_text(n).len() <= 2,
        n < 0x1000 ==> hex_text(n).len() <= 3,
        n < 0x10000 ==> hex_text(n).len() <= 4,
    decreases n,
{
    let t = hex_text(n);
    if n < 16 {
        assert(t.drop_last() =~= Seq::<u8>::empty());
        assert(hex_value(t.drop_last()) == 0);
    } else {
        let q = n / 16;
        lemma_hex_text(q);
        let h = hex_text(q);
        assert(t.drop_last() =~= h);
        assert forall|i: int| 0 <= i < t.len() implies is_hex_digit(#[trigger] t[i]) by {
            if i < h.len() {
                assert(t[i] == h[i]);
            }
        }
    }
}

/// The text of a group is read back as that group, and holds neither a colon
/// nor a dot.
pub proof fn lemma_group_text(v: u16)
    ensures
        group_of(hex_text(v as nat)) == Some(v),
        free_of(hex_text(v as nat), COLON),
        free_of(hex_text(v as nat), DOT),
        1 <= hex_text(v as nat).len() <= 4,
{
    lemma_hex_text(v as nat);
    let t = hex_text(v as nat);
    assert forall|i: int| 0 <= i < t.len() implies #[trigger] t[i] != COLON && t[i] != DOT by {
        assert(is_hex_digit(t[i]));
    }
}

/// What one hex digit counts for; `None` for any other byte.
pub fn hex_digit_of(b: u8) -> (r: Option<u8>)
    ensures
        match r {
            Some(v) => is_hex_digit(b) && v == hex_digit_value(b),
            None => !is_hex_digit(b),
        },
{
    if digit(b) {
        Some(b - DIGIT_0)
    } else if LOWER_A <= b && b <= LOWER_F {
        Some(b - LOWER_A + 10)
    } else if UPPER_A <= b && b <= UPPER_F {
        Some(b - UPPER_A + 10)
    } else {
        None
    }
}

/// Reads one group: one to four hex digits in either case.
pub fn parse_group(s: &[u8]) -> (r: Option<u16>)
    ensures
        r == group_of(s@),
{
    if s.len() == 0 || s.len() > 4 {
        return None;
    }
    let mut acc: u16 = 0;
    let mut i: usize = 0;
    assert(s@.take(0) =~= Seq::<u8>::empty());
    while i < s.len()
        invariant
            i <= s.len() <= 4,
            all_hex(s@.take(i as int)),
            acc == hex_value(s@.take(i as int)),
        decreases s.len() - i,
    {
        let v = match hex_digit_of(s[i]) {
            Some(v) => v,
            None => { return None; },
        };
        proof {
            let t = s@.take(i + 1);
            assert(t.drop_last() =~= s@.take(i as int));
            assert(t.last() == s@[i as int]);
            assert forall|j: int| 0 <= j < t.len() implies is_hex_digit(#[trigger] t[j]) by {
                if j < i {
                    assert(t[j] == s@.take(i as int)[j]);
                }
            }
            lemma_hex_value_bound(s@.take(i as int));
            lemma_hex_value_bound(t);
        }
        acc = acc * 16 + v as u16;
        i += 1;
    }
    assert(s@.take(i as int) =~= s@);
    Some(acc)
}

/// Writes the text of `n` behind what `out` holds.
pub fn push_hex(out: &mut Vec<u8>, n: u16)
    ensures
        final(out)@ == old(out)@ + hex_text(n as nat),
    decreases n,
{
    if n >= 16 {
        push_hex(out, n / 16);
    }
    let v: u8 = (n % 16) as u8;
    out.push(if v < 10 { DIGIT_0 + v } else { LOWER_A + (v - 10) });
    assert(final(out)@ =~= old(out)@ + hex_text(n as nat));
}

} // verus!
