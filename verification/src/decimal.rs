//! Decimal numbers as text: the value of a string of digits, and the one
//! string without needless zeros that stands for a value.

use vstd::prelude::*;
use crate::ascii::{digit, is_digit, DIGIT_0};

verus! {

/// Digits and nothing else.
pub open spec fn all_digits(s: Seq<u8>) -> bool {
    forall|i: int| 0 <= i < s.len() ==> is_digit(#[trigger] s[i])
}

/// The number that a string of digits stands for, the first digit weighing
/// most.
pub open spec fn decimal_value(s: Seq<u8>) -> nat
    decreases s.len(),
{
    if s.len() == 0 {
        0
    } else {
        decimal_value(s.drop_last()) * 10 + (s.last() - DIGIT_0) as nat
    }
}

/// The digits of `n`, without a zero in front unless `n` is zero.
pub open spec fn decimal_text(n: nat) -> Seq<u8>
    decreases n,
{
    if n < 10 {
        seq![(DIGIT_0 + n) as u8]
    } else {
        decimal_text(n / 10).push((DIGIT_0 + n % 10) as u8)
    }
}

/// A string of digits is in short form when it is not empty and has no zero
/// in front of another digit.
pub open spec fn is_short_form(s: Seq<u8>) -> bool {
    &&& s.len() >= 1
    &&& all_digits(s)
    &&& s.len() > 1 ==> s[0] != DIGIT_0
}

/// `decimal_text(n)` is in short form and stands for `n`.
pub proof fn lemma_decimal_text(n: nat)
    ensures
        is_short_form(decimal_text(n)),
        decimal_value(decimal_text(n)) == n,
        n >= 10 ==> decimal_text(n).len() >= 2,
    decreases n,
{
    let t = decimal_text(n);
    if n < 10 {
        assert(t.drop_last() =~= Seq::<u8>::empty());
        assert(decimal_value(t.drop_last()) == 0);
    } else {
        let q = n / 10;
        lemma_decimal_text(q);
        let h = decimal_text(q);
        assert(t.drop_last() =~= h);
        assert(t[0] == h[0]);
        assert(q >= 1);
        if h.len() == 1 {
            assert(h.drop_last() =~= Seq::<u8>::empty());
            assert(decimal_value(h.drop_last()) == 0);
            assert(h[0] != DIGIT_0);
        }
        assert forall|i: int| 0 <= i < t.len() implies is_digit(#[trigger] t[i]) by {
            if i < h.len() {
                assert(t[i] == h[i]);
            }
        }
    }
}

/// A string in short form is the text of its value: no two of them stand for
/// one number.
pub proof fn lemma_short_form_is_text(s: Seq<u8>)
    requires
        is_short_form(s),
    ensures
        decimal_text(decimal_value(s)) == s,
    decreases s.len(),
{
    let h = s.drop_last();
    if s.len() == 1 {
        assert(h =~= Seq::<u8>::empty());
        assert(decimal_value(h) == 0);
        assert(is_digit(s[0]));
        assert(decimal_text(decimal_value(s)) =~= s);
    } else {
        assert(h[0] == s[0]);
        assert forall|i: int| 0 <= i < h.len() implies is_digit(#[trigger] h[i]) by {
            assert(h[i] == s[i]);
        }
        lemma_short_form_is_text(h);
        lemma_leading_digit(h);
        assert(is_digit(s.last()));
        let n = decimal_value(s);
        assert(n / 10 == decimal_value(h));
        assert(decimal_text(n) =~= s);
    }
}

/// A string of digits that does not begin with a zero stands for no less than
/// a one followed by as many zeros as it has further digits; here: it is not
/// zero.
proof fn lemma_leading_digit(s: Seq<u8>)
    requires
        s.len() >= 1,
        all_digits(s),
        s[0] != DIGIT_0,
    ensures
        decimal_value(s) >= 1,
    decreases s.len(),
{
    let h = s.drop_last();
    if s.len() == 1 {
        assert(h =~= Seq::<u8>::empty());
        assert(decimal_value(h) == 0);
        assert(is_digit(s[0]));
    } else {
        assert(h[0] == s[0]);
        assert forall|i: int| 0 <= i < h.len() implies is_digit(#[trigger] h[i]) by {
            assert(h[i] == s[i]);
        }
        lemma_leading_digit(h);
    }
}

/// Reading further digits never makes the number smaller.
pub proof fn lemma_decimal_value_grows(s: Seq<u8>, k: int)
    requires
        all_digits(s),
        0 <= k <= s.len(),
    ensures
        decimal_value(s.take(k)) <= decimal_value(s),
    decreases s.len(),
{
    if k == s.len() {
        assert(s.take(k) =~= s);
    } else {
        let h = s.drop_last();
        assert forall|i: int| 0 <= i < h.len() implies is_digit(#[trigger] h[i]) by {
            assert(h[i] == s[i]);
        }
        lemma_decimal_value_grows(h, k);
        assert(h.take(k) =~= s.take(k));
        assert(is_digit(s.last()));
    }
}

/// The text of a number below a thousand has at most three digits, and that
/// of a number below a hundred thousand at most five.
pub proof fn lemma_decimal_text_len(n: nat)
    ensures
        1 <= decimal_text(n).len(),
        n < 10 ==> decimal_text(n).len() == 1,
        n < 100 ==> decimal_text(n).len() <= 2,
        n < 1000 ==> decimal_text(n).len() <= 3,
        n < 10000 ==> decimal_text(n).len() <= 4,
        n < 100000 ==> decimal_text(n).len() <= 5,
    decreases n,
{
    if n >= 10 {
        lemma_decimal_text_len(n / 10);
    }
}

/// The number that `s` stands for, where `s` is one or more digits and the
/// number is at most `max`.
pub open spec fn number_up_to(s: Seq<u8>, max: nat) -> Option<nat> {
    if s.len() >= 1 && all_digits(s) && decimal_value(s) <= max {
        Some(decimal_value(s))
    } else {
        None
    }
}

/// Reads a decimal number of at most `max`. Any number of zeros may stand in
/// front; a sign may not.
pub fn parse_number(s: &[u8], max: u32) -> (r: Option<u32>)
    requires
        max <= 0xff_ffff,
    ensures
        match r {
            Some(n) => number_up_to(s@, max as nat) == Some(n as nat),
            None => number_up_to(s@, max as nat) is None,
        },
{
    if s.len() == 0 {
        return None;
    }
    let mut acc: u32 = 0;
    let mut i: usize = 0;
    assert(s@.take(0) =~= Seq::<u8>::empty());
    while i < s.len()
        invariant
            i <= s.len(),
            max <= 0xff_ffff,
            all_digits(s@.take(i as int)),
            acc == decimal_value(s@.take(i as int)),
            acc <= max,
        decreases s.len() - i,
    {
        let b = s[i];
        if !digit(b) {
            return None;
        }
        proof {
            let t = s@.take(i + 1);
            assert(t.drop_last() =~= s@.take(i as int));
            assert(t.last() == b);
            assert forall|j: int| 0 <= j < t.len() implies is_digit(#[trigger] t[j]) by {
                if j < i {
                    assert(t[j] == s@.take(i as int)[j]);
                }
            }
        }
        acc = acc * 10 + (b - DIGIT_0) as u32;
        if acc > max {
            proof {
                if all_digits(s@) {
                    lemma_decimal_value_grows(s@, i + 1);
                }
            }
            return None;
        }
        i += 1;
    }
    assert(s@.take(i as int) =~= s@);
    Some(acc)
}

/// Writes the text of `n` behind what `out` holds.
pub fn push_decimal(out: &mut Vec<u8>, n: u32)
    ensures
        final(out)@ == old(out)@ + decimal_text(n as nat),
    decreases n,
{
    if n >= 10 {
        push_decimal(out, n / 10);
    }
    out.push(DIGIT_0 + (n % 10) as u8);
    assert(final(out)@ =~= old(out)@ + decimal_text(n as nat));
}

} // verus!
