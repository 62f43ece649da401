//! Host names: what counts as one, and the scanner that decides it.
//!
//! A host name is a list of labels joined by dots. A label holds 1 to 63
//! letters, digits, underscores and hyphens, and neither begins nor ends with
//! a hyphen. The last label is not made of digits alone, so that nothing that
//! looks like a dotted number passes for a name. The whole name holds at most
//! 253 bytes.

use vstd::prelude::*;
use crate::ascii::{digit, is_digit, DOT, HYPHEN, LOWER_A, LOWER_Z, UNDERSCORE, UPPER_A, UPPER_Z};
use crate::bytes::{
    cut_at_first, first_index_of, lemma_cut_at_first, lemma_first_index_is, lemma_first_index_of,
};
use crate::decimal::all_digits;

verus! {

/// The longest label.
pub const MAX_LABEL_LENGTH: usize = 63;

/// The longest name.
pub const MAX_NAME_LENGTH: usize = 253;

/// An ASCII letter or an underscore.
pub open spec fn is_letter(b: u8) -> bool {
    (LOWER_A <= b <= LOWER_Z) || (UPPER_A <= b <= UPPER_Z) || b == UNDERSCORE
}

/// A byte that may stand in a label.
pub open spec fn is_label_byte(b: u8) -> bool {
    is_digit(b) || is_letter(b) || b == HYPHEN
}

/// One label of a host name.
pub open spec fn is_label(l: Seq<u8>) -> bool {
    &&& 1 <= l.len() <= MAX_LABEL_LENGTH
    &&& forall|i: int| 0 <= i < l.len() ==> is_label_byte(#[trigger] l[i])
    &&& l[0] != HYPHEN
    &&& l.last() != HYPHEN
}

/// `s` is a list of labels joined by dots, the last of them not numeric.
pub open spec fn is_label_list(s: Seq<u8>) -> bool
    decreases s.len(),
{
    match cut_at_first(s, DOT) {
        Some((label, rest)) => is_label(label) && is_label_list(rest),
        None => is_label(s) && !all_digits(s),
    }
}

/// `s` is a host name.
pub open spec fn is_host_name(s: Seq<u8>) -> bool {
    s.len() <= MAX_NAME_LENGTH && is_label_list(s)
}

/// A list of labels is not empty, begins with a label byte and holds label
/// bytes and dots only.
pub proof fn lemma_label_list_bytes(s: Seq<u8>)
    requires
        is_label_list(s),
    ensures
        s.len() >= 1,
        is_label_byte(s[0]),
        forall|i: int| 0 <= i < s.len() ==> is_label_byte(#[trigger] s[i]) || s[i] == DOT,
    decreases s.len(),
{
    lemma_cut_at_first(s, DOT);
    match cut_at_first(s, DOT) {
        Some((label, rest)) => {
            lemma_label_list_bytes(rest);
            assert(s[0] == label[0]);
            let n = label.len() as int;
            assert forall|i: int| 0 <= i < s.len() implies is_label_byte(#[trigger] s[i]) || s[i]
                == DOT by {
                if i < n {
                    assert(s[i] == label[i]);
                } else if i > n {
                    assert(s[i] == rest[i - n - 1]);
                }
            }
        },
        None => {},
    }
}

/// Where the scanner stands inside the name.
enum State {
    /// Nothing read yet.
    Start,
    /// Just behind a dot that closed a label with a letter or hyphen in it.
    Next,
    /// Inside a label that holds digits only so far.
    NumericOnly { len: usize },
    /// Just behind a dot that closed a label of digits.
    NextAfterNumericOnly,
    /// Inside a label that holds something else than digits and does not end
    /// with a hyphen.
    Subsequent { len: usize },
    /// Inside a label, behind a hyphen.
    Hyphen { len: usize },
}

impl State {
    /// What the state claims of the label that began at `start` and has been
    /// read up to `idx`.
    spec fn describes(self, s: Seq<u8>, start: int, idx: int) -> bool {
        match self {
            State::Start => start == 0 && idx == 0,
            State::Next | State::NextAfterNumericOnly => start == idx,
            State::NumericOnly { len } => {
                &&& len == idx - start
                &&& 1 <= len <= MAX_LABEL_LENGTH
                &&& forall|j: int| start <= j < idx ==> is_digit(#[trigger] s[j])
            },
            State::Subsequent { len } => {
                &&& len == idx - start
                &&& 1 <= len <= MAX_LABEL_LENGTH
                &&& s[start] != HYPHEN
                &&& s[idx - 1] != HYPHEN
                &&& exists|j: int| start <= j < idx && !is_digit(#[trigger] s[j])
            },
            State::Hyphen { len } => {
                &&& len == idx - start
                &&& 1 <= len <= MAX_LABEL_LENGTH
                &&& s[start] != HYPHEN
                &&& s[idx - 1] == HYPHEN
            },
        }
    }
}

/// A label that has a byte outside the label bytes, begins with a hyphen or is
/// longer than 63 bytes spoils the list, wherever the label would end.
proof fn lemma_spoiled_label(t: Seq<u8>, k: int)
    requires
        0 <= k < t.len(),
        forall|j: int| 0 <= j <= k ==> t[j] != DOT,
        !is_label_byte(t[k]) || t[0] == HYPHEN || k >= MAX_LABEL_LENGTH,
    ensures
        !is_label_list(t),
{
    lemma_first_index_of(t, DOT);
    let dot = first_index_of(t, DOT);
    assert(dot > k) by {
        if dot <= k {
            assert(t[dot] != DOT);
        }
    }
    if dot < t.len() {
        let l = t.take(dot);
        assert(l[k] == t[k]);
        assert(l[0] == t[0]);
    }
}

/// A dot at `k`, behind a label without dots, ends that label.
proof fn lemma_label_closed(t: Seq<u8>, k: int)
    requires
        0 <= k < t.len(),
        forall|j: int| 0 <= j < k ==> t[j] != DOT,
        t[k] == DOT,
    ensures
        is_label_list(t) == (is_label(t.take(k)) && is_label_list(t.skip(k + 1))),
{
    lemma_first_index_is(t, DOT, k);
}

/// Without a dot the list is one label.
proof fn lemma_last_label(t: Seq<u8>)
    requires
        forall|j: int| 0 <= j < t.len() ==> t[j] != DOT,
    ensures
        is_label_list(t) == (is_label(t) && !all_digits(t)),
{
    lemma_first_index_is(t, DOT, t.len() as int);
}

/// Decides whether `input` is a host name.
pub fn validate_host_name(input: &[u8]) -> (r: Result<(), ()>)
    ensures
        r.is_ok() == is_host_name(input@),
{
    if input.len() > MAX_NAME_LENGTH {
        return Err(());
    }
    let mut state = State::Start;
    let mut idx: usize = 0;
    let ghost mut start: int = 0;
    assert(input@.skip(0) =~= input@);
    while idx < input.len()
        invariant
            0 <= start <= idx <= input.len() <= MAX_NAME_LENGTH,
            is_label_list(input@) == is_label_list(input@.skip(start)),
            forall|j: int| start <= j < idx ==> is_label_byte(#[trigger] input@[j]),
            state.describes(input@, start, idx as int),
        decreases input.len() - idx,
    {
        let ch = input[idx];
        let ghost t = input@.skip(start);
        let ghost k = idx - start;
        assert(forall|j: int| 0 <= j < k ==> t[j] == input@[start + j]);
        assert(t[k] == ch);
        assert(forall|j: int| 0 <= j < k ==> t[j] != DOT) by {
            assert(forall|j: int| 0 <= j < k ==> is_label_byte(#[trigger] t[j]));
        }
        if ch == DOT {
            proof {
                lemma_label_closed(t, k);
                assert(t.skip(k + 1) =~= input@.skip(idx + 1));
                let l = t.take(k);
                assert(forall|j: int| 0 <= j < k ==> l[j] == input@[start + j]);
            }
            match state {
                State::Subsequent { .. } => {
                    state = State::Next;
                },
                State::NumericOnly { .. } => {
                    assert(forall|j: int| 0 <= j < k ==> is_digit(#[trigger] t.take(k)[j]));
                    state = State::NextAfterNumericOnly;
                },
                _ => {
                    return Err(());
                },
            }
            proof {
                start = idx + 1;
            }
        } else {
            let len: usize = match state {
                State::Subsequent { len } | State::NumericOnly { len } | State::Hyphen { len } => len,
                _ => 0,
            };
            let digit = digit(ch);
            let letter = (LOWER_A <= ch && ch <= LOWER_Z) || (UPPER_A <= ch && ch <= UPPER_Z)
                || ch == UNDERSCORE;
            let hyphen = ch == HYPHEN;
            if len >= MAX_LABEL_LENGTH || !(digit || letter || hyphen) || (len == 0 && hyphen) {
                proof {
                    lemma_spoiled_label(t, k);
                }
                return Err(());
            }
            state = match state {
                State::NumericOnly { len } if digit => State::NumericOnly { len: len + 1 },
                _ => if hyphen {
                    State::Hyphen { len: len + 1 }
                } else if digit && len == 0 {
                    State::NumericOnly { len: 1 }
                } else {
                    assert(!is_digit(input@[idx as int]) || exists|j: int|
                        start <= j < idx && !is_digit(#[trigger] input@[j]));
                    State::Subsequent { len: len + 1 }
                },
            };
        }
        idx += 1;
    }
    proof {
        let t = input@.skip(start);
        assert(forall|j: int| 0 <= j < t.len() ==> t[j] == input@[start + j]);
        assert(forall|j: int| 0 <= j < t.len() ==> t[j] != DOT) by {
            assert(forall|j: int| 0 <= j < t.len() ==> is_label_byte(#[trigger] t[j]));
        }
        lemma_last_label(t);
    }
    match state {
        State::Subsequent { .. } => {
            proof {
                let t = input@.skip(start);
                let j = choose|j: int| start <= j < idx && !is_digit(#[trigger] input@[j]);
                assert(!is_digit(t[j - start]));
            }
            Ok(())
        },
        State::NumericOnly { .. } => {
            assert(all_digits(input@.skip(start)));
            Err(())
        },
        _ => Err(()),
    }
}

} // verus!
