//! The concrete replicated type: a natural-number accumulator. A mutation
//! description is a validated non-negative increment, and merging is
//! addition, saturating at the largest representable value so that the
//! merge laws hold on every input.

use vstd::prelude::*;
use vstd::string::StrSliceExecFns;
use vstd::string::StringExecFns;

use crate::codec::u64_le;
use crate::codec::u64_to_le_bytes;
use crate::merge::Applyable;

verus! {

/// The replicated counter value.
#[derive(Clone, Copy, Debug, PartialEq, Eq, Structural)]
pub struct Nat {
    pub n: u64,
}

impl Nat {
    pub fn from(n: u64) -> (r: Nat)
        ensures
            r.n == n,
    {
        Nat { n }
    }
}

pub open spec fn is_digit(c: char) -> bool {
    48 <= c as u32 <= 57
}

pub open spec fn digit_val(c: char) -> nat {
    if is_digit(c) {
        (c as u32 - 48) as nat
    } else {
        0
    }
}

pub open spec fn digit_char(d: nat) -> char {
    if d == 0 {
        '0'
    } else if d == 1 {
        '1'
    } else if d == 2 {
        '2'
    } else if d == 3 {
        '3'
    } else if d == 4 {
        '4'
    } else if d == 5 {
        '5'
    } else if d == 6 {
        '6'
    } else if d == 7 {
        '7'
    } else if d == 8 {
        '8'
    } else {
        '9'
    }
}

/// The decimal digits of a number, most significant first, no leading zero
/// except for the number zero itself.
pub open spec fn dec_digits(n: nat) -> Seq<char>
    decreases n,
{
    if n < 10 {
        seq![digit_char(n)]
    } else {
        dec_digits(n / 10).push(digit_char(n % 10))
    }
}

/// The number a sequence of digit characters denotes.
pub open spec fn dec_val(s: Seq<char>) -> nat
    decreases s.len(),
{
    if s.len() == 0 {
        0
    } else {
        dec_val(s.drop_last()) * 10 + digit_val(s.last())
    }
}

pub open spec fn all_digits(s: Seq<char>) -> bool {
    forall|i: int| 0 <= i < s.len() ==> is_digit(#[trigger] s[i])
}

/// A prefix of a digit string never denotes more than the whole string.
proof fn lemma_dec_val_prefix(s: Seq<char>, i: int)
    requires
        0 <= i <= s.len(),
    ensures
        dec_val(s.subrange(0, i)) <= dec_val(s),
    decreases s.len() - i,
{
    if i == s.len() {
        assert(s.subrange(0, i) =~= s);
    } else {
        lemma_dec_val_prefix(s, i + 1);
        assert(s.subrange(0, i + 1).drop_last() =~= s.subrange(0, i));
        assert(s.subrange(0, i + 1).last() == s[i]);
    }
}

/// What parsing an increment line yields: an optional leading plus sign,
/// then one or more decimal digits whose value fits in 64 bits; anything
/// else is rejected.
pub open spec fn parse_u64_spec(text: Seq<char>) -> Option<u64> {
    let t = if text.len() > 0 && text[0] == '+' {
        text.drop_first()
    } else {
        text
    };
    if t.len() > 0 && all_digits(t) && dec_val(t) <= u64::MAX as nat {
        Some(dec_val(t) as u64)
    } else {
        None
    }
}

/// Reads a decimal increment from one line of text; exactly the texts
/// `parse_u64_spec` accepts are accepted.
pub fn parse_u64_dec(text: &str) -> (r: Option<u64>)
    ensures
        r == parse_u64_spec(text@),
{
    let len = text.unicode_len();
    let mut i: usize = 0;
    if len > 0 && text.get_char(0) == '+' {
        i = 1;
    }
    let ghost start = i as int;
    let ghost t = if text@.len() > 0 && text@[0] == '+' {
        text@.drop_first()
    } else {
        text@
    };
    proof {
        assert(t =~= text@.subrange(start, text@.len() as int));
    }
    if i >= len {
        return None;
    }
    let mut acc: u64 = 0;
    while i < len
        invariant
            start <= i <= len,
            len == text@.len(),
            start == 0 || start == 1,
            t == text@.subrange(start, text@.len() as int),
            t == (if text@.len() > 0 && text@[0] == '+' {
                text@.drop_first()
            } else {
                text@
            }),
            acc as nat == dec_val(text@.subrange(start, i as int)),
            forall|k: int| start <= k < i ==> is_digit(#[trigger] text@[k]),
        decreases len - i,
    {
        let c = text.get_char(i);
        let u = c as u32;
        proof {
            assert(text@.subrange(start, i + 1).drop_last() =~= text@.subrange(start, i as int));
            assert(text@.subrange(start, i + 1).last() == text@[i as int]);
        }
        if u < 48 || u > 57 {
            proof {
                assert(t[i - start] == text@[i as int]);
                assert(!is_digit(t[i - start]));
                assert(!all_digits(t));
            }
            return None;
        }
        let d = (u - 48) as u64;
        proof {
            assert(digit_val(text@[i as int]) == d as nat);
        }
        // The largest value whose last digit may still be appended: ten
        // times it, plus five, is the largest 64-bit integer.
        if acc < 1844674407370955161u64 || (acc == 1844674407370955161u64 && d <= 5) {
            acc = acc * 10 + d;
        } else {
            proof {
                assert(dec_val(text@.subrange(start, i + 1)) > u64::MAX as nat);
                assert(text@.subrange(start, i + 1) =~= t.subrange(0, i + 1 - start));
                lemma_dec_val_prefix(t, i + 1 - start);
                assert(dec_val(t) > u64::MAX as nat);
            }
            return None;
        }
        i += 1;
    }
    proof {
        assert(text@.subrange(start, len as int) =~= t);
        assert(dec_val(t) == acc as nat);
        assert(all_digits(t));
        assert(t.len() > 0);
    }
    Some(acc)
}

/// One digit as a string slice.
fn digit_str(d: u64) -> (r: &'static str)
    requires
        d < 10,
    ensures
        r@ =~= seq![digit_char(d as nat)],
{
    proof {
        reveal_strlit("0");
        reveal_strlit("1");
        reveal_strlit("2");
        reveal_strlit("3");
        reveal_strlit("4");
        reveal_strlit("5");
        reveal_strlit("6");
        reveal_strlit("7");
        reveal_strlit("8");
        reveal_strlit("9");
    }
    if d == 0 {
        "0"
    } else if d == 1 {
        "1"
    } else if d == 2 {
        "2"
    } else if d == 3 {
        "3"
    } else if d == 4 {
        "4"
    } else if d == 5 {
        "5"
    } else if d == 6 {
        "6"
    } else if d == 7 {
        "7"
    } else if d == 8 {
        "8"
    } else {
        "9"
    }
}

/// The decimal presentation of a 64-bit integer.
pub fn u64_to_dec_string(x: u64) -> (r: String)
    ensures
        r@ == dec_digits(x as nat),
    decreases x,
{
    if x < 10 {
        let r = digit_str(x).to_owned();
        proof {
            assert(r@ =~= dec_digits(x as nat));
        }
        r
    } else {
        let mut s = u64_to_dec_string(x / 10);
        s.append(digit_str(x % 10));
        proof {
            assert(s@ =~= dec_digits((x / 10) as nat).push(digit_char((x % 10) as nat)));
        }
        s
    }
}

impl Applyable for Nat {
    type Description = Nat;

    /// Saturating addition: inherently conflict-free, and total on every
    /// pair of values, so the merge laws hold without side conditions.
    open spec fn merge_spec(v: Nat, d: Nat) -> Nat {
        if v.n + d.n <= u64::MAX {
            Nat { n: (v.n + d.n) as u64 }
        } else {
            Nat { n: u64::MAX }
        }
    }

    proof fn merge_commutes(v: Nat, a: Nat, b: Nat) {
    }

    fn merge(&self, d: &Nat) -> (r: Nat) {
        if self.n <= u64::MAX - d.n {
            Nat { n: self.n + d.n }
        } else {
            Nat { n: u64::MAX }
        }
    }

    open spec fn parse_spec(text: Seq<char>) -> Option<Nat> {
        match parse_u64_spec(text) {
            Some(v) => Some(Nat { n: v }),
            None => None,
        }
    }

    fn parse(text: &str) -> (r: Option<Nat>) {
        match parse_u64_dec(text) {
            Some(v) => Some(Nat { n: v }),
            None => None,
        }
    }

    open spec fn desc_bytes_spec(d: Nat) -> Seq<u8> {
        u64_le(d.n)
    }

    fn desc_bytes(d: &Nat) -> (r: Vec<u8>) {
        u64_to_le_bytes(d.n)
    }

    open spec fn display_spec(self) -> Seq<char> {
        dec_digits(self.n as nat)
    }

    fn display(&self) -> (r: String) {
        u64_to_dec_string(self.n)
    }
}

} // verus!
