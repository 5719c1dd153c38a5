//! Canonical decimal text for 64-bit integers.
//!
//! The correlation store's persisted keys and the interactive-control
//! payloads both embed integers as decimal text.  This module defines the
//! canonical form (`dec_chars`, `dec_chars_int`), renders it
//! (`fmt_u64`, `fmt_i64`), and parses digit runs back (`parse_dec_u64`).
//! The value lemmas make the canonical form injective, which is what lets
//! distinct correlation keys map to distinct persisted keys.

use vstd::prelude::*;
use vstd::string::StringExecFns;
use vstd::arithmetic::div_mod::lemma_fundamental_div_mod;

verus! {

broadcast use vstd::string::group_string_axioms;

/// The character for one decimal digit value.
pub open spec fn digit_char(d: int) -> char {
    if d == 0 {
        '0'
    } else if d == 1 {
        '1'
    } else if d == 2 {
        '2'
    } else if d == 3 {
        '3'
    } else if d == 4 {
        '4'
    } else if d == 5 {
        '5'
    } else if d == 6 {
        '6'
    } else if d == 7 {
        '7'
    } else if d == 8 {
        '8'
    } else {
        '9'
    }
}

/// Whether a character is a decimal digit.
pub open spec fn is_digit_char(c: char) -> bool {
    c == '0' || c == '1' || c == '2' || c == '3' || c == '4' || c == '5' || c == '6' || c == '7'
        || c == '8' || c == '9'
}

/// The numeric value of a digit character (-1 for anything else).
pub open spec fn digit_val(c: char) -> int {
    if c == '0' {
        0
    } else if c == '1' {
        1
    } else if c == '2' {
        2
    } else if c == '3' {
        3
    } else if c == '4' {
        4
    } else if c == '5' {
        5
    } else if c == '6' {
        6
    } else if c == '7' {
        7
    } else if c == '8' {
        8
    } else if c == '9' {
        9
    } else {
        -1
    }
}

/// Canonical decimal digit string of a nonnegative value: no leading zero
/// except for the single digit of zero itself.
pub open spec fn dec_chars(n: nat) -> Seq<char>
    decreases n,
{
    if n < 10 {
        seq![digit_char(n as int)]
    } else {
        dec_chars(n / 10) + seq![digit_char((n % 10) as int)]
    }
}

/// Canonical decimal text of a signed value: a leading '-' for negatives.
pub open spec fn dec_chars_int(n: int) -> Seq<char> {
    if n >= 0 {
        dec_chars(n as nat)
    } else {
        seq!['-'] + dec_chars((-n) as nat)
    }
}

/// Whether every character of the sequence is a decimal digit.
pub open spec fn all_digits(s: Seq<char>) -> bool {
    forall|i: int| 0 <= i < s.len() ==> is_digit_char(#[trigger] s[i])
}

/// The value of a digit string read most-significant-first.
pub open spec fn digits_val(s: Seq<char>) -> int
    decreases s.len(),
{
    if s.len() == 0 {
        0
    } else {
        digits_val(s.drop_last()) * 10 + digit_val(s.last())
    }
}

/// The canonical form is nonempty and made of digits only.
pub proof fn lemma_dec_chars_digits(n: nat)
    ensures
        dec_chars(n).len() >= 1,
        all_digits(dec_chars(n)),
    decreases n,
{
    if n < 10 {
    } else {
        lemma_dec_chars_digits(n / 10);
        assert forall|i: int| 0 <= i < dec_chars(n).len() implies is_digit_char(
            #[trigger] dec_chars(n)[i],
        ) by {
            if i < dec_chars(n / 10).len() {
                assert(dec_chars(n)[i] == dec_chars(n / 10)[i]);
            } else {
                assert(dec_chars(n)[i] == digit_char((n % 10) as int));
            }
        }
    }
}

/// A digit character reads back as its value.
pub proof fn lemma_digit_round_trip(d: int)
    requires
        0 <= d < 10,
    ensures
        digit_val(digit_char(d)) == d,
{
    if d == 0 {
        assert(digit_val(digit_char(0)) == 0);
    } else if d == 1 {
        assert(digit_val(digit_char(1)) == 1);
    } else if d == 2 {
        assert(digit_val(digit_char(2)) == 2);
    } else if d == 3 {
        assert(digit_val(digit_char(3)) == 3);
    } else if d == 4 {
        assert(digit_val(digit_char(4)) == 4);
    } else if d == 5 {
        assert(digit_val(digit_char(5)) == 5);
    } else if d == 6 {
        assert(digit_val(digit_char(6)) == 6);
    } else if d == 7 {
        assert(digit_val(digit_char(7)) == 7);
    } else if d == 8 {
        assert(digit_val(digit_char(8)) == 8);
    } else {
        assert(digit_val(digit_char(9)) == 9);
    }
}

/// Reading the canonical form back gives the value: the canonical form is
/// injective.
pub proof fn lemma_dec_chars_val(n: nat)
    ensures
        digits_val(dec_chars(n)) == n,
    decreases n,
{
    if n < 10 {
        lemma_digit_round_trip(n as int);
        assert(dec_chars(n) == seq![digit_char(n as int)]);
        assert(dec_chars(n).len() == 1);
        assert(dec_chars(n).drop_last() =~= Seq::<char>::empty());
        assert(digits_val(Seq::<char>::empty()) == 0);
        assert(dec_chars(n).last() == digit_char(n as int));
        assert(digits_val(dec_chars(n)) == digits_val(dec_chars(n).drop_last()) * 10 + digit_val(
            dec_chars(n).last(),
        ));
    } else {
        lemma_digit_round_trip((n % 10) as int);
        lemma_dec_chars_val(n / 10);
        lemma_fundamental_div_mod(n as int, 10);
        assert(dec_chars(n).drop_last() =~= dec_chars(n / 10));
        assert(dec_chars(n).last() == digit_char((n % 10) as int));
    }
}

/// Two values with the same canonical digit string are equal.
pub proof fn lemma_dec_chars_injective(a: nat, b: nat)
    ensures
        dec_chars(a) == dec_chars(b) ==> a == b,
{
    if dec_chars(a) == dec_chars(b) {
        lemma_dec_chars_val(a);
        lemma_dec_chars_val(b);
    }
}

/// Two signed values with the same canonical text are equal.
pub proof fn lemma_dec_chars_int_injective(a: int, b: int)
    ensures
        dec_chars_int(a) == dec_chars_int(b) ==> a == b,
{
    lemma_dec_chars_digits(if a >= 0 { a as nat } else { (-a) as nat });
    lemma_dec_chars_digits(if b >= 0 { b as nat } else { (-b) as nat });
    if dec_chars_int(a) == dec_chars_int(b) {
        if a >= 0 && b >= 0 {
            lemma_dec_chars_injective(a as nat, b as nat);
        } else if a < 0 && b < 0 {
            assert(dec_chars((-a) as nat) =~= dec_chars_int(a).drop_first());
            assert(dec_chars((-b) as nat) =~= dec_chars_int(b).drop_first());
            lemma_dec_chars_injective((-a) as nat, (-b) as nat);
        } else if a >= 0 {
            assert(is_digit_char(dec_chars_int(a)[0]));
            assert(dec_chars_int(b)[0] == '-');
        } else {
            assert(is_digit_char(dec_chars_int(b)[0]));
            assert(dec_chars_int(a)[0] == '-');
        }
    }
}

/// A digit string's value is nonnegative.
pub proof fn lemma_digits_val_nonneg(s: Seq<char>)
    requires
        all_digits(s),
    ensures
        digits_val(s) >= 0,
    decreases s.len(),
{
    if s.len() > 0 {
        assert(all_digits(s.drop_last())) by {
            assert(forall|i: int|
                0 <= i < s.drop_last().len() ==> s.drop_last()[i] == #[trigger] s[i]);
        }
        lemma_digits_val_nonneg(s.drop_last());
        assert(is_digit_char(s.last()));
    }
}

/// A prefix of a digit string never has a larger value than the whole.
pub proof fn lemma_digits_val_take_le(s: Seq<char>, i: int)
    requires
        all_digits(s),
        0 <= i <= s.len(),
    ensures
        digits_val(s.take(i)) <= digits_val(s),
    decreases s.len() - i,
{
    if i < s.len() {
        assert(s.take(i + 1).drop_last() =~= s.take(i));
        assert(s.take(i + 1).last() == s[i]);
        assert(all_digits(s.take(i))) by {
            assert(forall|j: int| 0 <= j < i ==> s.take(i)[j] == #[trigger] s[j]);
        }
        lemma_digits_val_nonneg(s.take(i));
        assert(is_digit_char(s[i]));
        assert(digits_val(s.take(i + 1)) >= digits_val(s.take(i)));
        lemma_digits_val_take_le(s, i + 1);
    } else {
        assert(s.take(i) =~= s);
    }
}

/// A one-character slice of decimal text for one digit value.
fn digit_str(d: u64) -> (r: &'static str)
    requires
        d < 10,
    ensures
        r@ == seq![digit_char(d as int)],
{
    if d == 0 {
        proof {
            reveal_strlit("0");
            assert("0"@ =~= seq![digit_char(0int)]);
        }
        "0"
    } else if d == 1 {
        proof {
            reveal_strlit("1");
            assert("1"@ =~= seq![digit_char(1int)]);
        }
        "1"
    } else if d == 2 {
        proof {
            reveal_strlit("2");
            assert("2"@ =~= seq![digit_char(2int)]);
        }
        "2"
    } else if d == 3 {
        proof {
            reveal_strlit("3");
            assert("3"@ =~= seq![digit_char(3int)]);
        }
        "3"
    } else if d == 4 {
        proof {
            reveal_strlit("4");
            assert("4"@ =~= seq![digit_char(4int)]);
        }
        "4"
    } else if d == 5 {
        proof {
            reveal_strlit("5");
            assert("5"@ =~= seq![digit_char(5int)]);
        }
        "5"
    } else if d == 6 {
        proof {
            reveal_strlit("6");
            assert("6"@ =~= seq![digit_char(6int)]);
        }
        "6"
    } else if d == 7 {
        proof {
            reveal_strlit("7");
            assert("7"@ =~= seq![digit_char(7int)]);
        }
        "7"
    } else if d == 8 {
        proof {
            reveal_strlit("8");
            assert("8"@ =~= seq![digit_char(8int)]);
        }
        "8"
    } else {
        proof {
            reveal_strlit("9");
            assert("9"@ =~= seq![digit_char(9int)]);
        }
        "9"
    }
}

/// The numeric value of one character, if it is a decimal digit.
fn char_digit(c: char) -> (r: Option<u64>)
    ensures
        r is Some <==> is_digit_char(c),
        r is Some ==> r->0 == digit_val(c),
{
    if c == '0' {
        Some(0)
    } else if c == '1' {
        Some(1)
    } else if c == '2' {
        Some(2)
    } else if c == '3' {
        Some(3)
    } else if c == '4' {
        Some(4)
    } else if c == '5' {
        Some(5)
    } else if c == '6' {
        Some(6)
    } else if c == '7' {
        Some(7)
    } else if c == '8' {
        Some(8)
    } else if c == '9' {
        Some(9)
    } else {
        None
    }
}

/// Renders the canonical decimal text of an unsigned value.
pub fn fmt_u64(n: u64) -> (s: String)
    ensures
        s@ == dec_chars(n as nat),
    decreases n,
{
    if n < 10 {
        let s = digit_str(n).to_owned();
        s
    } else {
        let mut s = fmt_u64(n / 10);
        s.append(digit_str(n % 10));
        proof {
            assert(s@ =~= dec_chars(n as nat));
        }
        s
    }
}

/// Renders the canonical decimal text of a signed value.
pub fn fmt_i64(n: i64) -> (s: String)
    ensures
        s@ == dec_chars_int(n as int),
{
    if n >= 0 {
        let s = fmt_u64(n as u64);
        s
    } else {
        let mag: u64 = if n == i64::MIN {
            9223372036854775808u64
        } else {
            (0 - n) as u64
        };
        proof {
            assert(mag as int == -(n as int));
        }
        let mut s = "-".to_owned();
        let d = fmt_u64(mag);
        s.append(d.as_str());
        proof {
            reveal_strlit("-");
            assert(s@ =~= dec_chars_int(n as int));
        }
        s
    }
}

/// Reads a run of decimal digits out of `s` between the character indices
/// `from` (inclusive) and `to` (exclusive).  Succeeds exactly when the run
/// is nonempty, made of digits only, and its value fits in 64 bits; leading
/// zeros are accepted here and rejected by the callers' canonical-form
/// comparison.
pub fn parse_dec_u64(s: &str, from: usize, to: usize) -> (r: Option<u64>)
    requires
        from <= to <= s@.len(),
    ensures
        r is Some <==> (from < to && all_digits(s@.subrange(from as int, to as int))
            && digits_val(s@.subrange(from as int, to as int)) <= u64::MAX),
        r is Some ==> r->0 == digits_val(s@.subrange(from as int, to as int)),
{
    let ghost sub = s@.subrange(from as int, to as int);
    if from == to {
        return None;
    }
    let mut val: u64 = 0;
    let mut i: usize = from;
    while i < to
        invariant
            from <= i <= to <= s@.len(),
            sub == s@.subrange(from as int, to as int),
            all_digits(sub.take(i - from)),
            val == digits_val(sub.take(i - from)),
        decreases to - i,
    {
        let c = s.get_char(i);
        proof {
            assert(sub[i - from] == s@[i as int]);
        }
        match char_digit(c) {
            None => {
                proof {
                    assert(!is_digit_char(sub[i - from]));
                }
                return None;
            },
            Some(d) => {
                proof {
                    assert(sub.take(i - from + 1).drop_last() =~= sub.take(i - from));
                    assert(sub.take(i - from + 1).last() == sub[i - from]);
                    assert(digits_val(sub.take(i - from + 1)) == val * 10 + d);
                    lemma_fundamental_div_mod((u64::MAX - d) as int, 10);
                }
                if val > (u64::MAX - d) / 10 {
                    proof {
                        assert(val * 10 + d > u64::MAX);
                        if all_digits(sub) {
                            lemma_digits_val_take_le(sub, i - from + 1);
                            assert(digits_val(sub) > u64::MAX);
                        }
                    }
                    return None;
                }
                proof {
                    assert(val * 10 + d <= u64::MAX);
                }
                val = val * 10 + d;
                i = i + 1;
            },
        }
    }
    proof {
        assert(sub.take(to - from) =~= sub);
    }
    Some(val)
}

} // verus!
