//! The opaque payload carried by an interactive control.
//!
//! A `Callback` names one workflow action and the message identifier it
//! references.  `to_string` renders the payload in its fixed wire form
//! (a tagged object, `{"Offtopic":{"id":<decimal>}}`); `from_string`
//! accepts exactly the strings that `to_string` produces and fails
//! distinctly on everything else, so a decoded payload always identifies
//! one definite token.

use vstd::prelude::*;
use vstd::string::StringExecFns;
use vstd::string::StrSliceExecFns;
use crate::digits::{
    all_digits, dec_chars, dec_chars_int, digits_val, fmt_i64, is_digit_char,
    lemma_dec_chars_digits, lemma_dec_chars_val, lemma_dec_chars_int_injective, parse_dec_u64,
};

verus! {

broadcast use vstd::string::group_string_axioms;

/// One workflow action kind, together with the message it references.
/// The wire form tags the variant by name, so further variants can be
/// added without re-reading old payloads as the wrong kind.
#[derive(Clone, Copy, Debug, PartialEq, Eq, Structural)]
pub enum Callback {
    Offtopic { id: i64 },
}

/// Failure of `from_string`: the input is not a payload this codec
/// produced.  Absence of a payload is not an error and is handled by the
/// caller before decoding.
#[derive(Clone, Copy, Debug, PartialEq, Eq, Structural)]
pub enum DecodeError {
    Malformed,
}

/// The message identifier a token references.
pub open spec fn token_id(c: Callback) -> i64 {
    match c {
        Callback::Offtopic { id } => id,
    }
}

/// The characters before the identifier in the wire form.
pub open spec fn tok_prefix() -> Seq<char> {
    "{\"Offtopic\":{\"id\":"@
}

/// The characters after the identifier in the wire form.
pub open spec fn tok_suffix() -> Seq<char> {
    "}}"@
}

/// The wire form of a token.
pub open spec fn encode_spec(c: Callback) -> Seq<char> {
    tok_prefix() + dec_chars_int(token_id(c) as int) + tok_suffix()
}

/// Shape of an encoded token: the prefix, the canonical decimal of the
/// identifier (with its sign), then two closing braces.
proof fn lemma_encode_parse(c: Callback, s: Seq<char>)
    requires
        s == encode_spec(c),
    ensures
        s.len() >= tok_prefix().len() + 3,
        forall|j: int| 0 <= j < tok_prefix().len() ==> s[j] == tok_prefix()[j],
        s[s.len() - 2] == '}',
        s[s.len() - 1] == '}',
        token_id(c) >= 0 ==> {
            &&& is_digit_char(s[tok_prefix().len() as int])
            &&& s.subrange(tok_prefix().len() as int, s.len() - 2) == dec_chars(
                token_id(c) as nat,
            )
            &&& all_digits(s.subrange(tok_prefix().len() as int, s.len() - 2))
            &&& digits_val(s.subrange(tok_prefix().len() as int, s.len() - 2)) == token_id(c)
        },
        token_id(c) < 0 ==> {
            &&& s[tok_prefix().len() as int] == '-'
            &&& s.subrange(tok_prefix().len() as int + 1, s.len() - 2) == dec_chars(
                (-token_id(c)) as nat,
            )
            &&& all_digits(s.subrange(tok_prefix().len() as int + 1, s.len() - 2))
            &&& digits_val(s.subrange(tok_prefix().len() as int + 1, s.len() - 2)) == -token_id(c)
        },
{
    reveal_strlit("}}");
    let id = token_id(c) as int;
    let pl = tok_prefix().len() as int;
    let d = dec_chars_int(id);
    assert(tok_suffix().len() == 2);
    assert(tok_suffix()[0] == '}');
    assert(tok_suffix()[1] == '}');
    if id >= 0 {
        lemma_dec_chars_digits(id as nat);
        lemma_dec_chars_val(id as nat);
        assert(s.subrange(pl, s.len() - 2) =~= dec_chars(id as nat));
    } else {
        lemma_dec_chars_digits((-id) as nat);
        lemma_dec_chars_val((-id) as nat);
        assert(s[pl] == d[0]);
        assert(d[0] == '-');
        assert(s.subrange(pl + 1, s.len() - 2) =~= dec_chars((-id) as nat));
    }
}

/// Relates the decoder's sign probe and digit region to the encoded
/// token: the probe agrees with the identifier's sign and the region
/// reads back as its magnitude.
proof fn lemma_decode_path(c: Callback, s: Seq<char>, neg: bool, from: int)
    requires
        s == encode_spec(c),
        neg == (s[tok_prefix().len() as int] == '-'),
        from == if neg {
            tok_prefix().len() as int + 1
        } else {
            tok_prefix().len() as int
        },
    ensures
        neg == (token_id(c) < 0),
        tok_prefix().len() <= from < s.len() - 2,
        all_digits(s.subrange(from, s.len() - 2)),
        digits_val(s.subrange(from, s.len() - 2)) == if token_id(c) < 0 {
            -token_id(c) as int
        } else {
            token_id(c) as int
        },
        digits_val(s.subrange(from, s.len() - 2)) <= 0x8000_0000_0000_0000,
{
    lemma_encode_parse(c, s);
    if token_id(c) >= 0 {
        assert(is_digit_char(s[tok_prefix().len() as int]));
        assert(s[tok_prefix().len() as int] != '-');
    }
}

/// Two tokens with the same wire form are the same token: a decoded
/// payload never stands for more than one token.
pub proof fn lemma_encode_injective(a: Callback, b: Callback)
    ensures
        encode_spec(a) == encode_spec(b) ==> a == b,
{
    if encode_spec(a) == encode_spec(b) {
        let s = encode_spec(a);
        let pl = tok_prefix().len() as int;
        lemma_encode_parse(a, s);
        lemma_encode_parse(b, s);
        if token_id(a) >= 0 && token_id(b) >= 0 {
            lemma_dec_chars_val(token_id(a) as nat);
            lemma_dec_chars_val(token_id(b) as nat);
        } else if token_id(a) < 0 && token_id(b) < 0 {
            lemma_dec_chars_val((-token_id(a)) as nat);
            lemma_dec_chars_val((-token_id(b)) as nat);
        } else {
        }
    }
}

impl Callback {
    /// Renders the wire form of this token.  Encoding is deterministic
    /// and total.
    pub fn to_string(&self) -> (r: String)
        ensures
            r@ == encode_spec(*self),
    {
        match self {
            Callback::Offtopic { id } => {
                let mut s = "{\"Offtopic\":{\"id\":".to_owned();
                let d = fmt_i64(*id);
                s.append(d.as_str());
                s.append("}}");
                proof {
                    assert(s@ =~= encode_spec(*self));
                }
                s
            },
        }
    }

    /// Reads a wire-form payload back.  Returns the token whose wire form
    /// the input is, and `DecodeError::Malformed` exactly when the input
    /// is not the wire form of any token.
    pub fn from_string(s: &String) -> (r: Result<Callback, DecodeError>)
        ensures
            r is Ok <==> exists|c: Callback| s@ == encode_spec(c),
            r is Ok ==> s@ == encode_spec(r->Ok_0),
    {
        let p = "{\"Offtopic\":{\"id\":";
        let len = s.as_str().unicode_len();
        let plen = p.unicode_len();
        proof {
            reveal_strlit("{\"Offtopic\":{\"id\":");
            assert(plen == 18);
        }
        if len < plen + 3 {
            proof {
                if exists|c: Callback| s@ == encode_spec(c) {
                    let c = choose|c: Callback| s@ == encode_spec(c);
                    lemma_encode_parse(c, s@);
                }
            }
            return Err(DecodeError::Malformed);
        }
        let mut i: usize = 0;
        while i < plen
            invariant
                0 <= i <= plen,
                plen + 3 <= len,
                len == s@.len(),
                plen == tok_prefix().len(),
                p@ == tok_prefix(),
                forall|j: int| 0 <= j < i ==> s@[j] == tok_prefix()[j],
            decreases plen - i,
        {
            if s.as_str().get_char(i) != p.get_char(i) {
                proof {
                    if exists|c: Callback| s@ == encode_spec(c) {
                        let c = choose|c: Callback| s@ == encode_spec(c);
                        lemma_encode_parse(c, s@);
                    }
                }
                return Err(DecodeError::Malformed);
            }
            i = i + 1;
        }
        if s.as_str().get_char(len - 2) != '}' || s.as_str().get_char(len - 1) != '}' {
            proof {
                if exists|c: Callback| s@ == encode_spec(c) {
                    let c = choose|c: Callback| s@ == encode_spec(c);
                    lemma_encode_parse(c, s@);
                }
            }
            return Err(DecodeError::Malformed);
        }
        let neg = s.as_str().get_char(plen) == '-';
        let from = if neg {
            plen + 1
        } else {
            plen
        };
        let parsed = parse_dec_u64(s.as_str(), from, len - 2);
        let v = match parsed {
            None => {
                proof {
                    if exists|c: Callback| s@ == encode_spec(c) {
                        let c = choose|c: Callback| s@ == encode_spec(c);
                        lemma_decode_path(c, s@, neg, from as int);
                    }
                }
                return Err(DecodeError::Malformed);
            },
            Some(v) => v,
        };
        let id: i64 = if neg {
            if v > 9223372036854775808u64 {
                proof {
                    if exists|c: Callback| s@ == encode_spec(c) {
                        let c = choose|c: Callback| s@ == encode_spec(c);
                        lemma_decode_path(c, s@, neg, from as int);
                    }
                }
                return Err(DecodeError::Malformed);
            }
            if v == 9223372036854775808u64 {
                i64::MIN
            } else {
                0 - (v as i64)
            }
        } else {
            if v > 9223372036854775807u64 {
                proof {
                    if exists|c: Callback| s@ == encode_spec(c) {
                        let c = choose|c: Callback| s@ == encode_spec(c);
                        lemma_decode_path(c, s@, neg, from as int);
                    }
                }
                return Err(DecodeError::Malformed);
            }
            v as i64
        };
        let cand = Callback::Offtopic { id };
        let enc = cand.to_string();
        if enc == *s {
            proof {
                assert(s@ == encode_spec(cand));
            }
            Ok(cand)
        } else {
            proof {
                if exists|c: Callback| s@ == encode_spec(c) {
                    let c = choose|c: Callback| s@ == encode_spec(c);
                    lemma_decode_path(c, s@, neg, from as int);
                    assert(id == token_id(c));
                    assert(cand == c);
                    assert(enc@ == s@);
                }
            }
            Err(DecodeError::Malformed)
        }
    }
}

} // verus!
