use vstd::prelude::*;

use crate::error::ParseError;
use crate::token::{lemma_run_end, lemma_run_end_step, run_end, ws, ws_end};

verus! {

/// The characters an identifier may contain after its leading `$`:
/// alphanumerics plus a fixed set of punctuation.
pub open spec fn is_id_char(c: char) -> bool {
    ||| 'a' as u32 <= c as u32 && c as u32 <= 'z' as u32
    ||| 'A' as u32 <= c as u32 && c as u32 <= 'Z' as u32
    ||| '0' as u32 <= c as u32 && c as u32 <= '9' as u32
    ||| c == '!' || c == '#' || c == '$' || c == '%' || c == '&' || c == '\'' || c == '*'
    ||| c == '+' || c == '-' || c == '.' || c == '/' || c == ':' || c == '<' || c == '='
    ||| c == '>' || c == '?' || c == '@' || c == '\\' || c == '^' || c == '_' || c == '`'
    ||| c == '|' || c == '~'
}

/// The identifier-character predicate as a value.
pub open spec fn id_pred() -> spec_fn(char) -> bool {
    |c: char| is_id_char(c)
}

/// The end of the identifier-character run starting at `pos`.
pub open spec fn id_end(s: Seq<char>, pos: int) -> int {
    run_end(s, pos, id_pred())
}

/// Whether `c` is a decimal digit.
pub open spec fn is_digit(c: char) -> bool {
    '0' as u32 <= c as u32 && c as u32 <= '9' as u32
}

/// The digit predicate as a value.
pub open spec fn digit_pred() -> spec_fn(char) -> bool {
    |c: char| is_digit(c)
}

/// The end of the digit run starting at `pos`.
pub open spec fn digits_end(s: Seq<char>, pos: int) -> int {
    run_end(s, pos, digit_pred())
}

/// The numeric value of a digit character.
pub open spec fn digit_val(c: char) -> int {
    c as u32 - '0' as u32
}

/// The value of the decimal digits of `s` between `start` and `end`, read
/// most significant first.
pub open spec fn dec_val(s: Seq<char>, start: int, end: int) -> int
    decreases end - start,
{
    if start >= end {
        0
    } else {
        dec_val(s, start, end - 1) * 10 + digit_val(s[end - 1])
    }
}

/// The non-quote predicate as a value.
pub open spec fn nonquote_pred() -> spec_fn(char) -> bool {
    |c: char| c != '"'
}

/// The end of the run of non-quote characters starting at `pos`.
pub open spec fn nonquote_end(s: Seq<char>, pos: int) -> int {
    run_end(s, pos, nonquote_pred())
}

/// A value of digits is never negative.
pub proof fn lemma_dec_val_nonneg(s: Seq<char>, start: int, end: int)
    requires
        forall|j: int| start <= j < end ==> is_digit(#[trigger] s[j]),
    ensures
        dec_val(s, start, end) >= 0,
    decreases end - start,
{
    if start < end {
        lemma_dec_val_nonneg(s, start, end - 1);
    }
}

/// Whether `c` may appear in an identifier after the leading `$`.
fn check_id_char(c: char) -> (r: bool)
    ensures
        r == is_id_char(c),
{
    (c >= 'a' && c <= 'z') || (c >= 'A' && c <= 'Z') || (c >= '0' && c <= '9') || c == '!' || c
        == '#' || c == '$' || c == '%' || c == '&' || c == '\'' || c == '*' || c == '+' || c == '-'
        || c == '.' || c == '/' || c == ':' || c == '<' || c == '=' || c == '>' || c == '?' || c
        == '@' || c == '\\' || c == '^' || c == '_' || c == '`' || c == '|' || c == '~'
}

/// Whether `c` is a decimal digit.
pub fn check_digit(c: char) -> (r: bool)
    ensures
        r == is_digit(c),
{
    c >= '0' && c <= '9'
}

/// Recognizes a `$`-prefixed identifier with at least one further character,
/// trimming surrounding whitespace. The returned name includes the `$`.
#[verifier::loop_isolation(false)]
pub fn id(input: &str, pos: usize) -> (r: Result<(usize, String), ParseError>)
    requires
        pos <= input@.len(),
    ensures
        ({
            let s = input@;
            let t = ws_end(s, pos as int);
            match r {
                Ok((p2, name)) => {
                    &&& t < s.len()
                    &&& s[t] == '$'
                    &&& id_end(s, t + 1) > t + 1
                    &&& name@ == s.subrange(t, id_end(s, t + 1))
                    &&& p2 == ws_end(s, id_end(s, t + 1))
                    &&& p2 <= s.len()
                },
                Err(e) => e == ParseError::SyntaxMismatch && !(t < s.len() && s[t] == '$' && id_end(
                    s,
                    t + 1,
                ) > t + 1),
            }
        }),
{
    let n = input.unicode_len();
    let t = ws(input, pos);
    if t >= n || input.get_char(t) != '$' {
        return Err(ParseError::SyntaxMismatch);
    }
    let mut e = t + 1;
    while e < n && check_id_char(input.get_char(e))
        invariant
            t + 1 <= e <= n,
            id_end(input@, t + 1 as int) == id_end(input@, e as int),
        decreases n - e,
    {
        proof {
            lemma_run_end_step(input@, e as int, id_pred());
        }
        e += 1;
    }
    proof {
        lemma_run_end(input@, e as int, id_pred());
        assert(id_end(input@, e as int) == e);
    }
    if e == t + 1 {
        return Err(ParseError::SyntaxMismatch);
    }
    let name = input.substring_char(t, e);
    Ok((ws(input, e), name.to_owned()))
}

/// Recognizes one or more decimal digits and converts them to an unsigned
/// 32-bit integer, with no whitespace trimming. Digits whose value exceeds
/// the width are a numeric overflow, never a wrapped or clamped value.
#[verifier::loop_isolation(false)]
pub fn u32(input: &str, pos: usize) -> (r: Result<(usize, u32), ParseError>)
    requires
        pos <= input@.len(),
    ensures
        ({
            let s = input@;
            let e = digits_end(s, pos as int);
            match r {
                Ok((p2, v)) => {
                    &&& e > pos
                    &&& p2 == e
                    &&& v as int == dec_val(s, pos as int, e)
                    &&& dec_val(s, pos as int, e) <= u32::MAX
                    &&& p2 <= s.len()
                },
                Err(er) => {
                    ||| (er == ParseError::SyntaxMismatch && e == pos)
                    ||| (er == ParseError::NumericOverflow && e > pos && dec_val(s, pos as int, e)
                        > u32::MAX)
                },
            }
        }),
{
    let n = input.unicode_len();
    let mut i = pos;
    let mut v: u64 = 0;
    let mut over = false;
    while i < n && check_digit(input.get_char(i))
        invariant
            pos <= i <= n,
            digits_end(input@, pos as int) == digits_end(input@, i as int),
            forall|j: int| pos <= j < i ==> is_digit(#[trigger] input@[j]),
            !over ==> v as int == dec_val(input@, pos as int, i as int) && v <= u32::MAX,
            over ==> dec_val(input@, pos as int, i as int) > u32::MAX,
        decreases n - i,
    {
        let c = input.get_char(i);
        let d: u64 = (c as u32 - 48) as u64;
        proof {
            lemma_run_end_step(input@, i as int, digit_pred());
            assert(d as int == digit_val(input@[i as int]));
        }
        if !over {
            let nv: u64 = v * 10 + d;
            if nv > 0xFFFF_FFFF {
                over = true;
                proof {
                    assert(dec_val(input@, pos as int, i + 1 as int) == v as int * 10 + d);
                }
            } else {
                v = nv;
            }
        } else {
            proof {
                lemma_dec_val_nonneg(input@, pos as int, i as int);
                assert(dec_val(input@, pos as int, i + 1 as int) == dec_val(
                    input@,
                    pos as int,
                    i as int,
                ) * 10 + digit_val(input@[i as int]));
            }
        }
        i += 1;
    }
    proof {
        lemma_run_end(input@, i as int, digit_pred());
        assert(digits_end(input@, i as int) == i);
    }
    if i == pos {
        Err(ParseError::SyntaxMismatch)
    } else if over {
        Err(ParseError::NumericOverflow)
    } else {
        Ok((i, v as u32))
    }
}

/// Recognizes a double-quoted string with at least one character and no
/// escape processing, trimming surrounding whitespace. The returned value
/// excludes the quotes.
#[verifier::loop_isolation(false)]
pub fn literal(input: &str, pos: usize) -> (r: Result<(usize, String), ParseError>)
    requires
        pos <= input@.len(),
    ensures
        ({
            let s = input@;
            let t = ws_end(s, pos as int);
            let e = nonquote_end(s, t + 1);
            match r {
                Ok((p2, val)) => {
                    &&& t < s.len()
                    &&& s[t] == '"'
                    &&& e > t + 1
                    &&& e < s.len()
                    &&& val@ == s.subrange(t + 1, e)
                    &&& p2 == ws_end(s, e + 1)
                    &&& p2 <= s.len()
                },
                Err(er) => er == ParseError::SyntaxMismatch && !(t < s.len() && s[t] == '"'
                    && nonquote_end(s, t + 1) > t + 1 && nonquote_end(s, t + 1) < s.len()),
            }
        }),
{
    let n = input.unicode_len();
    let t = ws(input, pos);
    if t >= n || input.get_char(t) != '"' {
        return Err(ParseError::SyntaxMismatch);
    }
    let mut e = t + 1;
    while e < n && input.get_char(e) != '"'
        invariant
            t + 1 <= e <= n,
            nonquote_end(input@, t + 1 as int) == nonquote_end(input@, e as int),
        decreases n - e,
    {
        proof {
            lemma_run_end_step(input@, e as int, nonquote_pred());
        }
        e += 1;
    }
    proof {
        lemma_run_end(input@, e as int, nonquote_pred());
        assert(nonquote_end(input@, e as int) == e);
    }
    if e == t + 1 || e >= n {
        return Err(ParseError::SyntaxMismatch);
    }
    let val = input.substring_char(t + 1, e);
    Ok((ws(input, e + 1), val.to_owned()))
}

} // verus!
