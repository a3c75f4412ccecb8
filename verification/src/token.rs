use vstd::prelude::*;

use crate::error::ParseError;

verus! {

/// The whitespace characters: space, tab, newline, carriage return.
pub open spec fn is_ws_char(c: char) -> bool {
    c == ' ' || c == '\t' || c == '\n' || c == '\r'
}

/// The whitespace predicate as a value, shared by every use of `run_end`.
pub open spec fn ws_pred() -> spec_fn(char) -> bool {
    |c: char| is_ws_char(c)
}

/// The position where the run of characters satisfying `p` that starts at
/// `pos` ends: the first position at or after `pos` whose character does not
/// satisfy `p`, or the end of the text.
pub open spec fn run_end(s: Seq<char>, pos: int, p: spec_fn(char) -> bool) -> int
    decreases s.len() - pos,
    when 0 <= pos <= s.len()
{
    if pos < s.len() && p(s[pos]) {
        run_end(s, pos + 1, p)
    } else {
        pos
    }
}

/// The position after the whitespace run starting at `pos`.
pub open spec fn ws_end(s: Seq<char>, pos: int) -> int {
    run_end(s, pos, ws_pred())
}

/// The text holds exactly the characters of `kw` starting at `pos`.
pub open spec fn kw_at(s: Seq<char>, pos: int, kw: Seq<char>) -> bool {
    &&& pos >= 0
    &&& pos + kw.len() <= s.len()
    &&& s.subrange(pos, pos + kw.len()) == kw
}

/// A run stays within bounds, covers only matching characters, and stops at
/// the first non-matching one.
pub proof fn lemma_run_end(s: Seq<char>, pos: int, p: spec_fn(char) -> bool)
    requires
        0 <= pos <= s.len(),
    ensures
        pos <= run_end(s, pos, p) <= s.len(),
        forall|j: int| pos <= j < run_end(s, pos, p) ==> p(#[trigger] s[j]),
        run_end(s, pos, p) < s.len() ==> !p(s[run_end(s, pos, p)]),
    decreases s.len() - pos,
{
    if pos < s.len() && p(s[pos]) {
        lemma_run_end(s, pos + 1, p);
    }
}

/// A run scanned from any position inside it ends at the same place.
pub proof fn lemma_run_end_step(s: Seq<char>, pos: int, p: spec_fn(char) -> bool)
    requires
        0 <= pos < s.len(),
        p(s[pos]),
    ensures
        run_end(s, pos, p) == run_end(s, pos + 1, p),
{
}

/// Skipping whitespace stays within the text and never moves backwards.
pub proof fn lemma_ws_end_bounds(s: Seq<char>, pos: int)
    requires
        0 <= pos <= s.len(),
    ensures
        pos <= ws_end(s, pos) <= s.len(),
{
    lemma_run_end(s, pos, ws_pred());
}

/// Whether `c` is one of the whitespace characters.
fn check_ws_char(c: char) -> (r: bool)
    ensures
        r == is_ws_char(c),
{
    c == ' ' || c == '\t' || c == '\n' || c == '\r'
}

/// Consumes the whitespace run starting at `pos` and returns the position of
/// the first non-whitespace character (or the end of the text).
#[verifier::loop_isolation(false)]
pub fn ws(input: &str, pos: usize) -> (r: usize)
    requires
        pos <= input@.len(),
    ensures
        r == ws_end(input@, pos as int),
        pos <= r <= input@.len(),
{
    let n = input.unicode_len();
    let mut i = pos;
    while i < n && check_ws_char(input.get_char(i))
        invariant
            pos <= i <= n,
            ws_end(input@, pos as int) == ws_end(input@, i as int),
        decreases n - i,
    {
        proof {
            lemma_run_end_step(input@, i as int, ws_pred());
        }
        i += 1;
    }
    proof {
        lemma_run_end(input@, i as int, ws_pred());
        assert(ws_end(input@, i as int) == i);
    }
    i
}

/// Matches the exact characters of `kw` at the position after leading
/// whitespace (no word boundary is required), then consumes trailing
/// whitespace. Fails with a syntax mismatch when the characters differ.
#[verifier::loop_isolation(false)]
pub(crate) fn keyword(input: &str, pos: usize, kw: &str) -> (r: Result<usize, ParseError>)
    requires
        pos <= input@.len(),
    ensures
        ({
            let t = ws_end(input@, pos as int);
            match r {
                Ok(p2) => kw_at(input@, t, kw@) && p2 == ws_end(input@, t + kw@.len()) && p2
                    <= input@.len(),
                Err(e) => e == ParseError::SyntaxMismatch && !kw_at(input@, t, kw@),
            }
        }),
{
    let n = input.unicode_len();
    let kn = kw.unicode_len();
    let t = ws(input, pos);
    if kn > n - t {
        proof {
            assert(!kw_at(input@, t as int, kw@));
        }
        return Err(ParseError::SyntaxMismatch);
    }
    let mut j: usize = 0;
    while j < kn
        invariant
            j <= kn,
            t + kn <= n,
            forall|m: int| 0 <= m < j ==> input@[t + m] == kw@[m],
        decreases kn - j,
    {
        if input.get_char(t + j) != kw.get_char(j) {
            proof {
                if kw_at(input@, t as int, kw@) {
                    assert(input@.subrange(t as int, t + kn)[j as int] == input@[t + j]);
                }
            }
            return Err(ParseError::SyntaxMismatch);
        }
        j += 1;
    }
    proof {
        assert(input@.subrange(t as int, t + kn) =~= kw@);
    }
    Ok(ws(input, t + kn))
}

/// Matches a single opening parenthesis, with no whitespace trimming.
pub fn lparen(input: &str, pos: usize) -> (r: Result<usize, ParseError>)
    requires
        pos <= input@.len(),
    ensures
        match r {
            Ok(p2) => pos < input@.len() && input@[pos as int] == '(' && p2 == pos + 1,
            Err(e) => e == ParseError::SyntaxMismatch && !(pos < input@.len() && input@[pos as int]
                == '('),
        },
{
    let n = input.unicode_len();
    if pos < n && input.get_char(pos) == '(' {
        Ok(pos + 1)
    } else {
        Err(ParseError::SyntaxMismatch)
    }
}

/// Matches a single closing parenthesis, with no whitespace trimming.
pub fn rparen(input: &str, pos: usize) -> (r: Result<usize, ParseError>)
    requires
        pos <= input@.len(),
    ensures
        match r {
            Ok(p2) => pos < input@.len() && input@[pos as int] == ')' && p2 == pos + 1,
            Err(e) => e == ParseError::SyntaxMismatch && !(pos < input@.len() && input@[pos as int]
                == ')'),
        },
{
    let n = input.unicode_len();
    if pos < n && input.get_char(pos) == ')' {
        Ok(pos + 1)
    } else {
        Err(ParseError::SyntaxMismatch)
    }
}

/// Matches the keyword `func`, whitespace-insensitively.
pub fn func(input: &str, pos: usize) -> (r: Result<usize, ParseError>)
    requires
        pos <= input@.len(),
    ensures
        ({
            let t = ws_end(input@, pos as int);
            match r {
                Ok(p2) => kw_at(input@, t, "func"@) && p2 == ws_end(input@, t + 4) && p2
                    <= input@.len(),
                Err(e) => e == ParseError::SyntaxMismatch && !kw_at(input@, t, "func"@),
            }
        }),
{
    proof {
        reveal_strlit("func");
    }
    keyword(input, pos, "func")
}

/// Matches the keyword `param`, whitespace-insensitively.
pub fn param(input: &str, pos: usize) -> (r: Result<usize, ParseError>)
    requires
        pos <= input@.len(),
    ensures
        ({
            let t = ws_end(input@, pos as int);
            match r {
                Ok(p2) => kw_at(input@, t, "param"@) && p2 == ws_end(input@, t + 5) && p2
                    <= input@.len(),
                Err(e) => e == ParseError::SyntaxMismatch && !kw_at(input@, t, "param"@),
            }
        }),
{
    proof {
        reveal_strlit("param");
    }
    keyword(input, pos, "param")
}

/// Matches the keyword `result`, whitespace-insensitively.
pub fn result(input: &str, pos: usize) -> (r: Result<usize, ParseError>)
    requires
        pos <= input@.len(),
    ensures
        ({
            let t = ws_end(input@, pos as int);
            match r {
                Ok(p2) => kw_at(input@, t, "result"@) && p2 == ws_end(input@, t + 6) && p2
                    <= input@.len(),
                Err(e) => e == ParseError::SyntaxMismatch && !kw_at(input@, t, "result"@),
            }
        }),
{
    proof {
        reveal_strlit("result");
    }
    keyword(input, pos, "result")
}

/// Matches the keyword `export`, whitespace-insensitively.
pub fn export(input: &str, pos: usize) -> (r: Result<usize, ParseError>)
    requires
        pos <= input@.len(),
    ensures
        ({
            let t = ws_end(input@, pos as int);
            match r {
                Ok(p2) => kw_at(input@, t, "export"@) && p2 == ws_end(input@, t + 6) && p2
                    <= input@.len(),
                Err(e) => e == ParseError::SyntaxMismatch && !kw_at(input@, t, "export"@),
            }
        }),
{
    proof {
        reveal_strlit("export");
    }
    keyword(input, pos, "export")
}

/// Matches the keyword `module`, whitespace-insensitively.
pub fn module(input: &str, pos: usize) -> (r: Result<usize, ParseError>)
    requires
        pos <= input@.len(),
    ensures
        ({
            let t = ws_end(input@, pos as int);
            match r {
                Ok(p2) => kw_at(input@, t, "module"@) && p2 == ws_end(input@, t + 6) && p2
                    <= input@.len(),
                Err(e) => e == ParseError::SyntaxMismatch && !kw_at(input@, t, "module"@),
            }
        }),
{
    proof {
        reveal_strlit("module");
    }
    keyword(input, pos, "module")
}

} // verus!
