use vstd::prelude::*;

use crate::ast::Instruction;
use crate::context::{names_of, resolve_name_model, Context};
use crate::error::ParseError;
use crate::token::{kw_at, lemma_run_end, lemma_ws_end_bounds, ws, ws_end};
use crate::types::index;
use crate::values::{dec_val, digits_end, id_end, id_pred, is_digit};

verus! {

/// What a `local.get` instruction at `pos` yields against the given local
/// names: the position after its index-or-name operand and the resolved
/// instruction. A numeric operand is taken as it stands; a symbolic one is
/// resolved to the first local carrying the name, and an unknown name is an
/// unresolved reference, never a default index.
pub open spec fn local_get_step(
    s: Seq<char>,
    pos: int,
    names: Seq<Option<Seq<char>>>,
) -> Result<(int, Instruction), ParseError> {
    let t = ws_end(s, pos);
    if !kw_at(s, t, "local.get"@) {
        Err(ParseError::SyntaxMismatch)
    } else {
        let p1 = ws_end(s, t + 9);
        if p1 < s.len() && is_digit(s[p1]) {
            let e = digits_end(s, p1);
            if dec_val(s, p1, e) <= u32::MAX {
                Ok((e, Instruction::LocalGet(dec_val(s, p1, e) as usize)))
            } else {
                Err(ParseError::NumericOverflow)
            }
        } else {
            let t2 = ws_end(s, p1);
            if t2 < s.len() && s[t2] == '$' && id_end(s, t2 + 1) > t2 + 1 {
                let name = s.subrange(t2, id_end(s, t2 + 1));
                match resolve_name_model(names, name) {
                    Ok(i) => Ok((ws_end(s, id_end(s, t2 + 1)), Instruction::LocalGet(i as usize))),
                    Err(e) => Err(e),
                }
            } else {
                Err(ParseError::SyntaxMismatch)
            }
        }
    }
}

/// Parses `local.get` with its index-or-name operand, resolving the operand
/// against the symbol table's locals.
pub fn local_get(input: &str, pos: usize, ctx: &Context) -> (r: Result<
    (usize, Instruction),
    ParseError,
>)
    requires
        pos <= input@.len(),
    ensures
        ({
            let rr = local_get_step(input@, pos as int, names_of(ctx.locals@));
            match r {
                Ok((p2, instr)) => rr == Ok::<(int, Instruction), ParseError>((p2 as int, instr))
                    && p2 <= input@.len(),
                Err(e) => rr == Err::<(int, Instruction), ParseError>(e),
            }
        }),
{
    proof {
        reveal_strlit("local.get");
    }
    let t = match crate::token::keyword(input, pos, "local.get") {
        Ok(p) => p,
        Err(e) => {
            return Err(e);
        },
    };
    let (p2, idx) = match index(input, t) {
        Ok(x) => x,
        Err(e) => {
            return Err(e);
        },
    };
    let i = match ctx.get_local_idx(&idx) {
        Ok(i) => i,
        Err(e) => {
            return Err(e);
        },
    };
    Ok((p2, Instruction::LocalGet(i)))
}

/// Parses the nullary instruction `i32.add`.
pub fn i32_add(input: &str, pos: usize) -> (r: Result<(usize, Instruction), ParseError>)
    requires
        pos <= input@.len(),
    ensures
        ({
            let s = input@;
            let t = ws_end(s, pos as int);
            match r {
                Ok((p2, instr)) => {
                    &&& kw_at(s, t, "i32.add"@)
                    &&& instr == Instruction::I32Add
                    &&& p2 == ws_end(s, t + 7)
                    &&& p2 <= s.len()
                },
                Err(e) => e == ParseError::SyntaxMismatch && !kw_at(s, t, "i32.add"@),
            }
        }),
{
    proof {
        reveal_strlit("i32.add");
    }
    match crate::token::keyword(input, pos, "i32.add") {
        Ok(p2) => Ok((p2, Instruction::I32Add)),
        Err(e) => Err(e),
    }
}

/// What one step of the instruction sequence at `pos` yields: the next
/// instruction with the position after it and its trailing whitespace;
/// nothing when no instruction stands here (the sequence's boundary); or a
/// fatal error from resolving or reading an operand.
pub open spec fn instr_step(s: Seq<char>, pos: int, names: Seq<Option<Seq<char>>>) -> Option<
    Result<(int, Instruction), ParseError>,
> {
    match local_get_step(s, pos, names) {
        Ok(x) => Some(Ok((ws_end(s, x.0), x.1))),
        Err(e) => if e == ParseError::SyntaxMismatch {
            let t = ws_end(s, pos);
            if kw_at(s, t, "i32.add"@) {
                Some(Ok((ws_end(s, t + 7), Instruction::I32Add)))
            } else {
                None
            }
        } else {
            Some(Err(e))
        },
    }
}

/// A recognized `local.get` ends strictly after `pos` and inside the text.
pub proof fn lemma_local_get_bounds(s: Seq<char>, pos: int, names: Seq<Option<Seq<char>>>)
    requires
        0 <= pos <= s.len(),
    ensures
        local_get_step(s, pos, names) matches Ok(x) ==> pos < x.0 <= s.len(),
{
    lemma_ws_end_bounds(s, pos);
    let t = ws_end(s, pos);
    if kw_at(s, t, "local.get"@) {
        reveal_strlit("local.get");
        lemma_ws_end_bounds(s, t + 9);
        let p1 = ws_end(s, t + 9);
        if p1 < s.len() && is_digit(s[p1]) {
            lemma_run_end(s, p1, crate::values::digit_pred());
        } else {
            lemma_ws_end_bounds(s, p1);
            let t2 = ws_end(s, p1);
            if t2 < s.len() && s[t2] == '$' && id_end(s, t2 + 1) > t2 + 1 {
                lemma_run_end(s, t2 + 1, id_pred());
                lemma_ws_end_bounds(s, id_end(s, t2 + 1));
            }
        }
    }
}

/// A recognized instruction step ends strictly after `pos` and inside the
/// text.
pub proof fn lemma_instr_step_bounds(s: Seq<char>, pos: int, names: Seq<Option<Seq<char>>>)
    requires
        0 <= pos <= s.len(),
    ensures
        match instr_step(s, pos, names) {
            Some(st) => match st {
                Ok(x) => pos < x.0 <= s.len(),
                Err(_) => true,
            },
            None => true,
        },
{
    lemma_local_get_bounds(s, pos, names);
    lemma_ws_end_bounds(s, pos);
    let t = ws_end(s, pos);
    match local_get_step(s, pos, names) {
        Ok(x) => {
            lemma_ws_end_bounds(s, x.0);
        },
        Err(e) => {
            if e == ParseError::SyntaxMismatch && kw_at(s, t, "i32.add"@) {
                reveal_strlit("i32.add");
                lemma_ws_end_bounds(s, t + 7);
            }
        },
    }
}

/// What the whole instruction sequence starting at `pos` yields: every
/// instruction in order until the first text that is no instruction (left
/// unconsumed), or the first fatal error.
pub open spec fn instrs_from(s: Seq<char>, pos: int, names: Seq<Option<Seq<char>>>) -> Result<
    (int, Seq<Instruction>),
    ParseError,
>
    decreases s.len() - pos,
    when 0 <= pos <= s.len()
    via instrs_from_dec
{
    match instr_step(s, pos, names) {
        None => Ok((pos, seq![])),
        Some(st) => match st {
            Err(e) => Err(e),
            Ok(x) => match instrs_from(s, x.0, names) {
                Ok(rest) => Ok((rest.0, seq![x.1] + rest.1)),
                Err(er) => Err(er),
            },
        },
    }
}

#[via_fn]
proof fn instrs_from_dec(s: Seq<char>, pos: int, names: Seq<Option<Seq<char>>>) {
    lemma_instr_step_bounds(s, pos, names);
}

/// A recognized instruction sequence ends at or after `pos`, inside the text.
pub proof fn lemma_instrs_from_bounds(s: Seq<char>, pos: int, names: Seq<Option<Seq<char>>>)
    requires
        0 <= pos <= s.len(),
    ensures
        instrs_from(s, pos, names) matches Ok(x) ==> pos <= x.0 <= s.len(),
    decreases s.len() - pos,
{
    lemma_instr_step_bounds(s, pos, names);
    match instr_step(s, pos, names) {
        None => {},
        Some(st) => match st {
            Err(_) => {},
            Ok(x) => {
                lemma_instrs_from_bounds(s, x.0, names);
            },
        },
    }
}

/// Parses one instruction with its trailing whitespace, or recognizes that
/// none stands here, or fails fatally on a bad operand.
fn parse_instr(input: &str, pos: usize, ctx: &Context) -> (r: Result<
    Option<(usize, Instruction)>,
    ParseError,
>)
    requires
        pos <= input@.len(),
    ensures
        ({
            let st = instr_step(input@, pos as int, names_of(ctx.locals@));
            match r {
                Ok(Some((p2, instr))) => st == Some(Ok::<(int, Instruction), ParseError>(
                    (p2 as int, instr),
                )) && p2 <= input@.len(),
                Ok(None) => st is None,
                Err(e) => st == Some(Err::<(int, Instruction), ParseError>(e)),
            }
        }),
{
    match local_get(input, pos, ctx) {
        Ok((p2, instr)) => {
            let p3 = ws(input, p2);
            Ok(Some((p3, instr)))
        },
        Err(ParseError::SyntaxMismatch) => {
            match i32_add(input, pos) {
                Ok((p2, instr)) => Ok(Some((p2, instr))),
                Err(_) => Ok(None),
            }
        },
        Err(e) => Err(e),
    }
}

/// Parses a sequence of one or more instructions, whitespace-insensitively,
/// stopping before the first text that is no instruction and leaving it
/// unconsumed. Every operand is resolved against the symbol table at parse
/// time; an empty sequence is a syntax mismatch.
#[verifier::loop_isolation(false)]
pub fn instructions(input: &str, pos: usize, ctx: &Context) -> (r: Result<
    (usize, Vec<Instruction>),
    ParseError,
>)
    requires
        pos <= input@.len(),
    ensures
        ({
            let names = names_of(ctx.locals@);
            match r {
                Ok((p2, v)) => {
                    &&& instrs_from(input@, pos as int, names) == Ok::<
                        (int, Seq<Instruction>),
                        ParseError,
                    >((p2 as int, v@))
                    &&& v@.len() >= 1
                    &&& p2 <= input@.len()
                },
                Err(e) => {
                    ||| (e == ParseError::SyntaxMismatch && instr_step(input@, pos as int, names)
                        is None)
                    ||| instrs_from(input@, pos as int, names) == Err::<
                        (int, Seq<Instruction>),
                        ParseError,
                    >(e)
                },
            }
        }),
{
    let ghost s = input@;
    let ghost names = names_of(ctx.locals@);
    let mut p = pos;
    let mut v: Vec<Instruction> = Vec::new();
    proof {
        match instrs_from(s, pos as int, names) {
            Ok(rest) => {
                assert(v@ + rest.1 =~= rest.1);
            },
            Err(_) => {},
        }
    }
    loop
        invariant
            pos <= p <= input@.len(),
            v@.len() == 0 ==> p == pos,
            ({
                match instrs_from(s, p as int, names) {
                    Ok(rest) => instrs_from(s, pos as int, names) == Ok::<
                        (int, Seq<Instruction>),
                        ParseError,
                    >((rest.0, v@ + rest.1)),
                    Err(er) => instrs_from(s, pos as int, names) == Err::<
                        (int, Seq<Instruction>),
                        ParseError,
                    >(er),
                }
            }),
        decreases input@.len() - p,
    {
        proof {
            lemma_instr_step_bounds(s, p as int, names);
        }
        match parse_instr(input, p, ctx) {
            Ok(Some((p2, instr))) => {
                let ghost vold = v@;
                v.push(instr);
                proof {
                    assert(instr_step(s, p as int, names) == Some(Ok::<
                        (int, Instruction),
                        ParseError,
                    >((p2 as int, instr))));
                    match instrs_from(s, p2 as int, names) {
                        Ok(rest) => {
                            assert(instrs_from(s, p as int, names) == Ok::<
                                (int, Seq<Instruction>),
                                ParseError,
                            >((rest.0, seq![instr] + rest.1)));
                            assert(v@ + rest.1 =~= vold + (seq![instr] + rest.1));
                            assert(instrs_from(s, pos as int, names) == Ok::<
                                (int, Seq<Instruction>),
                                ParseError,
                            >((rest.0, v@ + rest.1)));
                        },
                        Err(er) => {
                            assert(instrs_from(s, p as int, names) == Err::<
                                (int, Seq<Instruction>),
                                ParseError,
                            >(er));
                        },
                    }
                }
                p = p2;
            },
            Ok(None) => {
                if v.len() == 0 {
                    return Err(ParseError::SyntaxMismatch);
                }
                proof {
                    assert(instrs_from(s, p as int, names) == Ok::<
                        (int, Seq<Instruction>),
                        ParseError,
                    >((p as int, Seq::<Instruction>::empty())));
                    assert(v@ + Seq::<Instruction>::empty() =~= v@);
                }
                return Ok((p, v));
            },
            Err(e) => {
                return Err(e);
            },
        }
    }
}

} // verus!
