use vstd::prelude::*;

use crate::ast::{FuncType, ValueType};
use crate::context::{
    has_ft, insert_local_model, intern_model, names_of, opt_name, types_view, Context,
};
use crate::error::ParseError;
use crate::token::{
    kw_at, lemma_run_end, lemma_run_end_step, lemma_ws_end_bounds, lparen, param, result, rparen,
    ws, ws_end,
};
use crate::values::{check_digit, dec_val, digit_pred, digits_end, id, id_end, id_pred, is_digit};

verus! {

/// A reference to an entry of an index space: either an already numeric
/// position or a `$`-prefixed symbolic name still to be resolved.
#[derive(Debug, PartialEq, Eq, Clone)]
pub enum Index {
    Idx(usize),
    Id(String),
}

/// Recognizes an index-or-name reference: a run of digits read as a numeric
/// index when one starts here, otherwise an identifier.
pub fn index(input: &str, pos: usize) -> (r: Result<(usize, Index), ParseError>)
    requires
        pos <= input@.len(),
    ensures
        ({
            let s = input@;
            if pos < s.len() && is_digit(s[pos as int]) {
                let e = digits_end(s, pos as int);
                match r {
                    Ok((p2, idx)) => {
                        &&& p2 == e
                        &&& dec_val(s, pos as int, e) <= u32::MAX
                        &&& (idx matches Index::Idx(v) && v as int == dec_val(s, pos as int, e))
                        &&& p2 <= s.len()
                    },
                    Err(er) => er == ParseError::NumericOverflow && dec_val(s, pos as int, e)
                        > u32::MAX,
                }
            } else {
                let t = ws_end(s, pos as int);
                match r {
                    Ok((p2, idx)) => {
                        &&& t < s.len()
                        &&& s[t] == '$'
                        &&& id_end(s, t + 1) > t + 1
                        &&& (idx matches Index::Id(name) && name@ == s.subrange(
                            t,
                            id_end(s, t + 1),
                        ))
                        &&& p2 == ws_end(s, id_end(s, t + 1))
                        &&& p2 <= s.len()
                    },
                    Err(er) => er == ParseError::SyntaxMismatch && !(t < s.len() && s[t] == '$'
                        && id_end(s, t + 1) > t + 1),
                }
            }
        }),
{
    let n = input.unicode_len();
    if pos < n && check_digit(input.get_char(pos)) {
        match crate::values::u32(input, pos) {
            Ok((p2, v)) => Ok((p2, Index::Idx(v as usize))),
            Err(e) => {
                proof {
                    lemma_run_end_step(input@, pos as int, digit_pred());
                    lemma_run_end(input@, pos + 1 as int, digit_pred());
                }
                Err(e)
            },
        }
    } else {
        match id(input, pos) {
            Ok((p2, name)) => Ok((p2, Index::Id(name))),
            Err(e) => Err(e),
        }
    }
}

/// Which value-type keyword, if any, stands at position `t`.
pub open spec fn value_type_at(s: Seq<char>, t: int) -> Option<ValueType> {
    if kw_at(s, t, "i32"@) {
        Some(ValueType::I32)
    } else if kw_at(s, t, "i64"@) {
        Some(ValueType::I64)
    } else if kw_at(s, t, "f32"@) {
        Some(ValueType::F32)
    } else if kw_at(s, t, "f64"@) {
        Some(ValueType::F64)
    } else {
        None
    }
}

/// Recognizes one of the four value-type keywords, case-sensitively and
/// exactly, trimming surrounding whitespace.
pub fn value_type(input: &str, pos: usize) -> (r: Result<(usize, ValueType), ParseError>)
    requires
        pos <= input@.len(),
    ensures
        ({
            let s = input@;
            let t = ws_end(s, pos as int);
            match r {
                Ok((p2, vt)) => value_type_at(s, t) == Some(vt) && p2 == ws_end(s, t + 3) && p2
                    <= s.len(),
                Err(e) => e == ParseError::SyntaxMismatch && value_type_at(s, t) is None,
            }
        }),
{
    proof {
        reveal_strlit("i32");
        reveal_strlit("i64");
        reveal_strlit("f32");
        reveal_strlit("f64");
    }
    match crate::token::keyword(input, pos, "i32") {
        Ok(p2) => {
            return Ok((p2, ValueType::I32));
        },
        Err(_) => {},
    }
    match crate::token::keyword(input, pos, "i64") {
        Ok(p2) => {
            return Ok((p2, ValueType::I64));
        },
        Err(_) => {},
    }
    match crate::token::keyword(input, pos, "f32") {
        Ok(p2) => {
            return Ok((p2, ValueType::F32));
        },
        Err(_) => {},
    }
    match crate::token::keyword(input, pos, "f64") {
        Ok(p2) => {
            return Ok((p2, ValueType::F64));
        },
        Err(_) => {},
    }
    Err(ParseError::SyntaxMismatch)
}

/// What a `(param [id] type)` form at `pos` yields: the position after the
/// closing parenthesis, the optional identifier's name, and the value type;
/// or nothing when no such form stands here.
pub open spec fn param_form(s: Seq<char>, pos: int) -> Option<(int, Option<Seq<char>>, ValueType)> {
    let t0 = ws_end(s, pos);
    if !(t0 < s.len() && s[t0] == '(') {
        None
    } else {
        let t1 = ws_end(s, t0 + 1);
        if !kw_at(s, t1, "param"@) {
            None
        } else {
            let p2 = ws_end(s, t1 + 5);
            let t2 = ws_end(s, p2);
            let has_id = t2 < s.len() && s[t2] == '$' && id_end(s, t2 + 1) > t2 + 1;
            let name = if has_id {
                Some(s.subrange(t2, id_end(s, t2 + 1)))
            } else {
                None
            };
            let p3 = if has_id {
                ws_end(s, id_end(s, t2 + 1))
            } else {
                p2
            };
            let t3 = ws_end(s, p3);
            match value_type_at(s, t3) {
                None => None,
                Some(vt) => {
                    let p4 = ws_end(s, t3 + 3);
                    if p4 < s.len() && s[p4] == ')' {
                        Some((p4 + 1, name, vt))
                    } else {
                        None
                    }
                },
            }
        }
    }
}

/// What a `(result type)` form at `pos` yields: the position after the
/// closing parenthesis and the value type; or nothing.
pub open spec fn result_form(s: Seq<char>, pos: int) -> Option<(int, ValueType)> {
    let t0 = ws_end(s, pos);
    if !(t0 < s.len() && s[t0] == '(') {
        None
    } else {
        let t1 = ws_end(s, t0 + 1);
        if !kw_at(s, t1, "result"@) {
            None
        } else {
            let p2 = ws_end(s, t1 + 6);
            let t3 = ws_end(s, p2);
            match value_type_at(s, t3) {
                None => None,
                Some(vt) => {
                    let p4 = ws_end(s, t3 + 3);
                    if p4 < s.len() && s[p4] == ')' {
                        Some((p4 + 1, vt))
                    } else {
                        None
                    }
                },
            }
        }
    }
}

/// A recognized `param` form ends strictly after `pos` and inside the text.
pub proof fn lemma_param_form_bounds(s: Seq<char>, pos: int)
    requires
        0 <= pos <= s.len(),
    ensures
        param_form(s, pos) matches Some(f) ==> pos < f.0 <= s.len(),
{
    lemma_ws_end_bounds(s, pos);
    let t0 = ws_end(s, pos);
    if t0 < s.len() && s[t0] == '(' {
        lemma_ws_end_bounds(s, t0 + 1);
        let t1 = ws_end(s, t0 + 1);
        if kw_at(s, t1, "param"@) {
            reveal_strlit("param");
            lemma_ws_end_bounds(s, t1 + 5);
            let p2 = ws_end(s, t1 + 5);
            lemma_ws_end_bounds(s, p2);
            let t2 = ws_end(s, p2);
            let has_id = t2 < s.len() && s[t2] == '$' && id_end(s, t2 + 1) > t2 + 1;
            if has_id {
                lemma_run_end(s, t2 + 1, id_pred());
                lemma_ws_end_bounds(s, id_end(s, t2 + 1));
            }
            let p3 = if has_id {
                ws_end(s, id_end(s, t2 + 1))
            } else {
                p2
            };
            lemma_ws_end_bounds(s, p3);
            let t3 = ws_end(s, p3);
            if value_type_at(s, t3) is Some {
                reveal_strlit("i32");
                reveal_strlit("i64");
                reveal_strlit("f32");
                reveal_strlit("f64");
                lemma_ws_end_bounds(s, t3 + 3);
            }
        }
    }
}

/// A recognized `result` form ends strictly after `pos` and inside the text.
pub proof fn lemma_result_form_bounds(s: Seq<char>, pos: int)
    requires
        0 <= pos <= s.len(),
    ensures
        result_form(s, pos) matches Some(f) ==> pos < f.0 <= s.len(),
{
    lemma_ws_end_bounds(s, pos);
    let t0 = ws_end(s, pos);
    if t0 < s.len() && s[t0] == '(' {
        lemma_ws_end_bounds(s, t0 + 1);
        let t1 = ws_end(s, t0 + 1);
        if kw_at(s, t1, "result"@) {
            reveal_strlit("result");
            lemma_ws_end_bounds(s, t1 + 6);
            let p2 = ws_end(s, t1 + 6);
            lemma_ws_end_bounds(s, p2);
            let t3 = ws_end(s, p2);
            if value_type_at(s, t3) is Some {
                reveal_strlit("i32");
                reveal_strlit("i64");
                reveal_strlit("f32");
                reveal_strlit("f64");
                lemma_ws_end_bounds(s, t3 + 3);
            }
        }
    }
}

/// What the whole run of `param` and `result` forms starting at `pos`
/// yields: the position where the run stops (the first text that is neither
/// form, left unconsumed), the parameter names in order of appearance, the
/// parameter types in order, and the result types in order.
pub open spec fn ft_items(s: Seq<char>, pos: int) -> (
    int,
    Seq<Option<Seq<char>>>,
    Seq<ValueType>,
    Seq<ValueType>,
)
    decreases s.len() - pos,
    when 0 <= pos <= s.len()
    via ft_items_dec
{
    match param_form(s, pos) {
        Some(f) => {
            let rest = ft_items(s, f.0);
            (rest.0, seq![f.1] + rest.1, seq![f.2] + rest.2, rest.3)
        },
        None => match result_form(s, pos) {
            Some(f) => {
                let rest = ft_items(s, f.0);
                (rest.0, rest.1, rest.2, seq![f.1] + rest.3)
            },
            None => (pos, seq![], seq![], seq![]),
        },
    }
}

#[via_fn]
proof fn ft_items_dec(s: Seq<char>, pos: int) {
    lemma_param_form_bounds(s, pos);
    lemma_result_form_bounds(s, pos);
}

/// The run of signature forms ends at or after `pos`, inside the text.
pub proof fn lemma_ft_items_bounds(s: Seq<char>, pos: int)
    requires
        0 <= pos <= s.len(),
    ensures
        pos <= ft_items(s, pos).0 <= s.len(),
    decreases s.len() - pos,
{
    lemma_param_form_bounds(s, pos);
    lemma_result_form_bounds(s, pos);
    match param_form(s, pos) {
        Some(f) => {
            lemma_ft_items_bounds(s, f.0);
        },
        None => match result_form(s, pos) {
            Some(f) => {
                lemma_ft_items_bounds(s, f.0);
            },
            None => {},
        },
    }
}

/// What declaring a whole run of locals does: each slot is appended in
/// order, unless some named slot repeats a name already present, which is a
/// duplicate definition.
pub open spec fn insert_all_model(
    names: Seq<Option<Seq<char>>>,
    add: Seq<Option<Seq<char>>>,
) -> Result<Seq<Option<Seq<char>>>, ParseError>
    decreases add.len(),
{
    if add.len() == 0 {
        Ok(names)
    } else {
        match insert_local_model(names, add[0]) {
            Ok(n2) => insert_all_model(n2, add.drop_first()),
            Err(e) => Err(e),
        }
    }
}

/// Declaring a concatenation of runs is declaring one run after the other.
pub proof fn lemma_insert_all_append(
    names: Seq<Option<Seq<char>>>,
    a: Seq<Option<Seq<char>>>,
    b: Seq<Option<Seq<char>>>,
)
    ensures
        insert_all_model(names, a + b) == (match insert_all_model(names, a) {
            Ok(m) => insert_all_model(m, b),
            Err(e) => Err(e),
        }),
    decreases a.len(),
{
    if a.len() == 0 {
        assert(a + b =~= b);
    } else {
        assert((a + b)[0] == a[0]);
        match insert_local_model(names, a[0]) {
            Ok(n2) => {
                assert((a + b).drop_first() =~= a.drop_first() + b);
                lemma_insert_all_append(n2, a.drop_first(), b);
            },
            Err(_) => {},
        }
    }
}

/// Parses one `(param [id] type)` form, or recognizes that none stands here.
fn parse_param_form(input: &str, pos: usize) -> (r: Option<(usize, Option<String>, ValueType)>)
    requires
        pos <= input@.len(),
    ensures
        match r {
            Some(f) => param_form(input@, pos as int) matches Some(g) && g.0 == f.0 && g.1
                == opt_name(f.1) && g.2 == f.2 && f.0 <= input@.len(),
            None => param_form(input@, pos as int) is None,
        },
{
    proof {
        lemma_param_form_bounds(input@, pos as int);
        reveal_strlit("param");
    }
    let t0 = ws(input, pos);
    let p1 = match lparen(input, t0) {
        Ok(p) => p,
        Err(_) => {
            return None;
        },
    };
    let p2 = match param(input, p1) {
        Ok(p) => p,
        Err(_) => {
            return None;
        },
    };
    let (p3, name) = match id(input, p2) {
        Ok((p, nm)) => (p, Some(nm)),
        Err(_) => (p2, None),
    };
    let (p4, vt) = match value_type(input, p3) {
        Ok(x) => x,
        Err(_) => {
            return None;
        },
    };
    let p5 = match rparen(input, p4) {
        Ok(p) => p,
        Err(_) => {
            return None;
        },
    };
    Some((p5, name, vt))
}

/// Parses one `(result type)` form, or recognizes that none stands here.
fn parse_result_form(input: &str, pos: usize) -> (r: Option<(usize, ValueType)>)
    requires
        pos <= input@.len(),
    ensures
        match r {
            Some(f) => result_form(input@, pos as int) matches Some(g) && g.0 == f.0 && g.1 == f.1
                && f.0 <= input@.len(),
            None => result_form(input@, pos as int) is None,
        },
{
    proof {
        lemma_result_form_bounds(input@, pos as int);
        reveal_strlit("result");
    }
    let t0 = ws(input, pos);
    let p1 = match lparen(input, t0) {
        Ok(p) => p,
        Err(_) => {
            return None;
        },
    };
    let p2 = match result(input, p1) {
        Ok(p) => p,
        Err(_) => {
            return None;
        },
    };
    let (p4, vt) = match value_type(input, p2) {
        Ok(x) => x,
        Err(_) => {
            return None;
        },
    };
    let p5 = match rparen(input, p4) {
        Ok(p) => p,
        Err(_) => {
            return None;
        },
    };
    Some((p5, vt))
}

/// Parses zero or more `param` and `result` forms in any relative order,
/// stopping at the first text that is neither form and leaving it
/// unconsumed. Each parsed `param`, as a side effect, declares one local in
/// the symbol table in left-to-right order; a repeated local name aborts the
/// parse with a duplicate definition. Yields the signature the forms spell
/// out: the parameter types paired with the result types.
#[verifier::loop_isolation(false)]
pub fn func_type(input: &str, pos: usize, ctx: &mut Context) -> (r: Result<
    (usize, FuncType),
    ParseError,
>)
    requires
        pos <= input@.len(),
    ensures
        final(ctx).types == old(ctx).types,
        final(ctx).funcs == old(ctx).funcs,
        final(ctx).exports == old(ctx).exports,
        ({
            let items = ft_items(input@, pos as int);
            match r {
                Ok((p2, ft)) => {
                    &&& p2 == items.0
                    &&& ft.0@ == items.2
                    &&& ft.1@ == items.3
                    &&& insert_all_model(names_of(old(ctx).locals@), items.1) == Ok::<
                        Seq<Option<Seq<char>>>,
                        ParseError,
                    >(names_of(final(ctx).locals@))
                },
                Err(er) => insert_all_model(names_of(old(ctx).locals@), items.1) == Err::<
                    Seq<Option<Seq<char>>>,
                    ParseError,
                >(er),
            }
        }),
{
    let ghost s = input@;
    let ghost names0 = names_of(old(ctx).locals@);
    let mut p = pos;
    let mut params: Vec<ValueType> = Vec::new();
    let mut results: Vec<ValueType> = Vec::new();
    let ghost mut done: Seq<Option<Seq<char>>> = seq![];
    proof {
        assert(ft_items(s, pos as int).1 =~= done + ft_items(s, p as int).1);
        assert(ft_items(s, pos as int).2 =~= params@ + ft_items(s, p as int).2);
        assert(ft_items(s, pos as int).3 =~= results@ + ft_items(s, p as int).3);
    }
    loop
        invariant
            pos <= p <= input@.len(),
            ft_items(s, pos as int).0 == ft_items(s, p as int).0,
            ft_items(s, pos as int).1 == done + ft_items(s, p as int).1,
            ft_items(s, pos as int).2 == params@ + ft_items(s, p as int).2,
            ft_items(s, pos as int).3 == results@ + ft_items(s, p as int).3,
            insert_all_model(names0, done) == Ok::<Seq<Option<Seq<char>>>, ParseError>(
                names_of(ctx.locals@),
            ),
            ctx.types == old(ctx).types,
            ctx.funcs == old(ctx).funcs,
            ctx.exports == old(ctx).exports,
        decreases input@.len() - p,
    {
        match parse_param_form(input, p) {
            Some((p2, name, vt)) => {
                let ghost nm = opt_name(name);
                let ghost prev_names = names_of(ctx.locals@);
                proof {
                    lemma_param_form_bounds(s, p as int);
                    lemma_insert_all_append(names0, done, ft_items(s, p as int).1);
                    assert(ft_items(s, p as int).1 == seq![nm] + ft_items(s, p2 as int).1);
                    assert((seq![nm] + ft_items(s, p2 as int).1)[0] == nm);
                }
                match ctx.insert_local_id(&name) {
                    Ok(_) => {},
                    Err(e) => {
                        proof {
                            assert(insert_all_model(prev_names, ft_items(s, p as int).1) == Err::<
                                Seq<Option<Seq<char>>>,
                                ParseError,
                            >(e));
                        }
                        return Err(e);
                    },
                }
                params.push(vt);
                proof {
                    let old_done = done;
                    done = done.push(nm);
                    assert(insert_local_model(prev_names, nm) == Ok::<
                        Seq<Option<Seq<char>>>,
                        ParseError,
                    >(names_of(ctx.locals@)));
                    assert((seq![nm] + ft_items(s, p2 as int).1).drop_first() =~= ft_items(
                        s,
                        p2 as int,
                    ).1);
                    assert(ft_items(s, pos as int).1 =~= done + ft_items(s, p2 as int).1);
                    assert(ft_items(s, pos as int).2 =~= params@ + ft_items(s, p2 as int).2);
                    lemma_insert_all_append(names0, old_done, seq![nm]);
                    assert(old_done + seq![nm] =~= done);
                    assert(seq![nm].drop_first() =~= Seq::<Option<Seq<char>>>::empty());
                    assert(insert_all_model(names_of(ctx.locals@), Seq::<
                        Option<Seq<char>>,
                    >::empty()) == Ok::<Seq<Option<Seq<char>>>, ParseError>(names_of(ctx.locals@)));
                    assert(insert_all_model(prev_names, seq![nm]) == Ok::<
                        Seq<Option<Seq<char>>>,
                        ParseError,
                    >(names_of(ctx.locals@)));
                    assert(insert_all_model(names0, done) == Ok::<
                        Seq<Option<Seq<char>>>,
                        ParseError,
                    >(names_of(ctx.locals@)));
                }
                p = p2;
            },
            None => {
                match parse_result_form(input, p) {
                    Some((p2, vt)) => {
                        proof {
                            lemma_result_form_bounds(s, p as int);
                        }
                        results.push(vt);
                        proof {
                            assert(ft_items(s, pos as int).3 =~= results@ + ft_items(
                                s,
                                p2 as int,
                            ).3);
                        }
                        p = p2;
                    },
                    None => {
                        break ;
                    },
                }
            },
        }
    }
    proof {
        assert(ft_items(s, pos as int).1 =~= done);
        assert(ft_items(s, pos as int).2 =~= params@);
        assert(ft_items(s, pos as int).3 =~= results@);
    }
    Ok((p, (params, results)))
}

/// Parses a signature's `param` and `result` forms and interns the
/// signature in the symbol table, inserting a new type entry only when no
/// structurally equal one already exists. Yields the type index beside the
/// new position.
pub fn type_use(input: &str, pos: usize, ctx: &mut Context) -> (r: Result<
    (usize, usize),
    ParseError,
>)
    requires
        pos <= input@.len(),
    ensures
        final(ctx).funcs == old(ctx).funcs,
        final(ctx).exports == old(ctx).exports,
        ({
            let items = ft_items(input@, pos as int);
            let ft = (items.2, items.3);
            match r {
                Ok((p2, ti)) => {
                    &&& p2 == items.0
                    &&& insert_all_model(names_of(old(ctx).locals@), items.1) == Ok::<
                        Seq<Option<Seq<char>>>,
                        ParseError,
                    >(names_of(final(ctx).locals@))
                    &&& types_view(final(ctx).types.list@) == intern_model(
                        types_view(old(ctx).types.list@),
                        ft,
                    ).0
                    &&& ti as int == intern_model(types_view(old(ctx).types.list@), ft).1
                    &&& (has_ft(types_view(old(ctx).types.list@), ft) ==> final(ctx).types == old(
                        ctx,
                    ).types)
                    &&& (!has_ft(types_view(old(ctx).types.list@), ft) ==> final(ctx).types.ids@
                        == old(ctx).types.ids@.push(None))
                },
                Err(er) => {
                    &&& insert_all_model(names_of(old(ctx).locals@), items.1) == Err::<
                        Seq<Option<Seq<char>>>,
                        ParseError,
                    >(er)
                    &&& final(ctx).types == old(ctx).types
                },
            }
        }),
{
    let (p2, ft) = match func_type(input, pos, ctx) {
        Ok(x) => x,
        Err(e) => {
            return Err(e);
        },
    };
    let ti = ctx.upsert_func_type(&ft);
    Ok((p2, ti))
}

} // verus!
