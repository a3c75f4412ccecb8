use vstd::prelude::*;

use crate::ast::{func_view, export_view, Export, ExportDesc, Func, Instruction, Module, ValueType};
use crate::context::{
    ctx_view, exports_view, funcs_view, intern_model, names_of, resolve_name_model, types_view,
    Context, CtxView, FuncTypeView,
};
use crate::error::ParseError;
use crate::instruction::{instructions, instrs_from, lemma_instrs_from_bounds};
use crate::token::{
    kw_at, lemma_run_end, lemma_ws_end_bounds, lparen, rparen, ws, ws_end,
};
use crate::types::{ft_items, insert_all_model, lemma_ft_items_bounds, type_use};
use crate::values::{
    dec_val, digits_end, id, id_end, id_pred, is_digit, literal, nonquote_end, nonquote_pred,
};

verus! {

/// What a `(func $id type-use body)` form at `pos` does to the symbol table
/// and yields: the function's name is recorded before its body is read, the
/// locals list is started afresh for this function's scope, the signature is
/// interned, the body is resolved against the declared locals, and the
/// finished function is committed. Any failure aborts with the error of the
/// stage that failed.
pub open spec fn spec_func(s: Seq<char>, pos: int, c: CtxView) -> Result<
    (int, CtxView, (u32, Seq<ValueType>, Seq<Instruction>)),
    ParseError,
> {
    if !(0 <= pos < s.len() && s[pos] == '(') {
        Err(ParseError::SyntaxMismatch)
    } else {
        let t1 = ws_end(s, pos + 1);
        if !kw_at(s, t1, "func"@) {
            Err(ParseError::SyntaxMismatch)
        } else {
            let p1 = ws_end(s, t1 + 4);
            let t2 = ws_end(s, p1);
            if !(t2 < s.len() && s[t2] == '$' && id_end(s, t2 + 1) > t2 + 1) {
                Err(ParseError::SyntaxMismatch)
            } else {
                let name = s.subrange(t2, id_end(s, t2 + 1));
                let p2 = ws_end(s, id_end(s, t2 + 1));
                let c1 = CtxView {
                    locals: Seq::empty(),
                    func_ids: c.func_ids.push(Some(name)),
                    ..c
                };
                let items = ft_items(s, p2);
                match insert_all_model(c1.locals, items.1) {
                    Err(e) => Err(e),
                    Ok(newlocals) => {
                        let ft = (items.2, items.3);
                        let im = intern_model(c1.types, ft);
                        let c2 = CtxView {
                            locals: newlocals,
                            types: im.0,
                            type_ids: if im.0.len() == c1.types.len() {
                                c1.type_ids
                            } else {
                                c1.type_ids.push(None)
                            },
                            ..c1
                        };
                        match instrs_from(s, items.0, newlocals) {
                            Err(e) => Err(e),
                            Ok(body) => {
                                if body.1.len() == 0 {
                                    Err(ParseError::SyntaxMismatch)
                                } else if body.0 < s.len() && s[body.0] == ')' {
                                    let f = (im.1 as u32, Seq::<ValueType>::empty(), body.1);
                                    Ok((body.0 + 1, CtxView { funcs: c2.funcs.push(f), ..c2 }, f))
                                } else {
                                    Err(ParseError::SyntaxMismatch)
                                }
                            },
                        }
                    },
                }
            }
        }
    }
}

/// What the closing parentheses and the commit of an export do, once its
/// name and resolved function index are in hand.
pub open spec fn spec_export_tail(
    s: Seq<char>,
    p4: int,
    c: CtxView,
    name: Seq<char>,
    i: int,
) -> Result<(int, CtxView, (Seq<char>, ExportDesc)), ParseError> {
    if !(p4 < s.len() && s[p4] == ')') {
        Err(ParseError::SyntaxMismatch)
    } else if !(p4 + 1 < s.len() && s[p4 + 1] == ')') {
        Err(ParseError::SyntaxMismatch)
    } else {
        let ex = (name, ExportDesc::Func(i as u32));
        Ok(
            (
                p4 + 2,
                CtxView {
                    export_ids: c.export_ids.push(Some(name)),
                    exports: c.exports.push(ex),
                    ..c
                },
                ex,
            ),
        )
    }
}

/// What an `(export "name" (func ref))` form at `pos` does and yields: the
/// quoted name, with the referenced function resolved through the symbol
/// table to a numeric index and the export appended. An unknown function
/// name is an unresolved reference, never a default index.
pub open spec fn spec_export(s: Seq<char>, pos: int, c: CtxView) -> Result<
    (int, CtxView, (Seq<char>, ExportDesc)),
    ParseError,
> {
    if !(0 <= pos < s.len() && s[pos] == '(') {
        Err(ParseError::SyntaxMismatch)
    } else {
        let t1 = ws_end(s, pos + 1);
        if !kw_at(s, t1, "export"@) {
            Err(ParseError::SyntaxMismatch)
        } else {
            let p1 = ws_end(s, t1 + 6);
            let t2 = ws_end(s, p1);
            let e = nonquote_end(s, t2 + 1);
            if !(t2 < s.len() && s[t2] == '"' && e > t2 + 1 && e < s.len()) {
                Err(ParseError::SyntaxMismatch)
            } else {
                let name = s.subrange(t2 + 1, e);
                let p2 = ws_end(s, e + 1);
                if !(p2 < s.len() && s[p2] == '(') {
                    Err(ParseError::SyntaxMismatch)
                } else {
                    let t3 = ws_end(s, p2 + 1);
                    if !kw_at(s, t3, "func"@) {
                        Err(ParseError::SyntaxMismatch)
                    } else {
                        let p3 = ws_end(s, t3 + 4);
                        if p3 < s.len() && is_digit(s[p3]) {
                            let de = digits_end(s, p3);
                            if dec_val(s, p3, de) > u32::MAX {
                                Err(ParseError::NumericOverflow)
                            } else {
                                spec_export_tail(s, de, c, name, dec_val(s, p3, de))
                            }
                        } else {
                            let t4 = ws_end(s, p3);
                            if !(t4 < s.len() && s[t4] == '$' && id_end(s, t4 + 1) > t4 + 1) {
                                Err(ParseError::SyntaxMismatch)
                            } else {
                                let iname = s.subrange(t4, id_end(s, t4 + 1));
                                match resolve_name_model(c.func_ids, iname) {
                                    Err(er) => Err(er),
                                    Ok(i) => spec_export_tail(
                                        s,
                                        ws_end(s, id_end(s, t4 + 1)),
                                        c,
                                        name,
                                        i,
                                    ),
                                }
                            }
                        }
                    }
                }
            }
        }
    }
}

/// A recognized `func` form ends strictly after `pos` and inside the text.
pub proof fn lemma_spec_func_bounds(s: Seq<char>, pos: int, c: CtxView)
    requires
        0 <= pos <= s.len(),
    ensures
        spec_func(s, pos, c) matches Ok(x) ==> pos < x.0 <= s.len(),
{
    if 0 <= pos < s.len() && s[pos] == '(' {
        lemma_ws_end_bounds(s, pos + 1);
        let t1 = ws_end(s, pos + 1);
        if kw_at(s, t1, "func"@) {
            reveal_strlit("func");
            lemma_ws_end_bounds(s, t1 + 4);
            let p1 = ws_end(s, t1 + 4);
            lemma_ws_end_bounds(s, p1);
            let t2 = ws_end(s, p1);
            if t2 < s.len() && s[t2] == '$' && id_end(s, t2 + 1) > t2 + 1 {
                lemma_run_end(s, t2 + 1, id_pred());
                lemma_ws_end_bounds(s, id_end(s, t2 + 1));
                let p2 = ws_end(s, id_end(s, t2 + 1));
                lemma_ft_items_bounds(s, p2);
                let items = ft_items(s, p2);
                match insert_all_model(Seq::<Option<Seq<char>>>::empty(), items.1) {
                    Err(_) => {},
                    Ok(newlocals) => {
                        lemma_instrs_from_bounds(s, items.0, newlocals);
                    },
                }
            }
        }
    }
}

/// A recognized `export` form ends strictly after `pos` and inside the text.
pub proof fn lemma_spec_export_bounds(s: Seq<char>, pos: int, c: CtxView)
    requires
        0 <= pos <= s.len(),
    ensures
        spec_export(s, pos, c) matches Ok(x) ==> pos < x.0 <= s.len(),
{
    if 0 <= pos < s.len() && s[pos] == '(' {
        lemma_ws_end_bounds(s, pos + 1);
        let t1 = ws_end(s, pos + 1);
        if kw_at(s, t1, "export"@) {
            reveal_strlit("export");
            lemma_ws_end_bounds(s, t1 + 6);
            let p1 = ws_end(s, t1 + 6);
            lemma_ws_end_bounds(s, p1);
            let t2 = ws_end(s, p1);
            let e = nonquote_end(s, t2 + 1);
            if t2 < s.len() && s[t2] == '"' {
                lemma_run_end(s, t2 + 1, nonquote_pred());
                if e > t2 + 1 && e < s.len() {
                    lemma_ws_end_bounds(s, e + 1);
                    let p2 = ws_end(s, e + 1);
                    if p2 < s.len() && s[p2] == '(' {
                        lemma_ws_end_bounds(s, p2 + 1);
                        let t3 = ws_end(s, p2 + 1);
                        if kw_at(s, t3, "func"@) {
                            reveal_strlit("func");
                            lemma_ws_end_bounds(s, t3 + 4);
                            let p3 = ws_end(s, t3 + 4);
                            if p3 < s.len() && is_digit(s[p3]) {
                                lemma_run_end(s, p3, crate::values::digit_pred());
                            } else {
                                lemma_ws_end_bounds(s, p3);
                                let t4 = ws_end(s, p3);
                                if t4 < s.len() && s[t4] == '$' && id_end(s, t4 + 1) > t4 + 1 {
                                    lemma_run_end(s, t4 + 1, id_pred());
                                    lemma_ws_end_bounds(s, id_end(s, t4 + 1));
                                }
                            }
                        }
                    }
                }
            }
        }
    }
}

/// A position holding the keyword `func` cannot hold the keyword `export`.
pub proof fn lemma_kw_func_not_export(s: Seq<char>, t: int)
    requires
        kw_at(s, t, "func"@),
    ensures
        !kw_at(s, t, "export"@),
{
    reveal_strlit("func");
    reveal_strlit("export");
    if kw_at(s, t, "export"@) {
        assert(s.subrange(t, t + 4)[0] == s[t]);
        assert(s.subrange(t, t + 6)[0] == s[t]);
        assert(false);
    }
}

/// What the run of `func` and `export` forms starting at `pos` does to the
/// symbol table: each form in turn, in any order, until the first text that
/// is neither (left unconsumed). A syntax mismatch inside a form ends the
/// run; a fatal error aborts it.
pub open spec fn module_items(s: Seq<char>, pos: int, c: CtxView) -> Result<
    (int, CtxView),
    ParseError,
>
    decreases s.len() - pos,
    when 0 <= pos <= s.len()
    via module_items_dec
{
    let t = ws_end(s, pos);
    match spec_func(s, t, c) {
        Ok(x) => module_items(s, x.0, x.1),
        Err(e1) => if e1 != ParseError::SyntaxMismatch {
            Err(e1)
        } else {
            match spec_export(s, t, c) {
                Ok(x) => module_items(s, x.0, x.1),
                Err(e2) => if e2 != ParseError::SyntaxMismatch {
                    Err(e2)
                } else {
                    Ok((pos, c))
                },
            }
        },
    }
}

#[via_fn]
proof fn module_items_dec(s: Seq<char>, pos: int, c: CtxView) {
    lemma_ws_end_bounds(s, pos);
    let t = ws_end(s, pos);
    lemma_spec_func_bounds(s, t, c);
    lemma_spec_export_bounds(s, t, c);
    match spec_func(s, t, c) {
        Ok(x) => {},
        Err(_) => match spec_export(s, t, c) {
            Ok(x) => {
                lemma_spec_func_bounds(s, t, x.1);
            },
            Err(_) => {},
        },
    }
}

/// A symbol table with nothing declared yet.
pub open spec fn empty_ctx_view() -> CtxView {
    CtxView {
        locals: Seq::empty(),
        type_ids: Seq::empty(),
        types: Seq::empty(),
        func_ids: Seq::empty(),
        funcs: Seq::empty(),
        export_ids: Seq::empty(),
        exports: Seq::empty(),
    }
}

/// The mathematical value of a finished module: its three ordered lists.
pub open spec fn module_view(m: Module) -> (
    Seq<FuncTypeView>,
    Seq<(u32, Seq<ValueType>, Seq<Instruction>)>,
    Seq<(Seq<char>, ExportDesc)>,
) {
    (types_view(m.types@), funcs_view(m.funcs@), exports_view(m.exports@))
}

/// What parsing a whole module from the start of the text yields: a fresh
/// symbol table threaded through one outer `(module ...)` form's `func` and
/// `export` declarations, read off into the three lists. Text after the
/// closing parenthesis is ignored. No partial module is ever yielded.
pub open spec fn spec_module(s: Seq<char>) -> Result<
    (
        Seq<FuncTypeView>,
        Seq<(u32, Seq<ValueType>, Seq<Instruction>)>,
        Seq<(Seq<char>, ExportDesc)>,
    ),
    ParseError,
> {
    let t0 = ws_end(s, 0);
    if !(t0 < s.len() && s[t0] == '(') {
        Err(ParseError::SyntaxMismatch)
    } else {
        let t1 = ws_end(s, t0 + 1);
        if !kw_at(s, t1, "module"@) {
            Err(ParseError::SyntaxMismatch)
        } else {
            match module_items(s, ws_end(s, t1 + 6), empty_ctx_view()) {
                Err(e) => Err(e),
                Ok(x) => {
                    let p3 = ws_end(s, x.0);
                    if p3 < s.len() && s[p3] == ')' {
                        Ok((x.1.types, x.1.funcs, x.1.exports))
                    } else {
                        Err(ParseError::SyntaxMismatch)
                    }
                },
            }
        }
    }
}

/// Parses one `(func $id ...)` form: the mandatory name is recorded in the
/// function table before the body is parsed, the locals list starts afresh
/// for this function's scope, the signature is parsed and interned, the body
/// is parsed with every local reference resolved, and the finished function
/// is committed to the symbol table.
pub fn func(input: &str, pos: usize, ctx: &mut Context) -> (r: Result<(usize, Func), ParseError>)
    requires
        pos <= input@.len(),
    ensures
        ({
            let rr = spec_func(input@, pos as int, ctx_view(*old(ctx)));
            match r {
                Ok((p2, f)) => rr == Ok::<
                    (int, CtxView, (u32, Seq<ValueType>, Seq<Instruction>)),
                    ParseError,
                >((p2 as int, ctx_view(*final(ctx)), func_view(f))) && p2 <= input@.len(),
                Err(e) => rr == Err::<
                    (int, CtxView, (u32, Seq<ValueType>, Seq<Instruction>)),
                    ParseError,
                >(e),
            }
        }),
        r is Err ==> (*final(ctx) == *old(ctx) || (pos < input@.len() && input@[pos as int] == '('
            && kw_at(input@, ws_end(input@, pos + 1 as int), "func"@))),
{
    proof {
        reveal_strlit("func");
    }
    let p0 = match lparen(input, pos) {
        Ok(p) => p,
        Err(e) => {
            return Err(e);
        },
    };
    let p1 = match crate::token::func(input, p0) {
        Ok(p) => p,
        Err(e) => {
            return Err(e);
        },
    };
    let (p2, name) = match id(input, p1) {
        Ok(x) => x,
        Err(e) => {
            return Err(e);
        },
    };
    let ghost nm = name@;
    ctx.locals = Vec::new();
    proof {
        assert(names_of(ctx.locals@) =~= Seq::<Option<Seq<char>>>::empty());
    }
    let _fidx = ctx.insert_func_id(Some(name));
    proof {
        crate::context::lemma_names_of_push(old(ctx).funcs.ids@, Some(name));
        assert(names_of(ctx.funcs.ids@) == ctx_view(*old(ctx)).func_ids.push(Some(nm)));
    }
    proof {
        lemma_ft_items_bounds(input@, p2 as int);
    }
    let (p3, ti) = match type_use(input, p2, ctx) {
        Ok(x) => x,
        Err(e) => {
            return Err(e);
        },
    };
    let (p4, body) = match instructions(input, p3, ctx) {
        Ok(x) => x,
        Err(e) => {
            return Err(e);
        },
    };
    let p5 = match rparen(input, p4) {
        Ok(p) => p,
        Err(e) => {
            return Err(e);
        },
    };
    let f = Func { f_type: #[verifier::truncate] (ti as u32), locals: Vec::new(), body };
    proof {
        assert(f.locals@ =~= Seq::<ValueType>::empty());
    }
    ctx.insert_func(&f);
    proof {
        let sv = input@;
        let cold = ctx_view(*old(ctx));
        let posi = pos as int;
        let t1 = ws_end(sv, posi + 1);
        let p1i = ws_end(sv, t1 + 4);
        let t2 = ws_end(sv, p1i);
        let namev = sv.subrange(t2, id_end(sv, t2 + 1));
        let p2i = ws_end(sv, id_end(sv, t2 + 1));
        let c1 = CtxView { locals: Seq::empty(), func_ids: cold.func_ids.push(Some(namev)), ..cold };
        let items = ft_items(sv, p2i);
        let ftv = (items.2, items.3);
        let im = intern_model(c1.types, ftv);
        assert(namev == nm);
        assert(p2i == p2 as int);
        assert(c1.types == types_view(old(ctx).types.list@));
        assert(names_of(ctx.locals@) == ctx_view(*ctx).locals);
        if crate::context::has_ft(c1.types, ftv) {
            assert(im.0.len() == c1.types.len());
            assert(ctx_view(*ctx).type_ids == c1.type_ids);
        } else {
            if exists|i: int| crate::context::first_ft(c1.types, ftv, i) {
                let i = choose|i: int| crate::context::first_ft(c1.types, ftv, i);
                assert(c1.types[i] == ftv);
            }
            assert(im.0 == c1.types.push(ftv));
            assert(im.0.len() == c1.types.len() + 1);
            crate::context::lemma_names_of_push(old(ctx).types.ids@, None);
        }
        assert(ctx_view(*ctx).types == im.0);
        assert(ti as int == im.1);
        assert(func_view(f) == (im.1 as u32, Seq::<ValueType>::empty(), body@));
        assert(ctx_view(*ctx).funcs == c1.funcs.push(func_view(f)));
        assert(ctx_view(*ctx).func_ids == c1.func_ids);
        assert(ctx_view(*ctx).export_ids == cold.export_ids);
        assert(ctx_view(*ctx).exports == cold.exports);
    }
    Ok((p5, f))
}

/// Parses one `(export "name" (func ref))` form: the quoted export name and
/// a function reference, resolved through the symbol table to a numeric
/// index, then appended to the export list. The symbol table is untouched on
/// any failure.
pub fn export(input: &str, pos: usize, ctx: &mut Context) -> (r: Result<
    (usize, Export),
    ParseError,
>)
    requires
        pos <= input@.len(),
    ensures
        ({
            let rr = spec_export(input@, pos as int, ctx_view(*old(ctx)));
            match r {
                Ok((p2, ex)) => rr == Ok::<(int, CtxView, (Seq<char>, ExportDesc)), ParseError>(
                    (p2 as int, ctx_view(*final(ctx)), export_view(ex)),
                ) && p2 <= input@.len(),
                Err(e) => rr == Err::<(int, CtxView, (Seq<char>, ExportDesc)), ParseError>(e)
                    && *final(ctx) == *old(ctx),
            }
        }),
{
    proof {
        reveal_strlit("export");
        reveal_strlit("func");
    }
    let p0 = match lparen(input, pos) {
        Ok(p) => p,
        Err(e) => {
            return Err(e);
        },
    };
    let p1 = match crate::token::export(input, p0) {
        Ok(p) => p,
        Err(e) => {
            return Err(e);
        },
    };
    let (p2, name) = match literal(input, p1) {
        Ok(x) => x,
        Err(e) => {
            return Err(e);
        },
    };
    let q0 = match lparen(input, p2) {
        Ok(p) => p,
        Err(e) => {
            return Err(e);
        },
    };
    let q1 = match crate::token::func(input, q0) {
        Ok(p) => p,
        Err(e) => {
            return Err(e);
        },
    };
    let (p4, idx) = match crate::types::index(input, q1) {
        Ok(x) => x,
        Err(e) => {
            return Err(e);
        },
    };
    let fi = match ctx.get_func_idx(&idx) {
        Ok(i) => i,
        Err(e) => {
            return Err(e);
        },
    };
    let q2 = match rparen(input, p4) {
        Ok(p) => p,
        Err(e) => {
            return Err(e);
        },
    };
    let p5 = match rparen(input, q2) {
        Ok(p) => p,
        Err(e) => {
            return Err(e);
        },
    };
    let idopt = Some(name.clone());
    let ex = Export { name, desc: ExportDesc::Func(#[verifier::truncate] (fi as u32)) };
    ctx.insert_export(&idopt, &ex);
    Ok((p5, ex))
}

/// Parses a whole module: a fresh symbol table is created, the outer
/// `(module ...)` form's `func` and `export` declarations are parsed in any
/// order, each mutating that table, and the finished table is read off into
/// the immutable module. The table never outlives the parse, and no partial
/// module is ever returned: any fatal error aborts the whole parse.
#[verifier::loop_isolation(false)]
pub fn module(input: &str) -> (r: Result<Module, ParseError>)
    ensures
        match r {
            Ok(m) => spec_module(input@) == Ok::<
                (
                    Seq<FuncTypeView>,
                    Seq<(u32, Seq<ValueType>, Seq<Instruction>)>,
                    Seq<(Seq<char>, ExportDesc)>,
                ),
                ParseError,
            >(module_view(m)),
            Err(e) => spec_module(input@) == Err::<
                (
                    Seq<FuncTypeView>,
                    Seq<(u32, Seq<ValueType>, Seq<Instruction>)>,
                    Seq<(Seq<char>, ExportDesc)>,
                ),
                ParseError,
            >(e),
        },
{
    let ghost s = input@;
    proof {
        reveal_strlit("module");
    }
    let mut ctx = Context::new();
    proof {
        assert(names_of(ctx.locals@) =~= Seq::<Option<Seq<char>>>::empty());
        assert(names_of(ctx.types.ids@) =~= Seq::<Option<Seq<char>>>::empty());
        assert(types_view(ctx.types.list@) =~= Seq::<FuncTypeView>::empty());
        assert(names_of(ctx.funcs.ids@) =~= Seq::<Option<Seq<char>>>::empty());
        assert(funcs_view(ctx.funcs.list@) =~= Seq::<
            (u32, Seq<ValueType>, Seq<Instruction>),
        >::empty());
        assert(names_of(ctx.exports.ids@) =~= Seq::<Option<Seq<char>>>::empty());
        assert(exports_view(ctx.exports.list@) =~= Seq::<(Seq<char>, ExportDesc)>::empty());
        assert(ctx_view(ctx) == empty_ctx_view());
    }
    let t0 = ws(input, 0);
    let p0 = match lparen(input, t0) {
        Ok(p) => p,
        Err(_) => {
            return Err(ParseError::SyntaxMismatch);
        },
    };
    let pstart = match crate::token::module(input, p0) {
        Ok(p) => p,
        Err(_) => {
            return Err(ParseError::SyntaxMismatch);
        },
    };
    let ghost c0 = empty_ctx_view();
    let mut p = pstart;
    loop
        invariant
            p <= input@.len(),
            module_items(s, pstart as int, c0) == module_items(s, p as int, ctx_view(ctx)),
        decreases input@.len() - p,
    {
        let ghost centry = ctx_view(ctx);
        let t = ws(input, p);
        proof {
            lemma_spec_func_bounds(s, t as int, centry);
            lemma_spec_export_bounds(s, t as int, centry);
        }
        match func(input, t, &mut ctx) {
            Ok((p2, _f)) => {
                proof {
                    assert(module_items(s, p as int, centry) == module_items(
                        s,
                        p2 as int,
                        ctx_view(ctx),
                    ));
                }
                p = p2;
            },
            Err(e1) => {
                if !matches!(e1, ParseError::SyntaxMismatch) {
                    proof {
                        assert(module_items(s, p as int, centry) == Err::<
                            (int, CtxView),
                            ParseError,
                        >(e1));
                    }
                    return Err(e1);
                }
                let ghost cmid = ctx_view(ctx);
                proof {
                    lemma_spec_export_bounds(s, t as int, cmid);
                }
                match export(input, t, &mut ctx) {
                    Ok((p2, _ex)) => {
                        proof {
                            // A successful export means its keyword matched, so the
                            // earlier `func` attempt failed before touching the table.
                            if centry != cmid {
                                assert(kw_at(s, ws_end(s, t + 1 as int), "func"@));
                                lemma_kw_func_not_export(s, ws_end(s, t + 1 as int));
                                assert(spec_export(s, t as int, cmid) is Err);
                                assert(false);
                            }
                            assert(module_items(s, p as int, centry) == module_items(
                                s,
                                p2 as int,
                                ctx_view(ctx),
                            ));
                        }
                        p = p2;
                    },
                    Err(e2) => {
                        if !matches!(e2, ParseError::SyntaxMismatch) {
                            proof {
                                if centry != cmid {
                                    assert(kw_at(s, ws_end(s, t + 1 as int), "func"@));
                                    lemma_kw_func_not_export(s, ws_end(s, t + 1 as int));
                                    assert(false);
                                }
                                assert(module_items(s, p as int, centry) == Err::<
                                    (int, CtxView),
                                    ParseError,
                                >(e2));
                            }
                            return Err(e2);
                        }
                        proof {
                            if centry != cmid {
                                assert(kw_at(s, ws_end(s, t + 1 as int), "func"@));
                                lemma_kw_func_not_export(s, ws_end(s, t + 1 as int));
                            }
                            assert(spec_func(s, t as int, centry) == Err::<
                                (int, CtxView, (u32, Seq<ValueType>, Seq<Instruction>)),
                                ParseError,
                            >(ParseError::SyntaxMismatch));
                            assert(spec_export(s, t as int, centry) == Err::<
                                (int, CtxView, (Seq<char>, ExportDesc)),
                                ParseError,
                            >(ParseError::SyntaxMismatch));
                            assert(module_items(s, p as int, centry) == Ok::<
                                (int, CtxView),
                                ParseError,
                            >((p as int, centry)));
                        }
                        match rparen(input, t) {
                            Ok(_) => {
                                proof {
                                    // The closing parenthesis rules out a consumed
                                    // `(func` prefix, so the table is unchanged.
                                    assert(centry == cmid);
                                    assert(ctx_view(ctx) == centry);
                                }
                                let Context { locals: _, types, funcs, exports } = ctx;
                                return Ok(
                                    Module {
                                        types: types.list,
                                        funcs: funcs.list,
                                        exports: exports.list,
                                    },
                                );
                            },
                            Err(_) => {
                                return Err(ParseError::SyntaxMismatch);
                            },
                        }
                    },
                }
            },
        }
    }
}

} // verus!
