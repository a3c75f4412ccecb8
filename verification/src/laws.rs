use vstd::prelude::*;

use crate::context::{
    first_ft, first_name, has_ft, has_name, insert_local_model, intern_model,
    lemma_first_ft_unique, lemma_resolve_name_absent, resolve_model, resolve_name_model,
    FuncTypeView,
};
use crate::context::CtxView;
use crate::error::ParseError;
use crate::module::{
    lemma_spec_export_bounds, lemma_spec_func_bounds, module_items, spec_export, spec_func,
    spec_module,
};
use crate::token::{lemma_ws_end_bounds, ws_end};
use crate::types::Index;

verus! {

/// When some entry equals `ft`, a first such entry exists.
proof fn lemma_has_ft_first(types: Seq<FuncTypeView>, ft: FuncTypeView)
    requires
        has_ft(types, ft),
    ensures
        exists|i: int| first_ft(types, ft, i),
    decreases types.len(),
{
    let pre = types.subrange(0, types.len() - 1);
    if has_ft(pre, ft) {
        lemma_has_ft_first(pre, ft);
        let i = choose|i: int| first_ft(pre, ft, i);
        assert(types[i] == pre[i]);
        assert(forall|j: int| 0 <= j < i ==> types[j] == pre[j]);
        assert(first_ft(types, ft, i));
    } else {
        let k = choose|k: int| 0 <= k < types.len() && #[trigger] types[k] == ft;
        assert(forall|j: int|
            0 <= j < types.len() - 1 ==> #[trigger] types[j] == pre[j] && types[j] != ft);
        assert(k == types.len() - 1);
        assert(first_ft(types, ft, k));
    }
}

/// Interning a function type twice yields the same index both times, and the
/// second interning leaves the type list unchanged. Since structurally equal
/// signatures have one mathematical value, two signatures with element-wise
/// equal parameter and result sequences always share one entry, never two.
pub proof fn lemma_intern_idempotent(types: Seq<FuncTypeView>, ft: FuncTypeView)
    ensures
        ({
            let (t1, i1) = intern_model(types, ft);
            let (t2, i2) = intern_model(t1, ft);
            t2 == t1 && i2 == i1
        }),
{
    let (t1, i1) = intern_model(types, ft);
    if exists|i: int| first_ft(types, ft, i) {
        let i2 = choose|i: int| first_ft(t1, ft, i);
        lemma_first_ft_unique(types, ft, i1, i2);
    } else {
        if has_ft(types, ft) {
            lemma_has_ft_first(types, ft);
        }
        assert(forall|j: int| 0 <= j < types.len() ==> #[trigger] types[j] != ft);
        assert(t1 == types.push(ft));
        assert(t1[types.len() as int] == ft);
        assert(forall|j: int| 0 <= j < types.len() ==> #[trigger] t1[j] == types[j]);
        assert(first_ft(t1, ft, types.len() as int));
        let k = choose|i: int| first_ft(t1, ft, i);
        lemma_first_ft_unique(t1, ft, k, types.len() as int);
    }
}

/// Resolving a name yields the position of the first slot that carries it,
/// and resolving that position as a numeric reference yields the very same
/// index: name and numeric literal designate one entity.
pub proof fn lemma_resolution_equivalence(
    names: Seq<Option<Seq<char>>>,
    name: Seq<char>,
    p: usize,
)
    requires
        resolve_name_model(names, name) == Ok::<int, ParseError>(p as int),
    ensures
        first_name(names, name, p as int),
        names[p as int] == Some(name),
        resolve_model(names, Index::Idx(p)) == resolve_name_model(names, name),
{
    let i = choose|i: int| first_name(names, name, i);
    assert(first_name(names, name, i));
    assert(i == p as int);
}

/// Declaring a named local and then declaring the same name again in the
/// same scope fails with a duplicate definition, whatever the first
/// declaration's surroundings were.
pub proof fn lemma_duplicate_local_rejected(
    names: Seq<Option<Seq<char>>>,
    name: Seq<char>,
    after: Seq<Option<Seq<char>>>,
)
    requires
        insert_local_model(names, Some(name)) == Ok::<Seq<Option<Seq<char>>>, ParseError>(after),
    ensures
        insert_local_model(after, Some(name)) == Err::<Seq<Option<Seq<char>>>, ParseError>(
            ParseError::DuplicateDefinition,
        ),
{
    assert(after == names.push(Some(name)));
    assert(after[names.len() as int] == Some(name));
    assert(has_name(after, name));
}

/// A reference to a name that no slot carries resolves to an
/// unresolved-reference error; it never falls back to any index.
pub proof fn lemma_unresolved_rejected(names: Seq<Option<Seq<char>>>, name: Seq<char>)
    requires
        forall|j: int| 0 <= j < names.len() ==> #[trigger] names[j] != Some(name),
    ensures
        resolve_name_model(names, name) == Err::<int, ParseError>(ParseError::UnresolvedReference),
{
    if has_name(names, name) {
        let k = choose|k: int| 0 <= k < names.len() && #[trigger] names[k] == Some(name);
        assert(false);
    }
    lemma_resolve_name_absent(names, name);
}

/// No two entries of the type list are structurally equal.
pub open spec fn nodup_types(types: Seq<FuncTypeView>) -> bool {
    forall|i: int, j: int| 0 <= i < j < types.len() ==> #[trigger] types[i] != #[trigger] types[j]
}

/// Interning keeps the type list free of structural duplicates.
pub proof fn lemma_intern_preserves_nodup(types: Seq<FuncTypeView>, ft: FuncTypeView)
    requires
        nodup_types(types),
    ensures
        nodup_types(intern_model(types, ft).0),
{
    if exists|i: int| first_ft(types, ft, i) {
    } else {
        if has_ft(types, ft) {
            lemma_has_ft_first(types, ft);
        }
        let t1 = types.push(ft);
        assert forall|i: int, j: int| 0 <= i < j < t1.len() implies t1[i] != t1[j] by {
            if j == types.len() {
                assert(t1[i] == types[i]);
                assert(types[i] != ft);
            }
        }
    }
}

/// A parsed `func` form keeps the type list free of structural duplicates.
proof fn lemma_spec_func_nodup(s: Seq<char>, pos: int, c: CtxView)
    requires
        nodup_types(c.types),
    ensures
        spec_func(s, pos, c) matches Ok(x) ==> nodup_types(x.1.types),
{
    match spec_func(s, pos, c) {
        Ok(x) => {
            // The type list either came through interning unchanged or had the
            // interned signature appended as its last entry; both keep it
            // duplicate-free.
            lemma_intern_preserves_nodup(c.types, x.1.types.last());
        },
        Err(_) => {},
    }
}

/// A parsed `export` form leaves the type list as it stands.
proof fn lemma_spec_export_types(s: Seq<char>, pos: int, c: CtxView)
    ensures
        spec_export(s, pos, c) matches Ok(x) ==> x.1.types == c.types,
{
}

/// The run of module declarations keeps the type list free of structural
/// duplicates.
proof fn lemma_module_items_nodup(s: Seq<char>, pos: int, c: CtxView)
    requires
        0 <= pos <= s.len(),
        nodup_types(c.types),
    ensures
        module_items(s, pos, c) matches Ok(x) ==> nodup_types(x.1.types),
    decreases s.len() - pos,
{
    lemma_ws_end_bounds(s, pos);
    let t = ws_end(s, pos);
    lemma_spec_func_bounds(s, t, c);
    lemma_spec_export_bounds(s, t, c);
    lemma_spec_func_nodup(s, t, c);
    lemma_spec_export_types(s, t, c);
    match spec_func(s, t, c) {
        Ok(x) => {
            lemma_module_items_nodup(s, x.0, x.1);
        },
        Err(e1) => if e1 == ParseError::SyntaxMismatch {
            match spec_export(s, t, c) {
                Ok(x) => {
                    lemma_module_items_nodup(s, x.0, x.1);
                },
                Err(_) => {},
            }
        },
    }
}

/// A finished module's type list holds no two structurally equal entries:
/// interning collapses every equal signature into one shared entry.
pub proof fn lemma_module_types_distinct(s: Seq<char>)
    ensures
        spec_module(s) matches Ok(m) ==> nodup_types(m.0),
{
    let c0 = crate::module::empty_ctx_view();
    assert(nodup_types(c0.types));
    let t0 = ws_end(s, 0);
    lemma_ws_end_bounds(s, 0);
    if t0 < s.len() && s[t0] == '(' {
        lemma_ws_end_bounds(s, t0 + 1);
        let t1 = ws_end(s, t0 + 1);
        if crate::token::kw_at(s, t1, "module"@) {
            reveal_strlit("module");
            lemma_ws_end_bounds(s, t1 + 6);
            lemma_module_items_nodup(s, ws_end(s, t1 + 6), c0);
        }
    }
}

} // verus!
