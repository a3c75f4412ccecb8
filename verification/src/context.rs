use vstd::prelude::*;

use crate::ast::{
    export_view, ft_view, func_view, Export, ExportDesc, Func, FuncType, Instruction, Type,
    ValueType,
};
use crate::error::ParseError;
use crate::types::Index;

verus! {

/// The mathematical value of a function signature, used by all contracts
/// that speak about structural type equality.
pub type FuncTypeView = (Seq<ValueType>, Seq<ValueType>);

/// The name, if any, that an optional identifier slot carries.
pub open spec fn opt_name(o: Option<String>) -> Option<Seq<char>> {
    match o {
        Some(s) => Some(s@),
        None => None,
    }
}

/// The names of a whole identifier list, slot by slot.
pub open spec fn names_of(ids: Seq<Option<String>>) -> Seq<Option<Seq<char>>> {
    ids.map_values(|o: Option<String>| opt_name(o))
}

/// Some slot of `names` carries exactly `name`.
pub open spec fn has_name(names: Seq<Option<Seq<char>>>, name: Seq<char>) -> bool {
    exists|j: int| 0 <= j < names.len() && #[trigger] names[j] == Some(name)
}

/// Slot `i` is the first slot of `names` that carries `name`.
pub open spec fn first_name(names: Seq<Option<Seq<char>>>, name: Seq<char>, i: int) -> bool {
    &&& 0 <= i < names.len()
    &&& names[i] == Some(name)
    &&& forall|j: int| 0 <= j < i ==> #[trigger] names[j] != Some(name)
}

/// What resolving a symbolic name against an identifier list yields: the
/// first slot carrying the name, or an unresolved-reference error when no
/// slot carries it. Resolution never falls back to a default index.
pub open spec fn resolve_name_model(names: Seq<Option<Seq<char>>>, name: Seq<char>) -> Result<
    int,
    ParseError,
> {
    if exists|i: int| first_name(names, name, i) {
        Ok(choose|i: int| first_name(names, name, i))
    } else {
        Err(ParseError::UnresolvedReference)
    }
}

/// What resolving an index-or-name reference yields: a numeric reference is
/// returned as it stands, a symbolic one is looked up by name.
pub open spec fn resolve_model(names: Seq<Option<Seq<char>>>, idx: Index) -> Result<
    int,
    ParseError,
> {
    match idx {
        Index::Idx(i) => Ok(i as int),
        Index::Id(s) => resolve_name_model(names, s@),
    }
}

/// What declaring one local does to the list of local names: a named slot is
/// refused as a duplicate definition when the name is already present,
/// otherwise the slot is appended.
pub open spec fn insert_local_model(
    names: Seq<Option<Seq<char>>>,
    id: Option<Seq<char>>,
) -> Result<Seq<Option<Seq<char>>>, ParseError> {
    match id {
        Some(n) => if has_name(names, n) {
            Err(ParseError::DuplicateDefinition)
        } else {
            Ok(names.push(id))
        },
        None => Ok(names.push(id)),
    }
}

/// Entry `i` of `types` is the first entry structurally equal to `ft`.
pub open spec fn first_ft(types: Seq<FuncTypeView>, ft: FuncTypeView, i: int) -> bool {
    &&& 0 <= i < types.len()
    &&& types[i] == ft
    &&& forall|j: int| 0 <= j < i ==> #[trigger] types[j] != ft
}

/// Some entry of `types` is structurally equal to `ft`.
pub open spec fn has_ft(types: Seq<FuncTypeView>, ft: FuncTypeView) -> bool {
    exists|j: int| 0 <= j < types.len() && #[trigger] types[j] == ft
}

/// What interning a function type does: when a structurally equal entry
/// already exists, the list is unchanged and the first such entry's index is
/// returned; otherwise the type is appended and its new index returned.
pub open spec fn intern_model(types: Seq<FuncTypeView>, ft: FuncTypeView) -> (
    Seq<FuncTypeView>,
    int,
) {
    if exists|i: int| first_ft(types, ft, i) {
        (types, choose|i: int| first_ft(types, ft, i))
    } else {
        (types.push(ft), types.len() as int)
    }
}

/// The structural values of a list of function types.
pub open spec fn types_view(list: Seq<FuncType>) -> Seq<FuncTypeView> {
    list.map_values(|t: FuncType| ft_view(t))
}

/// The mathematical values of a list of finished functions.
pub open spec fn funcs_view(list: Seq<Func>) -> Seq<(u32, Seq<ValueType>, Seq<Instruction>)> {
    list.map_values(|f: Func| func_view(f))
}

/// The mathematical values of a list of exports.
pub open spec fn exports_view(list: Seq<Export>) -> Seq<(Seq<char>, ExportDesc)> {
    list.map_values(|e: Export| export_view(e))
}

/// The mathematical value of a whole symbol table: the names and values of
/// every list it holds.
pub ghost struct CtxView {
    pub locals: Seq<Option<Seq<char>>>,
    pub type_ids: Seq<Option<Seq<char>>>,
    pub types: Seq<FuncTypeView>,
    pub func_ids: Seq<Option<Seq<char>>>,
    pub funcs: Seq<(u32, Seq<ValueType>, Seq<Instruction>)>,
    pub export_ids: Seq<Option<Seq<char>>>,
    pub exports: Seq<(Seq<char>, ExportDesc)>,
}

/// The mathematical value of a symbol table.
pub open spec fn ctx_view(c: Context) -> CtxView {
    CtxView {
        locals: names_of(c.locals@),
        type_ids: names_of(c.types.ids@),
        types: types_view(c.types.list@),
        func_ids: names_of(c.funcs.ids@),
        funcs: funcs_view(c.funcs.list@),
        export_ids: names_of(c.exports.ids@),
        exports: exports_view(c.exports.list@),
    }
}

/// An ordered list of entries, each with an optional identifier; position in
/// the list is the entry's index.
#[derive(Debug, PartialEq, Eq, Clone)]
pub struct Field<T> {
    pub ids: Vec<Option<String>>,
    pub list: Vec<T>,
}

/// The live symbol table of one module parse: the locals of the function
/// currently being parsed, the interned types, the declared functions and
/// the exports. It is created empty, mutated while the module text is
/// consumed, and read once at the end to build the immutable module.
#[derive(Debug, PartialEq, Eq, Clone)]
pub struct Context {
    pub locals: Vec<Option<String>>,
    pub types: Field<Type>,
    pub funcs: Field<Func>,
    pub exports: Field<Export>,
}

impl<T> Field<T> {
    /// An empty field.
    pub fn new() -> (r: Self)
        ensures
            r.ids@ == Seq::<Option<String>>::empty(),
            r.list@ == Seq::<T>::empty(),
    {
        Self { ids: Vec::new(), list: Vec::new() }
    }

    /// Appends an entry together with its optional identifier.
    pub fn add(&mut self, id: Option<String>, item: T)
        ensures
            final(self).ids@ == old(self).ids@.push(id),
            final(self).list@ == old(self).list@.push(item),
    {
        self.add_id(id);
        self.add_item(item);
    }

    /// Appends an entry without touching the identifier slots.
    pub fn add_item(&mut self, item: T)
        ensures
            final(self).ids == old(self).ids,
            final(self).list@ == old(self).list@.push(item),
    {
        self.list.push(item);
    }

    /// Appends an identifier slot without touching the entries.
    pub fn add_id(&mut self, id: Option<String>)
        ensures
            final(self).ids@ == old(self).ids@.push(id),
            final(self).list == old(self).list,
    {
        self.ids.push(id);
    }
}

/// A copy of a string with the same characters.
fn clone_string(s: &String) -> (r: String)
    ensures
        r@ == s@,
{
    s.clone()
}

/// A copy of an optional identifier carrying the same name.
fn clone_opt_string(o: &Option<String>) -> (r: Option<String>)
    ensures
        opt_name(r) == opt_name(*o),
{
    match o {
        Some(s) => Some(clone_string(s)),
        None => None,
    }
}

/// A copy of a value-type sequence with the same elements.
fn copy_value_types(v: &Vec<ValueType>) -> (r: Vec<ValueType>)
    ensures
        r@ == v@,
{
    let mut r: Vec<ValueType> = Vec::new();
    let mut i: usize = 0;
    while i < v.len()
        invariant
            i <= v.len(),
            r@ == v@.subrange(0, i as int),
        decreases v.len() - i,
    {
        r.push(v[i]);
        proof {
            assert(r@ =~= v@.subrange(0, i + 1 as int));
        }
        i += 1;
    }
    proof {
        assert(r@ =~= v@);
    }
    r
}

/// A copy of an instruction sequence with the same elements.
fn copy_instructions(v: &Vec<Instruction>) -> (r: Vec<Instruction>)
    ensures
        r@ == v@,
{
    let mut r: Vec<Instruction> = Vec::new();
    let mut i: usize = 0;
    while i < v.len()
        invariant
            i <= v.len(),
            r@ == v@.subrange(0, i as int),
        decreases v.len() - i,
    {
        r.push(v[i]);
        proof {
            assert(r@ =~= v@.subrange(0, i + 1 as int));
        }
        i += 1;
    }
    proof {
        assert(r@ =~= v@);
    }
    r
}

/// A copy of a function type that is structurally equal to the original.
pub fn clone_func_type(t: &FuncType) -> (r: FuncType)
    ensures
        ft_view(r) == ft_view(*t),
{
    (copy_value_types(&t.0), copy_value_types(&t.1))
}

/// A copy of a finished function with the same value.
fn clone_func(f: &Func) -> (r: Func)
    ensures
        func_view(r) == func_view(*f),
{
    Func { f_type: f.f_type, locals: copy_value_types(&f.locals), body: copy_instructions(&f.body) }
}

/// A copy of an export with the same value.
fn clone_export(e: &Export) -> (r: Export)
    ensures
        export_view(r) == export_view(*e),
{
    Export { name: clone_string(&e.name), desc: e.desc }
}

/// Whether two value-type sequences are element-wise equal.
pub fn value_types_eq(a: &Vec<ValueType>, b: &Vec<ValueType>) -> (r: bool)
    ensures
        r == (a@ == b@),
{
    if a.len() != b.len() {
        proof {
            assert(a@.len() != b@.len());
        }
        return false;
    }
    let mut i: usize = 0;
    while i < a.len()
        invariant
            a@.len() == b@.len(),
            i <= a.len(),
            forall|j: int| 0 <= j < i ==> a@[j] == b@[j],
        decreases a.len() - i,
    {
        if a[i] != b[i] {
            return false;
        }
        i += 1;
    }
    proof {
        assert(a@ =~= b@);
    }
    true
}

/// Whether two function types are structurally equal: both ordered
/// sequences element-wise equal, nothing else compared.
pub fn func_type_eq(a: &FuncType, b: &FuncType) -> (r: bool)
    ensures
        r == (ft_view(*a) == ft_view(*b)),
{
    let pe = value_types_eq(&a.0, &b.0);
    let re = value_types_eq(&a.1, &b.1);
    pe && re
}

/// Two first-slot resolutions of the same name agree.
pub proof fn lemma_first_name_unique(
    names: Seq<Option<Seq<char>>>,
    name: Seq<char>,
    i: int,
    j: int,
)
    requires
        first_name(names, name, i),
        first_name(names, name, j),
    ensures
        i == j,
{
    if i < j {
        assert(names[i] != Some(name));
    } else if j < i {
        assert(names[j] != Some(name));
    }
}

/// A first slot carrying the name makes resolution return exactly it.
pub proof fn lemma_resolve_name_first(names: Seq<Option<Seq<char>>>, name: Seq<char>, i: int)
    requires
        first_name(names, name, i),
    ensures
        resolve_name_model(names, name) == Ok::<int, ParseError>(i),
{
    assert(exists|k: int| first_name(names, name, k));
    let k = choose|k: int| first_name(names, name, k);
    lemma_first_name_unique(names, name, i, k);
}

/// A name that no slot carries resolves to an unresolved-reference error.
pub proof fn lemma_resolve_name_absent(names: Seq<Option<Seq<char>>>, name: Seq<char>)
    requires
        !has_name(names, name),
    ensures
        resolve_name_model(names, name) == Err::<int, ParseError>(ParseError::UnresolvedReference),
{
    if exists|i: int| first_name(names, name, i) {
        let i = choose|i: int| first_name(names, name, i);
        assert(names[i] == Some(name));
        assert(false);
    }
}

/// Appending an identifier slot appends its name to the name list.
pub proof fn lemma_names_of_push(ids: Seq<Option<String>>, id: Option<String>)
    ensures
        names_of(ids.push(id)) == names_of(ids).push(opt_name(id)),
{
    assert(names_of(ids.push(id)) =~= names_of(ids).push(opt_name(id)));
}

/// Appending a function type appends its structural value to the type views.
pub proof fn lemma_types_view_push(list: Seq<FuncType>, t: FuncType)
    ensures
        types_view(list.push(t)) == types_view(list).push(ft_view(t)),
{
    assert(types_view(list.push(t)) =~= types_view(list).push(ft_view(t)));
}

/// Appending a function appends its value to the function views.
pub proof fn lemma_funcs_view_push(list: Seq<Func>, f: Func)
    ensures
        funcs_view(list.push(f)) == funcs_view(list).push(func_view(f)),
{
    assert(funcs_view(list.push(f)) =~= funcs_view(list).push(func_view(f)));
}

/// Appending an export appends its value to the export views.
pub proof fn lemma_exports_view_push(list: Seq<Export>, e: Export)
    ensures
        exports_view(list.push(e)) == exports_view(list).push(export_view(e)),
{
    assert(exports_view(list.push(e)) =~= exports_view(list).push(export_view(e)));
}

/// Two first-entry positions of the same structural type agree.
pub proof fn lemma_first_ft_unique(types: Seq<FuncTypeView>, ft: FuncTypeView, i: int, j: int)
    requires
        first_ft(types, ft, i),
        first_ft(types, ft, j),
    ensures
        i == j,
{
    if i < j {
        assert(types[i] != ft);
    } else if j < i {
        assert(types[j] != ft);
    }
}

impl Context {
    /// A fresh, empty symbol table for one module parse.
    pub fn new() -> (r: Self)
        ensures
            r.locals@ == Seq::<Option<String>>::empty(),
            r.types.ids@ == Seq::<Option<String>>::empty(),
            r.types.list@ == Seq::<Type>::empty(),
            r.funcs.ids@ == Seq::<Option<String>>::empty(),
            r.funcs.list@ == Seq::<Func>::empty(),
            r.exports.ids@ == Seq::<Option<String>>::empty(),
            r.exports.list@ == Seq::<Export>::empty(),
    {
        Self { locals: Vec::new(), types: Field::new(), funcs: Field::new(), exports: Field::new() }
    }

    /// Resolves a function reference: a numeric index is returned as it
    /// stands, a name is looked up among the declared functions' identifiers.
    #[verifier::loop_isolation(false)]
    pub fn get_func_idx(&self, idx: &Index) -> (r: Result<usize, ParseError>)
        ensures
            match r {
                Ok(p) => resolve_model(names_of(self.funcs.ids@), *idx) == Ok::<int, ParseError>(
                    p as int,
                ),
                Err(e) => resolve_model(names_of(self.funcs.ids@), *idx) == Err::<int, ParseError>(
                    e,
                ),
            },
    {
        match idx {
            Index::Idx(i) => Ok(*i),
            Index::Id(id) => {
                let ghost names = names_of(self.funcs.ids@);
                let mut j: usize = 0;
                while j < self.funcs.ids.len()
                    invariant
                        j <= self.funcs.ids.len(),
                        names == names_of(self.funcs.ids@),
                        forall|k: int| 0 <= k < j ==> #[trigger] names[k] != Some(id@),
                    decreases self.funcs.ids.len() - j,
                {
                    let hit = match &self.funcs.ids[j] {
                        Some(s) => string_eq(s, id),
                        None => false,
                    };
                    if hit {
                        proof {
                            assert(names[j as int] == Some(id@));
                            lemma_resolve_name_first(names, id@, j as int);
                        }
                        return Ok(j);
                    }
                    proof {
                        assert(names[j as int] != Some(id@));
                    }
                    j += 1;
                }
                proof {
                    lemma_resolve_name_absent(names, id@);
                }
                Err(ParseError::UnresolvedReference)
            },
        }
    }

    /// Declares one local: appends a slot, unless the slot is named and the
    /// name is already taken, which is a duplicate definition.
    #[verifier::loop_isolation(false)]
    pub fn insert_local_id(&mut self, id: &Option<String>) -> (r: Result<(), ParseError>)
        ensures
            final(self).types == old(self).types,
            final(self).funcs == old(self).funcs,
            final(self).exports == old(self).exports,
            match r {
                Ok(_) => insert_local_model(names_of(old(self).locals@), opt_name(*id)) == Ok::<
                    Seq<Option<Seq<char>>>,
                    ParseError,
                >(names_of(final(self).locals@)),
                Err(e) => insert_local_model(names_of(old(self).locals@), opt_name(*id)) == Err::<
                    Seq<Option<Seq<char>>>,
                    ParseError,
                >(e) && final(self).locals == old(self).locals,
            },
    {
        let ghost names = names_of(self.locals@);
        if let Some(s) = id {
            let mut j: usize = 0;
            while j < self.locals.len()
                invariant
                    j <= self.locals.len(),
                    names == names_of(self.locals@),
                    forall|k: int| 0 <= k < j ==> #[trigger] names[k] != Some(s@),
                decreases self.locals.len() - j,
            {
                let hit = match &self.locals[j] {
                    Some(t) => string_eq(t, s),
                    None => false,
                };
                if hit {
                    proof {
                        assert(names[j as int] == Some(s@));
                    }
                    return Err(ParseError::DuplicateDefinition);
                }
                proof {
                    assert(names[j as int] != Some(s@));
                }
                j += 1;
            }
            proof {
                if has_name(names, s@) {
                    let k = choose|k: int| 0 <= k < names.len() && #[trigger] names[k] == Some(s@);
                    assert(names[k] != Some(s@));
                }
            }
        }
        let cl = clone_opt_string(id);
        self.locals.push(cl);
        proof {
            lemma_names_of_push(old(self).locals@, cl);
        }
        Ok(())
    }

    /// Resolves a local reference: a numeric index is returned as it stands,
    /// a name is looked up among the declared locals.
    #[verifier::loop_isolation(false)]
    pub fn get_local_idx(&self, index: &Index) -> (r: Result<usize, ParseError>)
        ensures
            match r {
                Ok(p) => resolve_model(names_of(self.locals@), *index) == Ok::<int, ParseError>(
                    p as int,
                ),
                Err(e) => resolve_model(names_of(self.locals@), *index) == Err::<int, ParseError>(
                    e,
                ),
            },
    {
        match index {
            Index::Idx(i) => Ok(*i),
            Index::Id(id) => {
                let ghost names = names_of(self.locals@);
                let mut j: usize = 0;
                while j < self.locals.len()
                    invariant
                        j <= self.locals.len(),
                        names == names_of(self.locals@),
                        forall|k: int| 0 <= k < j ==> #[trigger] names[k] != Some(id@),
                    decreases self.locals.len() - j,
                {
                    let hit = match &self.locals[j] {
                        Some(s) => string_eq(s, id),
                        None => false,
                    };
                    if hit {
                        proof {
                            assert(names[j as int] == Some(id@));
                            lemma_resolve_name_first(names, id@, j as int);
                        }
                        return Ok(j);
                    }
                    proof {
                        assert(names[j as int] != Some(id@));
                    }
                    j += 1;
                }
                proof {
                    lemma_resolve_name_absent(names, id@);
                }
                Err(ParseError::UnresolvedReference)
            },
        }
    }

    /// Reserves a slot for a declared function before its body is parsed and
    /// returns the new function index.
    pub fn insert_func_id(&mut self, id: Option<String>) -> (r: usize)
        ensures
            final(self).funcs.ids@ == old(self).funcs.ids@.push(id),
            final(self).funcs.list == old(self).funcs.list,
            final(self).locals == old(self).locals,
            final(self).types == old(self).types,
            final(self).exports == old(self).exports,
            r as int == old(self).funcs.ids@.len(),
    {
        self.funcs.add_id(id);
        self.funcs.ids.len() - 1
    }

    /// Appends a function type, with its optional identifier, to the type
    /// list without checking for structural duplicates.
    pub fn insert_id_func_type(&mut self, id: Option<String>, t: &FuncType)
        ensures
            final(self).types.ids@ == old(self).types.ids@.push(id),
            types_view(final(self).types.list@) == types_view(old(self).types.list@).push(
                ft_view(*t),
            ),
            final(self).locals == old(self).locals,
            final(self).funcs == old(self).funcs,
            final(self).exports == old(self).exports,
    {
        let cl = clone_func_type(t);
        self.types.add(id, cl);
        proof {
            lemma_types_view_push(old(self).types.list@, cl);
        }
    }

    /// The index of the first type entry structurally equal to `ft`, if any.
    pub fn get_idx_from_func_type(&self, ft: &FuncType) -> (r: Option<usize>)
        ensures
            match r {
                Some(i) => first_ft(types_view(self.types.list@), ft_view(*ft), i as int),
                None => !has_ft(types_view(self.types.list@), ft_view(*ft)),
            },
    {
        let ghost tv = types_view(self.types.list@);
        let mut j: usize = 0;
        while j < self.types.list.len()
            invariant
                j <= self.types.list.len(),
                tv == types_view(self.types.list@),
                forall|k: int| 0 <= k < j ==> #[trigger] tv[k] != ft_view(*ft),
            decreases self.types.list.len() - j,
        {
            if func_type_eq(&self.types.list[j], ft) {
                proof {
                    assert(tv[j as int] == ft_view(*ft));
                }
                return Some(j);
            }
            proof {
                assert(tv[j as int] != ft_view(*ft));
            }
            j += 1;
        }
        proof {
            if has_ft(tv, ft_view(*ft)) {
                let k = choose|k: int| 0 <= k < tv.len() && #[trigger] tv[k] == ft_view(*ft);
                assert(tv[k] != ft_view(*ft));
            }
        }
        None
    }

    /// Appends a function type unconditionally and returns the index of the
    /// first structurally equal entry, which the append guarantees to exist.
    pub fn insert_func_type_get_idx(&mut self, ft: &FuncType) -> (r: usize)
        ensures
            final(self).types.ids@ == old(self).types.ids@.push(None),
            types_view(final(self).types.list@) == types_view(old(self).types.list@).push(
                ft_view(*ft),
            ),
            first_ft(types_view(final(self).types.list@), ft_view(*ft), r as int),
            final(self).locals == old(self).locals,
            final(self).funcs == old(self).funcs,
            final(self).exports == old(self).exports,
    {
        self.insert_id_func_type(None, ft);
        match self.get_idx_from_func_type(ft) {
            Some(i) => i,
            None => {
                proof {
                    let tv = types_view(self.types.list@);
                    assert(tv[tv.len() - 1] == ft_view(*ft));
                    assert(false);
                }
                0
            },
        }
    }

    /// Interns a function type: returns the index of the first structurally
    /// equal entry, appending the type only when no such entry exists.
    pub fn upsert_func_type(&mut self, ft: &FuncType) -> (r: usize)
        ensures
            types_view(final(self).types.list@) == intern_model(
                types_view(old(self).types.list@),
                ft_view(*ft),
            ).0,
            r as int == intern_model(types_view(old(self).types.list@), ft_view(*ft)).1,
            first_ft(types_view(final(self).types.list@), ft_view(*ft), r as int),
            has_ft(types_view(old(self).types.list@), ft_view(*ft)) ==> final(self).types == old(
                self,
            ).types,
            !has_ft(types_view(old(self).types.list@), ft_view(*ft)) ==> final(self).types.ids@
                == old(self).types.ids@.push(None),
            final(self).locals == old(self).locals,
            final(self).funcs == old(self).funcs,
            final(self).exports == old(self).exports,
    {
        let ghost tv = types_view(self.types.list@);
        let ghost ftv = ft_view(*ft);
        match self.get_idx_from_func_type(ft) {
            Some(i) => {
                proof {
                    assert(tv[i as int] == ftv);
                    let k = choose|k: int| first_ft(tv, ftv, k);
                    lemma_first_ft_unique(tv, ftv, i as int, k);
                }
                i
            },
            None => {
                proof {
                    if exists|k: int| first_ft(tv, ftv, k) {
                        let k = choose|k: int| first_ft(tv, ftv, k);
                        assert(tv[k] == ftv);
                    }
                }
                let r = self.insert_func_type_get_idx(ft);
                proof {
                    let ntv = types_view(self.types.list@);
                    assert(ntv[tv.len() as int] == ftv);
                    assert(forall|j: int| 0 <= j < tv.len() ==> #[trigger] ntv[j] == tv[j]);
                    assert(first_ft(ntv, ftv, tv.len() as int));
                    lemma_first_ft_unique(ntv, ftv, r as int, tv.len() as int);
                }
                r
            },
        }
    }

    /// Commits a finished function into the function list.
    pub fn insert_func(&mut self, func: &Func)
        ensures
            funcs_view(final(self).funcs.list@) == funcs_view(old(self).funcs.list@).push(
                func_view(*func),
            ),
            final(self).funcs.ids == old(self).funcs.ids,
            final(self).locals == old(self).locals,
            final(self).types == old(self).types,
            final(self).exports == old(self).exports,
    {
        let cl = clone_func(func);
        self.funcs.add_item(cl);
        proof {
            lemma_funcs_view_push(old(self).funcs.list@, cl);
        }
    }

    /// Appends an export, with its optional name key, to the export list.
    /// Duplicate export names are not checked here.
    pub fn insert_export(&mut self, id: &Option<String>, export: &Export)
        ensures
            names_of(final(self).exports.ids@) == names_of(old(self).exports.ids@).push(
                opt_name(*id),
            ),
            exports_view(final(self).exports.list@) == exports_view(old(self).exports.list@).push(
                export_view(*export),
            ),
            final(self).locals == old(self).locals,
            final(self).types == old(self).types,
            final(self).funcs == old(self).funcs,
    {
        let cid = clone_opt_string(id);
        let cex = clone_export(export);
        self.exports.add(cid, cex);
        proof {
            lemma_names_of_push(old(self).exports.ids@, cid);
            lemma_exports_view_push(old(self).exports.list@, cex);
        }
    }
}

/// Whether two strings hold the same characters.
fn string_eq(a: &String, b: &String) -> (r: bool)
    ensures
        r == (a@ == b@),
{
    *a == *b
}

} // verus!
