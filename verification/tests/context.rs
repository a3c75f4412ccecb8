use rusticwasm::ast::ValueType::{I32, I64};
use rusticwasm::context::{Context, Field};
use rusticwasm::error::ParseError;
use rusticwasm::types::Index;

#[test]
fn new_context_is_empty() {
    let ctx = Context::new();
    assert_eq!(
        ctx,
        Context {
            locals: vec![],
            types: Field::new(),
            funcs: Field::new(),
            exports: Field::new(),
        }
    );
    assert!(Field::<i32>::new().ids.is_empty());
    assert!(Field::<i32>::new().list.is_empty());
}

#[test]
fn interning_is_idempotent() {
    let mut ctx = Context::new();
    let ft = (vec![I32, I32], vec![I32]);
    let first = ctx.upsert_func_type(&ft);
    let second = ctx.upsert_func_type(&ft);
    assert_eq!(first, 0);
    assert_eq!(second, 0);
    assert_eq!(ctx.types.list.len(), 1);

    // A structurally equal signature built separately shares the entry.
    let same_shape = (vec![I32, I32], vec![I32]);
    assert_eq!(ctx.upsert_func_type(&same_shape), 0);
    assert_eq!(ctx.types.list.len(), 1);

    // Order matters: swapped sequences are a different type.
    let swapped = (vec![I32, I64], vec![I32]);
    let other = (vec![I64, I32], vec![I32]);
    assert_eq!(ctx.upsert_func_type(&swapped), 1);
    assert_eq!(ctx.upsert_func_type(&other), 2);
    assert_eq!(ctx.types.list.len(), 3);
}

#[test]
fn insert_func_type_get_idx_returns_first_equal() {
    let mut ctx = Context::new();
    let ft = (vec![I32], vec![]);
    assert_eq!(ctx.insert_func_type_get_idx(&ft), 0);
    // A second unconditional insert appends, but the first equal entry wins.
    assert_eq!(ctx.insert_func_type_get_idx(&ft), 0);
    assert_eq!(ctx.types.list.len(), 2);
}

#[test]
fn name_and_number_resolve_alike() {
    let mut ctx = Context::new();
    ctx.insert_local_id(&Some("$a".to_string())).unwrap();
    ctx.insert_local_id(&None).unwrap();
    ctx.insert_local_id(&Some("$b".to_string())).unwrap();

    let by_name = ctx.get_local_idx(&Index::Id("$b".to_string())).unwrap();
    let by_number = ctx.get_local_idx(&Index::Idx(2)).unwrap();
    assert_eq!(by_name, 2);
    assert_eq!(by_name, by_number);

    let fi = ctx.insert_func_id(Some("$f".to_string()));
    assert_eq!(fi, 0);
    assert_eq!(ctx.get_func_idx(&Index::Id("$f".to_string())).unwrap(), 0);
    assert_eq!(ctx.get_func_idx(&Index::Idx(0)).unwrap(), 0);
}

#[test]
fn duplicate_local_rejected() {
    let mut ctx = Context::new();
    assert_eq!(ctx.insert_local_id(&Some("$x".to_string())), Ok(()));
    assert_eq!(
        ctx.insert_local_id(&Some("$x".to_string())),
        Err(ParseError::DuplicateDefinition)
    );
    // Unnamed slots may repeat freely.
    assert_eq!(ctx.insert_local_id(&None), Ok(()));
    assert_eq!(ctx.insert_local_id(&None), Ok(()));
    assert_eq!(ctx.locals.len(), 3);
}

#[test]
fn unresolved_reference_rejected() {
    let mut ctx = Context::new();
    ctx.insert_local_id(&Some("$a".to_string())).unwrap();
    assert_eq!(
        ctx.get_local_idx(&Index::Id("$zzz".to_string())),
        Err(ParseError::UnresolvedReference)
    );
    assert_eq!(
        ctx.get_func_idx(&Index::Id("$zzz".to_string())),
        Err(ParseError::UnresolvedReference)
    );
}

#[test]
fn resolution_finds_first_slot() {
    let mut ctx = Context::new();
    ctx.funcs.add_id(Some("$f".to_string()));
    ctx.funcs.add_id(Some("$g".to_string()));
    ctx.funcs.add_id(Some("$f2".to_string()));
    assert_eq!(ctx.get_func_idx(&Index::Id("$g".to_string())).unwrap(), 1);
}
