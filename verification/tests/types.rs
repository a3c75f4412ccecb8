use rusticwasm::ast::ValueType::{I32, I64, F32, F64};
use rusticwasm::context::Context;
use rusticwasm::types::{func_type, value_type};

fn rest(s: &str, pos: usize) -> &str {
    &s[pos..]
}

#[test]
fn func_type_parse_1() {
    let mut ctx = Context::new();
    let s = "(param $lhs i32)";
    let (p, ft) = func_type(s, 0, &mut ctx).unwrap();
    assert_eq!(rest(s, p), "");
    assert_eq!(ft, (vec![I32], vec![]));
    assert_eq!(
        Context { locals: vec![Some("$lhs".to_string())], ..Context::new() },
        ctx
    );
}

#[test]
fn func_type_parse_2() {
    let mut ctx = Context::new();
    let s = "(param $lhs i32) (param $rhs i32) ";
    let (p, ft) = func_type(s, 0, &mut ctx).unwrap();
    assert_eq!(rest(s, p), " ");
    assert_eq!(ft, (vec![I32, I32], vec![]));
    assert_eq!(
        Context {
            locals: vec![Some("$lhs".to_string()), Some("$rhs".to_string())],
            ..Context::new()
        },
        ctx
    );
}

#[test]
fn func_type_parse_3() {
    let mut ctx = Context::new();
    let s = "(xparam $lhs u32)";
    let (p, ft) = func_type(s, 0, &mut ctx).unwrap();
    assert_eq!(rest(s, p), "(xparam $lhs u32)");
    assert_eq!(ft, (vec![], vec![]));
}

#[test]
fn func_type_parse_4() {
    let mut ctx = Context::new();
    let s = "param $lhs u32";
    let (p, ft) = func_type(s, 0, &mut ctx).unwrap();
    assert_eq!(rest(s, p), "param $lhs u32");
    assert_eq!(ft, (vec![], vec![]));
}

#[test]
fn func_type_parse_5() {
    let mut ctx = Context::new();
    let s = "(param xlhs u32)";
    let (p, ft) = func_type(s, 0, &mut ctx).unwrap();
    assert_eq!(rest(s, p), "(param xlhs u32)");
    assert_eq!(ft, (vec![], vec![]));
}

#[test]
fn func_type_parse_6() {
    let mut ctx = Context::new();
    let s = "(param $lhs i32)";
    let (p, ft) = func_type(s, 0, &mut ctx).unwrap();
    assert_eq!(rest(s, p), "");
    assert_eq!(ft, (vec![I32], vec![]));
}

#[test]
fn func_type_parse_7() {
    let mut ctx = Context::new();
    let s = "(param $lhs i32) (param $rhs i32) (result i64)";
    let (p, ft) = func_type(s, 0, &mut ctx).unwrap();
    assert_eq!(rest(s, p), "");
    assert_eq!(ft, (vec![I32, I32], vec![I64]));
}

#[test]
fn func_type_parse_8() {
    let mut ctx = Context::new();
    let s = "(param i32) (param i32) (result i64)";
    let (p, ft) = func_type(s, 0, &mut ctx).unwrap();
    assert_eq!(rest(s, p), "");
    assert_eq!(ft, (vec![I32, I32], vec![I64]));
    assert_eq!(ctx.locals, vec![None, None]);
}

#[test]
fn value_type_parse() {
    let s = "i32";
    assert_eq!(value_type(s, 0).unwrap().1, I32);
    assert_eq!(value_type("i64", 0).unwrap().1, I64);
    assert_eq!(value_type("f32", 0).unwrap().1, F32);
    assert_eq!(value_type("f64", 0).unwrap().1, F64);
    assert!(value_type("x32", 0).is_err());
}
