use rusticwasm::ast::ValueType;
use rusticwasm::token::{export, func, lparen, module, param, result, rparen, ws};
use rusticwasm::types::value_type;

fn rest(s: &str, pos: usize) -> &str {
    &s[pos..]
}

#[test]
fn pt_parse() {
    // ( module )
    let s = "(module)";
    let p = lparen(s, 0).unwrap();
    let p = module(s, p).unwrap();
    let p = rparen(s, p).unwrap();
    assert_eq!(rest(s, p), "");

    let s = "( module )";
    let p = lparen(s, 0).unwrap();
    let p = module(s, p).unwrap();
    let p = rparen(s, p).unwrap();
    assert_eq!(rest(s, p), "");

    // ( result i32 )
    let s = "(result i32)";
    let p = lparen(s, 0).unwrap();
    let p = result(s, p).unwrap();
    let (p, vt) = value_type(s, p).unwrap();
    assert_eq!(vt, ValueType::I32);
    let p = rparen(s, p).unwrap();
    assert_eq!(rest(s, p), "");
}

#[test]
fn token_func_parse() {
    let s = "func";
    assert_eq!(rest(s, func(s, 0).unwrap()), "");

    let s = "func foobar";
    assert_eq!(rest(s, func(s, 0).unwrap()), "foobar");

    let s = "func $add (param $lhs i32) (param $rhs i32) (result i32)";
    assert_eq!(
        rest(s, func(s, 0).unwrap()),
        "$add (param $lhs i32) (param $rhs i32) (result i32)"
    );

    assert!(func("notfunc", 0).is_err());
}

#[test]
fn ws_parse() {
    let s = "  foo";
    assert_eq!(rest(s, ws(s, 0)), "foo");
    let s = " \nfoo";
    assert_eq!(rest(s, ws(s, 0)), "foo");
    let s = "foo";
    assert_eq!(rest(s, ws(s, 0)), "foo");
}

#[test]
fn param_parse() {
    let s = "param";
    assert_eq!(rest(s, param(s, 0).unwrap()), "");
    let s = "param $lhs i32";
    assert_eq!(rest(s, param(s, 0).unwrap()), "$lhs i32");
}

#[test]
fn result_parse() {
    let s = "result";
    assert_eq!(rest(s, result(s, 0).unwrap()), "");
    let s = "result i32";
    assert_eq!(rest(s, result(s, 0).unwrap()), "i32");
}

#[test]
fn export_parse() {
    let s = " export ";
    assert_eq!(rest(s, export(s, 0).unwrap()), "");
    assert!(export("noexport", 0).is_err());
}

#[test]
fn module_parse() {
    let s = " module ";
    assert_eq!(rest(s, module(s, 0).unwrap()), "");
    assert!(module("nomodule", 0).is_err());
}

#[test]
fn bws_parse() {
    let s = " param ";
    assert_eq!(rest(s, param(s, 0).unwrap()), "");
    let s = " param123";
    assert_eq!(rest(s, param(s, 0).unwrap()), "123");
    let s = "param";
    assert_eq!(rest(s, param(s, 0).unwrap()), "");
    let s = "param      $lhs i32";
    assert_eq!(rest(s, param(s, 0).unwrap()), "$lhs i32");
    assert!(param("p a r a m", 0).is_err());
}
