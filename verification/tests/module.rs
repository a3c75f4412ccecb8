use rusticwasm::ast::Instruction::{I32Add, LocalGet};
use rusticwasm::ast::ValueType::I32;
use rusticwasm::ast::{Export, ExportDesc, Func, Module};
use rusticwasm::context::{Context, Field};
use rusticwasm::error::ParseError;
use rusticwasm::module::{func, module};

fn rest(s: &str, pos: usize) -> &str {
    &s[pos..]
}

#[test]
fn module_func_parse() {
    let mut ctx = Context::new();
    let wat = "(func $add (param $lhs i32) (param $rhs i32) (result i32)
          local.get $lhs
          local.get $rhs
          i32.add)";
    let expected = Func {
        f_type: 0,
        locals: vec![],
        body: vec![LocalGet(0), LocalGet(1), I32Add],
    };
    let (p, f) = func(wat, 0, &mut ctx).unwrap();
    assert_eq!(f, expected);
    assert_eq!(rest(wat, p), "");
    assert_eq!(
        ctx,
        Context {
            locals: vec![Some("$lhs".to_string()), Some("$rhs".to_string())],
            types: Field { ids: vec![None], list: vec![(vec![I32, I32], vec![I32])] },
            funcs: Field { ids: vec![Some("$add".to_string())], list: vec![expected] },
            exports: Field::new(),
        }
    );
}

const SCENARIO: &str = "(module (func $add (param $lhs i32) (param $rhs i32) (result i32) local.get $lhs local.get $rhs i32.add) (export \"add\" (func $add)))";

fn expected_module() -> Module {
    Module {
        types: vec![(vec![I32, I32], vec![I32])],
        funcs: vec![Func {
            f_type: 0,
            locals: vec![],
            body: vec![LocalGet(0), LocalGet(1), I32Add],
        }],
        exports: vec![Export { name: "add".to_string(), desc: ExportDesc::Func(0) }],
    }
}

#[test]
fn module_end_to_end() {
    let m = module(SCENARIO).unwrap();
    assert_eq!(m, expected_module());
}

#[test]
fn module_whitespace_insensitive() {
    let wat = "  (  module\n\t( func   $add\n (param  $lhs\ti32)\n(param $rhs i32)\r\n ( result i32 )\n local.get  $lhs\n local.get\t$rhs\n i32.add )\n ( export \"add\" (func $add ))\n)";
    let m = module(wat).unwrap();
    assert_eq!(m, expected_module());
}

#[test]
fn module_numeric_locals_equivalent() {
    let named = module(SCENARIO).unwrap();
    let numeric = module(
        "(module (func $add (param $lhs i32) (param $rhs i32) (result i32) local.get 0 local.get 1 i32.add) (export \"add\" (func $add)))",
    )
    .unwrap();
    assert_eq!(named.funcs[0].body, numeric.funcs[0].body);
    assert_eq!(named, numeric);
}

#[test]
fn module_numeric_export_ref_equivalent() {
    let by_name = module(SCENARIO).unwrap();
    let by_index = module(
        "(module (func $add (param $lhs i32) (param $rhs i32) (result i32) local.get $lhs local.get $rhs i32.add) (export \"add\" (func 0)))",
    )
    .unwrap();
    assert_eq!(by_name, by_index);
}

#[test]
fn module_duplicate_local_rejected() {
    assert_eq!(
        module("(module (func $f (param $a i32) (param $a i32) local.get 0))"),
        Err(ParseError::DuplicateDefinition)
    );
}

#[test]
fn module_unresolved_local_rejected() {
    assert_eq!(
        module("(module (func $f (param $a i32) local.get $b))"),
        Err(ParseError::UnresolvedReference)
    );
}

#[test]
fn module_unresolved_export_rejected() {
    assert_eq!(
        module("(module (func $f (param $a i32) local.get $a) (export \"f\" (func $g)))"),
        Err(ParseError::UnresolvedReference)
    );
}

#[test]
fn module_overflowing_index_rejected() {
    assert_eq!(
        module("(module (func $f (param $a i32) local.get 4294967296))"),
        Err(ParseError::NumericOverflow)
    );
}

#[test]
fn module_without_open_paren_rejected() {
    assert_eq!(module("module"), Err(ParseError::SyntaxMismatch));
    assert_eq!(module("(nomodule)"), Err(ParseError::SyntaxMismatch));
    assert_eq!(module("(module"), Err(ParseError::SyntaxMismatch));
}

#[test]
fn module_empty_is_accepted() {
    let m = module("(module)").unwrap();
    assert_eq!(m, Module { types: vec![], funcs: vec![], exports: vec![] });
}

#[test]
fn module_interns_equal_signatures_once() {
    let m = module(
        "(module (func $a (param i32) (result i32) local.get 0) (func $b (param $x i32) (result i32) local.get $x))",
    )
    .unwrap();
    assert_eq!(m.types, vec![(vec![I32], vec![I32])]);
    assert_eq!(m.funcs[0].f_type, 0);
    assert_eq!(m.funcs[1].f_type, 0);
}

#[test]
fn module_distinct_signatures_get_distinct_types() {
    let m = module(
        "(module (func $a (param i32) (result i32) local.get 0) (func $b (param i32) (param i32) (result i32) local.get 0))",
    )
    .unwrap();
    assert_eq!(
        m.types,
        vec![(vec![I32], vec![I32]), (vec![I32, I32], vec![I32])]
    );
    assert_eq!(m.funcs[0].f_type, 0);
    assert_eq!(m.funcs[1].f_type, 1);
}

#[test]
fn module_duplicate_export_names_are_kept() {
    // Duplicate export names are not checked: both entries are appended in
    // order, each with its own resolved index.
    let m = module(
        "(module (func $a (param i32) (result i32) local.get 0) (func $b (param i32) (result i32) local.get 0) (export \"e\" (func $a)) (export \"e\" (func $b)))",
    )
    .unwrap();
    assert_eq!(m.exports.len(), 2);
    assert_eq!(m.exports[0], Export { name: "e".to_string(), desc: ExportDesc::Func(0) });
    assert_eq!(m.exports[1], Export { name: "e".to_string(), desc: ExportDesc::Func(1) });
}
