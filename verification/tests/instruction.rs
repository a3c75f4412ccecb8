use rusticwasm::ast::Instruction;
use rusticwasm::context::Context;
use rusticwasm::error::ParseError;
use rusticwasm::instruction::{i32_add, instructions, local_get};

fn rest(s: &str, pos: usize) -> &str {
    &s[pos..]
}

#[test]
fn local_get_parse() {
    let ctx = Context { locals: vec![Some("$lhs".to_string())], ..Context::new() };

    let s = "local.get 1";
    let (p, instr) = local_get(s, 0, &ctx).unwrap();
    assert_eq!(instr, Instruction::LocalGet(1));
    assert_eq!(rest(s, p), "");

    let s = "local.get $lhs";
    let (p, instr) = local_get(s, 0, &ctx).unwrap();
    assert_eq!(instr, Instruction::LocalGet(0));
    assert_eq!(rest(s, p), "");
}

#[test]
fn i32_add_parse() {
    let s = "i32.add";
    let (p, instr) = i32_add(s, 0).unwrap();
    assert_eq!(instr, Instruction::I32Add);
    assert_eq!(rest(s, p), "");

    assert!(i32_add("local.get", 0).is_err());
}

#[test]
fn instructions_parse() {
    let ctx = Context::new();
    let s = "local.get 1";
    let (p, v) = instructions(s, 0, &ctx).unwrap();
    assert_eq!(v, vec![Instruction::LocalGet(1)]);
    assert_eq!(rest(s, p), "");
}

#[test]
fn instructions_sequence() {
    let ctx = Context {
        locals: vec![Some("$lhs".to_string()), Some("$rhs".to_string())],
        ..Context::new()
    };
    let s = "local.get $lhs local.get $rhs i32.add)";
    let (p, v) = instructions(s, 0, &ctx).unwrap();
    assert_eq!(
        v,
        vec![
            Instruction::LocalGet(0),
            Instruction::LocalGet(1),
            Instruction::I32Add,
        ]
    );
    assert_eq!(rest(s, p), ")");
}

#[test]
fn instructions_unresolved_local_is_fatal() {
    let ctx = Context::new();
    assert_eq!(
        instructions("local.get $nope", 0, &ctx),
        Err(ParseError::UnresolvedReference)
    );
}

#[test]
fn instructions_overflowing_index_is_fatal() {
    let ctx = Context::new();
    assert_eq!(
        instructions("local.get 99999999999", 0, &ctx),
        Err(ParseError::NumericOverflow)
    );
}

#[test]
fn instructions_empty_is_syntax_mismatch() {
    let ctx = Context::new();
    assert_eq!(instructions(")", 0, &ctx), Err(ParseError::SyntaxMismatch));
}
