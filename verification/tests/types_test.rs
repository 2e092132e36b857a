use rlisp::cell::Cell::{Char, Integer, Qexpr, Symbol};
use rlisp::globals;
use rlisp::types::validate;

#[test]
fn test_validate() {
    let stub_sub = globals::get("-").unwrap();

    assert_eq!(validate(&stub_sub, &[Integer(1), Integer(2)]), None);
    assert_eq!(validate(&stub_sub, &[Integer(1), Integer(2), Integer(3)]), Some("-, requiers 1 to 2 arguments, got 3".to_string()));
    assert_eq!(validate(&stub_sub, &[Integer(1)]), None);
    assert_eq!(validate(&stub_sub, &[]), Some("-, requiers 1 to 2 arguments, got 0".to_string()));
    assert_eq!(validate(&stub_sub, &[Char('a')]), Some("-, argument 1 is of type Char expected Integer|Float".to_string()));
    assert_eq!(validate(&stub_sub, &[Integer(1), Char('a')]), Some("-, argument 2 is of type Char expected [Integer|Float]".to_string()));

    let stub_mul = globals::get("*").unwrap();

    assert_eq!(validate(&stub_mul, &[Integer(1), Integer(2)]), None);
    assert_eq!(validate(&stub_mul, &[Integer(1), Integer(2), Integer(3)]), Some("*, requiers 2 arguments, got 3".to_string()));
    assert_eq!(validate(&stub_mul, &[Integer(1)]), Some("*, requiers 2 arguments, got 1".to_string()));
    assert_eq!(validate(&stub_mul, &[]), Some("*, requiers 2 arguments, got 0".to_string()));
    assert_eq!(validate(&stub_mul, &[Char('a')]), Some("*, argument 1 is of type Char expected Integer|Float".to_string()));
    assert_eq!(validate(&stub_mul, &[Integer(1), Char('a')]), Some("*, argument 2 is of type Char expected Integer|Float".to_string()));

    let stub_add = globals::get("+").unwrap();

    assert_eq!(validate(&stub_add, &[]), Some("+, requiers 1+ arguments, got 0".to_string()));
    assert_eq!(validate(&stub_add, &[Integer(1)]), None);
    assert_eq!(validate(&stub_add, &[Char('a')]), Some("+, argument 1 is of type Char expected Integer|Float".to_string()));
    assert_eq!(validate(&stub_add, &[Integer(1), Char('a')]), Some("+, argument 2 is of type Char expected Integer|Float...".to_string()));

    let stub_def = globals::get("def").unwrap();

    assert_eq!(validate(&stub_def, &[]), Some("def, requiers 2 arguments, got 0".to_string()));
    assert_eq!(validate(&stub_def, &[Qexpr(vec![Symbol("hej".to_string())]), Integer(1)]), None);
    assert_eq!(validate(&stub_def, &[Qexpr(vec![Integer(1)]), Integer(1)]), Some("def, argument list at 1: argument 1 is of type Integer expected Symbol".to_string()));
    assert_eq!(validate(&stub_def, &[Qexpr(vec![Symbol("hej".to_string()), Integer(1)]), Integer(1)]), Some("def, argument list at 1: argument 2 is of type Integer expected Symbol...".to_string()));
}
