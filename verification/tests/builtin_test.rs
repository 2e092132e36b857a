use rlisp::builtin;
use rlisp::cell::Cell;
use rlisp::cell::Cell::{Bool, Error, Float, Integer, Qexpr};
use rlisp::environment::Environment;
use rlisp::floats::{FloatAnswer, FloatQuery, FloatTable, Stop};

fn answer(q: &FloatQuery) -> FloatAnswer {
    match q {
        FloatQuery::Add(a, b) => FloatAnswer::Bits((f64::from_bits(*a) + f64::from_bits(*b)).to_bits()),
        FloatQuery::Sub(a, b) => FloatAnswer::Bits((f64::from_bits(*a) - f64::from_bits(*b)).to_bits()),
        FloatQuery::Mul(a, b) => FloatAnswer::Bits((f64::from_bits(*a) * f64::from_bits(*b)).to_bits()),
        FloatQuery::Div(a, b) => FloatAnswer::Bits((f64::from_bits(*a) / f64::from_bits(*b)).to_bits()),
        FloatQuery::FromInteger(i) => FloatAnswer::Bits((*i as f64).to_bits()),
        FloatQuery::Render(a) => FloatAnswer::Text(format!("{:.2}", f64::from_bits(*a))),
        FloatQuery::Parse(s) => FloatAnswer::Bits(s.trim().parse::<f64>().unwrap_or(0.0).to_bits()),
    }
}

/// Calls `f` with a table of facts about doubles, adding the facts it asks
/// for until it comes to a result.
fn settle<T>(mut f: impl FnMut(&FloatTable) -> Result<T, Stop>) -> T {
    let mut floats = FloatTable::new();
    loop {
        match f(&floats) {
            Ok(v) => return v,
            Err(Stop::Float(q)) => {
                let a = answer(&q);
                assert!(floats.learn(q, a));
            }
            Err(Stop::Depth) => panic!("calls nest too deep"),
        }
    }
}

fn float(x: f64) -> Cell {
    Float(x.to_bits())
}

#[test]
fn test_add() {
    assert_eq!(settle(|t| builtin::add(&[Integer(2), Integer(3), Integer(2)], t)), Integer(7));
    assert_eq!(settle(|t| builtin::add(&[Integer(2), Integer(3), float(5.0)], t)), float(10.0));
    assert_eq!(settle(|t| builtin::add(&[Integer(2), Integer(3)], t)), Integer(5));
    assert_eq!(settle(|t| builtin::add(&[Integer(3), float(3.0)], t)), float(6.0));
    assert_eq!(settle(|t| builtin::add(&[float(3.0), Integer(3)], t)), float(6.0));
    assert_eq!(settle(|t| builtin::add(&[float(3.0), float(5.0)], t)), float(8.0));
    assert_eq!(settle(|t| builtin::add(&[float(3.0), float(5.0)], t)), float(8.0));
}

#[test]
fn test_sub() {
    assert_eq!(settle(|t| builtin::sub(&[Integer(2)], t)), Integer(-2));
    assert_eq!(settle(|t| builtin::sub(&[float(3.0)], t)), float(-3.0));
    assert_eq!(settle(|t| builtin::sub(&[Integer(2), Integer(3)], t)), Integer(-1));
    assert_eq!(settle(|t| builtin::sub(&[Integer(3), float(3.0)], t)), float(0.0));
    assert_eq!(settle(|t| builtin::sub(&[float(3.0), Integer(3)], t)), float(0.0));
    assert_eq!(settle(|t| builtin::sub(&[float(3.0), float(5.0)], t)), float(-2.0));
}

#[test]
fn test_mul() {
    assert_eq!(settle(|t| builtin::mul(&[Integer(2), Integer(3)], t)), Integer(6));
    assert_eq!(settle(|t| builtin::mul(&[Integer(3), float(3.0)], t)), float(9.0));
    assert_eq!(settle(|t| builtin::mul(&[float(3.0), Integer(3)], t)), float(9.0));
    assert_eq!(settle(|t| builtin::mul(&[float(3.0), float(5.0)], t)), float(15.0));
}

#[test]
fn test_div() {
    assert_eq!(settle(|t| builtin::div(&[Integer(8), Integer(4)], t)), Integer(2));
    assert_eq!(settle(|t| builtin::div(&[Integer(4), float(2.0)], t)), float(2.0));
    assert_eq!(settle(|t| builtin::div(&[float(2.0), Integer(4)], t)), float(0.5));
    assert_eq!(settle(|t| builtin::div(&[float(2.0), float(0.5)], t)), float(4.0));
    assert_eq!(settle(|t| builtin::div(&[Integer(8), Integer(0)], t)), Error("/, 2, can't divide by zero".to_string()));
    assert_eq!(settle(|t| builtin::div(&[Integer(8), float(0.0)], t)), Error("/, 2, can't divide by zero".to_string()));
    assert_eq!(settle(|t| builtin::div(&[float(2.0), Integer(0)], t)), Error("/, 2, can't divide by zero".to_string()));
    assert_eq!(settle(|t| builtin::div(&[float(2.0), float(0.0)], t)), Error("/, 2, can't divide by zero".to_string()));
}

#[test]
fn test_list() {
    assert_eq!(builtin::list(&[Integer(1), Integer(2), Integer(3)]), Qexpr(vec![Integer(1), Integer(2), Integer(3)]));
}

#[test]
fn test_head() {
    assert_eq!(builtin::head(&[Qexpr(vec![Integer(1), Integer(2), Integer(3)])]), Integer(1));
}

#[test]
fn test_tail() {
    assert_eq!(builtin::tail(&[Qexpr(vec![Integer(1), Integer(2), Integer(3)])]), Qexpr(vec![Integer(2), Integer(3)]));
}

#[test]
fn test_init() {
    assert_eq!(builtin::init(&[Qexpr(vec![Integer(1), Integer(2), Integer(3)])]), Qexpr(vec![Integer(1), Integer(2)]));
}

#[test]
fn test_join() {
    assert_eq!(builtin::join(&[Qexpr(vec![Integer(1), Integer(2), Integer(3)]),
                               Qexpr(vec![Integer(4), Integer(5), Integer(6)]),
                               Qexpr(vec![Integer(1), Integer(2), Integer(3)])]),
               Qexpr(vec![Integer(1), Integer(2), Integer(3), Integer(4), Integer(5), Integer(6), Integer(1), Integer(2), Integer(3)]));
}

#[test]
fn test_len() {
    assert_eq!(builtin::len(&[Qexpr(vec![Integer(1), Integer(2), Integer(3)])]), Integer(3));
}

#[test]
fn test_eval() {
    let mut e = Environment::new();
    let floats = FloatTable::new();
    let add_f = e.lookup(0, "+");
    assert_eq!(builtin::eval(&mut e, 0, &[Qexpr(vec![add_f, Integer(1), Integer(2), Integer(3)])], 10, &floats).unwrap(), Integer(6));
}

#[test]
fn test_eq() {
    let e = Environment::new();
    let eq_f = e.lookup(0, "==");
    let ne_f = e.lookup(0, "!=");
    assert_eq!(builtin::eq(&[Integer(1), Integer(1)]), Bool(true));
    assert_eq!(builtin::eq(&[Integer(1), Integer(2)]), Bool(false));
    assert_eq!(builtin::eq(&[Integer(1), float(1.0)]), Bool(false));
    assert_eq!(builtin::eq(&[eq_f.clone(), eq_f.clone()]), Bool(true));
    assert_eq!(builtin::eq(&[eq_f.clone(), ne_f.clone()]), Bool(false));
}

#[test]
fn test_ne() {
    let e = Environment::new();
    let eq_f = e.lookup(0, "==");
    let ne_f = e.lookup(0, "!=");
    assert_eq!(builtin::ne(&[Integer(1), Integer(1)]), Bool(false));
    assert_eq!(builtin::ne(&[Integer(1), Integer(2)]), Bool(true));
    assert_eq!(builtin::ne(&[Integer(1), float(1.0)]), Bool(true));
    assert_eq!(builtin::ne(&[eq_f.clone(), eq_f.clone()]), Bool(false));
    assert_eq!(builtin::ne(&[eq_f.clone(), ne_f.clone()]), Bool(true));
}
