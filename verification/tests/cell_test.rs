use rlisp::cell::Cell;
use rlisp::cell::Cell::{Bool, Char, Error, Float, Integer, Nil, Qexpr, Sexpr, Str, Symbol};
use rlisp::floats::{FloatAnswer, FloatQuery, FloatTable, Stop};
use std::mem;

fn answer(q: &FloatQuery) -> FloatAnswer {
    match q {
        FloatQuery::Add(a, b) => FloatAnswer::Bits((f64::from_bits(*a) + f64::from_bits(*b)).to_bits()),
        FloatQuery::Sub(a, b) => FloatAnswer::Bits((f64::from_bits(*a) - f64::from_bits(*b)).to_bits()),
        FloatQuery::Mul(a, b) => FloatAnswer::Bits((f64::from_bits(*a) * f64::from_bits(*b)).to_bits()),
        FloatQuery::Div(a, b) => FloatAnswer::Bits((f64::from_bits(*a) / f64::from_bits(*b)).to_bits()),
        FloatQuery::FromInteger(i) => FloatAnswer::Bits((*i as f64).to_bits()),
        FloatQuery::Render(a) => FloatAnswer::Text(format!("{:.2}", f64::from_bits(*a))),
        FloatQuery::Parse(s) => FloatAnswer::Bits(s.trim().parse::<f64>().unwrap_or(0.0).to_bits()),
    }
}

/// A value as it is written, with the host's answers about doubles.
fn show(c: &Cell) -> String {
    let mut floats = FloatTable::new();
    loop {
        match c.to_string(&floats) {
            Ok(text) => return text,
            Err(Stop::Float(q)) => {
                let a = answer(&q);
                assert!(floats.learn(q, a));
            }
            Err(Stop::Depth) => panic!("calls nest too deep"),
        }
    }
}

#[test]
fn test_cell_size() {
    assert_eq!(mem::size_of::<Cell>(), 32);
}

#[test]
fn test_fmt() {
    assert_eq!(show(&Nil), "()");
    assert_eq!(show(&Symbol("Hej".to_string())), "Hej");
    assert_eq!(show(&Integer(-1)), "-1");
    assert_eq!(show(&Float(5.54321012f64.to_bits())), "5.54");
    assert_eq!(show(&Char('a')), "'a'");
    assert_eq!(show(&Bool(true)), "#t");
    assert_eq!(show(&Bool(false)), "#f");
    assert_eq!(show(&Str("Hej".to_string())), "\"Hej\"");
    assert_eq!(show(&Sexpr(vec![Nil, Integer(1)])), "(() 1)");
    assert_eq!(show(&Qexpr(vec![Nil, Integer(1)])), "{() 1}");
    assert_eq!(show(&Sexpr(Vec::new())), "()");
    assert_eq!(show(&Qexpr(Vec::new())), "{}");
    assert_eq!(show(&Error("Error".to_string())), "Error: Error");
    assert_eq!(show(&Float(5.0f64.to_bits())), "5.00");
}
