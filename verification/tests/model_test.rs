use rlisp::builtin;
use rlisp::cell::Cell::{Bool, Builtin, Char, CurriedBuiltin, Error, Float, Integer, Lambda, Nil, Qexpr, Sexpr, Str, Symbol};
use rlisp::cell::{BuiltinFunction, Cell, CurriedBuiltinSpec, LambdaSpec};
use rlisp::environment::Environment;
use rlisp::floats;
use rlisp::floats::{FloatAnswer, FloatQuery, FloatTable, Stop};
use rlisp::globals;
use rlisp::types::Type::{AnyT, BoolT, BuiltinT, CharT, ElipsisT, ErrorT, FloatT, IntegerT, LambdaT, NilT, OptionalT, OrT, QexprT, RQexprT, RSexprT, SexprT, StringT, SymbolT};
use rlisp::types::{get_arity, is_well_formed, validate_inner, Arity};

fn answer(q: &FloatQuery) -> FloatAnswer {
    match q {
        FloatQuery::Add(a, b) => FloatAnswer::Bits((f64::from_bits(*a) + f64::from_bits(*b)).to_bits()),
        FloatQuery::Sub(a, b) => FloatAnswer::Bits((f64::from_bits(*a) - f64::from_bits(*b)).to_bits()),
        FloatQuery::Mul(a, b) => FloatAnswer::Bits((f64::from_bits(*a) * f64::from_bits(*b)).to_bits()),
        FloatQuery::Div(a, b) => FloatAnswer::Bits((f64::from_bits(*a) / f64::from_bits(*b)).to_bits()),
        FloatQuery::FromInteger(i) => FloatAnswer::Bits((*i as f64).to_bits()),
        FloatQuery::Render(a) => FloatAnswer::Text(format!("{:.2}", f64::from_bits(*a))),
        FloatQuery::Parse(s) => FloatAnswer::Bits(s.trim().parse::<f64>().unwrap_or(0.0).to_bits()),
    }
}

fn settle<T>(mut f: impl FnMut(&FloatTable) -> Result<T, Stop>) -> T {
    let mut floats = FloatTable::new();
    loop {
        match f(&floats) {
            Ok(v) => return v,
            Err(Stop::Float(q)) => {
                let a = answer(&q);
                assert!(floats.learn(q, a));
            }
            Err(Stop::Depth) => panic!("calls nest too deep"),
        }
    }
}

fn show(c: &Cell) -> String {
    settle(|t| c.to_string(t))
}

fn float(x: f64) -> Cell {
    Float(x.to_bits())
}

fn lambda(arguments: Vec<Cell>, body: Vec<Cell>, environment: usize) -> Cell {
    Lambda(Box::new(LambdaSpec { arguments, body, environment }))
}

#[test]
fn doubles_compare_as_the_machine_compares_them() {
    let samples = [
        0.0f64,
        -0.0,
        1.0,
        -1.0,
        0.5,
        -0.5,
        1.5,
        2.0,
        1e300,
        -1e300,
        5e-324,
        -5e-324,
        f64::MAX,
        f64::MIN,
        f64::MIN_POSITIVE,
        f64::INFINITY,
        f64::NEG_INFINITY,
        f64::NAN,
        -f64::NAN,
    ];
    for a in samples {
        assert_eq!(floats::nan(a.to_bits()), a.is_nan());
        assert_eq!(floats::zero(a.to_bits()), a == 0.0);
        assert_eq!(floats::negate(a.to_bits()), (-a).to_bits());
        for b in samples {
            assert_eq!(floats::less(a.to_bits(), b.to_bits()), a < b, "{} < {}", a, b);
            assert_eq!(floats::equal(a.to_bits(), b.to_bits()), a == b, "{} == {}", a, b);
        }
    }
}

#[test]
fn the_table_answers_what_it_was_taught() {
    let mut table = FloatTable::new();
    assert!(table.lookup(&FloatQuery::Add(1, 2)).is_none());
    assert!(matches!(table.bits(FloatQuery::Add(1, 2)), Err(Stop::Float(FloatQuery::Add(1, 2)))));
    assert!(table.learn(FloatQuery::Add(1, 2), FloatAnswer::Bits(3)));
    assert!(table.learn(FloatQuery::Parse("1.5".to_string()), FloatAnswer::Bits(15)));
    assert!(table.learn(FloatQuery::Render(15), FloatAnswer::Text("1.50".to_string())));
    assert!(!table.learn(FloatQuery::Add(1, 2), FloatAnswer::Bits(4)));
    assert!(!table.learn(FloatQuery::Sub(1, 2), FloatAnswer::Text("no".to_string())));
    assert!(!table.learn(FloatQuery::Render(16), FloatAnswer::Bits(1)));
    assert_eq!(table.bits(FloatQuery::Add(1, 2)).unwrap(), 3);
    assert_eq!(table.bits(FloatQuery::Parse("1.5".to_string())).unwrap(), 15);
    assert_eq!(table.text(FloatQuery::Render(15)).unwrap(), "1.50");
    assert!(matches!(table.bits(FloatQuery::Add(2, 1)), Err(Stop::Float(FloatQuery::Add(2, 1)))));
    assert!(matches!(table.bits(FloatQuery::Sub(1, 2)), Err(Stop::Float(FloatQuery::Sub(1, 2)))));
    assert!(matches!(table.text(FloatQuery::Render(16)), Err(Stop::Float(FloatQuery::Render(16)))));
    assert!(matches!(table.lookup(&FloatQuery::Add(1, 2)), Some(FloatAnswer::Bits(3))));
    assert!(FloatQuery::Add(1, 2).same(&FloatQuery::Add(1, 2)));
    assert!(!FloatQuery::Add(1, 2).same(&FloatQuery::Sub(1, 2)));
    assert!(FloatQuery::Render(1).wants_text());
    assert!(!FloatQuery::FromInteger(1).wants_text());
}

#[test]
fn the_host_is_asked_in_order() {
    let floats = FloatTable::new();
    assert!(matches!(
        builtin::add(&[Integer(2), Integer(3), float(5.0)], &floats),
        Err(Stop::Float(FloatQuery::FromInteger(5)))
    ));
    assert!(matches!(
        builtin::mul(&[float(2.0), float(3.0)], &floats),
        Err(Stop::Float(FloatQuery::Mul(_, _)))
    ));
    assert!(matches!(float(1.0).to_string(&floats), Err(Stop::Float(FloatQuery::Render(_)))));
    assert!(matches!(
        Qexpr(vec![Integer(1), float(1.0)]).to_string(&floats),
        Err(Stop::Float(FloatQuery::Render(_)))
    ));
}

#[test]
fn integer_arithmetic_wraps_around() {
    assert_eq!(settle(|t| builtin::add(&[Integer(i64::MAX), Integer(1)], t)), Integer(i64::MIN));
    assert_eq!(settle(|t| builtin::sub(&[Integer(i64::MIN), Integer(1)], t)), Integer(i64::MAX));
    assert_eq!(settle(|t| builtin::sub(&[Integer(i64::MIN)], t)), Integer(i64::MIN));
    assert_eq!(settle(|t| builtin::mul(&[Integer(i64::MAX), Integer(2)], t)), Integer(-2));
    assert_eq!(settle(|t| builtin::div(&[Integer(i64::MIN), Integer(-1)], t)), Integer(i64::MIN));
    assert_eq!(settle(|t| builtin::div(&[Integer(i64::MIN), Integer(1)], t)), Integer(i64::MIN));
    assert_eq!(settle(|t| builtin::div(&[Integer(i64::MIN), Integer(2)], t)), Integer(i64::MIN / 2));
    assert_eq!(settle(|t| builtin::div(&[Integer(-7), Integer(2)], t)), Integer(-3));
    assert_eq!(settle(|t| builtin::div(&[Integer(7), Integer(-2)], t)), Integer(-3));
    assert_eq!(settle(|t| builtin::div(&[Integer(-7), Integer(-2)], t)), Integer(3));
    assert_eq!(settle(|t| builtin::add(&[], t)), Integer(0));
    assert_eq!(settle(|t| builtin::add(&[float(-0.0)], t)), float(0.0));
    assert_eq!(settle(|t| builtin::add(&[float(1.5), Integer(2), float(0.25)], t)), float(3.75));
}

#[test]
fn orders_and_booleans() {
    let s = |x: &str| Str(x.to_string());
    assert_eq!(builtin::lt(&[Integer(1), Integer(2)]), Bool(true));
    assert_eq!(builtin::lt(&[Integer(1)]), Bool(false));
    assert_eq!(builtin::lt(&[Integer(1), Integer(2), Integer(3)]), Bool(false));
    assert_eq!(builtin::lt(&[float(1.0), float(f64::NAN)]), Bool(false));
    assert_eq!(builtin::gte(&[float(f64::NAN), float(f64::NAN)]), Bool(false));
    assert_eq!(builtin::lte(&[float(0.0), float(-0.0)]), Bool(true));
    assert_eq!(builtin::gt(&[Char('b'), Char('a')]), Bool(true));
    assert_eq!(builtin::lt(&[s(""), s("a")]), Bool(true));
    assert_eq!(builtin::lt(&[s("a"), s("")]), Bool(false));
    assert_eq!(builtin::lt(&[s("abc"), s("abc")]), Bool(false));
    assert_eq!(builtin::gte(&[s("abc"), s("abc")]), Bool(true));
    assert_eq!(builtin::gt(&[s("b"), s("abc")]), Bool(true));
    assert_eq!(builtin::lte(&[Integer(1), Char('a')]), Bool(false));
    assert_eq!(builtin::and(&[]), Bool(true));
    assert_eq!(builtin::and(&[Bool(true), Integer(1)]), Bool(false));
    assert_eq!(builtin::or(&[]), Bool(false));
    assert_eq!(builtin::or(&[Bool(false), Integer(1), Bool(true)]), Bool(false));
    assert_eq!(builtin::or(&[Bool(true), Integer(1)]), Bool(true));
    assert_eq!(builtin::not(&[Bool(true)]), Bool(false));
    assert_eq!(builtin::not(&[Bool(false)]), Bool(true));
    assert_eq!(builtin::not(&[Integer(0)]), Bool(false));
    assert_eq!(builtin::not(&[Bool(false), Bool(false)]), Bool(false));
}

#[test]
fn values_are_equal_by_what_they_are() {
    assert_eq!(float(0.0), float(-0.0));
    assert_ne!(float(f64::NAN), float(f64::NAN));
    assert_ne!(Integer(1), float(1.0));
    assert_ne!(Nil, Sexpr(vec![]));
    assert_ne!(Sexpr(vec![Integer(1)]), Qexpr(vec![Integer(1)]));
    assert_ne!(Symbol("a".to_string()), Str("a".to_string()));
    assert_eq!(Builtin(BuiltinFunction::Add), Builtin(BuiltinFunction::Add));
    assert_ne!(Builtin(BuiltinFunction::Add), Builtin(BuiltinFunction::Sub));
    let curried = |args: Vec<Cell>| {
        CurriedBuiltin(Box::new(CurriedBuiltinSpec { builtin: BuiltinFunction::Mul, bound_args: args }))
    };
    assert_eq!(curried(vec![Integer(1)]), curried(vec![Integer(2)]));
    assert_ne!(curried(vec![]), Builtin(BuiltinFunction::Mul));
    let a = || Symbol("a".to_string());
    assert_eq!(lambda(vec![a()], vec![a()], 0), lambda(vec![a()], vec![a()], 7));
    assert_ne!(lambda(vec![a()], vec![a()], 0), lambda(vec![a()], vec![], 0));
    assert_eq!(Error("x".to_string()), Error("x".to_string()));
    let big = Qexpr(vec![Integer(1), Sexpr(vec![Char('c'), Bool(true)])]);
    assert_eq!(big.clone(), big);
}

#[test]
fn functions_are_written_with_their_open_parameters() {
    assert_eq!(show(&Builtin(BuiltinFunction::Sub)), "func: (- Integer|Float [Integer|Float])");
    assert_eq!(show(&Builtin(BuiltinFunction::Def)), "func: (def {Symbol Symbol...} Any)");
    assert_eq!(show(&Builtin(BuiltinFunction::Assign)), "func: (set! {Symbol} Any)");
    assert_eq!(show(&Builtin(BuiltinFunction::Join)), "func: (join {Any...} {Any...}...)");
    assert_eq!(show(&Builtin(BuiltinFunction::If)), "func: (if Bool Any Any)");
    let curried = |n: usize| {
        CurriedBuiltin(Box::new(CurriedBuiltinSpec {
            builtin: BuiltinFunction::If,
            bound_args: vec![Nil; n],
        }))
    };
    assert_eq!(show(&curried(0)), "func: (if Bool Any Any)");
    assert_eq!(show(&curried(1)), "func: (if Any Any)");
    assert_eq!(show(&curried(2)), "func: (if Any)");
    assert_eq!(show(&curried(3)), "func: (if )");
    assert_eq!(show(&curried(9)), "func: (if )");
    let a = || Symbol("a".to_string());
    assert_eq!(show(&lambda(vec![a(), a()], vec![a(), float(1.0)], 3)), "(lambda {a a} {a 1.00})");
    assert_eq!(show(&lambda(vec![], vec![], 0)), "(lambda {} {})");
    assert_eq!(show(&Integer(i64::MIN)), "-9223372036854775808");
    assert_eq!(show(&Integer(0)), "0");
    assert_eq!(show(&Integer(1000)), "1000");
    assert_eq!(show(&float(-0.004)), "-0.00");
    assert_eq!(show(&float(1e21)), "1000000000000000000000.00");
}

#[test]
fn shapes_of_values() {
    let value = Qexpr(vec![Integer(1), Sexpr(vec![Char('c')]), Str("s".to_string())]);
    assert_eq!(value.get_type().to_string(), "{Integer (Char) String}");
    assert_eq!(Nil.get_type().to_string(), "Nil");
    assert_eq!(float(1.0).get_type().to_string(), "Float");
    assert_eq!(Builtin(BuiltinFunction::Add).get_type().to_string(), "Builtin");
    assert_eq!(lambda(vec![], vec![], 0).get_type().to_string(), "Lambda");
    assert_eq!(Error(String::new()).get_type().to_string(), "Error");
    assert_eq!(Symbol("s".to_string()).get_type().to_string(), "Symbol");
    assert_eq!(Bool(true).get_type().to_string(), "Bool");
    assert_eq!(Sexpr(vec![]).get_type().to_string(), "()");

    assert!(Integer(1).is_type(&IntegerT));
    assert!(!Integer(1).is_type(&FloatT));
    assert!(Integer(1).is_type(&AnyT));
    assert!(Integer(1).is_type(&OrT(Box::new(FloatT), Box::new(IntegerT))));
    assert!(!Char('c').is_type(&OrT(Box::new(FloatT), Box::new(IntegerT))));
    assert!(Integer(1).is_type(&ElipsisT(Box::new(IntegerT))));
    assert!(!Integer(1).is_type(&OptionalT(Box::new(CharT))));
    assert!(Nil.is_type(&NilT));
    assert!(Str(String::new()).is_type(&StringT));
    assert!(Symbol(String::new()).is_type(&SymbolT));
    assert!(Bool(false).is_type(&BoolT));
    assert!(Error(String::new()).is_type(&ErrorT));
    assert!(Builtin(BuiltinFunction::Eq).is_type(&BuiltinT));
    assert!(lambda(vec![], vec![], 0).is_type(&LambdaT));
    assert!(!lambda(vec![], vec![], 0).is_type(&BuiltinT));
    assert!(value.is_type(&QexprT(vec![IntegerT])));
    assert!(value.is_type(&RQexprT(vec![IntegerT, AnyT, StringT, CharT])));
    assert!(!value.is_type(&QexprT(vec![IntegerT, IntegerT])));
    assert!(!value.is_type(&SexprT(vec![IntegerT])));
    assert!(Sexpr(vec![]).is_type(&RSexprT(vec![CharT])));
    assert!(value.is_type(&value.get_type()));
}

#[test]
fn arity_counts_the_parameters() {
    assert_eq!(
        get_arity(&vec![IntegerT, AnyT, OptionalT(Box::new(AnyT)), ElipsisT(Box::new(AnyT))]),
        Arity { required: 2, optional: 1, has_variadic: true }
    );
    assert_eq!(get_arity(&vec![]), Arity { required: 0, optional: 0, has_variadic: false });
    assert_eq!(
        get_arity(&vec![ElipsisT(Box::new(AnyT))]),
        Arity { required: 0, optional: 0, has_variadic: true }
    );
    assert_eq!(
        get_arity(&globals::argument_types(BuiltinFunction::Sub)),
        Arity { required: 1, optional: 1, has_variadic: false }
    );
    assert!(is_well_formed(&vec![IntegerT, OptionalT(Box::new(AnyT)), ElipsisT(Box::new(AnyT))]));
    assert!(is_well_formed(&vec![]));
    assert!(!is_well_formed(&vec![OptionalT(Box::new(AnyT)), IntegerT]));
    assert!(!is_well_formed(&vec![ElipsisT(Box::new(AnyT)), IntegerT]));
    assert!(!is_well_formed(&vec![ElipsisT(Box::new(AnyT)), OptionalT(Box::new(AnyT))]));
    for name in ["+", "-", "*", "/", "==", "!=", "<", "<=", ">", ">=", "and", "or", "not", "if",
        "print", "list", "head", "tail", "init", "join", "len", "eval", "def", "set!", "lambda"]
    {
        let found = globals::get(name).unwrap();
        assert_eq!(found.name, name);
        assert!(is_well_formed(&found.argument_types));
        assert_eq!(globals::name(found.func), name);
        assert_eq!(globals::find(name), Some(found.func));
    }
    assert!(globals::get("nope").is_none());
    assert_eq!(globals::find(""), None);
    assert_eq!(globals::find("SET!"), None);
}

#[test]
fn calls_are_checked_against_the_parameters() {
    let numbers = vec![IntegerT, OptionalT(Box::new(IntegerT)), ElipsisT(Box::new(CharT))];
    assert_eq!(validate_inner(&numbers, &[Integer(1)]), None);
    assert_eq!(validate_inner(&numbers, &[Integer(1), Integer(2), Char('a'), Char('b')]), None);
    assert_eq!(
        validate_inner(&numbers, &[Integer(1), Integer(2), Char('a'), Integer(3)]),
        Some("argument 4 is of type Integer expected Char...".to_string())
    );
    assert_eq!(
        validate_inner(&numbers, &[]),
        Some("requiers 1+ arguments, got 0".to_string())
    );
    let nested = vec![SexprT(vec![IntegerT, QexprT(vec![CharT])])];
    assert_eq!(
        validate_inner(&nested, &[Sexpr(vec![Integer(1), Qexpr(vec![Integer(2)])])]),
        Some(
            "argument list at 1: argument list at 2: argument 1 is of type Integer expected Char"
                .to_string()
        )
    );
    assert_eq!(
        validate_inner(&nested, &[Sexpr(vec![Integer(1)])]),
        Some("argument list at 1: requiers 2 arguments, got 1".to_string())
    );
    assert_eq!(
        validate_inner(&nested, &[Qexpr(vec![])]),
        Some("argument 1 is of type {} expected (Integer {Char})".to_string())
    );
    assert_eq!(validate_inner(&nested, &[Sexpr(vec![Integer(1), Qexpr(vec![Char('c')])])]), None);
    let two = vec![IntegerT, IntegerT];
    assert_eq!(
        validate_inner(&two, &[Integer(1), Integer(2), Char('x')]),
        Some("requiers 2 arguments, got 3".to_string())
    );
}

#[test]
fn names_are_found_in_the_nearest_scope() {
    let mut e = Environment::new();
    assert_eq!(e.lookup(0, "x"), Error("Undefined symbol: x".to_string()));
    assert_eq!(e.lookup(0, "+"), Builtin(BuiltinFunction::Add));
    e.insert(0, "x", &Integer(1));
    e.insert(0, "+", &Integer(0));
    let inner = e.make_sub_environment(0);
    let innermost = e.make_sub_environment(inner);
    assert_eq!(inner, 1);
    assert_eq!(innermost, 2);
    assert_eq!(e.lookup(innermost, "x"), Integer(1));
    assert_eq!(e.lookup(innermost, "+"), Integer(0));
    e.insert(inner, "x", &Integer(2));
    assert_eq!(e.lookup(innermost, "x"), Integer(2));
    assert_eq!(e.lookup(inner, "x"), Integer(2));
    assert_eq!(e.lookup(0, "x"), Integer(1));
    e.insert(inner, "x", &Integer(3));
    assert_eq!(e.lookup(inner, "x"), Integer(3));
    e.insert_top(innermost, "y", &Integer(4));
    assert_eq!(e.lookup(0, "y"), Integer(4));
    assert_eq!(e.root_of(innermost), 0);
    assert_eq!(e.root_of(0), 0);
    let copy = e.duplicate();
    e.insert(0, "y", &Integer(5));
    assert_eq!(copy.lookup(innermost, "y"), Integer(4));
    assert_eq!(e.lookup(innermost, "y"), Integer(5));
    // A name that is no scope of the environment is an empty scope on its own.
    assert_eq!(e.lookup(99, "y"), Error("Undefined symbol: y".to_string()));
    assert_eq!(e.lookup(99, "-"), Builtin(BuiltinFunction::Sub));
    e.insert(99, "q", &Integer(1));
    assert_eq!(e.lookup(99, "q"), Error("Undefined symbol: q".to_string()));
    let lost = e.make_sub_environment(99);
    assert_eq!(e.lookup(lost, "x"), Error("Undefined symbol: x".to_string()));
    e.print_line("one".to_string());
    e.print_line("two".to_string());
    assert_eq!(e.take_printed(), vec!["one".to_string(), "two".to_string()]);
    assert!(e.take_printed().is_empty());
}
