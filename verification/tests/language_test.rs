use rlisp::floats::{FloatAnswer, FloatQuery, Stop};
use rlisp::Rlisp;

fn answer(q: &FloatQuery) -> FloatAnswer {
    match q {
        FloatQuery::Add(a, b) => FloatAnswer::Bits((f64::from_bits(*a) + f64::from_bits(*b)).to_bits()),
        FloatQuery::Sub(a, b) => FloatAnswer::Bits((f64::from_bits(*a) - f64::from_bits(*b)).to_bits()),
        FloatQuery::Mul(a, b) => FloatAnswer::Bits((f64::from_bits(*a) * f64::from_bits(*b)).to_bits()),
        FloatQuery::Div(a, b) => FloatAnswer::Bits((f64::from_bits(*a) / f64::from_bits(*b)).to_bits()),
        FloatQuery::FromInteger(i) => FloatAnswer::Bits((*i as f64).to_bits()),
        FloatQuery::Render(a) => FloatAnswer::Text(format!("{:.2}", f64::from_bits(*a))),
        FloatQuery::Parse(s) => FloatAnswer::Bits(s.trim().parse::<f64>().unwrap_or(0.0).to_bits()),
    }
}

fn go(rlisp: &mut Rlisp, input: &str) -> String {
    loop {
        match rlisp.execute(input) {
            Ok(text) => return text,
            Err(Stop::Float(q)) => {
                let a = answer(&q);
                assert!(rlisp.learn(q, a));
            }
            Err(Stop::Depth) => panic!("calls nest too deep"),
        }
    }
}

#[test]
fn integers_stay_integers() {
    let mut rlisp = Rlisp::new();
    assert_eq!(go(&mut rlisp, "(+ 2 3 2)"), "7");
    assert_eq!(go(&mut rlisp, "(- 2 3)"), "-1");
    assert_eq!(go(&mut rlisp, "(* 6 7)"), "42");
    assert_eq!(go(&mut rlisp, "(/ 7 2)"), "3");
    assert_eq!(go(&mut rlisp, "(/ -7 2)"), "-3");
    assert_eq!(go(&mut rlisp, "(- 5)"), "-5");
}

#[test]
fn a_double_makes_the_result_a_double() {
    let mut rlisp = Rlisp::new();
    assert_eq!(go(&mut rlisp, "(+ 2 3 5.0)"), "10.00");
    assert_eq!(go(&mut rlisp, "(- 1.5 1)"), "0.50");
    assert_eq!(go(&mut rlisp, "(* 2 0.25)"), "0.50");
    assert_eq!(go(&mut rlisp, "(/ 1 4.0)"), "0.25");
    assert_eq!(go(&mut rlisp, "(- 2.5)"), "-2.50");
    assert_eq!(go(&mut rlisp, "1e2"), "100.00");
}

#[test]
fn division_by_zero_is_an_error_value() {
    let mut rlisp = Rlisp::new();
    assert_eq!(go(&mut rlisp, "(/ 8 0)"), "Error: /, 2, can't divide by zero");
    assert_eq!(go(&mut rlisp, "(/ 8 0.0)"), "Error: /, 2, can't divide by zero");
    assert_eq!(go(&mut rlisp, "(/ 8.0 0)"), "Error: /, 2, can't divide by zero");
    assert_eq!(go(&mut rlisp, "(/ 8.0 -0.0)"), "Error: /, 2, can't divide by zero");
}

#[test]
fn a_closure_keeps_what_it_captured() {
    let mut rlisp = Rlisp::new();
    assert_eq!(go(&mut rlisp, "(def {addgen} (lambda {a} {lambda {} {+ a 1}}))"), "()");
    assert_eq!(go(&mut rlisp, "(def {adder} (addgen 1))"), "()");
    assert_eq!(go(&mut rlisp, "(def {other} (addgen 41))"), "()");
    assert_eq!(go(&mut rlisp, "(adder)"), "2");
    assert_eq!(go(&mut rlisp, "(other)"), "42");
}

#[test]
fn a_function_given_too_few_arguments_is_curried() {
    let mut rlisp = Rlisp::new();
    assert_eq!(go(&mut rlisp, "(def {f x y} {- x y})"), "()");
    assert_eq!(go(&mut rlisp, "(f 10)"), "(lambda {y} {- x y})");
    assert_eq!(go(&mut rlisp, "((f 10) 4)"), "6");
    assert_eq!(go(&mut rlisp, "(* 5)"), "func: (* Integer|Float)");
    assert_eq!(go(&mut rlisp, "((* 5) 10)"), "50");
    assert_eq!(go(&mut rlisp, "+"), "func: (+ Integer|Float Integer|Float...)");
    assert_eq!(go(&mut rlisp, "head"), "func: (head {Any Any...})");
    assert_eq!(go(&mut rlisp, "(+)"), "func: (+ Integer|Float Integer|Float...)");
}

#[test]
fn rest_parameter_takes_what_is_left() {
    let mut rlisp = Rlisp::new();
    assert_eq!(go(&mut rlisp, "(def {rest a ...} {list a ...})"), "()");
    assert_eq!(go(&mut rlisp, "(rest 1 2 3)"), "{1 {2 3}}");
    assert_eq!(go(&mut rlisp, "(def {all ...} {len ...})"), "()");
    assert_eq!(go(&mut rlisp, "(all)"), "0");
    assert_eq!(go(&mut rlisp, "(all 7 8)"), "2");
    assert_eq!(
        go(&mut rlisp, "((lambda {... a} {a}) 1 2)"),
        "Error: Lambda can only have ... as it's last argument"
    );
}

#[test]
fn equality_goes_by_structure() {
    let mut rlisp = Rlisp::new();
    assert_eq!(go(&mut rlisp, "(== {1 2 3 {4 5}} {1 2 3 {4 5}})"), "#t");
    assert_eq!(go(&mut rlisp, "(== {1 2 3 {4 5}} {1 2 3 {4 6}})"), "#f");
    assert_eq!(go(&mut rlisp, "(== {1 2} {1 2 3})"), "#f");
    assert_eq!(go(&mut rlisp, "(== {1 2} (list 1 2))"), "#t");
    assert_eq!(go(&mut rlisp, "(== 1 1.0)"), "#f");
    assert_eq!(go(&mut rlisp, "(== 0.0 -0.0)"), "#t");
    assert_eq!(go(&mut rlisp, "(== \"a\" \"a\")"), "#t");
    assert_eq!(go(&mut rlisp, "(== + +)"), "#t");
    assert_eq!(go(&mut rlisp, "(== + -)"), "#f");
    assert_eq!(go(&mut rlisp, "(== (lambda {a} {a}) (lambda {a} {a}))"), "#t");
    assert_eq!(go(&mut rlisp, "(== (lambda {a} {a}) (lambda {b} {b}))"), "#f");
}

#[test]
fn the_first_error_among_the_arguments_is_the_result() {
    let mut rlisp = Rlisp::new();
    assert_eq!(
        go(&mut rlisp, "(list (def {x} 1) (nope 1) (def {y} 2))"),
        "Error: Undefined symbol: nope"
    );
    assert_eq!(go(&mut rlisp, "x"), "1");
    assert_eq!(go(&mut rlisp, "y"), "Error: Undefined symbol: y");
    assert_eq!(go(&mut rlisp, "(+ 1 (/ 1 0) (nope))"), "Error: /, 2, can't divide by zero");
    assert_eq!(go(&mut rlisp, "((nope) (def {z} 1))"), "Error: Undefined symbol: nope");
    assert_eq!(go(&mut rlisp, "z"), "Error: Undefined symbol: z");
}

#[test]
fn mistakes_in_calls_are_error_values() {
    let mut rlisp = Rlisp::new();
    assert_eq!(go(&mut rlisp, "(1 2)"), "Error: 1 is not a procedure, is Integer");
    assert_eq!(go(&mut rlisp, "({1} 2)"), "Error: {1} is not a procedure, is {Integer}");
    assert_eq!(go(&mut rlisp, "(1.5 2)"), "Error: 1.50 is not a procedure, is Float");
    assert_eq!(
        go(&mut rlisp, "((lambda {a} {+ a 1}) 1 2)"),
        "Error: (lambda {a} {+ a 1}) got to many arguments expected 1 got 2"
    );
    assert_eq!(
        go(&mut rlisp, "(def {f x} 5)"),
        "Error: def, when defining a function argument 2 has to be a List"
    );
    assert_eq!(
        go(&mut rlisp, "(head {})"),
        "Error: head, argument list at 1: requiers 1+ arguments, got 0"
    );
    assert_eq!(
        go(&mut rlisp, "(+ 1 'a')"),
        "Error: +, argument 2 is of type Char expected Integer|Float..."
    );
    assert_eq!(go(&mut rlisp, "(if 1 2 3)"), "Error: if, argument 1 is of type Integer expected Bool");
    assert_eq!(go(&mut rlisp, "(not 1)"), "Error: not, argument 1 is of type Integer expected Bool");
    assert_eq!(go(&mut rlisp, "(== 1 2 3)"), "Error: ==, requiers 2 arguments, got 3");
    assert_eq!(go(&mut rlisp, "nothing"), "Error: Undefined symbol: nothing");
}

#[test]
fn def_is_global_and_set_is_local() {
    let mut rlisp = Rlisp::new();
    assert_eq!(go(&mut rlisp, "(def {g} (lambda {} {set! {z} 5}))"), "()");
    assert_eq!(go(&mut rlisp, "(g)"), "()");
    assert_eq!(go(&mut rlisp, "z"), "Error: Undefined symbol: z");
    assert_eq!(go(&mut rlisp, "(def {h} (lambda {} {def {w} 5}))"), "()");
    assert_eq!(go(&mut rlisp, "(h)"), "()");
    assert_eq!(go(&mut rlisp, "w"), "5");
    assert_eq!(go(&mut rlisp, "(set! {v} 7)"), "()");
    assert_eq!(go(&mut rlisp, "v"), "7");
    assert_eq!(go(&mut rlisp, "(def {shadow v} {list v (set! {v} 9) v})"), "()");
    assert_eq!(go(&mut rlisp, "(shadow 8)"), "{8 () 9}");
    assert_eq!(go(&mut rlisp, "v"), "7");
}

#[test]
fn comparisons_are_false_across_kinds() {
    let mut rlisp = Rlisp::new();
    assert_eq!(go(&mut rlisp, "(< 1.5 2.5)"), "#t");
    assert_eq!(go(&mut rlisp, "(>= 2.5 2.5)"), "#t");
    assert_eq!(go(&mut rlisp, "(< -1.0 0.0)"), "#t");
    assert_eq!(go(&mut rlisp, "(< 1 2.5)"), "#f");
    assert_eq!(go(&mut rlisp, "(> 1 2.5)"), "#f");
    assert_eq!(go(&mut rlisp, "(< 'a' 'b')"), "#t");
    assert_eq!(go(&mut rlisp, "(< \"abc\" \"abd\")"), "#t");
    assert_eq!(go(&mut rlisp, "(< \"ab\" \"abc\")"), "#t");
    assert_eq!(go(&mut rlisp, "(< \"b\" \"abc\")"), "#f");
    assert_eq!(go(&mut rlisp, "(<= \"abc\" \"abc\")"), "#t");
    assert_eq!(go(&mut rlisp, "(<= {1} {1})"), "#f");
    assert_eq!(go(&mut rlisp, "(< #t #f)"), "#f");
}

#[test]
fn print_collects_lines() {
    let mut rlisp = Rlisp::new();
    assert_eq!(go(&mut rlisp, "(print 1 \"a\" {b 2.5})"), "()");
    assert_eq!(
        rlisp.take_output(),
        vec!["1".to_string(), "\"a\"".to_string(), "{b 2.50}".to_string()]
    );
    assert_eq!(rlisp.take_output(), Vec::<String>::new());
    assert_eq!(go(&mut rlisp, "(print)"), "()");
    assert_eq!(rlisp.take_output(), Vec::<String>::new());
}

#[test]
fn endless_recursion_stops_and_changes_nothing() {
    let mut rlisp = Rlisp::with_depth(40);
    assert_eq!(go(&mut rlisp, "(def {loop x} {loop (def {seen} x)})"), "()");
    assert!(matches!(rlisp.execute("(loop 1)"), Err(Stop::Depth)));
    assert_eq!(go(&mut rlisp, "seen"), "Error: Undefined symbol: seen");
    assert_eq!(go(&mut rlisp, "(+ 1 2)"), "3");
}

#[test]
fn the_default_depth_is_reached_without_harm() {
    let mut rlisp = Rlisp::new();
    assert_eq!(go(&mut rlisp, "(def {loop x} {loop x})"), "()");
    assert!(matches!(rlisp.execute("(loop 1)"), Err(Stop::Depth)));
    assert_eq!(go(&mut rlisp, "(def {count n} {if (== n 0) 0 {+ 1 (count (- n 1))}})"), "()");
    assert_eq!(go(&mut rlisp, "(count 20)"), "20");
}

#[test]
fn a_stop_for_a_double_leaves_the_interpreter_as_it_was() {
    let mut rlisp = Rlisp::new();
    let first = rlisp.execute("(list (def {n} 1) (+ n 0.5))");
    assert!(matches!(first, Err(Stop::Float(FloatQuery::Parse(_)))));
    assert_eq!(go(&mut rlisp, "n"), "Error: Undefined symbol: n");
    assert_eq!(go(&mut rlisp, "(list (def {n} 1) (+ n 0.5))"), "{() 1.50}");
    assert_eq!(go(&mut rlisp, "n"), "1");
}

#[test]
fn answers_are_kept_and_checked_for_their_kind() {
    let mut rlisp = Rlisp::new();
    assert!(!rlisp.learn(FloatQuery::Add(1, 2), FloatAnswer::Text("3".to_string())));
    assert!(!rlisp.learn(FloatQuery::Render(1), FloatAnswer::Bits(3)));
    assert!(rlisp.learn(FloatQuery::Add(1, 2), FloatAnswer::Bits(3)));
    assert!(!rlisp.learn(FloatQuery::Add(1, 2), FloatAnswer::Bits(4)));
    assert!(rlisp.learn(FloatQuery::Render(1), FloatAnswer::Text("tiny".to_string())));
}

#[test]
fn eval_reads_a_list_as_a_call() {
    let mut rlisp = Rlisp::new();
    assert_eq!(go(&mut rlisp, "(eval {+ 1 2})"), "3");
    assert_eq!(go(&mut rlisp, "(eval 5)"), "5");
    assert_eq!(go(&mut rlisp, "(eval {})"), "()");
    assert_eq!(go(&mut rlisp, "(eval (list + 1 2))"), "3");
    assert_eq!(go(&mut rlisp, "{+ 1 2}"), "{+ 1 2}");
    assert_eq!(go(&mut rlisp, "()"), "()");
}

#[test]
fn list_functions() {
    let mut rlisp = Rlisp::new();
    assert_eq!(go(&mut rlisp, "(list)"), "{}");
    assert_eq!(go(&mut rlisp, "(list 1 {2} \"x\")"), "{1 {2} \"x\"}");
    assert_eq!(go(&mut rlisp, "(head {1 2 3})"), "1");
    assert_eq!(go(&mut rlisp, "(tail {1 2 3})"), "{2 3}");
    assert_eq!(go(&mut rlisp, "(tail {1})"), "{}");
    assert_eq!(go(&mut rlisp, "(init {1 2 3})"), "{1 2}");
    assert_eq!(go(&mut rlisp, "(join {1} {} {2 3})"), "{1 2 3}");
    assert_eq!(go(&mut rlisp, "(len {})"), "0");
    assert_eq!(go(&mut rlisp, "(len {a b c})"), "3");
    assert_eq!(go(&mut rlisp, "(join 1 {2})"), "Error: join, argument 1 is of type Integer expected {Any...}");
}
