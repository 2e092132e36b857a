use rlisp::floats::{FloatAnswer, FloatQuery, Stop};
use rlisp::Rlisp;

fn answer(q: &FloatQuery) -> FloatAnswer {
    match q {
        FloatQuery::Add(a, b) => FloatAnswer::Bits((f64::from_bits(*a) + f64::from_bits(*b)).to_bits()),
        FloatQuery::Sub(a, b) => FloatAnswer::Bits((f64::from_bits(*a) - f64::from_bits(*b)).to_bits()),
        FloatQuery::Mul(a, b) => FloatAnswer::Bits((f64::from_bits(*a) * f64::from_bits(*b)).to_bits()),
        FloatQuery::Div(a, b) => FloatAnswer::Bits((f64::from_bits(*a) / f64::from_bits(*b)).to_bits()),
        FloatQuery::FromInteger(i) => FloatAnswer::Bits((*i as f64).to_bits()),
        FloatQuery::Render(a) => FloatAnswer::Text(format!("{:.2}", f64::from_bits(*a))),
        FloatQuery::Parse(s) => FloatAnswer::Bits(s.trim().parse::<f64>().unwrap_or(0.0).to_bits()),
    }
}

/// Executes a program, answering the interpreter's questions about doubles
/// until it comes to a result.
fn run(rlisp: &mut Rlisp, input: &str) -> String {
    loop {
        match rlisp.execute(input) {
            Ok(text) => return text,
            Err(Stop::Float(q)) => {
                let a = answer(&q);
                assert!(rlisp.learn(q, a));
            }
            Err(Stop::Depth) => panic!("calls nest too deep"),
        }
    }
}

#[test]
fn test_rlisp() {
    let mut rlisp = Rlisp::new();

    assert_eq!(run(&mut rlisp, "(def {a} 12)"), "()");

    assert_eq!(run(&mut rlisp, "(+ a a)"), "24");

    assert_eq!(run(&mut rlisp, "(- a 4)"), "8");

    assert_eq!(run(&mut rlisp, "(eval (head {(+ 1 2) (+ 10 20)}))"), "3");

    assert_eq!(run(&mut rlisp, "((lambda {a} {+ a 1}) 2)"), "3");

    assert_eq!(run(&mut rlisp, "((lambda {a} {+ a 1}) a)"), "13");

    assert_eq!(run(&mut rlisp, "(def {addgen} (lambda {a} {lambda {} {+ a 1}}))"), "()");
    assert_eq!(run(&mut rlisp, "(def {adder} (addgen 1))"), "()");
    assert_eq!(run(&mut rlisp, "(adder)"), "2");

    assert_eq!(run(&mut rlisp, "(def {defgen} (lambda {a} {lambda {} {def {o} a}}))"), "()");
    assert_eq!(run(&mut rlisp, "(def {defer} (defgen 10))"), "()");
    assert_eq!(run(&mut rlisp, "(defer)"), "()");
    assert_eq!(run(&mut rlisp, "o"), "10");

    assert_eq!(run(&mut rlisp, "((lambda {x y} {+ x y}) 10 20)"), "30");

    assert_eq!(run(&mut rlisp, "(def {add-mul} (lambda {x y} {+ x (* x y)}))"), "()");
    assert_eq!(run(&mut rlisp, "(add-mul 10 20)"), "210");

    assert_eq!(run(&mut rlisp, "(def {add-mul-10} (add-mul 10))"), "()");
    assert_eq!(run(&mut rlisp, "(add-mul-10 50)"), "510");

    assert_eq!(run(&mut rlisp, "(def {f x y} {+ x (/ (+ x x) y)})"), "()");
    assert_eq!(run(&mut rlisp, "(f 10 20)"), "11");

    assert_eq!(run(&mut rlisp, "(def {hof f} {f 12 12})"), "()");
    assert_eq!(run(&mut rlisp, "(hof +)"), "24");
    assert_eq!(run(&mut rlisp, "(hof (lambda {a b} {+ a (/ b 2)}))"), "18");

    assert_eq!(run(&mut rlisp, "(def {elipse ...} {head (list ...)})"), "()");
    assert_eq!(run(&mut rlisp, "(elipse 1 2 3)"), "{1 2 3}");
    assert_eq!(run(&mut rlisp, "(elipse 1 2 3 4 5)"), "{1 2 3 4 5}");
}

#[test]
fn test_elipsis_empty_arg_list() {
    let mut rlisp = Rlisp::new();

    assert_eq!(run(&mut rlisp, "(def {a ...} {head (list ...)})"), "()");

    assert_eq!(run(&mut rlisp, "(a)"), "{}");
}

#[test]
fn test_curried_builtin() {
    let mut rlisp = Rlisp::new();

    assert_eq!(run(&mut rlisp, "(def {a} (* 5))"), "()");

    assert_eq!(run(&mut rlisp, "(a 10)"), "50");
}

#[test]
fn test_no_input() {
    let mut rlisp = Rlisp::new();

    assert_eq!(run(&mut rlisp, ""), "()");
}

#[test]
fn test_utf8_string() {
    let mut rlisp = Rlisp::new();

    assert_eq!(run(&mut rlisp, "\"ߚ\""), "\"ߚ\"");
}

#[test]
fn test_unpack() {
    let mut rlisp = Rlisp::new();

    assert_eq!(run(&mut rlisp, "(unpack + {1 2 3 4 5 6})"), "21");

    assert_eq!(run(&mut rlisp, "(def {add-unpacked} (unpack +))"), "()");

    assert_eq!(run(&mut rlisp, "(add-unpacked {1 2 3 4 5 6})"), "21");
}

#[test]
fn test_pack() {
    let mut rlisp = Rlisp::new();

    assert_eq!(run(&mut rlisp, "(pack head 5 6 7)"), "5");
}

#[test]
fn test_no_extra_args() {
    let mut rlisp = Rlisp::new();

    assert_eq!(run(&mut rlisp, "((* 1))"), "Error: func: (* Integer|Float) got no arguments");

    assert_eq!(run(&mut rlisp, "(def {mul a b} {* a b})"), "()");

    assert_eq!(run(&mut rlisp, "((mul 5))"), "Error: (lambda {b} {* a b}) got no arguments");
}

#[test]
fn test_comparisons() {
    let mut rlisp = Rlisp::new();

    assert_eq!(run(&mut rlisp, "(> 1 2)"), "#f");
    assert_eq!(run(&mut rlisp, "(> 2 1)"), "#t");
    assert_eq!(run(&mut rlisp, "(> 2 2)"), "#f");

    assert_eq!(run(&mut rlisp, "(< 1 2)"), "#t");
    assert_eq!(run(&mut rlisp, "(< 2 1)"), "#f");
    assert_eq!(run(&mut rlisp, "(< 2 2)"), "#f");

    assert_eq!(run(&mut rlisp, "(>= 1 2)"), "#f");
    assert_eq!(run(&mut rlisp, "(>= 2 1)"), "#t");
    assert_eq!(run(&mut rlisp, "(>= 2 2)"), "#t");

    assert_eq!(run(&mut rlisp, "(<= 1 2)"), "#t");
    assert_eq!(run(&mut rlisp, "(<= 2 1)"), "#f");
    assert_eq!(run(&mut rlisp, "(<= 2 2)"), "#t");

    assert_eq!(run(&mut rlisp, "(and #f #f)"), "#f");
    assert_eq!(run(&mut rlisp, "(and #t #f)"), "#f");
    assert_eq!(run(&mut rlisp, "(and #t #t)"), "#t");
    assert_eq!(run(&mut rlisp, "(and #t #t #f)"), "#f");
    assert_eq!(run(&mut rlisp, "(and #t #t #t)"), "#t");

    assert_eq!(run(&mut rlisp, "(or #f #f)"), "#f");
    assert_eq!(run(&mut rlisp, "(or #t #f)"), "#t");
    assert_eq!(run(&mut rlisp, "(or #t #t)"), "#t");
    assert_eq!(run(&mut rlisp, "(or #t #t #f)"), "#t");
    assert_eq!(run(&mut rlisp, "(or #f #f #f)"), "#f");

    assert_eq!(run(&mut rlisp, "(not #t)"), "#f");
    assert_eq!(run(&mut rlisp, "(not #f)"), "#t");

    assert_eq!(run(&mut rlisp, "(== {1 2 3 {4 5}} {1 2 3 {4 5}})"), "#t");
    assert_eq!(run(&mut rlisp, "(== {1 2 3 {4 5}} {1 2 3 {4 6}})"), "#f");

    assert_eq!(run(&mut rlisp, "(!= {1 2 3 {4 5}} {1 2 3 {4 5}})"), "#f");
    assert_eq!(run(&mut rlisp, "(!= {1 2 3 {4 5}} {1 2 3 {4 6}})"), "#t");
}

#[test]
fn test_if() {
    let mut rlisp = Rlisp::new();

    assert_eq!(run(&mut rlisp, "(if #t 1 2)"), "1");
    assert_eq!(run(&mut rlisp, "(if #f 1 2)"), "2");

    assert_eq!(run(&mut rlisp, "(if (== 1 1) {+ 1 1} {+ 2 2})"), "2");
    assert_eq!(run(&mut rlisp, "(if (== 1 2) {+ 1 1} {+ 2 2})"), "4");

    assert_eq!(run(&mut rlisp, "(def {x} 100)"), "()");
    assert_eq!(run(&mut rlisp, "(def {y} 200)"), "()");

    assert_eq!(run(&mut rlisp, "(if (== x y) {+ x y} {- x y})"), "-100");
}

#[test]
fn test_recursion() {
    let mut rlisp = Rlisp::new();

    assert_eq!(run(&mut rlisp, "(def {rev l} {if (== l {}) {list} {join (rev (tail l)) (list (head l))}})"), "()");
    assert_eq!(run(&mut rlisp, "(rev {1 2 3})"), "{3 2 1}");
}
