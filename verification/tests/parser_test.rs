use rlisp::cell::Cell;
use rlisp::cell::Cell::{Bool, Char, Error, Float, Integer, Nil, Qexpr, Sexpr, Str, Symbol};
use rlisp::floats::{FloatAnswer, FloatQuery, FloatTable, Stop};
use rlisp::parser::{parse_ast, parse_integer, Ast, Parser, Tag};

fn answer(q: &FloatQuery) -> FloatAnswer {
    match q {
        FloatQuery::Add(a, b) => FloatAnswer::Bits((f64::from_bits(*a) + f64::from_bits(*b)).to_bits()),
        FloatQuery::Sub(a, b) => FloatAnswer::Bits((f64::from_bits(*a) - f64::from_bits(*b)).to_bits()),
        FloatQuery::Mul(a, b) => FloatAnswer::Bits((f64::from_bits(*a) * f64::from_bits(*b)).to_bits()),
        FloatQuery::Div(a, b) => FloatAnswer::Bits((f64::from_bits(*a) / f64::from_bits(*b)).to_bits()),
        FloatQuery::FromInteger(i) => FloatAnswer::Bits((*i as f64).to_bits()),
        FloatQuery::Render(a) => FloatAnswer::Text(format!("{:.2}", f64::from_bits(*a))),
        FloatQuery::Parse(s) => FloatAnswer::Bits(s.trim().parse::<f64>().unwrap_or(0.0).to_bits()),
    }
}

fn read(input: &str) -> Cell {
    let parser = Parser::new();
    let mut floats = FloatTable::new();
    loop {
        match parser.parse(input, &floats) {
            Ok(c) => return c,
            Err(Stop::Float(q)) => {
                let a = answer(&q);
                assert!(floats.learn(q, a));
            }
            Err(Stop::Depth) => panic!("calls nest too deep"),
        }
    }
}

fn show(c: &Cell) -> String {
    let mut floats = FloatTable::new();
    loop {
        match c.to_string(&floats) {
            Ok(text) => return text,
            Err(Stop::Float(q)) => {
                let a = answer(&q);
                assert!(floats.learn(q, a));
            }
            Err(Stop::Depth) => panic!("calls nest too deep"),
        }
    }
}

fn sym(s: &str) -> Cell {
    Symbol(s.to_string())
}

#[test]
fn scalars_are_read() {
    assert_eq!(read("12"), Integer(12));
    assert_eq!(read("-12"), Integer(-12));
    assert_eq!(read("+12"), Integer(12));
    assert_eq!(read("0"), Integer(0));
    assert_eq!(read("-9223372036854775808"), Integer(i64::MIN));
    assert_eq!(read("9223372036854775807"), Integer(i64::MAX));
    assert_eq!(read("9223372036854775808"), Integer(0));
    assert_eq!(read("99999999999999999999999"), Integer(0));
    assert_eq!(read("5.0"), Float(5.0f64.to_bits()));
    assert_eq!(read("-2.5e-3"), Float((-2.5e-3f64).to_bits()));
    assert_eq!(read(".5"), Float(0.5f64.to_bits()));
    assert_eq!(read("1E3"), Float(1000.0f64.to_bits()));
    assert_eq!(read("\"hello world\""), Str("hello world".to_string()));
    assert_eq!(read("\"\""), Str(String::new()));
    assert_eq!(read("'a'"), Char('a'));
    assert_eq!(read("' '"), Char(' '));
    assert_eq!(read("#t"), Bool(true));
    assert_eq!(read("#f"), Bool(false));
    assert_eq!(read("foo"), sym("foo"));
    assert_eq!(read("add-mul-10"), sym("add-mul-10"));
    assert_eq!(read("+"), sym("+"));
    assert_eq!(read("-"), sym("-"));
    assert_eq!(read("..."), sym("..."));
    assert_eq!(read("set!"), sym("set!"));
    assert_eq!(read("<="), sym("<="));
    assert_eq!(read("-a"), sym("-a"));
}

#[test]
fn lists_are_read() {
    assert_eq!(read("()"), Sexpr(vec![]));
    assert_eq!(read("{}"), Qexpr(vec![]));
    assert_eq!(
        read("(+ 1 {2 (3)} \"x\")"),
        Sexpr(vec![
            sym("+"),
            Integer(1),
            Qexpr(vec![Integer(2), Sexpr(vec![Integer(3)])]),
            Str("x".to_string()),
        ])
    );
    assert_eq!(read("  ( a\n\tb )  "), Sexpr(vec![sym("a"), sym("b")]));
    assert_eq!(read("(a(b)c)"), Sexpr(vec![sym("a"), Sexpr(vec![sym("b")]), sym("c")]));
}

#[test]
fn comments_and_blanks_are_skipped() {
    assert_eq!(read(""), Nil);
    assert_eq!(read("   \n\t "), Nil);
    assert_eq!(read("; nothing here"), Nil);
    assert_eq!(read("; first\n(+ 1 2) ; then\n"), Sexpr(vec![sym("+"), Integer(1), Integer(2)]));
    assert_eq!(read("(1 ; one\n 2)"), Sexpr(vec![Integer(1), Integer(2)]));
    assert_eq!(read("\"a;b\""), Str("a;b".to_string()));
}

#[test]
fn only_the_first_expression_counts() {
    assert_eq!(read("1 2 3"), Integer(1));
    assert_eq!(read("(a) (b)"), Sexpr(vec![sym("a")]));
}

#[test]
fn what_is_no_program_is_an_error_value() {
    assert_eq!(
        read("(+ 1"),
        Error("<input>:1:5: error: expected an expression or ')' at end of input\n".to_string())
    );
    assert_eq!(
        read("{a\n b"),
        Error("<input>:2:3: error: expected an expression or '}' at end of input\n".to_string())
    );
    assert_eq!(
        read(")"),
        Error("<input>:1:1: error: expected an expression at ')'\n".to_string())
    );
    assert_eq!(
        read("(a }"),
        Error("<input>:1:4: error: expected an expression at '}'\n".to_string())
    );
    assert_eq!(
        read("5a"),
        Error("<input>:1:1: error: expected a number at '5'\n".to_string())
    );
    assert_eq!(
        read("1 \"abc"),
        Error("<input>:1:7: error: expected '\"' at end of input\n".to_string())
    );
    assert_eq!(
        read("#x"),
        Error("<input>:1:2: error: expected 't' or 'f' at 'x'\n".to_string())
    );
    assert_eq!(
        read("'ab'"),
        Error("<input>:1:2: error: expected a character and \"'\" at 'a'\n".to_string())
    );
    assert_eq!(
        read("(1 2) ,"),
        Error("<input>:1:7: error: expected an expression at ','\n".to_string())
    );
}

#[test]
fn the_syntax_tree_keeps_the_text() {
    let parser = Parser::new();
    let tree = parser.syntax("(+ 1 \"x\") 2.5").unwrap();
    assert_eq!(tree.get_tag(), Tag::Root);
    assert_eq!(tree.get_no_children(), 2);
    let call = tree.get_child(0).unwrap();
    assert_eq!(call.get_tag(), Tag::Sexpr);
    assert_eq!(call.get_contents(), "");
    assert_eq!(call.get_no_children(), 3);
    let tags: Vec<Tag> = call.child_iter().iter().map(|c| c.get_tag()).collect();
    assert_eq!(tags, vec![Tag::Symbol, Tag::Integer, Tag::Str]);
    let texts: Vec<&str> = call.child_iter().iter().map(|c| c.get_contents()).collect();
    assert_eq!(texts, vec!["+", "1", "\"x\""]);
    let number = tree.get_child(1).unwrap();
    assert_eq!(number.get_tag(), Tag::Float);
    assert_eq!(number.get_contents(), "2.5");
    assert!(tree.get_child(2).is_none());
    let fault = parser.syntax("(\n  ]").unwrap_err();
    assert_eq!(fault.line, 1);
    assert_eq!(fault.column, 2);
    assert_eq!(fault.expected, "an expression");
    assert_eq!(fault.found, Some(']'));
    assert_eq!(fault.to_string(), "<input>:2:3: error: expected an expression at ']'\n");
}

#[test]
fn a_tree_built_by_hand_denotes_its_value() {
    let floats = FloatTable::new();
    let leaf = |tag: Tag, text: &str| Ast { tag, contents: text.to_string(), children: vec![] };
    assert_eq!(parse_ast(&leaf(Tag::Integer, "42"), &floats).unwrap(), Some(Integer(42)));
    assert_eq!(parse_ast(&leaf(Tag::Integer, "4x"), &floats).unwrap(), Some(Integer(0)));
    assert_eq!(parse_ast(&leaf(Tag::Str, "\"ab\""), &floats).unwrap(), Some(Str("ab".to_string())));
    assert_eq!(parse_ast(&leaf(Tag::Str, "x"), &floats).unwrap(), Some(Str(String::new())));
    assert_eq!(parse_ast(&leaf(Tag::Char, "'q'"), &floats).unwrap(), Some(Char('q')));
    assert_eq!(parse_ast(&leaf(Tag::Char, "q"), &floats).unwrap(), None);
    assert_eq!(parse_ast(&leaf(Tag::Bool, "#t"), &floats).unwrap(), Some(Bool(true)));
    assert_eq!(parse_ast(&leaf(Tag::Bool, "#f"), &floats).unwrap(), Some(Bool(false)));
    assert_eq!(parse_ast(&leaf(Tag::Symbol, "abc"), &floats).unwrap(), Some(sym("abc")));
    assert!(matches!(
        parse_ast(&leaf(Tag::Float, "1.5"), &floats),
        Err(Stop::Float(FloatQuery::Parse(_)))
    ));
    let list = Ast {
        tag: Tag::Qexpr,
        contents: String::new(),
        children: vec![leaf(Tag::Integer, "1"), leaf(Tag::Char, "q"), leaf(Tag::Integer, "2")],
    };
    assert_eq!(parse_ast(&list, &floats).unwrap(), Some(Qexpr(vec![Integer(1), Integer(2)])));
    let root = Ast {
        tag: Tag::Root,
        contents: String::new(),
        children: vec![leaf(Tag::Char, "q"), leaf(Tag::Integer, "7"), leaf(Tag::Integer, "8")],
    };
    assert_eq!(parse_ast(&root, &floats).unwrap(), Some(Integer(7)));
    let empty = Ast { tag: Tag::Root, contents: String::new(), children: vec![] };
    assert_eq!(parse_ast(&empty, &floats).unwrap(), None);
}

#[test]
fn integers_are_read_from_their_digits() {
    assert_eq!(parse_integer("0"), 0);
    assert_eq!(parse_integer("007"), 7);
    assert_eq!(parse_integer("-1"), -1);
    assert_eq!(parse_integer("+1"), 1);
    assert_eq!(parse_integer("9223372036854775807"), i64::MAX);
    assert_eq!(parse_integer("-9223372036854775808"), i64::MIN);
    assert_eq!(parse_integer("-9223372036854775809"), 0);
    assert_eq!(parse_integer("18446744073709551616"), 0);
    assert_eq!(parse_integer(""), 0);
    assert_eq!(parse_integer("-"), 0);
    assert_eq!(parse_integer("1.5"), 0);
}

#[test]
fn what_is_written_is_read_back() {
    let values = vec![
        Integer(0),
        Integer(-12),
        Integer(i64::MAX),
        Integer(i64::MIN),
        Bool(true),
        Bool(false),
        Char('x'),
        Char('"'),
        Str("a b".to_string()),
        Str("(not a list)".to_string()),
        sym("foo"),
        sym("+"),
        sym("-5a"),
        Sexpr(vec![]),
        Qexpr(vec![]),
        Qexpr(vec![
            Integer(-12),
            Str("a b".to_string()),
            Char('x'),
            Bool(true),
            sym("+"),
            Sexpr(vec![sym("foo"), Qexpr(vec![]), Qexpr(vec![Integer(1)])]),
        ]),
    ];
    for v in values {
        let text = show(&v);
        assert_eq!(read(&text), v, "read back from {}", text);
    }
    assert_eq!(
        show(&Qexpr(vec![Integer(-12), Str("a b".to_string()), Char('x'), Bool(true), sym("+")])),
        "{-12 \"a b\" 'x' #t +}"
    );
}
