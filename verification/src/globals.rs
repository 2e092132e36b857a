//! The registry of native functions: for each its name and the shapes of its
//! parameters, and for each name the function it stands for.

use vstd::prelude::*;
use crate::cell::{BuiltinFunction, BuiltinFunctionSpec};
use crate::text::str_eq;
use crate::types::{Type, TypeView, type_views};

verus! {

/// The name a native function is registered and shown under.
pub open spec fn builtin_name(f: BuiltinFunction) -> Seq<char> {
    match f {
        BuiltinFunction::Add => "+"@,
        BuiltinFunction::Sub => "-"@,
        BuiltinFunction::Mul => "*"@,
        BuiltinFunction::Div => "/"@,
        BuiltinFunction::Eq => "=="@,
        BuiltinFunction::Ne => "!="@,
        BuiltinFunction::Lt => "<"@,
        BuiltinFunction::Lte => "<="@,
        BuiltinFunction::Gt => ">"@,
        BuiltinFunction::Gte => ">="@,
        BuiltinFunction::And => "and"@,
        BuiltinFunction::Or => "or"@,
        BuiltinFunction::Not => "not"@,
        BuiltinFunction::If => "if"@,
        BuiltinFunction::Print => "print"@,
        BuiltinFunction::List => "list"@,
        BuiltinFunction::Head => "head"@,
        BuiltinFunction::Tail => "tail"@,
        BuiltinFunction::Init => "init"@,
        BuiltinFunction::Join => "join"@,
        BuiltinFunction::Len => "len"@,
        BuiltinFunction::Eval => "eval"@,
        BuiltinFunction::Def => "def"@,
        BuiltinFunction::Assign => "set!"@,
        BuiltinFunction::Lambda => "lambda"@,
    }
}

/// The native function registered under a name, if there is one.
pub open spec fn builtin_named(name: Seq<char>) -> Option<BuiltinFunction> {
    if name == "+"@ {
        Some(BuiltinFunction::Add)
    } else if name == "-"@ {
        Some(BuiltinFunction::Sub)
    } else if name == "*"@ {
        Some(BuiltinFunction::Mul)
    } else if name == "/"@ {
        Some(BuiltinFunction::Div)
    } else if name == "=="@ {
        Some(BuiltinFunction::Eq)
    } else if name == "!="@ {
        Some(BuiltinFunction::Ne)
    } else if name == "<"@ {
        Some(BuiltinFunction::Lt)
    } else if name == "<="@ {
        Some(BuiltinFunction::Lte)
    } else if name == ">"@ {
        Some(BuiltinFunction::Gt)
    } else if name == ">="@ {
        Some(BuiltinFunction::Gte)
    } else if name == "and"@ {
        Some(BuiltinFunction::And)
    } else if name == "or"@ {
        Some(BuiltinFunction::Or)
    } else if name == "not"@ {
        Some(BuiltinFunction::Not)
    } else if name == "if"@ {
        Some(BuiltinFunction::If)
    } else if name == "print"@ {
        Some(BuiltinFunction::Print)
    } else if name == "list"@ {
        Some(BuiltinFunction::List)
    } else if name == "head"@ {
        Some(BuiltinFunction::Head)
    } else if name == "tail"@ {
        Some(BuiltinFunction::Tail)
    } else if name == "init"@ {
        Some(BuiltinFunction::Init)
    } else if name == "join"@ {
        Some(BuiltinFunction::Join)
    } else if name == "len"@ {
        Some(BuiltinFunction::Len)
    } else if name == "eval"@ {
        Some(BuiltinFunction::Eval)
    } else if name == "def"@ {
        Some(BuiltinFunction::Def)
    } else if name == "set!"@ {
        Some(BuiltinFunction::Assign)
    } else if name == "lambda"@ {
        Some(BuiltinFunction::Lambda)
    } else {
        None
    }
}

/// An integer or a double.
pub open spec fn number_view() -> TypeView {
    TypeView::OrT(Box::new(TypeView::IntegerT), Box::new(TypeView::FloatT))
}

/// `T...`.
pub open spec fn rest_view(t: TypeView) -> TypeView {
    TypeView::ElipsisT(Box::new(t))
}

/// A Q-expression of any length and content.
pub open spec fn any_list_view() -> TypeView {
    TypeView::QexprT(seq![rest_view(TypeView::AnyT)])
}

/// A Q-expression with at least one element.
pub open spec fn filled_list_view() -> TypeView {
    TypeView::QexprT(seq![TypeView::AnyT, rest_view(TypeView::AnyT)])
}

/// The shapes of the parameters of a native function.
pub open spec fn builtin_types(f: BuiltinFunction) -> Seq<TypeView> {
    match f {
        BuiltinFunction::Add => seq![number_view(), rest_view(number_view())],
        BuiltinFunction::Sub => seq![
            number_view(),
            TypeView::OptionalT(Box::new(number_view())),
        ],
        BuiltinFunction::Mul => seq![number_view(), number_view()],
        BuiltinFunction::Div => seq![number_view(), number_view()],
        BuiltinFunction::Eq => seq![TypeView::AnyT, TypeView::AnyT],
        BuiltinFunction::Ne => seq![TypeView::AnyT, TypeView::AnyT],
        BuiltinFunction::Lt => seq![TypeView::AnyT, TypeView::AnyT],
        BuiltinFunction::Lte => seq![TypeView::AnyT, TypeView::AnyT],
        BuiltinFunction::Gt => seq![TypeView::AnyT, TypeView::AnyT],
        BuiltinFunction::Gte => seq![TypeView::AnyT, TypeView::AnyT],
        BuiltinFunction::And => seq![TypeView::BoolT, rest_view(TypeView::BoolT)],
        BuiltinFunction::Or => seq![TypeView::BoolT, rest_view(TypeView::BoolT)],
        BuiltinFunction::Not => seq![TypeView::BoolT],
        BuiltinFunction::If => seq![TypeView::BoolT, TypeView::AnyT, TypeView::AnyT],
        BuiltinFunction::Print => seq![rest_view(TypeView::AnyT)],
        BuiltinFunction::List => seq![rest_view(TypeView::AnyT)],
        BuiltinFunction::Head => seq![filled_list_view()],
        BuiltinFunction::Tail => seq![filled_list_view()],
        BuiltinFunction::Init => seq![filled_list_view()],
        BuiltinFunction::Join => seq![any_list_view(), rest_view(any_list_view())],
        BuiltinFunction::Len => seq![any_list_view()],
        BuiltinFunction::Eval => seq![TypeView::AnyT],
        BuiltinFunction::Def => seq![
            TypeView::QexprT(seq![TypeView::SymbolT, rest_view(TypeView::SymbolT)]),
            TypeView::AnyT,
        ],
        BuiltinFunction::Assign => seq![TypeView::QexprT(seq![TypeView::SymbolT]), TypeView::AnyT],
        BuiltinFunction::Lambda => seq![
            TypeView::QexprT(seq![rest_view(TypeView::SymbolT)]),
            any_list_view(),
        ],
    }
}

fn number() -> (r: Type)
    ensures
        r@ == number_view(),
{
    let i = Type::IntegerT;
    let f = Type::FloatT;
    assert(i@ == TypeView::IntegerT && f@ == TypeView::FloatT);
    Type::OrT(Box::new(i), Box::new(f))
}

fn optional(t: Type) -> (r: Type)
    ensures
        r@ == TypeView::OptionalT(Box::new(t@)),
{
    Type::OptionalT(Box::new(t))
}

fn list_of(v: Vec<Type>) -> (r: Type)
    ensures
        r@ == TypeView::QexprT(type_views(v@)),
{
    Type::QexprT(v)
}

fn rest(t: Type) -> (r: Type)
    ensures
        r@ == rest_view(t@),
{
    Type::ElipsisT(Box::new(t))
}

fn one(a: Type) -> (r: Vec<Type>)
    ensures
        type_views(r@) == seq![a@],
{
    let r = vec![a];
    assert(type_views(r@) =~= seq![a@]);
    r
}

fn two(a: Type, b: Type) -> (r: Vec<Type>)
    ensures
        type_views(r@) == seq![a@, b@],
{
    let r = vec![a, b];
    assert(type_views(r@) =~= seq![a@, b@]);
    r
}

fn three(a: Type, b: Type, c: Type) -> (r: Vec<Type>)
    ensures
        type_views(r@) == seq![a@, b@, c@],
{
    let r = vec![a, b, c];
    assert(type_views(r@) =~= seq![a@, b@, c@]);
    r
}

fn any_list() -> (r: Type)
    ensures
        r@ == any_list_view(),
{
    list_of(one(rest(Type::AnyT)))
}

fn filled_list() -> (r: Type)
    ensures
        r@ == filled_list_view(),
{
    list_of(two(Type::AnyT, rest(Type::AnyT)))
}

/// The shapes of the parameters of a native function.
pub fn argument_types(f: BuiltinFunction) -> (r: Vec<Type>)
    ensures
        type_views(r@) == builtin_types(f),
{
    match f {
        BuiltinFunction::Add => two(number(), rest(number())),
        BuiltinFunction::Sub => two(number(), optional(number())),
        BuiltinFunction::Mul => two(number(), number()),
        BuiltinFunction::Div => two(number(), number()),
        BuiltinFunction::Eq => two(Type::AnyT, Type::AnyT),
        BuiltinFunction::Ne => two(Type::AnyT, Type::AnyT),
        BuiltinFunction::Lt => two(Type::AnyT, Type::AnyT),
        BuiltinFunction::Lte => two(Type::AnyT, Type::AnyT),
        BuiltinFunction::Gt => two(Type::AnyT, Type::AnyT),
        BuiltinFunction::Gte => two(Type::AnyT, Type::AnyT),
        BuiltinFunction::And => two(Type::BoolT, rest(Type::BoolT)),
        BuiltinFunction::Or => two(Type::BoolT, rest(Type::BoolT)),
        BuiltinFunction::Not => one(Type::BoolT),
        BuiltinFunction::If => three(Type::BoolT, Type::AnyT, Type::AnyT),
        BuiltinFunction::Print => one(rest(Type::AnyT)),
        BuiltinFunction::List => one(rest(Type::AnyT)),
        BuiltinFunction::Head => one(filled_list()),
        BuiltinFunction::Tail => one(filled_list()),
        BuiltinFunction::Init => one(filled_list()),
        BuiltinFunction::Join => two(any_list(), rest(any_list())),
        BuiltinFunction::Len => one(any_list()),
        BuiltinFunction::Eval => one(Type::AnyT),
        BuiltinFunction::Def => two(
            list_of(two(Type::SymbolT, rest(Type::SymbolT))),
            Type::AnyT,
        ),
        BuiltinFunction::Assign => two(list_of(one(Type::SymbolT)), Type::AnyT),
        BuiltinFunction::Lambda => two(list_of(one(rest(Type::SymbolT))), any_list()),
    }
}

/// The name a native function is registered and shown under.
pub fn name(f: BuiltinFunction) -> (r: &'static str)
    ensures
        r@ == builtin_name(f),
{
    match f {
        BuiltinFunction::Add => "+",
        BuiltinFunction::Sub => "-",
        BuiltinFunction::Mul => "*",
        BuiltinFunction::Div => "/",
        BuiltinFunction::Eq => "==",
        BuiltinFunction::Ne => "!=",
        BuiltinFunction::Lt => "<",
        BuiltinFunction::Lte => "<=",
        BuiltinFunction::Gt => ">",
        BuiltinFunction::Gte => ">=",
        BuiltinFunction::And => "and",
        BuiltinFunction::Or => "or",
        BuiltinFunction::Not => "not",
        BuiltinFunction::If => "if",
        BuiltinFunction::Print => "print",
        BuiltinFunction::List => "list",
        BuiltinFunction::Head => "head",
        BuiltinFunction::Tail => "tail",
        BuiltinFunction::Init => "init",
        BuiltinFunction::Join => "join",
        BuiltinFunction::Len => "len",
        BuiltinFunction::Eval => "eval",
        BuiltinFunction::Def => "def",
        BuiltinFunction::Assign => "set!",
        BuiltinFunction::Lambda => "lambda",
    }
}

/// What the registry holds of a native function.
pub fn describe(f: BuiltinFunction) -> (r: BuiltinFunctionSpec)
    ensures
        r@ == (f, builtin_name(f), builtin_types(f)),
{
    BuiltinFunctionSpec {
        func: f,
        name: String::from_str(name(f)),
        argument_types: argument_types(f),
    }
}

/// The native function registered under `name`, if there is one.
pub fn find(name: &str) -> (r: Option<BuiltinFunction>)
    ensures
        r == builtin_named(name@),
{
    if str_eq(name, "+") {
        Some(BuiltinFunction::Add)
    } else if str_eq(name, "-") {
        Some(BuiltinFunction::Sub)
    } else if str_eq(name, "*") {
        Some(BuiltinFunction::Mul)
    } else if str_eq(name, "/") {
        Some(BuiltinFunction::Div)
    } else if str_eq(name, "==") {
        Some(BuiltinFunction::Eq)
    } else if str_eq(name, "!=") {
        Some(BuiltinFunction::Ne)
    } else if str_eq(name, "<") {
        Some(BuiltinFunction::Lt)
    } else if str_eq(name, "<=") {
        Some(BuiltinFunction::Lte)
    } else if str_eq(name, ">") {
        Some(BuiltinFunction::Gt)
    } else if str_eq(name, ">=") {
        Some(BuiltinFunction::Gte)
    } else if str_eq(name, "and") {
        Some(BuiltinFunction::And)
    } else if str_eq(name, "or") {
        Some(BuiltinFunction::Or)
    } else if str_eq(name, "not") {
        Some(BuiltinFunction::Not)
    } else if str_eq(name, "if") {
        Some(BuiltinFunction::If)
    } else if str_eq(name, "print") {
        Some(BuiltinFunction::Print)
    } else if str_eq(name, "list") {
        Some(BuiltinFunction::List)
    } else if str_eq(name, "head") {
        Some(BuiltinFunction::Head)
    } else if str_eq(name, "tail") {
        Some(BuiltinFunction::Tail)
    } else if str_eq(name, "init") {
        Some(BuiltinFunction::Init)
    } else if str_eq(name, "join") {
        Some(BuiltinFunction::Join)
    } else if str_eq(name, "len") {
        Some(BuiltinFunction::Len)
    } else if str_eq(name, "eval") {
        Some(BuiltinFunction::Eval)
    } else if str_eq(name, "def") {
        Some(BuiltinFunction::Def)
    } else if str_eq(name, "set!") {
        Some(BuiltinFunction::Assign)
    } else if str_eq(name, "lambda") {
        Some(BuiltinFunction::Lambda)
    } else {
        None
    }
}

/// What the registry holds under `name`, if anything.
pub fn get(name: &str) -> (r: Option<BuiltinFunctionSpec>)
    ensures
        match r {
            Some(s) => builtin_named(name@) == Some(s.func) && s@ == (
                s.func,
                builtin_name(s.func),
                builtin_types(s.func),
            ),
            None => builtin_named(name@) is None,
        },
{
    match find(name) {
        Some(f) => Some(describe(f)),
        None => None,
    }
}

/// Every native function is registered with parameter shapes that a call can
/// be checked against.
pub proof fn lemma_registry_checkable(f: BuiltinFunction)
    ensures
        crate::types::checkable(builtin_types(f)),
{
    reveal_with_fuel(crate::types::checkable, 3);
}

} // verus!
