//! The values of the language.

use vstd::prelude::*;
use crate::floats::{
    FloatAnswerView, FloatQuery, FloatQueryView, FloatTable, Stop, StopView, equal, float_eq,
    text_or_stop, text_stop_view,
};
use crate::globals::{argument_types, builtin_name, builtin_types, name};
use crate::text::{decimal, push_char, push_decimal, same_text};
use crate::types::{Type, TypeView, push_types, type_views, types_text};

verus! {

/// The native functions of the language, one name for each.
#[derive(Clone, Copy, Debug, PartialEq, Eq, Structural)]
pub enum BuiltinFunction {
    Add,
    Sub,
    Mul,
    Div,
    Eq,
    Ne,
    Lt,
    Lte,
    Gt,
    Gte,
    And,
    Or,
    Not,
    If,
    Print,
    List,
    Head,
    Tail,
    Init,
    Join,
    Len,
    Eval,
    Def,
    Assign,
    Lambda,
}

/// What the registry holds of a native function: which function it is, the
/// name it is shown by, and the shapes of its parameters.
#[derive(Debug)]
pub struct BuiltinFunctionSpec {
    pub func: BuiltinFunction,
    pub name: String,
    pub argument_types: Vec<Type>,
}

/// A native function with its first arguments already supplied.
#[derive(Debug)]
pub struct CurriedBuiltinSpec {
    pub builtin: BuiltinFunction,
    pub bound_args: Vec<Cell>,
}

/// A function written in the language: its formal parameters, the form that
/// is its body, and the scope it was made in.
#[derive(Debug)]
pub struct LambdaSpec {
    pub arguments: Vec<Cell>,
    pub body: Vec<Cell>,
    pub environment: usize,
}

/// A value. A double is held as its bit pattern.
#[derive(Debug)]
pub enum Cell {
    Nil,
    Symbol(String),
    Integer(i64),
    Float(u64),
    Char(char),
    Bool(bool),
    Str(String),
    /// A form to evaluate: the first element applied to the rest.
    Sexpr(Vec<Cell>),
    /// A list that stands for itself.
    Qexpr(Vec<Cell>),
    /// A failure, passed on as a value.
    Error(String),
    Builtin(BuiltinFunction),
    CurriedBuiltin(Box<CurriedBuiltinSpec>),
    Lambda(Box<LambdaSpec>),
}

/// The mathematical form of a `Cell`.
pub enum Value {
    Nil,
    Symbol(Seq<char>),
    Integer(i64),
    Float(u64),
    Char(char),
    Bool(bool),
    Str(Seq<char>),
    Sexpr(Seq<Value>),
    Qexpr(Seq<Value>),
    Error(Seq<char>),
    Builtin(BuiltinFunction),
    /// The function and the arguments it already has.
    CurriedBuiltin(BuiltinFunction, Seq<Value>),
    /// Formal parameters, body, and the scope the function was made in.
    Lambda(Seq<Value>, Seq<Value>, usize),
}

/// The mathematical forms of a sequence of cells.
pub open spec fn views(s: Seq<Cell>) -> Seq<Value>
    decreases s,
{
    Seq::new(
        s.len(),
        |i: int|
            if 0 <= i < s.len() {
                s[i]@
            } else {
                Value::Nil
            },
    )
}

impl View for Cell {
    type V = Value;

    open spec fn view(&self) -> Value
        decreases self,
    {
        match self {
            Cell::Nil => Value::Nil,
            Cell::Symbol(s) => Value::Symbol(s@),
            Cell::Integer(i) => Value::Integer(*i),
            Cell::Float(f) => Value::Float(*f),
            Cell::Char(c) => Value::Char(*c),
            Cell::Bool(b) => Value::Bool(*b),
            Cell::Str(s) => Value::Str(s@),
            Cell::Sexpr(v) => Value::Sexpr(views(v@)),
            Cell::Qexpr(v) => Value::Qexpr(views(v@)),
            Cell::Error(e) => Value::Error(e@),
            Cell::Builtin(f) => Value::Builtin(*f),
            Cell::CurriedBuiltin(cb) => Value::CurriedBuiltin(cb.builtin, views(cb.bound_args@)),
            Cell::Lambda(l) => Value::Lambda(views(l.arguments@), views(l.body@), l.environment),
        }
    }
}

impl View for BuiltinFunctionSpec {
    type V = (BuiltinFunction, Seq<char>, Seq<TypeView>);

    open spec fn view(&self) -> (BuiltinFunction, Seq<char>, Seq<TypeView>) {
        (self.func, self.name@, type_views(self.argument_types@))
    }
}

/// Taking a part of a sequence of cells and taking their mathematical forms
/// can be done in either order.
pub proof fn lemma_views_subrange(s: Seq<Cell>, from: int, to: int)
    requires
        0 <= from <= to <= s.len(),
    ensures
        views(s.subrange(from, to)) == views(s).subrange(from, to),
{
    assert(views(s.subrange(from, to)) =~= views(s).subrange(from, to));
}

/// The mathematical forms of a sequence with one more cell.
pub proof fn lemma_views_push(s: Seq<Cell>, c: Cell)
    ensures
        views(s.push(c)) == views(s).push(c@),
{
    assert(views(s.push(c)) =~= views(s).push(c@));
}

/// Copies of the cells `v[from..to]`.
pub fn clone_cells(v: &[Cell], from: usize, to: usize) -> (r: Vec<Cell>)
    requires
        from <= to <= v.len(),
    ensures
        views(r@) == views(v@).subrange(from as int, to as int),
    decreases v@,
{
    let mut r: Vec<Cell> = Vec::new();
    let mut i: usize = from;
    while i < to
        invariant
            from <= i <= to <= v.len(),
            r@.len() == i - from,
            forall|j: int| 0 <= j < i - from ==> r@[j]@ == v@[from + j]@,
        decreases to - i,
    {
        r.push(v[i].clone());
        i += 1;
    }
    assert(views(r@) =~= views(v@).subrange(from as int, to as int));
    r
}

/// Copies of all the cells of `v`.
pub fn clone_all(v: &Vec<Cell>) -> (r: Vec<Cell>)
    ensures
        views(r@) == views(v@),
    decreases v,
{
    let r = clone_cells(v.as_slice(), 0, v.len());
    assert(views(v@).subrange(0, v@.len() as int) =~= views(v@));
    r
}

impl Clone for Cell {
    fn clone(&self) -> (r: Cell)
        ensures
            r@ == self@,
        decreases self,
    {
        match self {
            Cell::Nil => Cell::Nil,
            Cell::Symbol(s) => Cell::Symbol(s.clone()),
            Cell::Integer(i) => Cell::Integer(*i),
            Cell::Float(f) => Cell::Float(*f),
            Cell::Char(c) => Cell::Char(*c),
            Cell::Bool(b) => Cell::Bool(*b),
            Cell::Str(s) => Cell::Str(s.clone()),
            Cell::Sexpr(v) => Cell::Sexpr(clone_all(v)),
            Cell::Qexpr(v) => Cell::Qexpr(clone_all(v)),
            Cell::Error(e) => Cell::Error(e.clone()),
            Cell::Builtin(f) => Cell::Builtin(*f),
            Cell::CurriedBuiltin(cb) => Cell::CurriedBuiltin(
                Box::new(
                    CurriedBuiltinSpec { builtin: cb.builtin, bound_args: clone_all(&cb.bound_args) },
                ),
            ),
            Cell::Lambda(l) => Cell::Lambda(
                Box::new(
                    LambdaSpec {
                        arguments: clone_all(&l.arguments),
                        body: clone_all(&l.body),
                        environment: l.environment,
                    },
                ),
            ),
        }
    }
}

/// Equality of values. Scalars are equal when they are the same scalar, doubles
/// as IEEE 754 has it; lists when they have equal elements in the same order;
/// native functions, curried or not, when they are the same function; functions
/// of the language when parameters and body are equal. The scope of a function
/// and the arguments a curried function already has play no part.
pub open spec fn same_value(a: Value, b: Value) -> bool
    decreases a,
{
    match (a, b) {
        (Value::Nil, Value::Nil) => true,
        (Value::Symbol(x), Value::Symbol(y)) => x == y,
        (Value::Integer(x), Value::Integer(y)) => x == y,
        (Value::Float(x), Value::Float(y)) => float_eq(x, y),
        (Value::Char(x), Value::Char(y)) => x == y,
        (Value::Bool(x), Value::Bool(y)) => x == y,
        (Value::Str(x), Value::Str(y)) => x == y,
        (Value::Sexpr(x), Value::Sexpr(y)) => same_values(x, y),
        (Value::Qexpr(x), Value::Qexpr(y)) => same_values(x, y),
        (Value::Error(x), Value::Error(y)) => x == y,
        (Value::Builtin(f), Value::Builtin(g)) => f == g,
        (Value::CurriedBuiltin(f, _), Value::CurriedBuiltin(g, _)) => f == g,
        (Value::Lambda(p, body, _), Value::Lambda(q, other, _)) => same_values(p, q) && same_values(
            body,
            other,
        ),
        _ => false,
    }
}

/// Equality of two sequences of values: the same length, and equal values at
/// each position.
pub open spec fn same_values(a: Seq<Value>, b: Seq<Value>) -> bool
    decreases a,
{
    a.len() == b.len() && forall|i: int| 0 <= i < a.len() ==> same_value(#[trigger] a[i], b[i])
}

/// Whether `a` and `b` are equal, element by element.
pub fn cells_equal(a: &Vec<Cell>, b: &Vec<Cell>) -> (r: bool)
    ensures
        r == same_values(views(a@), views(b@)),
    decreases a,
{
    if a.len() != b.len() {
        return false;
    }
    let mut i: usize = 0;
    while i < a.len()
        invariant
            i <= a.len(),
            a.len() == b.len(),
            forall|j: int| 0 <= j < i ==> same_value(#[trigger] views(a@)[j], views(b@)[j]),
        decreases a.len() - i,
    {
        if !cell_equal(&a[i], &b[i]) {
            assert(!same_value(views(a@)[i as int], views(b@)[i as int]));
            return false;
        }
        i += 1;
    }
    true
}

/// Whether two cells are equal values.
pub fn cell_equal(a: &Cell, b: &Cell) -> (r: bool)
    ensures
        r == same_value(a@, b@),
    decreases a,
{
    match (a, b) {
        (Cell::Nil, Cell::Nil) => true,
        (Cell::Symbol(x), Cell::Symbol(y)) => same_text(x, y),
        (Cell::Integer(x), Cell::Integer(y)) => *x == *y,
        (Cell::Float(x), Cell::Float(y)) => equal(*x, *y),
        (Cell::Char(x), Cell::Char(y)) => *x == *y,
        (Cell::Bool(x), Cell::Bool(y)) => *x == *y,
        (Cell::Str(x), Cell::Str(y)) => same_text(x, y),
        (Cell::Sexpr(x), Cell::Sexpr(y)) => cells_equal(x, y),
        (Cell::Qexpr(x), Cell::Qexpr(y)) => cells_equal(x, y),
        (Cell::Error(x), Cell::Error(y)) => same_text(x, y),
        (Cell::Builtin(f), Cell::Builtin(g)) => *f == *g,
        (Cell::CurriedBuiltin(x), Cell::CurriedBuiltin(y)) => x.builtin == y.builtin,
        (Cell::Lambda(x), Cell::Lambda(y)) => cells_equal(&x.arguments, &y.arguments)
            && cells_equal(&x.body, &y.body),
        _ => false,
    }
}

/// The shape of a value: its own tag for a scalar, for a list the shapes of its
/// elements; native functions, curried or not, count as builtins.
pub open spec fn type_of(v: Value) -> TypeView
    decreases v,
{
    match v {
        Value::Nil => TypeView::NilT,
        Value::Symbol(_) => TypeView::SymbolT,
        Value::Integer(_) => TypeView::IntegerT,
        Value::Float(_) => TypeView::FloatT,
        Value::Char(_) => TypeView::CharT,
        Value::Bool(_) => TypeView::BoolT,
        Value::Str(_) => TypeView::StringT,
        Value::Sexpr(l) => TypeView::RSexprT(types_of(l)),
        Value::Qexpr(l) => TypeView::RQexprT(types_of(l)),
        Value::Error(_) => TypeView::ErrorT,
        Value::Builtin(_) => TypeView::BuiltinT,
        Value::CurriedBuiltin(_, _) => TypeView::BuiltinT,
        Value::Lambda(_, _, _) => TypeView::LambdaT,
    }
}

/// The shapes of the values of a sequence.
pub open spec fn types_of(l: Seq<Value>) -> Seq<TypeView>
    decreases l,
{
    Seq::new(
        l.len(),
        |i: int|
            if 0 <= i < l.len() {
                type_of(l[i])
            } else {
                TypeView::AnyT
            },
    )
}

/// Whether a value has the shape a descriptor asks for. A scalar descriptor
/// asks for its own kind of value. A list descriptor asks for a list of its
/// kind whose elements have the shapes given, position by position, as far as
/// both reach. `AnyT` asks nothing, an ellipsis and an optional ask what their
/// inner descriptor asks, a union what either side asks.
pub open spec fn matches_type(v: Value, t: TypeView) -> bool
    decreases t,
{
    match t {
        TypeView::NilT => v is Nil,
        TypeView::SymbolT => v is Symbol,
        TypeView::IntegerT => v is Integer,
        TypeView::FloatT => v is Float,
        TypeView::CharT => v is Char,
        TypeView::BoolT => v is Bool,
        TypeView::StringT => v is Str,
        TypeView::SexprT(ts) => v is Sexpr && matches_each(v->Sexpr_0, ts),
        TypeView::RSexprT(ts) => v is Sexpr && matches_each(v->Sexpr_0, ts),
        TypeView::QexprT(ts) => v is Qexpr && matches_each(v->Qexpr_0, ts),
        TypeView::RQexprT(ts) => v is Qexpr && matches_each(v->Qexpr_0, ts),
        TypeView::ErrorT => v is Error,
        TypeView::BuiltinT => v is Builtin || v is CurriedBuiltin,
        TypeView::LambdaT => v is Lambda,
        TypeView::AnyT => true,
        TypeView::ElipsisT(inner) => matches_type(v, *inner),
        TypeView::OptionalT(inner) => matches_type(v, *inner),
        TypeView::OrT(a, b) => matches_type(v, *a) || matches_type(v, *b),
    }
}

/// Whether each value has the shape at its own position, as far as both
/// sequences reach.
pub open spec fn matches_each(l: Seq<Value>, ts: Seq<TypeView>) -> bool
    decreases ts,
{
    forall|i: int| 0 <= i < l.len() && 0 <= i < ts.len() ==> matches_type(l[i], #[trigger] ts[i])
}

/// The shapes of the cells of `v`.
pub fn types_of_cells(v: &Vec<Cell>) -> (r: Vec<Type>)
    ensures
        type_views(r@) == types_of(views(v@)),
    decreases v,
{
    let mut r: Vec<Type> = Vec::new();
    let mut i: usize = 0;
    while i < v.len()
        invariant
            i <= v.len(),
            r@.len() == i,
            forall|j: int| 0 <= j < i ==> r@[j]@ == type_of(v@[j]@),
        decreases v.len() - i,
    {
        r.push(v[i].get_type());
        i += 1;
    }
    assert(type_views(r@) =~= types_of(views(v@)));
    r
}

/// Whether each cell of `v` has the shape at its own position in `ts`, as far
/// as both reach.
pub fn cells_are_types(v: &Vec<Cell>, ts: &Vec<Type>) -> (r: bool)
    ensures
        r == matches_each(views(v@), type_views(ts@)),
    decreases ts,
{
    let mut i: usize = 0;
    while i < v.len() && i < ts.len()
        invariant
            i <= v.len(),
            i <= ts.len(),
            forall|j: int|
                0 <= j < i ==> matches_type(views(v@)[j], #[trigger] type_views(ts@)[j]),
        decreases v.len() - i,
    {
        if !v[i].is_type(&ts[i]) {
            assert(!matches_type(views(v@)[i as int], type_views(ts@)[i as int]));
            return false;
        }
        i += 1;
    }
    true
}

impl Cell {
    /// The shape of this value.
    pub fn get_type(&self) -> (r: Type)
        ensures
            r@ == type_of(self@),
        decreases self,
    {
        match self {
            Cell::Nil => Type::NilT,
            Cell::Symbol(_) => Type::SymbolT,
            Cell::Integer(_) => Type::IntegerT,
            Cell::Float(_) => Type::FloatT,
            Cell::Char(_) => Type::CharT,
            Cell::Bool(_) => Type::BoolT,
            Cell::Str(_) => Type::StringT,
            Cell::Sexpr(v) => Type::RSexprT(types_of_cells(v)),
            Cell::Qexpr(v) => Type::RQexprT(types_of_cells(v)),
            Cell::Error(_) => Type::ErrorT,
            Cell::Builtin(_) => Type::BuiltinT,
            Cell::CurriedBuiltin(_) => Type::BuiltinT,
            Cell::Lambda(_) => Type::LambdaT,
        }
    }

    /// Whether this value has the shape that `t` asks for.
    pub fn is_type(&self, t: &Type) -> (r: bool)
        ensures
            r == matches_type(self@, t@),
        decreases t,
    {
        match t {
            Type::NilT => matches!(self, Cell::Nil),
            Type::SymbolT => matches!(self, Cell::Symbol(_)),
            Type::IntegerT => matches!(self, Cell::Integer(_)),
            Type::FloatT => matches!(self, Cell::Float(_)),
            Type::CharT => matches!(self, Cell::Char(_)),
            Type::BoolT => matches!(self, Cell::Bool(_)),
            Type::StringT => matches!(self, Cell::Str(_)),
            Type::SexprT(ts) => match self {
                Cell::Sexpr(v) => cells_are_types(v, ts),
                _ => false,
            },
            Type::RSexprT(ts) => match self {
                Cell::Sexpr(v) => cells_are_types(v, ts),
                _ => false,
            },
            Type::QexprT(ts) => match self {
                Cell::Qexpr(v) => cells_are_types(v, ts),
                _ => false,
            },
            Type::RQexprT(ts) => match self {
                Cell::Qexpr(v) => cells_are_types(v, ts),
                _ => false,
            },
            Type::ErrorT => matches!(self, Cell::Error(_)),
            Type::BuiltinT => matches!(self, Cell::Builtin(_) | Cell::CurriedBuiltin(_)),
            Type::LambdaT => matches!(self, Cell::Lambda(_)),
            Type::AnyT => true,
            Type::ElipsisT(inner) => self.is_type(inner),
            Type::OptionalT(inner) => self.is_type(inner),
            Type::OrT(a, b) => self.is_type(a) || self.is_type(b),
        }
    }
}

impl PartialEq for Cell {
    fn eq(&self, other: &Cell) -> (r: bool) {
        cell_equal(self, other)
    }
}

impl vstd::std_specs::cmp::PartialEqSpecImpl for Cell {
    open spec fn obeys_eq_spec() -> bool {
        true
    }

    open spec fn eq_spec(&self, other: &Cell) -> bool {
        same_value(self@, other@)
    }
}

/// The facts about doubles in their mathematical form.
pub type Facts = Map<FloatQueryView, FloatAnswerView>;

/// The parameters of a native function that are still open once `bound`
/// arguments have been supplied.
pub open spec fn open_types(f: BuiltinFunction, bound: nat) -> Seq<TypeView> {
    let ts = builtin_types(f);
    if bound <= ts.len() {
        ts.skip(bound as int)
    } else {
        Seq::empty()
    }
}

/// How a value is written. `()` for nil; a symbol and an integer as they are;
/// a double with two digits after the point, which the facts supply; a
/// character in single and a string in double quotes; `#t` and `#f`; a list
/// in round or curly brackets with its elements one space apart; an error
/// after `Error: `; a native function as `func: (` name, space, the shapes of
/// the parameters still open, `)`; a function of the language as a `lambda`
/// form. Where the facts lack a rendering, the stop that asks for the first
/// one missing.
pub open spec fn cell_text(v: Value, facts: Facts) -> Result<Seq<char>, StopView>
    decreases v,
{
    match v {
        Value::Nil => Ok("()"@),
        Value::Symbol(s) => Ok(s),
        Value::Integer(i) => Ok(decimal(i as int)),
        Value::Float(f) => text_or_stop(facts, FloatQueryView::Render(f)),
        Value::Char(c) => Ok("'"@.push(c) + "'"@),
        Value::Bool(b) => Ok(
            if b {
                "#t"@
            } else {
                "#f"@
            },
        ),
        Value::Str(s) => Ok("\""@ + s + "\""@),
        Value::Sexpr(l) => match cells_text(l, facts) {
            Ok(t) => Ok("("@ + t + ")"@),
            Err(s) => Err(s),
        },
        Value::Qexpr(l) => match cells_text(l, facts) {
            Ok(t) => Ok("{"@ + t + "}"@),
            Err(s) => Err(s),
        },
        Value::Error(e) => Ok("Error: "@ + e),
        Value::Builtin(f) => Ok(
            "func: ("@ + builtin_name(f) + " "@ + types_text(builtin_types(f)) + ")"@,
        ),
        Value::CurriedBuiltin(f, bound) => Ok(
            "func: ("@ + builtin_name(f) + " "@ + types_text(open_types(f, bound.len())) + ")"@,
        ),
        Value::Lambda(parameters, body, _) => match cells_text(parameters, facts) {
            Err(s) => Err(s),
            Ok(p) => match cells_text(body, facts) {
                Err(s) => Err(s),
                Ok(b) => Ok("(lambda {"@ + p + "} {"@ + b + "})"@),
            },
        },
    }
}

/// How the values of a sequence are written: each in turn, one space between
/// neighbours.
pub open spec fn cells_text(l: Seq<Value>, facts: Facts) -> Result<Seq<char>, StopView>
    decreases l,
{
    if l.len() == 0 {
        Ok(Seq::empty())
    } else {
        match cells_text(l.drop_last(), facts) {
            Err(s) => Err(s),
            Ok(before) => match cell_text(l.last(), facts) {
                Err(s) => Err(s),
                Ok(t) => Ok(
                    if l.len() == 1 {
                        t
                    } else {
                        before + " "@ + t
                    },
                ),
            },
        }
    }
}

/// A stop met while writing the first elements of a sequence is the stop of
/// writing the whole sequence.
pub proof fn lemma_cells_text_stops(l: Seq<Value>, facts: Facts, n: int)
    requires
        0 <= n <= l.len(),
        cells_text(l.take(n), facts) is Err,
    ensures
        cells_text(l, facts) == cells_text(l.take(n), facts),
    decreases l.len() - n,
{
    if n == l.len() {
        assert(l.take(n) =~= l);
    } else {
        assert(l.take(n + 1).drop_last() =~= l.take(n));
        lemma_cells_text_stops(l, facts, n + 1);
    }
}

/// Appends the cells of `v`, as they are written, to `out`, one space between
/// neighbours.
pub fn push_cells(v: &Vec<Cell>, out: &mut String, floats: &FloatTable) -> (r: Result<(), Stop>)
    ensures
        match r {
            Ok(_) => cells_text(views(v@), floats@) is Ok && final(out)@ == old(out)@ + cells_text(
                views(v@),
                floats@,
            )->Ok_0,
            Err(s) => cells_text(views(v@), floats@) == Err::<Seq<char>, StopView>(s@),
        },
    decreases v,
{
    let ghost l = views(v@);
    let mut i: usize = 0;
    assert(l.take(0) =~= Seq::<Value>::empty());
    assert(old(out)@ + Seq::<char>::empty() =~= old(out)@);
    while i < v.len()
        invariant
            i <= v.len(),
            l == views(v@),
            cells_text(l.take(i as int), floats@) is Ok,
            out@ == old(out)@ + cells_text(l.take(i as int), floats@)->Ok_0,
        decreases v.len() - i,
    {
        proof {
            assert(l.take(i + 1).drop_last() =~= l.take(i as int));
            assert(l.take(i + 1).last() == v@[i as int]@);
        }
        let ghost before = cells_text(l.take(i as int), floats@)->Ok_0;
        if i > 0 {
            out.append(" ");
        }
        match v[i].push_text(out, floats) {
            Ok(_) => {
                proof {
                    let t = cell_text(v@[i as int]@, floats@)->Ok_0;
                    if i > 0 {
                        assert(out@ =~= old(out)@ + (before + " "@ + t));
                    } else {
                        assert(before =~= Seq::<char>::empty());
                        assert(out@ =~= old(out)@ + t);
                    }
                }
            },
            Err(s) => {
                proof {
                    lemma_cells_text_stops(l, floats@, i + 1);
                }
                return Err(s);
            },
        }
        i += 1;
    }
    assert(l.take(v.len() as int) =~= l);
    Ok(())
}

impl Cell {
    /// Appends this value, as it is written, to `out`.
    pub fn push_text(&self, out: &mut String, floats: &FloatTable) -> (r: Result<(), Stop>)
        ensures
            match r {
                Ok(_) => cell_text(self@, floats@) is Ok && final(out)@ == old(out)@ + cell_text(
                    self@,
                    floats@,
                )->Ok_0,
                Err(s) => cell_text(self@, floats@) == Err::<Seq<char>, StopView>(s@),
            },
        decreases self,
    {
        match self {
            Cell::Nil => {
                out.append("()");
                Ok(())
            },
            Cell::Symbol(s) => {
                out.append(s.as_str());
                Ok(())
            },
            Cell::Integer(i) => {
                push_decimal(out, *i);
                Ok(())
            },
            Cell::Float(f) => match floats.text(FloatQuery::Render(*f)) {
                Ok(t) => {
                    out.append(t.as_str());
                    Ok(())
                },
                Err(s) => Err(s),
            },
            Cell::Char(c) => {
                out.append("'");
                push_char(out, *c);
                out.append("'");
                assert(out@ =~= old(out)@ + ("'"@.push(*c) + "'"@));
                Ok(())
            },
            Cell::Bool(b) => {
                if *b {
                    out.append("#t");
                } else {
                    out.append("#f");
                }
                Ok(())
            },
            Cell::Str(s) => {
                out.append("\"");
                out.append(s.as_str());
                out.append("\"");
                assert(out@ =~= old(out)@ + ("\""@ + s@ + "\""@));
                Ok(())
            },
            Cell::Sexpr(v) => {
                out.append("(");
                match push_cells(v, out, floats) {
                    Ok(_) => {},
                    Err(s) => {
                        return Err(s);
                    },
                }
                out.append(")");
                assert(out@ =~= old(out)@ + ("("@ + cells_text(views(v@), floats@)->Ok_0 + ")"@));
                Ok(())
            },
            Cell::Qexpr(v) => {
                out.append("{");
                match push_cells(v, out, floats) {
                    Ok(_) => {},
                    Err(s) => {
                        return Err(s);
                    },
                }
                out.append("}");
                assert(out@ =~= old(out)@ + ("{"@ + cells_text(views(v@), floats@)->Ok_0 + "}"@));
                Ok(())
            },
            Cell::Error(e) => {
                out.append("Error: ");
                out.append(e.as_str());
                assert(out@ =~= old(out)@ + ("Error: "@ + e@));
                Ok(())
            },
            Cell::Builtin(f) => {
                out.append("func: (");
                out.append(name(*f));
                out.append(" ");
                let ts = argument_types(*f);
                push_types(out, &ts, 0);
                out.append(")");
                assert(builtin_types(*f).skip(0) =~= builtin_types(*f));
                assert(out@ =~= old(out)@ + ("func: ("@ + builtin_name(*f) + " "@ + types_text(
                    builtin_types(*f),
                ) + ")"@));
                Ok(())
            },
            Cell::CurriedBuiltin(cb) => {
                out.append("func: (");
                out.append(name(cb.builtin));
                out.append(" ");
                let ts = argument_types(cb.builtin);
                let bound = cb.bound_args.len();
                let from = if bound <= ts.len() {
                    bound
                } else {
                    ts.len()
                };
                push_types(out, &ts, from);
                out.append(")");
                proof {
                    let all = builtin_types(cb.builtin);
                    assert(views(cb.bound_args@).len() == bound);
                    assert(all.len() == ts@.len());
                    assert(all.skip(from as int) =~= open_types(cb.builtin, bound as nat));
                    assert(out@ =~= old(out)@ + ("func: ("@ + builtin_name(cb.builtin) + " "@
                        + types_text(open_types(cb.builtin, bound as nat)) + ")"@));
                }
                Ok(())
            },
            Cell::Lambda(l) => {
                out.append("(lambda {");
                match push_cells(&l.arguments, out, floats) {
                    Ok(_) => {},
                    Err(s) => {
                        return Err(s);
                    },
                }
                out.append("} {");
                match push_cells(&l.body, out, floats) {
                    Ok(_) => {},
                    Err(s) => {
                        return Err(s);
                    },
                }
                out.append("})");
                assert(out@ =~= old(out)@ + ("(lambda {"@ + cells_text(
                    views(l.arguments@),
                    floats@,
                )->Ok_0 + "} {"@ + cells_text(views(l.body@), floats@)->Ok_0 + "})"@));
                Ok(())
            },
        }
    }

    /// This value as it is written, or the stop that asks the host how a
    /// double in it is written.
    pub fn to_string(&self, floats: &FloatTable) -> (r: Result<String, Stop>)
        ensures
            text_stop_view(r) == cell_text(self@, floats@),
    {
        let mut out = String::new();
        match self.push_text(&mut out, floats) {
            Ok(_) => {
                assert(Seq::<char>::empty() + cell_text(self@, floats@)->Ok_0 =~= cell_text(
                    self@,
                    floats@,
                )->Ok_0);
                Ok(out)
            },
            Err(s) => Err(s),
        }
    }
}

} // verus!

