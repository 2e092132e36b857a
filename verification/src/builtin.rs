//! The native functions of the language.

use vstd::prelude::*;
use crate::cell::{
    Cell, Facts, LambdaSpec, Value, cell_equal, cell_text, clone_all, clone_cells,
    lemma_views_push, same_value, views,
};
use crate::environment::{Environment, EnvironmentView, ScopeId};
use crate::eval::{Run, done, evaluation};
use crate::floats::{
    FloatQuery, FloatQueryView, FloatTable, Stop, StopView, bits_or_stop, float_eq, float_lt,
    float_neg, is_zero, less, negate, zero,
};
use crate::text::chars_of;

verus! {

/// A value or a stop, both in their mathematical form.
pub open spec fn outcome(r: Result<Cell, Stop>) -> Result<Value, StopView> {
    match r {
        Ok(c) => Ok(c@),
        Err(s) => Err(s@),
    }
}

/// Whether a value is a number: an integer or a double.
pub open spec fn is_number(v: Value) -> bool {
    v is Integer || v is Float
}

/// Whether all the values of a sequence are numbers.
pub open spec fn all_numbers(args: Seq<Value>) -> bool {
    forall|i: int| 0 <= i < args.len() ==> is_number(#[trigger] args[i])
}

/// A number as a double: a double as it is, an integer converted, which the
/// facts must supply.
pub open spec fn as_float(v: Value, facts: Facts) -> Result<u64, StopView> {
    match v {
        Value::Float(f) => Ok(f),
        Value::Integer(i) => bits_or_stop(facts, FloatQueryView::FromInteger(i)),
        _ => Ok(0),
    }
}

/// A sum so far: of integers alone, or a double once a double has come in.
pub enum Sum {
    Integer(i64),
    Float(u64),
}

/// The sum so far with one more number added. Integers add up with wrap-around.
/// The first double is added to the integer sum converted, and the result to
/// `0.0`; from then on each number is added as a double.
pub open spec fn sum_with(sum: Sum, arg: Value, facts: Facts) -> Result<Sum, StopView> {
    match (sum, arg) {
        (Sum::Integer(s), Value::Integer(a)) => Ok(Sum::Integer(s.wrapping_add(a))),
        (Sum::Integer(s), Value::Float(a)) => match bits_or_stop(
            facts,
            FloatQueryView::FromInteger(s),
        ) {
            Err(e) => Err(e),
            Ok(converted) => match bits_or_stop(facts, FloatQueryView::Add(converted, a)) {
                Err(e) => Err(e),
                Ok(first) => match bits_or_stop(facts, FloatQueryView::Add(0, first)) {
                    Err(e) => Err(e),
                    Ok(total) => Ok(Sum::Float(total)),
                },
            },
        },
        (Sum::Float(s), Value::Integer(a)) => match bits_or_stop(
            facts,
            FloatQueryView::FromInteger(a),
        ) {
            Err(e) => Err(e),
            Ok(converted) => match bits_or_stop(facts, FloatQueryView::Add(s, converted)) {
                Err(e) => Err(e),
                Ok(total) => Ok(Sum::Float(total)),
            },
        },
        (Sum::Float(s), Value::Float(a)) => match bits_or_stop(facts, FloatQueryView::Add(s, a)) {
            Err(e) => Err(e),
            Ok(total) => Ok(Sum::Float(total)),
        },
        _ => Ok(sum),
    }
}

/// The sum of a sequence of numbers, added up from the left, starting from the
/// integer 0.
pub open spec fn sum_of(args: Seq<Value>, facts: Facts) -> Result<Sum, StopView>
    decreases args.len(),
{
    if args.len() == 0 {
        Ok(Sum::Integer(0))
    } else {
        match sum_of(args.drop_last(), facts) {
            Err(e) => Err(e),
            Ok(sum) => sum_with(sum, args.last(), facts),
        }
    }
}

/// What `+` returns.
pub open spec fn add_result(args: Seq<Value>, facts: Facts) -> Result<Value, StopView> {
    match sum_of(args, facts) {
        Err(e) => Err(e),
        Ok(Sum::Integer(s)) => Ok(Value::Integer(s)),
        Ok(Sum::Float(s)) => Ok(Value::Float(s)),
    }
}

/// A stop met while adding up the first numbers is the stop of the whole sum.
proof fn lemma_sum_stops(args: Seq<Value>, facts: Facts, n: int)
    requires
        0 <= n <= args.len(),
        sum_of(args.take(n), facts) is Err,
    ensures
        sum_of(args, facts) == sum_of(args.take(n), facts),
    decreases args.len() - n,
{
    if n == args.len() {
        assert(args.take(n) =~= args);
    } else {
        assert(args.take(n + 1).drop_last() =~= args.take(n));
        lemma_sum_stops(args, facts, n + 1);
    }
}

/// `+`: the sum of one or more numbers. Integers alone give an integer; with
/// a double among them the sum is a double.
pub fn add(args: &[Cell], floats: &FloatTable) -> (r: Result<Cell, Stop>)
    requires
        all_numbers(views(args@)),
    ensures
        outcome(r) == add_result(views(args@), floats@),
{
    let ghost vs = views(args@);
    let mut is_float = false;
    let mut isum: i64 = 0;
    let mut fsum: u64 = 0;
    let mut i: usize = 0;
    assert(vs.take(0) =~= Seq::<Value>::empty());
    while i < args.len()
        invariant
            i <= args.len(),
            vs == views(args@),
            all_numbers(vs),
            sum_of(vs.take(i as int), floats@) == Ok::<Sum, StopView>(
                if is_float {
                    Sum::Float(fsum)
                } else {
                    Sum::Integer(isum)
                },
            ),
        decreases args.len() - i,
    {
        proof {
            assert(vs.take(i + 1).drop_last() =~= vs.take(i as int));
            assert(vs.take(i + 1).last() == args@[i as int]@);
            assert(is_number(vs[i as int]));
        }
        let step: Result<(), Stop> = match &args[i] {
            Cell::Integer(a) => {
                if is_float {
                    match floats.bits(FloatQuery::FromInteger(*a)) {
                        Err(e) => Err(e),
                        Ok(converted) => match floats.bits(FloatQuery::Add(fsum, converted)) {
                            Err(e) => Err(e),
                            Ok(total) => {
                                fsum = total;
                                Ok(())
                            },
                        },
                    }
                } else {
                    isum = isum.wrapping_add(*a);
                    Ok(())
                }
            },
            Cell::Float(a) => {
                if is_float {
                    match floats.bits(FloatQuery::Add(fsum, *a)) {
                        Err(e) => Err(e),
                        Ok(total) => {
                            fsum = total;
                            Ok(())
                        },
                    }
                } else {
                    match floats.bits(FloatQuery::FromInteger(isum)) {
                        Err(e) => Err(e),
                        Ok(converted) => match floats.bits(FloatQuery::Add(converted, *a)) {
                            Err(e) => Err(e),
                            Ok(first) => match floats.bits(FloatQuery::Add(0, first)) {
                                Err(e) => Err(e),
                                Ok(total) => {
                                    is_float = true;
                                    fsum = total;
                                    Ok(())
                                },
                            },
                        },
                    }
                }
            },
            _ => Ok(()),
        };
        match step {
            Err(e) => {
                proof {
                    lemma_sum_stops(vs, floats@, i + 1);
                }
                return Err(e);
            },
            Ok(_) => {},
        }
        i += 1;
    }
    assert(vs.take(args.len() as int) =~= vs);
    if is_float {
        Ok(Cell::Float(fsum))
    } else {
        Ok(Cell::Integer(isum))
    }
}

/// The double of a number.
fn to_float(c: &Cell, floats: &FloatTable) -> (r: Result<u64, Stop>)
    requires
        is_number(c@),
    ensures
        crate::floats::stop_view(r) == as_float(c@, floats@),
{
    match c {
        Cell::Float(f) => Ok(*f),
        Cell::Integer(i) => floats.bits(FloatQuery::FromInteger(*i)),
        _ => Ok(0),
    }
}

/// The arithmetic of two operands.
#[derive(Clone, Copy, Debug, PartialEq, Eq, Structural)]
pub enum Operation {
    Sub,
    Mul,
    Div,
}

/// The question that asks for the result of an operation on two doubles.
pub open spec fn float_question(op: Operation, a: u64, b: u64) -> FloatQueryView {
    match op {
        Operation::Sub => FloatQueryView::Sub(a, b),
        Operation::Mul => FloatQueryView::Mul(a, b),
        Operation::Div => FloatQueryView::Div(a, b),
    }
}

/// The size of an integer without its sign.
pub open spec fn magnitude(a: i64) -> nat {
    if a < 0 {
        (-(a as int)) as nat
    } else {
        a as nat
    }
}

/// The quotient of two integers, rounded towards zero: the quotient of their
/// magnitudes, negative where the signs differ. The one quotient that does not
/// fit, that of the least integer by -1, wraps around to the least integer.
pub open spec fn integer_quotient(a: i64, b: i64) -> i64 {
    let q = magnitude(a) / magnitude(b);
    if a == i64::MIN && b == -1 {
        i64::MIN
    } else if (a < 0) != (b < 0) {
        (-(q as int)) as i64
    } else {
        q as i64
    }
}

/// An operation on two integers, with wrap-around.
pub open spec fn integer_result(op: Operation, a: i64, b: i64) -> i64 {
    match op {
        Operation::Sub => a.wrapping_sub(b),
        Operation::Mul => a.wrapping_mul(b),
        Operation::Div => integer_quotient(a, b),
    }
}

/// An operation on two numbers. Two integers give an integer. With a double
/// on either side the other side is converted and the result is a double,
/// which the facts must supply.
pub open spec fn binary_result(op: Operation, a: Value, b: Value, facts: Facts) -> Result<
    Value,
    StopView,
> {
    match (a, b) {
        (Value::Integer(x), Value::Integer(y)) => Ok(Value::Integer(integer_result(op, x, y))),
        _ => match as_float(a, facts) {
            Err(e) => Err(e),
            Ok(x) => match as_float(b, facts) {
                Err(e) => Err(e),
                Ok(y) => match bits_or_stop(facts, float_question(op, x, y)) {
                    Err(e) => Err(e),
                    Ok(z) => Ok(Value::Float(z)),
                },
            },
        },
    }
}

fn magnitude_of(a: i64) -> (m: u64)
    ensures
        m == magnitude(a),
{
    if a == i64::MIN {
        9223372036854775808u64
    } else if a < 0 {
        (-a) as u64
    } else {
        a as u64
    }
}

fn integer_divide(a: i64, b: i64) -> (r: i64)
    requires
        b != 0,
    ensures
        r == integer_quotient(a, b),
{
    if a == i64::MIN && b == -1 {
        i64::MIN
    } else {
        let m = magnitude_of(a);
        let d = magnitude_of(b);
        let q: u64 = m / d;
        assert(q <= m) by (nonlinear_arith)
            requires
                d >= 1,
                q == m / d,
        ;
        assert(d >= 2 ==> 2 * q <= m) by (nonlinear_arith)
            requires
                d >= 1,
                q == m / d,
        ;
        if (a < 0) != (b < 0) {
            if q == 9223372036854775808u64 {
                i64::MIN
            } else {
                -(q as i64)
            }
        } else {
            q as i64
        }
    }
}

fn binary(op: Operation, a: &Cell, b: &Cell, floats: &FloatTable) -> (r: Result<Cell, Stop>)
    requires
        is_number(a@),
        is_number(b@),
        op == Operation::Div ==> !(b@ matches Value::Integer(y) && y == 0),
    ensures
        outcome(r) == binary_result(op, a@, b@, floats@),
{
    match (a, b) {
        (Cell::Integer(x), Cell::Integer(y)) => Ok(
            Cell::Integer(
                match op {
                    Operation::Sub => x.wrapping_sub(*y),
                    Operation::Mul => x.wrapping_mul(*y),
                    Operation::Div => integer_divide(*x, *y),
                },
            ),
        ),
        _ => match to_float(a, floats) {
            Err(e) => Err(e),
            Ok(x) => match to_float(b, floats) {
                Err(e) => Err(e),
                Ok(y) => {
                    let q = match op {
                        Operation::Sub => FloatQuery::Sub(x, y),
                        Operation::Mul => FloatQuery::Mul(x, y),
                        Operation::Div => FloatQuery::Div(x, y),
                    };
                    match floats.bits(q) {
                        Err(e) => Err(e),
                        Ok(z) => Ok(Cell::Float(z)),
                    }
                },
            },
        },
    }
}

/// What `-` returns: of one number its negative, of two their difference.
pub open spec fn sub_result(args: Seq<Value>, facts: Facts) -> Result<Value, StopView> {
    if args.len() == 1 {
        match args[0] {
            Value::Integer(a) => Ok(Value::Integer(0i64.wrapping_sub(a))),
            Value::Float(a) => Ok(Value::Float(float_neg(a))),
            _ => Ok(Value::Nil),
        }
    } else {
        binary_result(Operation::Sub, args[0], args[1], facts)
    }
}

/// `-`: the negative of one number, or the difference of two.
pub fn sub(args: &[Cell], floats: &FloatTable) -> (r: Result<Cell, Stop>)
    requires
        1 <= args@.len() <= 2,
        all_numbers(views(args@)),
    ensures
        outcome(r) == sub_result(views(args@), floats@),
{
    assert(is_number(views(args@)[0]));
    if args.len() == 1 {
        match &args[0] {
            Cell::Integer(a) => Ok(Cell::Integer(0i64.wrapping_sub(*a))),
            Cell::Float(a) => Ok(Cell::Float(negate(*a))),
            _ => Ok(Cell::Nil),
        }
    } else {
        assert(is_number(views(args@)[1]));
        binary(Operation::Sub, &args[0], &args[1], floats)
    }
}

/// What `*` returns: the product of two numbers.
pub open spec fn mul_result(args: Seq<Value>, facts: Facts) -> Result<Value, StopView> {
    binary_result(Operation::Mul, args[0], args[1], facts)
}

/// `*`: the product of two numbers.
pub fn mul(args: &[Cell], floats: &FloatTable) -> (r: Result<Cell, Stop>)
    requires
        args@.len() == 2,
        all_numbers(views(args@)),
    ensures
        outcome(r) == mul_result(views(args@), floats@),
{
    assert(is_number(views(args@)[0]));
    assert(is_number(views(args@)[1]));
    binary(Operation::Mul, &args[0], &args[1], floats)
}

/// Whether a number is zero: the integer 0, or one of the two zero doubles.
pub open spec fn is_zero_number(v: Value) -> bool {
    match v {
        Value::Integer(i) => i == 0,
        Value::Float(f) => is_zero(f),
        _ => false,
    }
}

/// What `/` returns: an error for a divisor that is zero, else the quotient of
/// two numbers.
pub open spec fn div_result(args: Seq<Value>, facts: Facts) -> Result<Value, StopView> {
    if is_zero_number(args[1]) {
        Ok(Value::Error("/, 2, can't divide by zero"@))
    } else {
        binary_result(Operation::Div, args[0], args[1], facts)
    }
}

/// `/`: the quotient of two numbers. Division by zero is an error value.
pub fn div(args: &[Cell], floats: &FloatTable) -> (r: Result<Cell, Stop>)
    requires
        args@.len() == 2,
        all_numbers(views(args@)),
    ensures
        outcome(r) == div_result(views(args@), floats@),
{
    assert(is_number(views(args@)[0]));
    assert(is_number(views(args@)[1]));
    let by_zero = match &args[1] {
        Cell::Integer(b) => *b == 0,
        Cell::Float(b) => zero(*b),
        _ => false,
    };
    if by_zero {
        Ok(Cell::Error(String::from_str("/, 2, can't divide by zero")))
    } else {
        binary(Operation::Div, &args[0], &args[1], floats)
    }
}

/// What `==` returns: whether its two arguments are equal values.
pub open spec fn eq_result(args: Seq<Value>) -> Value {
    Value::Bool(same_value(args[0], args[1]))
}

/// `==`: whether two values are equal.
pub fn eq(args: &[Cell]) -> (r: Cell)
    requires
        args@.len() == 2,
    ensures
        r@ == eq_result(views(args@)),
{
    Cell::Bool(cell_equal(&args[0], &args[1]))
}

/// What `!=` returns: whether its two arguments are not equal values.
pub open spec fn ne_result(args: Seq<Value>) -> Value {
    Value::Bool(!same_value(args[0], args[1]))
}

/// `!=`: whether two values differ.
pub fn ne(args: &[Cell]) -> (r: Cell)
    requires
        args@.len() == 2,
    ensures
        r@ == ne_result(views(args@)),
{
    Cell::Bool(!cell_equal(&args[0], &args[1]))
}

/// Whether the text `a` comes before the text `b`: at the first place where
/// they differ `a` has the lesser character, or `a` ends there and `b` goes
/// on.
pub open spec fn text_lt(a: Seq<char>, b: Seq<char>) -> bool
    decreases a.len(),
{
    if b.len() == 0 {
        false
    } else if a.len() == 0 {
        true
    } else if a[0] != b[0] {
        a[0] < b[0]
    } else {
        text_lt(a.drop_first(), b.drop_first())
    }
}

fn text_less(a: &String, b: &String) -> (r: bool)
    ensures
        r == text_lt(a@, b@),
{
    let x = chars_of(a.as_str());
    let y = chars_of(b.as_str());
    let mut i: usize = 0;
    assert(x@.skip(0) =~= x@ && y@.skip(0) =~= y@);
    while i < x.len() && i < y.len()
        invariant
            i <= x.len(),
            i <= y.len(),
            x@ == a@,
            y@ == b@,
            text_lt(a@, b@) == text_lt(x@.skip(i as int), y@.skip(i as int)),
        decreases x.len() - i,
    {
        proof {
            assert(x@.skip(i as int)[0] == x@[i as int]);
            assert(y@.skip(i as int)[0] == y@[i as int]);
            assert(x@.skip(i as int).drop_first() =~= x@.skip(i + 1));
            assert(y@.skip(i as int).drop_first() =~= y@.skip(i + 1));
        }
        if x[i] != y[i] {
            return x[i] < y[i];
        }
        i += 1;
    }
    i < y.len()
}

/// Whether `a` is below `b`: for two integers, two doubles, two characters
/// or two strings, in the order of their kind; for any other pair, no.
pub open spec fn value_lt(a: Value, b: Value) -> bool {
    match (a, b) {
        (Value::Integer(x), Value::Integer(y)) => x < y,
        (Value::Float(x), Value::Float(y)) => float_lt(x, y),
        (Value::Char(x), Value::Char(y)) => x < y,
        (Value::Str(x), Value::Str(y)) => text_lt(x, y),
        _ => false,
    }
}

/// Whether `a` and `b` are of one kind that has an order, and equal in it.
pub open spec fn value_same_rank(a: Value, b: Value) -> bool {
    match (a, b) {
        (Value::Integer(x), Value::Integer(y)) => x == y,
        (Value::Float(x), Value::Float(y)) => float_eq(x, y),
        (Value::Char(x), Value::Char(y)) => x == y,
        (Value::Str(x), Value::Str(y)) => x == y,
        _ => false,
    }
}

fn below(a: &Cell, b: &Cell) -> (r: bool)
    ensures
        r == value_lt(a@, b@),
{
    match (a, b) {
        (Cell::Integer(x), Cell::Integer(y)) => *x < *y,
        (Cell::Float(x), Cell::Float(y)) => less(*x, *y),
        (Cell::Char(x), Cell::Char(y)) => *x < *y,
        (Cell::Str(x), Cell::Str(y)) => text_less(x, y),
        _ => false,
    }
}

fn same_rank(a: &Cell, b: &Cell) -> (r: bool)
    ensures
        r == value_same_rank(a@, b@),
{
    match (a, b) {
        (Cell::Integer(x), Cell::Integer(y)) => *x == *y,
        (Cell::Float(x), Cell::Float(y)) => crate::floats::equal(*x, *y),
        (Cell::Char(x), Cell::Char(y)) => *x == *y,
        (Cell::Str(x), Cell::Str(y)) => crate::text::same_text(x, y),
        _ => false,
    }
}

/// What `<` returns: true for two arguments of one ordered kind with the first
/// below the second, false for anything else.
pub open spec fn lt_result(args: Seq<Value>) -> Value {
    Value::Bool(args.len() == 2 && value_lt(args[0], args[1]))
}

/// `<`.
pub fn lt(args: &[Cell]) -> (r: Cell)
    ensures
        r@ == lt_result(views(args@)),
{
    Cell::Bool(args.len() == 2 && below(&args[0], &args[1]))
}

/// What `<=` returns: true for two arguments of one ordered kind with the
/// first below or equal to the second, false for anything else.
pub open spec fn lte_result(args: Seq<Value>) -> Value {
    Value::Bool(
        args.len() == 2 && (value_lt(args[0], args[1]) || value_same_rank(args[0], args[1])),
    )
}

/// `<=`.
pub fn lte(args: &[Cell]) -> (r: Cell)
    ensures
        r@ == lte_result(views(args@)),
{
    Cell::Bool(
        args.len() == 2 && (below(&args[0], &args[1]) || same_rank(&args[0], &args[1])),
    )
}

/// What `>` returns: true for two arguments of one ordered kind with the
/// second below the first, false for anything else.
pub open spec fn gt_result(args: Seq<Value>) -> Value {
    Value::Bool(args.len() == 2 && value_lt(args[1], args[0]))
}

/// `>`.
pub fn gt(args: &[Cell]) -> (r: Cell)
    ensures
        r@ == gt_result(views(args@)),
{
    Cell::Bool(args.len() == 2 && below(&args[1], &args[0]))
}

/// What `>=` returns: true for two arguments of one ordered kind with the
/// second below or equal to the first, false for anything else.
pub open spec fn gte_result(args: Seq<Value>) -> Value {
    Value::Bool(
        args.len() == 2 && (value_lt(args[1], args[0]) || value_same_rank(args[0], args[1])),
    )
}

/// `>=`.
pub fn gte(args: &[Cell]) -> (r: Cell)
    ensures
        r@ == gte_result(views(args@)),
{
    Cell::Bool(
        args.len() == 2 && (below(&args[1], &args[0]) || same_rank(&args[0], &args[1])),
    )
}

/// What `and` returns: whether every argument is the boolean true.
pub open spec fn and_result(args: Seq<Value>) -> Value {
    Value::Bool(forall|i: int| 0 <= i < args.len() ==> #[trigger] args[i] == Value::Bool(true))
}

/// `and`: true when all arguments are true; false as soon as one is false or
/// is no boolean.
pub fn and(args: &[Cell]) -> (r: Cell)
    ensures
        r@ == and_result(views(args@)),
{
    let ghost vs = views(args@);
    let mut i: usize = 0;
    while i < args.len()
        invariant
            i <= args.len(),
            vs == views(args@),
            forall|j: int| 0 <= j < i ==> #[trigger] vs[j] == Value::Bool(true),
        decreases args.len() - i,
    {
        assert(vs[i as int] == args@[i as int]@);
        match &args[i] {
            Cell::Bool(true) => {},
            _ => {
                assert(vs[i as int] != Value::Bool(true));
                return Cell::Bool(false);
            },
        }
        i += 1;
    }
    Cell::Bool(true)
}

/// The position of the first argument that is not the boolean false, or the
/// number of arguments if all are.
pub open spec fn first_not_false(args: Seq<Value>) -> int
    decreases args.len(),
{
    if args.len() == 0 {
        0
    } else if args[0] != Value::Bool(false) {
        0
    } else {
        1 + first_not_false(args.drop_first())
    }
}

/// What `or` returns: reading the arguments from the left, true if the first
/// that is not false is true; false if it is no boolean, or if all are false.
pub open spec fn or_result(args: Seq<Value>) -> Value {
    let i = first_not_false(args);
    Value::Bool(0 <= i < args.len() && args[i] == Value::Bool(true))
}

/// `or`: true at the first argument that is true; false at one that is no
/// boolean, and when all are false.
pub fn or(args: &[Cell]) -> (r: Cell)
    ensures
        r@ == or_result(views(args@)),
{
    let ghost vs = views(args@);
    let mut i: usize = 0;
    assert(vs.skip(0) =~= vs);
    while i < args.len()
        invariant
            i <= args.len(),
            vs == views(args@),
            first_not_false(vs) == i + first_not_false(vs.skip(i as int)),
        decreases args.len() - i,
    {
        proof {
            assert(vs[i as int] == args@[i as int]@);
            assert(vs.skip(i as int)[0] == vs[i as int]);
            assert(vs.skip(i as int).drop_first() =~= vs.skip(i + 1));
        }
        match &args[i] {
            Cell::Bool(false) => {},
            Cell::Bool(true) => {
                return Cell::Bool(true);
            },
            _ => {
                return Cell::Bool(false);
            },
        }
        i += 1;
    }
    Cell::Bool(false)
}

/// What `not` returns: the opposite of a single boolean, false for anything
/// else.
pub open spec fn not_result(args: Seq<Value>) -> Value {
    Value::Bool(args.len() == 1 && args[0] == Value::Bool(false))
}

/// `not`.
pub fn not(args: &[Cell]) -> (r: Cell)
    ensures
        r@ == not_result(views(args@)),
{
    if args.len() == 1 {
        match &args[0] {
            Cell::Bool(b) => Cell::Bool(!*b),
            _ => Cell::Bool(false),
        }
    } else {
        Cell::Bool(false)
    }
}

/// `list`: its arguments as a Q-expression.
pub fn list(args: &[Cell]) -> (r: Cell)
    ensures
        r@ == Value::Qexpr(views(args@)),
{
    let v = clone_cells(args, 0, args.len());
    assert(views(args@).subrange(0, args@.len() as int) =~= views(args@));
    Cell::Qexpr(v)
}

/// Whether the arguments are one Q-expression of at least `least` elements.
pub open spec fn one_list(args: Seq<Value>, least: nat) -> bool {
    args.len() == 1 && args[0] is Qexpr && args[0]->Qexpr_0.len() >= least
}

/// `head`: the first element of a Q-expression that has one.
pub fn head(args: &[Cell]) -> (r: Cell)
    requires
        one_list(views(args@), 1),
    ensures
        r@ == views(args@)[0]->Qexpr_0[0],
{
    assert(views(args@)[0] == args@[0]@);
    match &args[0] {
        Cell::Qexpr(v) => {
            assert(views(v@)[0] == v@[0]@);
            v[0].clone()
        },
        _ => Cell::Nil,
    }
}

/// `tail`: a Q-expression without its first element.
pub fn tail(args: &[Cell]) -> (r: Cell)
    requires
        one_list(views(args@), 1),
    ensures
        r@ == Value::Qexpr(views(args@)[0]->Qexpr_0.drop_first()),
{
    assert(views(args@)[0] == args@[0]@);
    match &args[0] {
        Cell::Qexpr(v) => {
            let w = clone_cells(v.as_slice(), 1, v.len());
            assert(views(v@).subrange(1, v@.len() as int) =~= views(v@).drop_first());
            Cell::Qexpr(w)
        },
        _ => Cell::Nil,
    }
}

/// `init`: a Q-expression without its last element.
pub fn init(args: &[Cell]) -> (r: Cell)
    requires
        one_list(views(args@), 1),
    ensures
        r@ == Value::Qexpr(views(args@)[0]->Qexpr_0.drop_last()),
{
    assert(views(args@)[0] == args@[0]@);
    match &args[0] {
        Cell::Qexpr(v) => {
            let w = clone_cells(v.as_slice(), 0, v.len() - 1);
            assert(views(v@).subrange(0, v@.len() - 1) =~= views(v@).drop_last());
            Cell::Qexpr(w)
        },
        _ => Cell::Nil,
    }
}

/// Whether all the values of a sequence are Q-expressions.
pub open spec fn all_lists(args: Seq<Value>) -> bool {
    forall|i: int| 0 <= i < args.len() ==> (#[trigger] args[i]) is Qexpr
}

/// The elements of a sequence of Q-expressions, one list after the other.
pub open spec fn joined(args: Seq<Value>) -> Seq<Value>
    decreases args.len(),
{
    if args.len() == 0 {
        Seq::empty()
    } else {
        joined(args.drop_last()) + args.last()->Qexpr_0
    }
}

/// `join`: the elements of its arguments, all Q-expressions, as one
/// Q-expression.
pub fn join(args: &[Cell]) -> (r: Cell)
    requires
        all_lists(views(args@)),
    ensures
        r@ == Value::Qexpr(joined(views(args@))),
{
    let ghost vs = views(args@);
    let mut res: Vec<Cell> = Vec::new();
    let mut i: usize = 0;
    assert(vs.take(0) =~= Seq::<Value>::empty());
    assert(views(res@) =~= Seq::<Value>::empty());
    while i < args.len()
        invariant
            i <= args.len(),
            vs == views(args@),
            all_lists(vs),
            views(res@) == joined(vs.take(i as int)),
        decreases args.len() - i,
    {
        proof {
            assert(vs.take(i + 1).drop_last() =~= vs.take(i as int));
            assert(vs.take(i + 1).last() == args@[i as int]@);
            assert(vs[i as int] is Qexpr);
        }
        match &args[i] {
            Cell::Qexpr(v) => {
                let ghost before = views(res@);
                let mut k: usize = 0;
                while k < v.len()
                    invariant
                        k <= v.len(),
                        views(res@) == before + views(v@).take(k as int),
                    decreases v.len() - k,
                {
                    proof {
                        lemma_views_push(res@, v@[k as int]);
                        assert(views(v@).take(k + 1) =~= views(v@).take(k as int).push(
                            v@[k as int]@,
                        ));
                        assert((before + views(v@).take(k as int)).push(v@[k as int]@) =~= before
                            + views(v@).take(k + 1));
                    }
                    res.push(v[k].clone());
                    k += 1;
                }
                assert(views(v@).take(v@.len() as int) =~= views(v@));
            },
            _ => {},
        }
        i += 1;
    }
    assert(vs.take(args.len() as int) =~= vs);
    Cell::Qexpr(res)
}

/// A length as an integer value; a length beyond the largest integer counts
/// as the largest.
pub open spec fn length_value(n: nat) -> Value {
    Value::Integer(
        if n <= i64::MAX {
            n as i64
        } else {
            i64::MAX
        },
    )
}

/// `len`: the number of elements of a Q-expression.
pub fn len(args: &[Cell]) -> (r: Cell)
    requires
        one_list(views(args@), 0),
    ensures
        r@ == length_value(views(args@)[0]->Qexpr_0.len()),
{
    assert(views(args@)[0] == args@[0]@);
    match &args[0] {
        Cell::Qexpr(v) => {
            let n = v.len();
            assert(views(v@).len() == n);
            if n as u64 <= 9223372036854775807u64 {
                Cell::Integer(n as i64)
            } else {
                Cell::Integer(i64::MAX)
            }
        },
        _ => Cell::Nil,
    }
}

/// Whether the arguments are two Q-expressions.
pub open spec fn two_lists(args: Seq<Value>) -> bool {
    args.len() == 2 && args[0] is Qexpr && args[1] is Qexpr
}

/// `lambda`: the function with the first Q-expression as its parameters and
/// the second as its body, made in `scope`.
pub fn lambda(scope: ScopeId, args: &[Cell]) -> (r: Cell)
    requires
        two_lists(views(args@)),
    ensures
        r@ == Value::Lambda(views(args@)[0]->Qexpr_0, views(args@)[1]->Qexpr_0, scope),
{
    assert(views(args@)[0] == args@[0]@);
    assert(views(args@)[1] == args@[1]@);
    match (&args[0], &args[1]) {
        (Cell::Qexpr(parameters), Cell::Qexpr(body)) => Cell::Lambda(
            Box::new(
                LambdaSpec {
                    arguments: clone_all(parameters),
                    body: clone_all(body),
                    environment: scope,
                },
            ),
        ),
        _ => Cell::Nil,
    }
}

/// What `def` does and returns. With a single name, the name is bound to the
/// second argument in the outermost scope. With a name and parameters, the
/// name is bound there to the function with those parameters whose body is
/// the second argument, a Q-expression, and which is made in `scope`; if the
/// second argument is no Q-expression, an error is returned and nothing is
/// bound.
pub open spec fn define(env: EnvironmentView, scope: ScopeId, args: Seq<Value>) -> Run {
    let target = args[0]->Qexpr_0;
    let name = target[0]->Symbol_0;
    if target.len() == 1 {
        done(env.insert_top(scope, name, args[1]), Value::Nil)
    } else {
        match args[1] {
            Value::Qexpr(body) => done(
                env.insert_top(scope, name, Value::Lambda(target.drop_first(), body, scope)),
                Value::Nil,
            ),
            _ => done(
                env,
                Value::Error("def, when defining a function argument 2 has to be a List"@),
            ),
        }
    }
}

/// What `def` needs of its arguments: a Q-expression that begins with a
/// symbol, and one more value.
pub open spec fn definable(args: Seq<Value>) -> bool {
    args.len() == 2 && args[0] is Qexpr && args[0]->Qexpr_0.len() >= 1 && args[0]->Qexpr_0[0] is Symbol
}

/// What `set!` needs of its arguments: a Q-expression of one symbol, and one
/// more value.
pub open spec fn assignable(args: Seq<Value>) -> bool {
    args.len() == 2 && args[0] is Qexpr && args[0]->Qexpr_0.len() == 1 && args[0]->Qexpr_0[0] is Symbol
}

/// What `set!` does and returns: the name is bound to the second argument in
/// `scope` itself.
pub open spec fn assign(env: EnvironmentView, scope: ScopeId, args: Seq<Value>) -> Run {
    done(env.insert(scope, args[0]->Qexpr_0[0]->Symbol_0, args[1]), Value::Nil)
}

/// What `print` does and returns: each argument in turn, as it is written,
/// becomes one more printed line.
pub open spec fn print_all(env: EnvironmentView, args: Seq<Value>, facts: Facts) -> Run
    decreases args.len(),
{
    if args.len() == 0 {
        done(env, Value::Nil)
    } else {
        let before = print_all(env, args.drop_last(), facts);
        match before.result {
            Err(_) => before,
            Ok(_) => match cell_text(args.last(), facts) {
                Ok(line) => done(before.env.with_line(line), Value::Nil),
                Err(s) => Run { env: before.env, result: Err(s) },
            },
        }
    }
}

/// The form that `eval` evaluates for an argument: a Q-expression read as an
/// S-expression, any other value as it is.
pub open spec fn as_form(v: Value) -> Value {
    match v {
        Value::Qexpr(l) => Value::Sexpr(l),
        _ => v,
    }
}


/// A stop met while printing the first arguments is the stop of printing them
/// all, and nothing more is printed after it.
proof fn lemma_print_stops(env: EnvironmentView, args: Seq<Value>, facts: Facts, n: int)
    requires
        0 <= n <= args.len(),
        print_all(env, args.take(n), facts).result is Err,
    ensures
        print_all(env, args, facts) == print_all(env, args.take(n), facts),
    decreases args.len() - n,
{
    if n == args.len() {
        assert(args.take(n) =~= args);
    } else {
        assert(args.take(n + 1).drop_last() =~= args.take(n));
        lemma_print_stops(env, args, facts, n + 1);
    }
}

/// `print`: prints each argument on a line of its own, and returns nil.
pub fn print(env: &mut Environment, args: &[Cell], floats: &FloatTable) -> (r: Result<Cell, Stop>)
    ensures
        (Run { env: final(env)@, result: outcome(r) }) == print_all(
            old(env)@,
            views(args@),
            floats@,
        ),
{
    let ghost vs = views(args@);
    let mut i: usize = 0;
    assert(vs.take(0) =~= Seq::<Value>::empty());
    while i < args.len()
        invariant
            i <= args.len(),
            vs == views(args@),
            print_all(old(env)@, vs.take(i as int), floats@) == done(env@, Value::Nil),
        decreases args.len() - i,
    {
        proof {
            assert(vs.take(i + 1).drop_last() =~= vs.take(i as int));
            assert(vs.take(i + 1).last() == args@[i as int]@);
        }
        match args[i].to_string(floats) {
            Ok(line) => {
                env.print_line(line);
            },
            Err(s) => {
                proof {
                    lemma_print_stops(old(env)@, vs, floats@, i + 1);
                }
                return Err(s);
            },
        }
        i += 1;
    }
    assert(vs.take(args.len() as int) =~= vs);
    Ok(Cell::Nil)
}

/// `def`: binds a name in the outermost scope, to a value or to a function
/// made of the parameters after the name and the body given.
pub fn def(env: &mut Environment, scope: ScopeId, args: &[Cell]) -> (r: Cell)
    requires
        definable(views(args@)),
    ensures
        done(final(env)@, r@) == define(old(env)@, scope, views(args@)),
{
    assert(views(args@)[0] == args@[0]@);
    assert(views(args@)[1] == args@[1]@);
    match &args[0] {
        Cell::Qexpr(v) => {
            assert(views(v@)[0] == v@[0]@);
            match &v[0] {
                Cell::Symbol(s) => {
                    if v.len() == 1 {
                        env.insert_top(scope, s.as_str(), &args[1]);
                        Cell::Nil
                    } else {
                        match &args[1] {
                            Cell::Qexpr(body) => {
                                let parameters = clone_cells(v.as_slice(), 1, v.len());
                                assert(views(v@).subrange(1, v@.len() as int) =~= views(
                                    v@,
                                ).drop_first());
                                let function = Cell::Lambda(
                                    Box::new(
                                        LambdaSpec {
                                            arguments: parameters,
                                            body: clone_all(body),
                                            environment: scope,
                                        },
                                    ),
                                );
                                env.insert_top(scope, s.as_str(), &function);
                                Cell::Nil
                            },
                            _ => Cell::Error(
                                String::from_str(
                                    "def, when defining a function argument 2 has to be a List",
                                ),
                            ),
                        }
                    }
                },
                _ => Cell::Nil,
            }
        },
        _ => Cell::Nil,
    }
}

/// `set!`: binds a name in the scope of the call.
pub fn set(env: &mut Environment, scope: ScopeId, args: &[Cell]) -> (r: Cell)
    requires
        assignable(views(args@)),
    ensures
        done(final(env)@, r@) == assign(old(env)@, scope, views(args@)),
{
    assert(views(args@)[0] == args@[0]@);
    assert(views(args@)[1] == args@[1]@);
    match &args[0] {
        Cell::Qexpr(v) => {
            assert(views(v@)[0] == v@[0]@);
            match &v[0] {
                Cell::Symbol(s) => {
                    env.insert(scope, s.as_str(), &args[1]);
                    Cell::Nil
                },
                _ => Cell::Nil,
            }
        },
        _ => Cell::Nil,
    }
}

/// Evaluates a value as `eval` does: a Q-expression as the S-expression of its
/// elements, any other value as it is.
pub fn eval_form(
    env: &mut Environment,
    scope: ScopeId,
    form: &Cell,
    depth: usize,
    floats: &FloatTable,
) -> (r: Result<Cell, Stop>)
    ensures
        (Run { env: final(env)@, result: outcome(r) }) == evaluation(
            old(env)@,
            scope,
            as_form(form@),
            depth as nat,
            floats@,
        ),
    decreases depth, 1nat, 0nat,
{
    match form {
        Cell::Qexpr(v) => {
            let call = Cell::Sexpr(clone_all(v));
            crate::eval::eval(env, scope, &call, depth, floats)
        },
        _ => crate::eval::eval(env, scope, form, depth, floats),
    }
}

/// `eval`: evaluates its argument, a Q-expression as the S-expression of its
/// elements.
pub fn eval(
    env: &mut Environment,
    scope: ScopeId,
    args: &[Cell],
    depth: usize,
    floats: &FloatTable,
) -> (r: Result<Cell, Stop>)
    requires
        args@.len() == 1,
    ensures
        (Run { env: final(env)@, result: outcome(r) }) == evaluation(
            old(env)@,
            scope,
            as_form(views(args@)[0]),
            depth as nat,
            floats@,
        ),
    decreases depth, 1nat, 1nat,
{
    assert(views(args@)[0] == args@[0]@);
    eval_form(env, scope, &args[0], depth, floats)
}

/// The branch that `if` takes: the second argument where the first is true,
/// else the third.
pub open spec fn branch(args: Seq<Value>) -> Value {
    if args[0] == Value::Bool(true) {
        args[1]
    } else {
        args[2]
    }
}

/// `if`: evaluates, as `eval` does, the second argument where the first is
/// true and the third where it is false.
pub fn if_func(
    env: &mut Environment,
    scope: ScopeId,
    args: &[Cell],
    depth: usize,
    floats: &FloatTable,
) -> (r: Result<Cell, Stop>)
    requires
        args@.len() == 3,
        views(args@)[0] is Bool,
    ensures
        (Run { env: final(env)@, result: outcome(r) }) == evaluation(
            old(env)@,
            scope,
            as_form(branch(views(args@))),
            depth as nat,
            floats@,
        ),
    decreases depth, 1nat, 1nat,
{
    assert(views(args@)[0] == args@[0]@);
    assert(views(args@)[1] == args@[1]@);
    assert(views(args@)[2] == args@[2]@);
    match &args[0] {
        Cell::Bool(true) => eval_form(env, scope, &args[1], depth, floats),
        _ => eval_form(env, scope, &args[2], depth, floats),
    }
}

} // verus!
