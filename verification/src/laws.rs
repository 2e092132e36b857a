//! Laws of the language, proved from the meaning that `eval` and the native
//! functions are proved to have.

use vstd::prelude::*;
use crate::builtin::{
    Sum, add_result, all_numbers, div_result, integer_quotient, is_number, is_zero_number,
    mul_result, sub_result, sum_of,
};
use crate::cell::{Facts, Value};
use crate::environment::{EnvironmentView, ScopeId};
use crate::eval::{
    application, done, evaluated_arguments, evaluation, first_error_of, lemma_arguments_end,
};
use crate::floats::StopView;

verus! {

/// Whether one of the values is a double.
pub open spec fn has_float(args: Seq<Value>) -> bool {
    exists|i: int| 0 <= i < args.len() && (#[trigger] args[i]) is Float
}

/// The sum of numbers is a double exactly when one of them is a double;
/// integers alone add up to an integer.
pub proof fn law_sum_kind(args: Seq<Value>, facts: Facts)
    requires
        all_numbers(args),
    ensures
        match sum_of(args, facts) {
            Ok(Sum::Integer(_)) => !has_float(args),
            Ok(Sum::Float(_)) => has_float(args),
            Err(_) => has_float(args),
        },
    decreases args.len(),
{
    if args.len() > 0 {
        let before = args.drop_last();
        assert(all_numbers(before)) by {
            assert forall|i: int| 0 <= i < before.len() implies is_number(#[trigger] before[i]) by {
                assert(before[i] == args[i]);
            }
        }
        law_sum_kind(before, facts);
        assert(is_number(args[args.len() - 1]));
        if has_float(before) {
            let i = choose|i: int| 0 <= i < before.len() && (#[trigger] before[i]) is Float;
            assert(args[i] is Float);
        }
        if has_float(args) && !has_float(before) {
            let i = choose|i: int| 0 <= i < args.len() && (#[trigger] args[i]) is Float;
            if i < before.len() {
                assert(before[i] is Float);
            }
        }
    }
}

/// Arithmetic on two integers gives an integer: the sum, the difference and
/// the product with wrap-around, and for a divisor other than zero the
/// quotient rounded towards zero. No fact about doubles is needed.
pub proof fn law_integer_arithmetic(a: i64, b: i64, facts: Facts)
    ensures
        add_result(seq![Value::Integer(a), Value::Integer(b)], facts) == Ok::<
            Value,
            StopView,
        >(Value::Integer(a.wrapping_add(b))),
        sub_result(seq![Value::Integer(a), Value::Integer(b)], facts) == Ok::<
            Value,
            StopView,
        >(Value::Integer(a.wrapping_sub(b))),
        mul_result(seq![Value::Integer(a), Value::Integer(b)], facts) == Ok::<
            Value,
            StopView,
        >(Value::Integer(a.wrapping_mul(b))),
        b != 0 ==> div_result(seq![Value::Integer(a), Value::Integer(b)], facts) == Ok::<
            Value,
            StopView,
        >(Value::Integer(integer_quotient(a, b))),
{
    let args = seq![Value::Integer(a), Value::Integer(b)];
    reveal_with_fuel(sum_of, 3);
    assert(args.drop_last() =~= seq![Value::Integer(a)]);
    assert(args.drop_last().drop_last() =~= Seq::<Value>::empty());
    assert(0i64.wrapping_add(a) == a);
}

/// Division by zero, of any number by the integer or a double zero, gives the
/// error value that says so.
pub proof fn law_division_by_zero(a: Value, b: Value, facts: Facts)
    requires
        is_zero_number(b),
    ensures
        div_result(seq![a, b], facts) == Ok::<Value, StopView>(
            Value::Error("/, 2, can't divide by zero"@),
        ),
{
}

/// With a double on either side, arithmetic on two numbers gives a double
/// whenever it gives a value, but for the error of dividing by zero.
pub proof fn law_float_promotion(a: Value, b: Value, facts: Facts)
    requires
        is_number(a),
        is_number(b),
        a is Float || b is Float,
    ensures
        add_result(seq![a, b], facts) matches Ok(v) ==> v is Float,
        sub_result(seq![a, b], facts) matches Ok(v) ==> v is Float,
        mul_result(seq![a, b], facts) matches Ok(v) ==> v is Float,
        div_result(seq![a, b], facts) matches Ok(v) ==> v is Float || is_zero_number(b),
{
    let args = seq![a, b];
    assert(all_numbers(args)) by {
        assert forall|i: int| 0 <= i < args.len() implies is_number(#[trigger] args[i]) by {}
    }
    law_sum_kind(args, facts);
    if a is Float {
        assert(args[0] is Float);
    } else {
        assert(args[1] is Float);
    }
}

/// An argument that is an error as it stands is the result of the call, and
/// nothing is evaluated: the environment stays as it was.
pub proof fn law_raw_error_returned(
    env: EnvironmentView,
    scope: ScopeId,
    procedure: Value,
    raw: Seq<Value>,
    depth: nat,
    facts: Facts,
)
    requires
        first_error_of(raw) is Some,
    ensures
        application(env, scope, procedure, raw, depth, facts) == done(
            env,
            first_error_of(raw)->Some_0,
        ),
        first_error_of(raw)->Some_0 is Error,
{
    lemma_first_error_is_error(raw);
}

proof fn lemma_first_error_is_error(raw: Seq<Value>)
    requires
        first_error_of(raw) is Some,
    ensures
        first_error_of(raw)->Some_0 is Error,
    decreases raw.len(),
{
    if raw.len() > 0 && !(raw[0] is Error) {
        lemma_first_error_is_error(raw.drop_first());
    }
}

/// If the arguments before argument `k` evaluate to values that are no errors
/// and argument `k` evaluates to an error, then the call comes to exactly what
/// evaluating argument `k` came to: that error, unchanged, in the environment
/// as argument `k` left it. Whatever the procedure is, it is not called, and
/// no argument after `k` is evaluated.
pub proof fn law_error_short_circuit(
    env: EnvironmentView,
    scope: ScopeId,
    procedure: Value,
    raw: Seq<Value>,
    depth: nat,
    facts: Facts,
    k: int,
)
    requires
        0 <= k < raw.len(),
        first_error_of(raw) is None,
        evaluated_arguments(env, scope, raw.take(k), depth, facts).arguments is Values,
        evaluation(
            evaluated_arguments(env, scope, raw.take(k), depth, facts).env,
            scope,
            raw[k],
            depth,
            facts,
        ).result matches Ok(Value::Error(_)),
    ensures
        application(env, scope, procedure, raw, depth, facts) == evaluation(
            evaluated_arguments(env, scope, raw.take(k), depth, facts).env,
            scope,
            raw[k],
            depth,
            facts,
        ),
{
    assert(raw.take(k + 1).drop_last() =~= raw.take(k));
    assert(raw.take(k + 1).last() == raw[k]);
    lemma_arguments_end(env, scope, raw, depth, facts, k + 1);
}

/// A call whose first element evaluates to an error comes to that error: the
/// other elements are not evaluated.
pub proof fn law_failed_head(
    env: EnvironmentView,
    scope: ScopeId,
    form: Seq<Value>,
    depth: nat,
    facts: Facts,
)
    requires
        form.len() > 0,
        depth > 0,
        evaluation(env, scope, form[0], (depth - 1) as nat, facts).result matches Ok(
            Value::Error(_),
        ),
    ensures
        evaluation(env, scope, Value::Sexpr(form), depth, facts) == evaluation(
            env,
            scope,
            form[0],
            (depth - 1) as nat,
            facts,
        ),
{
}

} // verus!
