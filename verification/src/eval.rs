//! Evaluation: what a form reduces to in a scope, and what it does to the
//! environment on the way.
//!
//! The meaning of the language is given by the spec functions `evaluation`,
//! `application` and their helpers, which compute on the mathematical forms of
//! values and environments. The executable functions `eval` and `apply` are
//! proved to compute exactly that.
//!
//! Calls nest at most `depth` deep: a form that needs more ends in
//! `Stop::Depth`. A form that needs a fact about doubles which the table lacks
//! ends in `Stop::Float` with the question.

use vstd::prelude::*;
use crate::builtin::{
    add_result, all_lists, all_numbers, and_result, as_form, assign, assignable, branch,
    definable, define, div_result, eq_result, gt_result, gte_result, is_number, joined,
    length_value, lt_result, lte_result, mul_result, ne_result, not_result, one_list, or_result,
    outcome, print_all, sub_result, two_lists,
};
use crate::cell::{
    BuiltinFunction, Cell, CurriedBuiltinSpec, Facts, LambdaSpec, Value, cell_text, clone_all,
    clone_cells, lemma_views_push, views,
};
use crate::environment::{Environment, EnvironmentView, ScopeId};
use crate::floats::{FloatTable, Stop, StopView};
use crate::globals::{builtin_name, builtin_types, describe, lemma_registry_checkable};
use crate::text::{decimal, push_digits, str_eq};
use crate::cell::matches_type;
use crate::globals::rest_view;
use crate::types::{
    TypeView, argument_fault, arity_fault, call_fault, count_optional, count_required, get_arity,
    has_ellipsis, is_required, lemma_checked_argument, lemma_checked_nested, lemma_slot_at_rest,
    lemma_slot_before_rest, signature_fault, validate,
};

verus! {

/// What an evaluation leaves behind: the environment after it, and the value
/// it came to or the reason it stopped.
pub struct Run {
    pub env: EnvironmentView,
    pub result: Result<Value, StopView>,
}

/// What evaluating the arguments of a call comes to.
pub enum Arguments {
    /// The values of all the arguments, none of them an error.
    Values(Seq<Value>),
    /// The error that the first failing argument evaluated to.
    Failed(Value),
    /// The reason the evaluation of an argument stopped.
    Stopped(StopView),
}

/// What evaluating the arguments of a call leaves behind.
pub struct ArgumentsRun {
    pub env: EnvironmentView,
    pub arguments: Arguments,
}

/// The first error among the values of a sequence.
pub open spec fn first_error_of(args: Seq<Value>) -> Option<Value>
    decreases args.len(),
{
    if args.len() == 0 {
        None
    } else if args[0] is Error {
        Some(args[0])
    } else {
        first_error_of(args.drop_first())
    }
}

/// The run that ends with `value` in `env`.
pub open spec fn done(env: EnvironmentView, value: Value) -> Run {
    Run { env, result: Ok(value) }
}

/// The run that ends in `env` with what a native function that leaves the
/// environment alone returned.
pub open spec fn pure(env: EnvironmentView, result: Result<Value, StopView>) -> Run {
    Run { env, result }
}

/// The run that ends with the error whose message is `procedure` as it is
/// written, followed by `rest`.
pub open spec fn complaint(
    env: EnvironmentView,
    procedure: Value,
    rest: Seq<char>,
    facts: Facts,
) -> Run {
    match cell_text(procedure, facts) {
        Ok(t) => done(env, Value::Error(t + rest)),
        Err(s) => Run { env, result: Err(s) },
    }
}

/// The name of the parameter that takes all the remaining arguments.
pub open spec fn rest_name() -> Seq<char> {
    "..."@
}

/// Binds the arguments from position `i` on to the parameters at the same
/// positions, in the scope `sub`. A parameter that is no symbol binds
/// nothing. The parameter `...` in the last place takes the arguments from
/// its position on as a Q-expression and ends the binding; anywhere else it
/// is a mistake. Returns the environment, and whether `...` took the rest
/// (`Some(true)`), all arguments were gone through (`Some(false)`), or `...`
/// was misplaced (`None`).
pub open spec fn bind_from(
    env: EnvironmentView,
    sub: ScopeId,
    parameters: Seq<Value>,
    args: Seq<Value>,
    i: int,
) -> (EnvironmentView, Option<bool>)
    decreases args.len() - i,
{
    if i < 0 || i >= args.len() {
        (env, Some(false))
    } else if i < parameters.len() && parameters[i] is Symbol {
        let name = parameters[i]->Symbol_0;
        if name == rest_name() {
            if i == parameters.len() - 1 {
                (env.insert(sub, name, Value::Qexpr(args.skip(i))), Some(true))
            } else {
                (env, None)
            }
        } else {
            bind_from(env.insert(sub, name, args[i]), sub, parameters, args, i + 1)
        }
    } else {
        bind_from(env, sub, parameters, args, i + 1)
    }
}

/// Whether a function's only parameter is `...`.
pub open spec fn takes_only_rest(parameters: Seq<Value>) -> bool {
    parameters.len() == 1 && parameters[0] == Value::Symbol(rest_name())
}

/// What a native function needs of its arguments.
pub open spec fn accepts(f: BuiltinFunction, args: Seq<Value>) -> bool {
    match f {
        BuiltinFunction::Add => all_numbers(args),
        BuiltinFunction::Sub => 1 <= args.len() <= 2 && all_numbers(args),
        BuiltinFunction::Mul => args.len() == 2 && all_numbers(args),
        BuiltinFunction::Div => args.len() == 2 && all_numbers(args),
        BuiltinFunction::Eq => args.len() == 2,
        BuiltinFunction::Ne => args.len() == 2,
        BuiltinFunction::Lt => true,
        BuiltinFunction::Lte => true,
        BuiltinFunction::Gt => true,
        BuiltinFunction::Gte => true,
        BuiltinFunction::And => true,
        BuiltinFunction::Or => true,
        BuiltinFunction::Not => true,
        BuiltinFunction::If => args.len() == 3 && args[0] is Bool,
        BuiltinFunction::Print => true,
        BuiltinFunction::List => true,
        BuiltinFunction::Head => one_list(args, 1),
        BuiltinFunction::Tail => one_list(args, 1),
        BuiltinFunction::Init => one_list(args, 1),
        BuiltinFunction::Join => all_lists(args),
        BuiltinFunction::Len => one_list(args, 0),
        BuiltinFunction::Eval => args.len() == 1,
        BuiltinFunction::Def => definable(args),
        BuiltinFunction::Assign => assignable(args),
        BuiltinFunction::Lambda => two_lists(args),
    }
}

/// What evaluating the form `c` in `scope` comes to. An S-expression with
/// elements is a call: its first element is evaluated, and unless that gives
/// an error, which is then the result, it is applied to the other elements.
/// A symbol stands for its value in `scope`. Every other value stands for
/// itself. A call uses up one level of `depth`.
pub open spec fn evaluation(
    env: EnvironmentView,
    scope: ScopeId,
    c: Value,
    depth: nat,
    facts: Facts,
) -> Run
    decreases depth, 0nat, 0nat,
{
    match c {
        Value::Sexpr(l) => if l.len() == 0 {
            done(env, c)
        } else if depth == 0 {
            Run { env, result: Err(StopView::Depth) }
        } else {
            let first = evaluation(env, scope, l[0], (depth - 1) as nat, facts);
            match first.result {
                Err(_) => first,
                Ok(Value::Error(_)) => first,
                Ok(procedure) => application(
                    first.env,
                    scope,
                    procedure,
                    l.drop_first(),
                    (depth - 1) as nat,
                    facts,
                ),
            }
        },
        Value::Symbol(name) => done(env, env.lookup(scope, name)),
        _ => done(env, c),
    }
}

/// What evaluating the forms `raw` in `scope`, from the left, comes to. The
/// first one that evaluates to an error, or whose evaluation stops, ends it:
/// the forms after it are not evaluated.
pub open spec fn evaluated_arguments(
    env: EnvironmentView,
    scope: ScopeId,
    raw: Seq<Value>,
    depth: nat,
    facts: Facts,
) -> ArgumentsRun
    decreases depth, 3nat, raw.len(),
{
    if raw.len() == 0 {
        ArgumentsRun { env, arguments: Arguments::Values(Seq::empty()) }
    } else {
        let before = evaluated_arguments(env, scope, raw.drop_last(), depth, facts);
        match before.arguments {
            Arguments::Values(values) => {
                let last = evaluation(before.env, scope, raw.last(), depth, facts);
                ArgumentsRun {
                    env: last.env,
                    arguments: match last.result {
                        Err(s) => Arguments::Stopped(s),
                        Ok(Value::Error(e)) => Arguments::Failed(Value::Error(e)),
                        Ok(v) => Arguments::Values(values.push(v)),
                    },
                }
            },
            _ => before,
        }
    }
}

/// What applying `procedure` to the forms `raw` in `scope` comes to. If one
/// of the forms is an error as it stands, the first such error is the result
/// and nothing is evaluated. Else the forms are evaluated from the left; the
/// first error among their values is the result, and the forms after it stay
/// unevaluated. Else the procedure is called with the values.
pub open spec fn application(
    env: EnvironmentView,
    scope: ScopeId,
    procedure: Value,
    raw: Seq<Value>,
    depth: nat,
    facts: Facts,
) -> Run
    decreases depth, 4nat, 0nat,
{
    match first_error_of(raw) {
        Some(e) => done(env, e),
        None => {
            let evaluated = evaluated_arguments(env, scope, raw, depth, facts);
            match evaluated.arguments {
                Arguments::Stopped(s) => Run { env: evaluated.env, result: Err(s) },
                Arguments::Failed(e) => done(evaluated.env, e),
                Arguments::Values(args) => call_meaning(
                    evaluated.env,
                    scope,
                    procedure,
                    args,
                    depth,
                    facts,
                ),
            }
        },
    }
}

/// What calling a native function with the arguments it has been given so far
/// comes to, `fresh` of them in this call. With enough arguments for its
/// required parameters the call is checked against the shapes of the
/// parameters: a fault is the result, as an error; a call in order runs the
/// function. With too few, the result is the function curried with what it has,
/// unless a curried function was given nothing more, which is an error.
pub open spec fn call_native_meaning(
    env: EnvironmentView,
    scope: ScopeId,
    procedure: Value,
    f: BuiltinFunction,
    args: Seq<Value>,
    fresh: nat,
    depth: nat,
    facts: Facts,
) -> Run
    decreases depth, 2nat, 0nat,
{
    if args.len() >= count_required(builtin_types(f)) {
        match call_fault(builtin_name(f), builtin_types(f), args) {
            Some(e) => done(env, Value::Error(e)),
            None => native(env, scope, f, args, depth, facts),
        }
    } else if procedure is CurriedBuiltin && fresh == 0 {
        complaint(env, procedure, " got no arguments"@, facts)
    } else {
        done(env, Value::CurriedBuiltin(f, args))
    }
}

/// What calling a function of the language comes to. A new scope is made
/// inside the scope the function was made in, and the arguments are bound
/// there to the parameters. With as many arguments as parameters, or with
/// `...` taking the rest, the body is evaluated in the new scope as an
/// S-expression. With fewer arguments, but at least one, the result is the
/// function of the remaining parameters, made in the new scope. No argument,
/// too many arguments and a misplaced `...` are errors.
pub open spec fn call_lambda_meaning(
    env: EnvironmentView,
    procedure: Value,
    args: Seq<Value>,
    depth: nat,
    facts: Facts,
) -> Run
    decreases depth, 2nat, 0nat,
{
    let parameters = procedure->Lambda_0;
    let body = procedure->Lambda_1;
    let sub = env.scopes.len() as ScopeId;
    let (bound, found) = bind_from(env.with_scope(procedure->Lambda_2), sub, parameters, args, 0);
    match found {
        None => done(bound, Value::Error("Lambda can only have ... as it's last argument"@)),
        Some(rest_taken) => {
            let empty_rest = args.len() == 0 && takes_only_rest(parameters);
            let ready = if empty_rest {
                bound.insert(sub, rest_name(), Value::Qexpr(Seq::empty()))
            } else {
                bound
            };
            if args.len() == parameters.len() || rest_taken || empty_rest {
                evaluation(ready, sub, Value::Sexpr(body), depth, facts)
            } else if args.len() < parameters.len() {
                if args.len() == 0 {
                    complaint(ready, procedure, " got no arguments"@, facts)
                } else {
                    done(
                        ready,
                        Value::Lambda(parameters.skip(args.len() as int), body, sub),
                    )
                }
            } else {
                complaint(
                    ready,
                    procedure,
                    " got to many arguments expected "@ + decimal(parameters.len() as int)
                        + " got "@ + decimal(args.len() as int),
                    facts,
                )
            }
        },
    }
}

/// What calling `procedure` with the values `args` comes to: see
/// `call_lambda_meaning` and `call_native_meaning`. A value that is no function gives an
/// error that says so.
pub open spec fn call_meaning(
    env: EnvironmentView,
    scope: ScopeId,
    procedure: Value,
    args: Seq<Value>,
    depth: nat,
    facts: Facts,
) -> Run
    decreases depth, 3nat, 0nat,
{
    match procedure {
        Value::Lambda(_, _, _) => call_lambda_meaning(env, procedure, args, depth, facts),
        Value::Builtin(f) => call_native_meaning(
            env,
            scope,
            procedure,
            f,
            args,
            args.len(),
            depth,
            facts,
        ),
        Value::CurriedBuiltin(f, bound) => call_native_meaning(
            env,
            scope,
            procedure,
            f,
            bound + args,
            args.len(),
            depth,
            facts,
        ),
        _ => complaint(
            env,
            procedure,
            " is not a procedure, is "@ + crate::types::type_text(crate::cell::type_of(procedure)),
            facts,
        ),
    }
}

/// What running the native function `f` on `args` comes to.
pub open spec fn native(
    env: EnvironmentView,
    scope: ScopeId,
    f: BuiltinFunction,
    args: Seq<Value>,
    depth: nat,
    facts: Facts,
) -> Run
    decreases depth, 1nat, 0nat,
{
    match f {
        BuiltinFunction::Add => pure(env, add_result(args, facts)),
        BuiltinFunction::Sub => pure(env, sub_result(args, facts)),
        BuiltinFunction::Mul => pure(env, mul_result(args, facts)),
        BuiltinFunction::Div => pure(env, div_result(args, facts)),
        BuiltinFunction::Eq => done(env, eq_result(args)),
        BuiltinFunction::Ne => done(env, ne_result(args)),
        BuiltinFunction::Lt => done(env, lt_result(args)),
        BuiltinFunction::Lte => done(env, lte_result(args)),
        BuiltinFunction::Gt => done(env, gt_result(args)),
        BuiltinFunction::Gte => done(env, gte_result(args)),
        BuiltinFunction::And => done(env, and_result(args)),
        BuiltinFunction::Or => done(env, or_result(args)),
        BuiltinFunction::Not => done(env, not_result(args)),
        BuiltinFunction::If => evaluation(env, scope, as_form(branch(args)), depth, facts),
        BuiltinFunction::Print => print_all(env, args, facts),
        BuiltinFunction::List => done(env, Value::Qexpr(args)),
        BuiltinFunction::Head => done(env, args[0]->Qexpr_0[0]),
        BuiltinFunction::Tail => done(env, Value::Qexpr(args[0]->Qexpr_0.drop_first())),
        BuiltinFunction::Init => done(env, Value::Qexpr(args[0]->Qexpr_0.drop_last())),
        BuiltinFunction::Join => done(env, Value::Qexpr(joined(args))),
        BuiltinFunction::Len => done(env, length_value(args[0]->Qexpr_0.len())),
        BuiltinFunction::Eval => evaluation(env, scope, as_form(args[0]), depth, facts),
        BuiltinFunction::Def => define(env, scope, args),
        BuiltinFunction::Assign => assign(env, scope, args),
        BuiltinFunction::Lambda => done(
            env,
            Value::Lambda(args[0]->Qexpr_0, args[1]->Qexpr_0, scope),
        ),
    }
}

/// In a call without fault of a function without ellipsis, argument `i` has
/// the shape that descriptor `i` asks for.
proof fn lemma_positional(ts: Seq<TypeView>, args: Seq<Value>, i: int)
    requires
        signature_fault(ts, args) is None,
        0 <= i < args.len(),
        i < ts.len(),
        forall|j: int| 0 <= j < i ==> !(ts[j] is ElipsisT),
    ensures
        matches_type(args[i], ts[i]),
        argument_fault(args[i], ts[i], i + 1) is None,
{
    lemma_slot_before_rest(ts, i);
    lemma_checked_argument(ts, args, i);
}

/// In a call without fault of a function whose last parameter, at `e`, is its
/// only ellipsis, every argument from `e` on has the shape that the ellipsis
/// asks for.
proof fn lemma_variadic(ts: Seq<TypeView>, args: Seq<Value>, e: int, i: int)
    requires
        signature_fault(ts, args) is None,
        0 <= e <= i < args.len(),
        e < ts.len(),
        ts[e] is ElipsisT,
        forall|j: int| 0 <= j < e ==> !(ts[j] is ElipsisT),
    ensures
        matches_type(args[i], ts[e]),
{
    lemma_slot_at_rest(ts, e, i);
    lemma_checked_argument(ts, args, i);
}

proof fn lemma_checked_numbers(f: BuiltinFunction, args: Seq<Value>)
    requires
        f == BuiltinFunction::Add || f == BuiltinFunction::Sub || f == BuiltinFunction::Mul || f
            == BuiltinFunction::Div,
        signature_fault(builtin_types(f), args) is None,
    ensures
        all_numbers(args),
{
    let ts = builtin_types(f);
    reveal_with_fuel(matches_type, 3);
    assert forall|i: int| 0 <= i < args.len() implies is_number(#[trigger] args[i]) by {
        if f == BuiltinFunction::Add {
            assert(ts[1] is ElipsisT);
            if i == 0 {
                lemma_positional(ts, args, 0);
            } else {
                lemma_variadic(ts, args, 1, i);
            }
        } else {
            lemma_slot_before_rest(ts, i);
            if i < 2 {
                lemma_positional(ts, args, i);
            } else {
                lemma_arity_of_two(ts, args.len());
            }
        }
    }
}

/// The number of arguments that two parameters without an ellipsis take: two,
/// or one or two where the second is optional.
proof fn lemma_arity_of_two(ts: Seq<TypeView>, n: nat)
    requires
        ts.len() == 2,
        is_required(ts[0]),
        !(ts[1] is ElipsisT),
        arity_fault(ts, n) is None,
    ensures
        n == 2 || (n == 1 && ts[1] is OptionalT),
{
    reveal_with_fuel(count_required, 3);
    reveal_with_fuel(count_optional, 3);
    assert(!has_ellipsis(ts));
}

/// The number of arguments that one required parameter takes: one.
proof fn lemma_arity_of_one(ts: Seq<TypeView>, n: nat)
    requires
        ts.len() == 1,
        is_required(ts[0]),
        arity_fault(ts, n) is None,
    ensures
        n == 1,
{
    reveal_with_fuel(count_required, 2);
    reveal_with_fuel(count_optional, 2);
    assert(!has_ellipsis(ts));
}

/// The number of arguments that one required parameter and an ellipsis take:
/// at least one.
proof fn lemma_arity_of_some(ts: Seq<TypeView>, n: nat)
    requires
        ts.len() == 2,
        is_required(ts[0]),
        ts[1] is ElipsisT,
        arity_fault(ts, n) is None,
    ensures
        n >= 1,
{
    reveal_with_fuel(count_required, 3);
    reveal_with_fuel(count_optional, 3);
    assert(has_ellipsis(ts));
}

proof fn lemma_checked_list(f: BuiltinFunction, args: Seq<Value>)
    requires
        f == BuiltinFunction::Head || f == BuiltinFunction::Tail || f == BuiltinFunction::Init || f
            == BuiltinFunction::Len,
        signature_fault(builtin_types(f), args) is None,
    ensures
        one_list(
            args,
            if f == BuiltinFunction::Len {
                0
            } else {
                1
            },
        ),
{
    let ts = builtin_types(f);
    lemma_arity_of_one(ts, args.len());
    lemma_positional(ts, args, 0);
    if f != BuiltinFunction::Len {
        lemma_checked_nested(ts[0], args[0], 1);
        lemma_arity_of_some(seq![TypeView::AnyT, rest_view(TypeView::AnyT)], args[0]->Qexpr_0.len());
    }
}

proof fn lemma_checked_join(args: Seq<Value>)
    requires
        signature_fault(builtin_types(BuiltinFunction::Join), args) is None,
    ensures
        all_lists(args),
{
    let ts = builtin_types(BuiltinFunction::Join);
    reveal_with_fuel(matches_type, 2);
    assert(ts[1] is ElipsisT);
    assert forall|i: int| 0 <= i < args.len() implies (#[trigger] args[i]) is Qexpr by {
        if i == 0 {
            lemma_positional(ts, args, 0);
        } else {
            lemma_variadic(ts, args, 1, i);
        }
    }
}

proof fn lemma_checked_target(f: BuiltinFunction, args: Seq<Value>)
    requires
        f == BuiltinFunction::Def || f == BuiltinFunction::Assign,
        signature_fault(builtin_types(f), args) is None,
    ensures
        f == BuiltinFunction::Def ==> definable(args),
        f == BuiltinFunction::Assign ==> assignable(args),
{
    let ts = builtin_types(f);
    lemma_arity_of_two(ts, args.len());
    lemma_positional(ts, args, 0);
    lemma_checked_nested(ts[0], args[0], 1);
    let target = args[0]->Qexpr_0;
    if f == BuiltinFunction::Def {
        let inner = seq![TypeView::SymbolT, rest_view(TypeView::SymbolT)];
        lemma_arity_of_some(inner, target.len());
        lemma_positional(inner, target, 0);
    } else {
        let inner = seq![TypeView::SymbolT];
        lemma_arity_of_one(inner, target.len());
        lemma_positional(inner, target, 0);
    }
}

proof fn lemma_checked_plain(f: BuiltinFunction, args: Seq<Value>)
    requires
        f == BuiltinFunction::Eq || f == BuiltinFunction::Ne || f == BuiltinFunction::If || f
            == BuiltinFunction::Eval || f == BuiltinFunction::Lambda,
        signature_fault(builtin_types(f), args) is None,
    ensures
        accepts(f, args),
{
    let ts = builtin_types(f);
    if f == BuiltinFunction::Eval {
        lemma_arity_of_one(ts, args.len());
    } else if f == BuiltinFunction::If {
        reveal_with_fuel(count_required, 4);
        reveal_with_fuel(count_optional, 4);
        assert(!has_ellipsis(ts));
        lemma_positional(ts, args, 0);
    } else {
        lemma_arity_of_two(ts, args.len());
        if f == BuiltinFunction::Lambda {
            lemma_positional(ts, args, 0);
            lemma_positional(ts, args, 1);
        }
    }
}

/// A call that the check finds in order gives the native function what it
/// needs of its arguments.
pub proof fn lemma_checked_call(f: BuiltinFunction, args: Seq<Value>)
    requires
        call_fault(builtin_name(f), builtin_types(f), args) is None,
    ensures
        accepts(f, args),
{
    let ts = builtin_types(f);
    assert(signature_fault(ts, args) is None);
    match f {
        BuiltinFunction::Add => {
            lemma_checked_numbers(f, args);
        },
        BuiltinFunction::Sub | BuiltinFunction::Mul | BuiltinFunction::Div => {
            lemma_checked_numbers(f, args);
            lemma_arity_of_two(ts, args.len());
        },
        BuiltinFunction::Eq | BuiltinFunction::Ne | BuiltinFunction::If | BuiltinFunction::Eval
        | BuiltinFunction::Lambda => {
            lemma_checked_plain(f, args);
        },
        BuiltinFunction::Head | BuiltinFunction::Tail | BuiltinFunction::Init
        | BuiltinFunction::Len => {
            lemma_checked_list(f, args);
        },
        BuiltinFunction::Join => {
            lemma_checked_join(args);
        },
        BuiltinFunction::Def | BuiltinFunction::Assign => {
            lemma_checked_target(f, args);
        },
        _ => {},
    }
}

/// The first error among `c`.
pub fn first_error(c: &[Cell]) -> (r: Option<&Cell>)
    ensures
        match r {
            Some(e) => first_error_of(views(c@)) == Some(e@),
            None => first_error_of(views(c@)) is None,
        },
{
    let ghost vs = views(c@);
    let mut i: usize = 0;
    assert(vs.skip(0) =~= vs);
    while i < c.len()
        invariant
            i <= c.len(),
            vs == views(c@),
            first_error_of(vs) == first_error_of(vs.skip(i as int)),
        decreases c.len() - i,
    {
        proof {
            assert(vs.skip(i as int)[0] == c@[i as int]@);
            assert(vs.skip(i as int).drop_first() =~= vs.skip(i + 1));
        }
        match &c[i] {
            Cell::Error(_) => {
                return Some(&c[i]);
            },
            _ => {},
        }
        i += 1;
    }
    None
}

/// Once the evaluation of the first arguments has ended on an error or a
/// stop, no further argument is evaluated.
pub proof fn lemma_arguments_end(
    env: EnvironmentView,
    scope: ScopeId,
    raw: Seq<Value>,
    depth: nat,
    facts: Facts,
    n: int,
)
    requires
        0 <= n <= raw.len(),
        !(evaluated_arguments(env, scope, raw.take(n), depth, facts).arguments is Values),
    ensures
        evaluated_arguments(env, scope, raw, depth, facts) == evaluated_arguments(
            env,
            scope,
            raw.take(n),
            depth,
            facts,
        ),
    decreases raw.len() - n,
{
    if n == raw.len() {
        assert(raw.take(n) =~= raw);
    } else {
        assert(raw.take(n + 1).drop_last() =~= raw.take(n));
        lemma_arguments_end(env, scope, raw, depth, facts, n + 1);
    }
}

/// Evaluates `c` in `scope`.
pub fn eval(
    env: &mut Environment,
    scope: ScopeId,
    c: &Cell,
    depth: usize,
    floats: &FloatTable,
) -> (r: Result<Cell, Stop>)
    ensures
        (Run { env: final(env)@, result: outcome(r) }) == evaluation(
            old(env)@,
            scope,
            c@,
            depth as nat,
            floats@,
        ),
    decreases depth, 0nat, 0nat,
{
    match c {
        Cell::Sexpr(v) => {
            assert(views(v@).len() == v@.len());
            if v.len() == 0 {
                return Ok(c.clone());
            }
            if depth == 0 {
                return Err(Stop::Depth);
            }
            assert(views(v@)[0] == v@[0]@);
            let first = eval(env, scope, &v[0], depth - 1, floats);
            match first {
                Err(s) => Err(s),
                Ok(procedure) => {
                    match &procedure {
                        Cell::Error(_) => {
                            return Ok(procedure);
                        },
                        _ => {},
                    }
                    let rest = vstd::slice::slice_subrange(v.as_slice(), 1, v.len());
                    proof {
                        crate::cell::lemma_views_subrange(v@, 1, v@.len() as int);
                        assert(views(v@).subrange(1, v@.len() as int) =~= views(v@).drop_first());
                    }
                    apply(env, scope, &procedure, rest, depth - 1, floats)
                },
            }
        },
        Cell::Symbol(name) => Ok(env.lookup(scope, name.as_str())),
        _ => Ok(c.clone()),
    }
}

/// Applies `procedure` to the forms `args` in `scope`.
pub fn apply(
    env: &mut Environment,
    scope: ScopeId,
    procedure: &Cell,
    args: &[Cell],
    depth: usize,
    floats: &FloatTable,
) -> (r: Result<Cell, Stop>)
    ensures
        (Run { env: final(env)@, result: outcome(r) }) == application(
            old(env)@,
            scope,
            procedure@,
            views(args@),
            depth as nat,
            floats@,
        ),
    decreases depth, 4nat, 0nat,
{
    match first_error(args) {
        Some(e) => {
            return Ok(e.clone());
        },
        None => {},
    }
    let ghost raw = views(args@);
    let mut evaluated: Vec<Cell> = Vec::new();
    let mut i: usize = 0;
    proof {
        assert(raw.take(0) =~= Seq::<Value>::empty());
        assert(views(evaluated@) =~= Seq::<Value>::empty());
    }
    while i < args.len()
        invariant
            i <= args.len(),
            raw == views(args@),
            first_error_of(raw) is None,
            evaluated_arguments(old(env)@, scope, raw.take(i as int), depth as nat, floats@)
                == (ArgumentsRun { env: env@, arguments: Arguments::Values(views(evaluated@)) }),
        decreases args.len() - i,
    {
        proof {
            assert(raw.take(i + 1).drop_last() =~= raw.take(i as int));
            assert(raw.take(i + 1).last() == args@[i as int]@);
        }
        match eval(env, scope, &args[i], depth, floats) {
            Err(s) => {
                proof {
                    lemma_arguments_end(old(env)@, scope, raw, depth as nat, floats@, i + 1);
                }
                return Err(s);
            },
            Ok(value) => {
                match &value {
                    Cell::Error(_) => {
                        proof {
                            lemma_arguments_end(old(env)@, scope, raw, depth as nat, floats@, i + 1);
                        }
                        return Ok(value);
                    },
                    _ => {},
                }
                proof {
                    lemma_views_push(evaluated@, value);
                }
                evaluated.push(value);
            },
        }
        i += 1;
    }
    assert(raw.take(args.len() as int) =~= raw);
    call(env, scope, procedure, evaluated, depth, floats)
}

/// The error that begins with `procedure` as it is written and goes on with
/// `rest`.
fn complain(procedure: &Cell, rest: &str, floats: &FloatTable) -> (r: Result<Cell, Stop>)
    ensures
        forall|env: EnvironmentView|
            (Run { env, result: outcome(r) }) == #[trigger] complaint(
                env,
                procedure@,
                rest@,
                floats@,
            ),
{
    match procedure.to_string(floats) {
        Ok(text) => {
            let mut m = text;
            m.append(rest);
            Ok(Cell::Error(m))
        },
        Err(s) => Err(s),
    }
}

/// Calls `procedure` with the values `args`.
pub fn call(
    env: &mut Environment,
    scope: ScopeId,
    procedure: &Cell,
    args: Vec<Cell>,
    depth: usize,
    floats: &FloatTable,
) -> (r: Result<Cell, Stop>)
    ensures
        (Run { env: final(env)@, result: outcome(r) }) == crate::eval::call_meaning(
            old(env)@,
            scope,
            procedure@,
            views(args@),
            depth as nat,
            floats@,
        ),
    decreases depth, 3nat, 0nat,
{
    match procedure {
        Cell::Lambda(function) => call_lambda(env, procedure, function, args, depth, floats),
        Cell::Builtin(f) => {
            let fresh = args.len();
            call_native(env, scope, procedure, *f, args, fresh, depth, floats)
        },
        Cell::CurriedBuiltin(curried) => {
            let fresh = args.len();
            let mut all = clone_all(&curried.bound_args);
            let ghost bound = views(curried.bound_args@);
            let mut k: usize = 0;
            assert(views(args@).take(0) =~= Seq::<Value>::empty());
            assert(bound + Seq::<Value>::empty() =~= bound);
            while k < args.len()
                invariant
                    k <= args.len(),
                    views(all@) == bound + views(args@).take(k as int),
                decreases args.len() - k,
            {
                proof {
                    lemma_views_push(all@, args@[k as int]);
                    assert((bound + views(args@).take(k as int)).push(args@[k as int]@) =~= bound
                        + views(args@).take(k + 1));
                }
                all.push(args[k].clone());
                k += 1;
            }
            assert(views(args@).take(args.len() as int) =~= views(args@));
            call_native(env, scope, procedure, curried.builtin, all, fresh, depth, floats)
        },
        _ => {
            let mut rest = String::from_str(" is not a procedure, is ");
            procedure.get_type().push_text(&mut rest);
            complain(procedure, rest.as_str(), floats)
        },
    }
}

/// Calls a native function with the arguments it has been given so far.
pub fn call_native(
    env: &mut Environment,
    scope: ScopeId,
    procedure: &Cell,
    f: BuiltinFunction,
    args: Vec<Cell>,
    fresh: usize,
    depth: usize,
    floats: &FloatTable,
) -> (r: Result<Cell, Stop>)
    ensures
        (Run { env: final(env)@, result: outcome(r) }) == crate::eval::call_native_meaning(
            old(env)@,
            scope,
            procedure@,
            f,
            views(args@),
            fresh as nat,
            depth as nat,
            floats@,
        ),
    decreases depth, 2nat, 0nat,
{
    let described = describe(f);
    proof {
        lemma_registry_checkable(f);
    }
    let arity = get_arity(&described.argument_types);
    assert(views(args@).len() == args@.len());
    if args.len() >= arity.required {
        match validate(&described, args.as_slice()) {
            Some(e) => Ok(Cell::Error(e)),
            None => {
                proof {
                    lemma_checked_call(f, views(args@));
                }
                run_native(env, scope, f, args.as_slice(), depth, floats)
            },
        }
    } else {
        let curried = match procedure {
            Cell::CurriedBuiltin(_) => true,
            _ => false,
        };
        if curried && fresh == 0 {
            complain(procedure, " got no arguments", floats)
        } else {
            Ok(Cell::CurriedBuiltin(Box::new(CurriedBuiltinSpec { builtin: f, bound_args: args })))
        }
    }
}

/// Runs the native function `f` on arguments that it accepts.
pub fn run_native(
    env: &mut Environment,
    scope: ScopeId,
    f: BuiltinFunction,
    args: &[Cell],
    depth: usize,
    floats: &FloatTable,
) -> (r: Result<Cell, Stop>)
    requires
        accepts(f, views(args@)),
    ensures
        (Run { env: final(env)@, result: outcome(r) }) == native(
            old(env)@,
            scope,
            f,
            views(args@),
            depth as nat,
            floats@,
        ),
    decreases depth, 1nat, 2nat,
{
    assert(views(args@).len() == args@.len());
    match f {
        BuiltinFunction::Add => crate::builtin::add(args, floats),
        BuiltinFunction::Sub => crate::builtin::sub(args, floats),
        BuiltinFunction::Mul => crate::builtin::mul(args, floats),
        BuiltinFunction::Div => crate::builtin::div(args, floats),
        BuiltinFunction::Eq => Ok(crate::builtin::eq(args)),
        BuiltinFunction::Ne => Ok(crate::builtin::ne(args)),
        BuiltinFunction::Lt => Ok(crate::builtin::lt(args)),
        BuiltinFunction::Lte => Ok(crate::builtin::lte(args)),
        BuiltinFunction::Gt => Ok(crate::builtin::gt(args)),
        BuiltinFunction::Gte => Ok(crate::builtin::gte(args)),
        BuiltinFunction::And => Ok(crate::builtin::and(args)),
        BuiltinFunction::Or => Ok(crate::builtin::or(args)),
        BuiltinFunction::Not => Ok(crate::builtin::not(args)),
        BuiltinFunction::If => crate::builtin::if_func(env, scope, args, depth, floats),
        BuiltinFunction::Print => crate::builtin::print(env, args, floats),
        BuiltinFunction::List => Ok(crate::builtin::list(args)),
        BuiltinFunction::Head => Ok(crate::builtin::head(args)),
        BuiltinFunction::Tail => Ok(crate::builtin::tail(args)),
        BuiltinFunction::Init => Ok(crate::builtin::init(args)),
        BuiltinFunction::Join => Ok(crate::builtin::join(args)),
        BuiltinFunction::Len => Ok(crate::builtin::len(args)),
        BuiltinFunction::Eval => crate::builtin::eval(env, scope, args, depth, floats),
        BuiltinFunction::Def => Ok(crate::builtin::def(env, scope, args)),
        BuiltinFunction::Assign => Ok(crate::builtin::set(env, scope, args)),
        BuiltinFunction::Lambda => Ok(crate::builtin::lambda(scope, args)),
    }
}

/// Calls a function of the language with the values `args`.
pub fn call_lambda(
    env: &mut Environment,
    procedure: &Cell,
    function: &LambdaSpec,
    args: Vec<Cell>,
    depth: usize,
    floats: &FloatTable,
) -> (r: Result<Cell, Stop>)
    requires
        procedure@ == Value::Lambda(
            views(function.arguments@),
            views(function.body@),
            function.environment,
        ),
    ensures
        (Run { env: final(env)@, result: outcome(r) }) == crate::eval::call_lambda_meaning(
            old(env)@,
            procedure@,
            views(args@),
            depth as nat,
            floats@,
        ),
    decreases depth, 2nat, 0nat,
{
    let ghost parameters = views(function.arguments@);
    let ghost values = views(args@);
    let sub = env.make_sub_environment(function.environment);
    let ghost start = env@;
    let mut rest_taken = false;
    let mut i: usize = 0;
    while !rest_taken && i < args.len()
        invariant
            i <= args.len(),
            parameters == views(function.arguments@),
            values == views(args@),
            procedure@ == Value::Lambda(parameters, views(function.body@), function.environment),
            start == old(env)@.with_scope(function.environment),
            sub == old(env)@.scopes.len(),
            bind_from(start, sub, parameters, values, 0) == if rest_taken {
                (env@, Some(true))
            } else {
                bind_from(env@, sub, parameters, values, i as int)
            },
        decreases
                if rest_taken {
                    0
                } else {
                    args.len() - i + 1
                },
    {
        assert(values[i as int] == args@[i as int]@);
        if i < function.arguments.len() {
            assert(parameters[i as int] == function.arguments@[i as int]@);
            match &function.arguments[i] {
                Cell::Symbol(name) => {
                    if str_eq(name.as_str(), "...") {
                        if i == function.arguments.len() - 1 {
                            let rest = Cell::Qexpr(clone_cells(args.as_slice(), i, args.len()));
                            assert(values.subrange(i as int, values.len() as int) =~= values.skip(
                                i as int,
                            ));
                            env.insert(sub, name.as_str(), &rest);
                            rest_taken = true;
                        } else {
                            return Ok(
                                Cell::Error(
                                    String::from_str(
                                        "Lambda can only have ... as it's last argument",
                                    ),
                                ),
                            );
                        }
                    } else {
                        env.insert(sub, name.as_str(), &args[i]);
                    }
                },
                _ => {},
            }
        }
        if !rest_taken {
            i += 1;
        }
    }
    let mut empty_rest = false;
    if args.len() == 0 && function.arguments.len() == 1 {
        assert(parameters[0] == function.arguments@[0]@);
        match &function.arguments[0] {
            Cell::Symbol(name) => {
                if str_eq(name.as_str(), "...") {
                    let nothing = Cell::Qexpr(Vec::new());
                    assert(nothing@ == Value::Qexpr(Seq::<Value>::empty())) by {
                        assert(views(Seq::<Cell>::empty()) =~= Seq::<Value>::empty());
                    }
                    env.insert(sub, name.as_str(), &nothing);
                    empty_rest = true;
                }
            },
            _ => {},
        }
    }
    assert(empty_rest == (values.len() == 0 && takes_only_rest(parameters)));
    if args.len() == function.arguments.len() || rest_taken || empty_rest {
        let body = Cell::Sexpr(clone_all(&function.body));
        eval(env, sub, &body, depth, floats)
    } else if args.len() < function.arguments.len() {
        if args.len() == 0 {
            complain(procedure, " got no arguments", floats)
        } else {
            let remaining = clone_cells(function.arguments.as_slice(), args.len(), function.arguments.len());
            assert(parameters.subrange(values.len() as int, parameters.len() as int) =~= parameters.skip(
                values.len() as int,
            ));
            Ok(
                Cell::Lambda(
                    Box::new(
                        LambdaSpec {
                            arguments: remaining,
                            body: clone_all(&function.body),
                            environment: sub,
                        },
                    ),
                ),
            )
        }
    } else {
        let mut rest = String::from_str(" got to many arguments expected ");
        push_digits(&mut rest, function.arguments.len() as u128);
        rest.append(" got ");
        push_digits(&mut rest, args.len() as u128);
        assert(rest@ =~= " got to many arguments expected "@ + decimal(parameters.len() as int)
            + " got "@ + decimal(values.len() as int));
        complain(procedure, rest.as_str(), floats)
    }
}

} // verus!
