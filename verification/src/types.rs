//! Descriptors of the shape of a value, and the check of a call's arguments
//! against the descriptors of a builtin's parameters.

use vstd::prelude::*;
use crate::cell::{BuiltinFunctionSpec, Cell, Value, matches_type, type_of, views};
use crate::text::{decimal, push_digits};

verus! {

/// The shape a value may be asked to have. Used to check calls, never stored
/// in a value.
#[derive(Debug)]
pub enum Type {
    NilT,
    SymbolT,
    IntegerT,
    FloatT,
    CharT,
    BoolT,
    StringT,
    /// An S-expression whose elements have these shapes, position by position.
    SexprT(Vec<Type>),
    /// A Q-expression whose elements have these shapes, position by position.
    QexprT(Vec<Type>),
    /// The shape of an actual S-expression, read off its elements.
    RSexprT(Vec<Type>),
    /// The shape of an actual Q-expression, read off its elements.
    RQexprT(Vec<Type>),
    ErrorT,
    BuiltinT,
    LambdaT,
    /// Any value.
    AnyT,
    /// Any number of values of the inner shape, as the last parameter.
    ElipsisT(Box<Type>),
    /// At most one value of the inner shape.
    OptionalT(Box<Type>),
    /// A value of either shape.
    OrT(Box<Type>, Box<Type>),
}

/// The mathematical form of a `Type`.
pub enum TypeView {
    NilT,
    SymbolT,
    IntegerT,
    FloatT,
    CharT,
    BoolT,
    StringT,
    SexprT(Seq<TypeView>),
    QexprT(Seq<TypeView>),
    RSexprT(Seq<TypeView>),
    RQexprT(Seq<TypeView>),
    ErrorT,
    BuiltinT,
    LambdaT,
    AnyT,
    ElipsisT(Box<TypeView>),
    OptionalT(Box<TypeView>),
    OrT(Box<TypeView>, Box<TypeView>),
}

/// The mathematical forms of a sequence of descriptors.
pub open spec fn type_views(s: Seq<Type>) -> Seq<TypeView>
    decreases s,
{
    Seq::new(
        s.len(),
        |i: int|
            if 0 <= i < s.len() {
                s[i]@
            } else {
                TypeView::AnyT
            },
    )
}

impl View for Type {
    type V = TypeView;

    open spec fn view(&self) -> TypeView
        decreases self,
    {
        match self {
            Type::NilT => TypeView::NilT,
            Type::SymbolT => TypeView::SymbolT,
            Type::IntegerT => TypeView::IntegerT,
            Type::FloatT => TypeView::FloatT,
            Type::CharT => TypeView::CharT,
            Type::BoolT => TypeView::BoolT,
            Type::StringT => TypeView::StringT,
            Type::SexprT(v) => TypeView::SexprT(type_views(v@)),
            Type::QexprT(v) => TypeView::QexprT(type_views(v@)),
            Type::RSexprT(v) => TypeView::RSexprT(type_views(v@)),
            Type::RQexprT(v) => TypeView::RQexprT(type_views(v@)),
            Type::ErrorT => TypeView::ErrorT,
            Type::BuiltinT => TypeView::BuiltinT,
            Type::LambdaT => TypeView::LambdaT,
            Type::AnyT => TypeView::AnyT,
            Type::ElipsisT(inner) => TypeView::ElipsisT(Box::new((**inner).view())),
            Type::OptionalT(inner) => TypeView::OptionalT(Box::new((**inner).view())),
            Type::OrT(a, b) => TypeView::OrT(Box::new((**a).view()), Box::new((**b).view())),
        }
    }
}

/// How a descriptor is written.
pub open spec fn type_text(t: TypeView) -> Seq<char>
    decreases t,
{
    match t {
        TypeView::NilT => "Nil"@,
        TypeView::SymbolT => "Symbol"@,
        TypeView::IntegerT => "Integer"@,
        TypeView::FloatT => "Float"@,
        TypeView::CharT => "Char"@,
        TypeView::BoolT => "Bool"@,
        TypeView::StringT => "String"@,
        TypeView::SexprT(v) => "("@ + types_text(v) + ")"@,
        TypeView::QexprT(v) => "{"@ + types_text(v) + "}"@,
        TypeView::RSexprT(v) => "("@ + types_text(v) + ")"@,
        TypeView::RQexprT(v) => "{"@ + types_text(v) + "}"@,
        TypeView::ErrorT => "Error"@,
        TypeView::BuiltinT => "Builtin"@,
        TypeView::LambdaT => "Lambda"@,
        TypeView::AnyT => "Any"@,
        TypeView::ElipsisT(inner) => type_text(*inner) + "..."@,
        TypeView::OptionalT(inner) => "["@ + type_text(*inner) + "]"@,
        TypeView::OrT(a, b) => type_text(*a) + "|"@ + type_text(*b),
    }
}

/// How a sequence of descriptors is written: each in turn, one space between
/// neighbours.
pub open spec fn types_text(v: Seq<TypeView>) -> Seq<char>
    decreases v,
{
    if v.len() == 0 {
        Seq::empty()
    } else if v.len() == 1 {
        type_text(v[0])
    } else {
        types_text(v.drop_last()) + " "@ + type_text(v.last())
    }
}

/// Copies of the descriptors of `v`.
pub fn clone_types(v: &Vec<Type>) -> (r: Vec<Type>)
    ensures
        type_views(r@) == type_views(v@),
    decreases v,
{
    let mut r: Vec<Type> = Vec::new();
    let mut i: usize = 0;
    while i < v.len()
        invariant
            i <= v.len(),
            r@.len() == i,
            forall|j: int| 0 <= j < i ==> r@[j]@ == v@[j]@,
        decreases v.len() - i,
    {
        r.push(v[i].clone());
        i += 1;
    }
    assert(type_views(r@) =~= type_views(v@));
    r
}

impl Clone for Type {
    fn clone(&self) -> (r: Type)
        ensures
            r@ == self@,
        decreases self,
    {
        match self {
            Type::NilT => Type::NilT,
            Type::SymbolT => Type::SymbolT,
            Type::IntegerT => Type::IntegerT,
            Type::FloatT => Type::FloatT,
            Type::CharT => Type::CharT,
            Type::BoolT => Type::BoolT,
            Type::StringT => Type::StringT,
            Type::SexprT(v) => Type::SexprT(clone_types(v)),
            Type::QexprT(v) => Type::QexprT(clone_types(v)),
            Type::RSexprT(v) => Type::RSexprT(clone_types(v)),
            Type::RQexprT(v) => Type::RQexprT(clone_types(v)),
            Type::ErrorT => Type::ErrorT,
            Type::BuiltinT => Type::BuiltinT,
            Type::LambdaT => Type::LambdaT,
            Type::AnyT => Type::AnyT,
            Type::ElipsisT(inner) => Type::ElipsisT(Box::new((**inner).clone())),
            Type::OptionalT(inner) => Type::OptionalT(Box::new((**inner).clone())),
            Type::OrT(a, b) => Type::OrT(Box::new((**a).clone()), Box::new((**b).clone())),
        }
    }
}

/// Appends the descriptors of `v` to `out`, one space between neighbours,
/// leaving out the first `from` of them.
pub fn push_types(out: &mut String, v: &Vec<Type>, from: usize)
    requires
        from <= v.len(),
    ensures
        final(out)@ == old(out)@ + types_text(type_views(v@).skip(from as int)),
    decreases v, 0nat,
{
    let ghost all = type_views(v@);
    if from >= v.len() {
        assert(all.skip(from as int).len() == 0);
        assert(old(out)@ + Seq::<char>::empty() =~= old(out)@);
        return ;
    }
    let mut i: usize = from;
    assert(all.skip(from as int).take(0).len() == 0);
    assert(old(out)@ + Seq::<char>::empty() =~= old(out)@);
    while i < v.len()
        invariant
            from <= i <= v.len(),
            all == type_views(v@),
            out@ == old(out)@ + types_text(all.skip(from as int).take(i - from)),
        decreases v.len() - i,
    {
        let ghost head = out@;
        let ghost done = all.skip(from as int).take(i - from);
        let ghost next = all.skip(from as int).take(i + 1 - from);
        assert(next.drop_last() =~= done);
        assert(next.last() == v@[i as int]@);
        if i > from {
            out.append(" ");
        }
        v[i].push_text(out);
        proof {
            if i > from {
                assert(out@ =~= old(out)@ + (types_text(done) + " "@ + type_text(v@[i as int]@)));
            } else {
                assert(done.len() == 0);
                assert(next.len() == 1);
                assert(out@ =~= old(out)@ + type_text(v@[i as int]@));
            }
        }
        i += 1;
    }
    assert(all.skip(from as int).take(v.len() - from) =~= all.skip(from as int));
}

impl Type {
    /// Appends the descriptor, as it is written, to `out`.
    pub fn push_text(&self, out: &mut String)
        ensures
            final(out)@ == old(out)@ + type_text(self@),
        decreases self, 1nat,
    {
        match self {
            Type::NilT => out.append("Nil"),
            Type::SymbolT => out.append("Symbol"),
            Type::IntegerT => out.append("Integer"),
            Type::FloatT => out.append("Float"),
            Type::CharT => out.append("Char"),
            Type::BoolT => out.append("Bool"),
            Type::StringT => out.append("String"),
            Type::SexprT(v) => {
                out.append("(");
                push_types(out, v, 0);
                out.append(")");
                assert(type_views(v@).skip(0) =~= type_views(v@));
                assert(out@ =~= old(out)@ + type_text(self@));
            },
            Type::QexprT(v) => {
                out.append("{");
                push_types(out, v, 0);
                out.append("}");
                assert(type_views(v@).skip(0) =~= type_views(v@));
                assert(out@ =~= old(out)@ + type_text(self@));
            },
            Type::RSexprT(v) => {
                out.append("(");
                push_types(out, v, 0);
                out.append(")");
                assert(type_views(v@).skip(0) =~= type_views(v@));
                assert(out@ =~= old(out)@ + type_text(self@));
            },
            Type::RQexprT(v) => {
                out.append("{");
                push_types(out, v, 0);
                out.append("}");
                assert(type_views(v@).skip(0) =~= type_views(v@));
                assert(out@ =~= old(out)@ + type_text(self@));
            },
            Type::ErrorT => out.append("Error"),
            Type::BuiltinT => out.append("Builtin"),
            Type::LambdaT => out.append("Lambda"),
            Type::AnyT => out.append("Any"),
            Type::ElipsisT(inner) => {
                inner.push_text(out);
                out.append("...");
                assert(out@ =~= old(out)@ + type_text(self@));
            },
            Type::OptionalT(inner) => {
                out.append("[");
                inner.push_text(out);
                out.append("]");
                assert(out@ =~= old(out)@ + type_text(self@));
            },
            Type::OrT(a, b) => {
                a.push_text(out);
                out.append("|");
                b.push_text(out);
                assert(out@ =~= old(out)@ + type_text(self@));
            },
        }
    }

    /// The descriptor as it is written: a scalar by its name, a list in its
    /// brackets, `T...` for any number of `T`, `[T]` for an optional `T`,
    /// `A|B` for either.
    pub fn to_string(&self) -> (r: String)
        ensures
            r@ == type_text(self@),
    {
        let mut out = String::new();
        self.push_text(&mut out);
        assert(Seq::<char>::empty() + type_text(self@) =~= type_text(self@));
        out
    }
}

/// How many arguments a sequence of parameter descriptors asks for.
#[derive(Clone, Copy, Debug, PartialEq, Eq, Structural)]
pub struct Arity {
    /// Parameters that must be given.
    pub required: usize,
    /// Parameters that may be left out.
    pub optional: usize,
    /// Whether any number of further arguments is taken.
    pub has_variadic: bool,
}

/// Whether a parameter must be given: it is neither optional nor an ellipsis.
pub open spec fn is_required(t: TypeView) -> bool {
    !(t is OptionalT) && !(t is ElipsisT)
}

/// Whether a sequence of parameter descriptors is in order: nothing but
/// ellipses after an ellipsis, and no required parameter after an optional
/// one.
pub open spec fn well_formed(ts: Seq<TypeView>) -> bool {
    forall|i: int, j: int|
        0 <= i < j < ts.len() ==> !(ts[i] is ElipsisT && ts[j] is OptionalT) && !(!is_required(
            ts[i],
        ) && is_required(ts[j]))
}

/// The number of required parameters among `ts`.
pub open spec fn count_required(ts: Seq<TypeView>) -> nat
    decreases ts.len(),
{
    if ts.len() == 0 {
        0
    } else {
        count_required(ts.drop_last()) + if is_required(ts.last()) {
            1nat
        } else {
            0nat
        }
    }
}

/// The number of optional parameters among `ts`.
pub open spec fn count_optional(ts: Seq<TypeView>) -> nat
    decreases ts.len(),
{
    if ts.len() == 0 {
        0
    } else {
        count_optional(ts.drop_last()) + if ts.last() is OptionalT {
            1nat
        } else {
            0nat
        }
    }
}

/// Whether there is an ellipsis among `ts`.
pub open spec fn has_ellipsis(ts: Seq<TypeView>) -> bool {
    exists|i: int| 0 <= i < ts.len() && ts[i] is ElipsisT
}

/// The two counts never exceed the number of descriptors.
pub proof fn lemma_counts_bounded(ts: Seq<TypeView>)
    ensures
        count_required(ts) + count_optional(ts) <= ts.len(),
    decreases ts.len(),
{
    if ts.len() > 0 {
        lemma_counts_bounded(ts.drop_last());
    }
}

/// Whether the descriptors of `argument_types` are in order.
pub fn is_well_formed(argument_types: &Vec<Type>) -> (r: bool)
    ensures
        r == well_formed(type_views(argument_types@)),
{
    let ghost ts = type_views(argument_types@);
    let mut seen_optional = false;
    let mut seen_ellipsis = false;
    let mut k: usize = 0;
    while k < argument_types.len()
        invariant
            k <= argument_types.len(),
            ts == type_views(argument_types@),
            well_formed(ts.take(k as int)),
            seen_optional == (exists|i: int| 0 <= i < k && ts[i] is OptionalT),
            seen_ellipsis == (exists|i: int| 0 <= i < k && ts[i] is ElipsisT),
        decreases argument_types.len() - k,
    {
        let ghost before = ts.take(k as int);
        let ghost after = ts.take(k + 1);
        assert(forall|i: int| 0 <= i < k ==> after[i] == ts[i]);
        assert(after[k as int] == argument_types@[k as int]@);
        let bad = match &argument_types[k] {
            Type::ElipsisT(_) => false,
            Type::OptionalT(_) => seen_ellipsis,
            _ => seen_optional || seen_ellipsis,
        };
        if bad {
            proof {
                let i = if ts[k as int] is OptionalT {
                    choose|i: int| 0 <= i < k && ts[i] is ElipsisT
                } else if seen_optional {
                    choose|i: int| 0 <= i < k && ts[i] is OptionalT
                } else {
                    choose|i: int| 0 <= i < k && ts[i] is ElipsisT
                };
                assert(!(!(ts[i] is ElipsisT && ts[k as int] is OptionalT) && !(!is_required(ts[i])
                    && is_required(ts[k as int]))));
            }
            return false;
        }
        proof {
            assert forall|i: int, j: int| 0 <= i < j < after.len() implies !(after[i] is ElipsisT
                && after[j] is OptionalT) && !(!is_required(after[i]) && is_required(after[j])) by {
                if j < k {
                    assert(before[i] == after[i] && before[j] == after[j]);
                }
            }
        }
        match &argument_types[k] {
            Type::ElipsisT(_) => {
                seen_ellipsis = true;
            },
            Type::OptionalT(_) => {
                seen_optional = true;
            },
            _ => {},
        }
        k += 1;
    }
    assert(ts.take(argument_types.len() as int) =~= ts);
    true
}

/// Counts the parameters of each kind.
pub fn get_arity(argument_types: &Vec<Type>) -> (r: Arity)
    requires
        well_formed(type_views(argument_types@)),
    ensures
        r.required == count_required(type_views(argument_types@)),
        r.optional == count_optional(type_views(argument_types@)),
        r.has_variadic == has_ellipsis(type_views(argument_types@)),
{
    let ghost ts = type_views(argument_types@);
    let mut arity = Arity { required: 0, optional: 0, has_variadic: false };
    let mut k: usize = 0;
    assert(ts.take(0).len() == 0);
    while k < argument_types.len()
        invariant
            k <= argument_types.len(),
            ts == type_views(argument_types@),
            arity.required == count_required(ts.take(k as int)),
            arity.optional == count_optional(ts.take(k as int)),
            arity.has_variadic == (exists|i: int| 0 <= i < k && ts[i] is ElipsisT),
        decreases argument_types.len() - k,
    {
        proof {
            assert(ts.take(k + 1).drop_last() =~= ts.take(k as int));
            assert(ts.take(k + 1).last() == argument_types@[k as int]@);
            lemma_counts_bounded(ts.take(k as int));
        }
        match &argument_types[k] {
            Type::ElipsisT(_) => {
                arity.has_variadic = true;
            },
            Type::OptionalT(_) => {
                arity.optional += 1;
            },
            _ => {
                arity.required += 1;
            },
        }
        k += 1;
    }
    assert(ts.take(argument_types.len() as int) =~= ts);
    arity
}

/// The position in `ts` of the descriptor that argument `i` is held against:
/// one further for each argument, but never past an ellipsis.
pub open spec fn slot(ts: Seq<TypeView>, i: int) -> int
    decreases i,
{
    if i <= 0 {
        0
    } else {
        let before = slot(ts, i - 1);
        if 0 <= before < ts.len() && ts[before] is ElipsisT {
            before
        } else {
            before + 1
        }
    }
}

/// The lists that a list descriptor asks to be checked element by element:
/// the elements of a list of the descriptor's own kind.
pub open spec fn nested(arg: Value, t: TypeView) -> Option<(Seq<TypeView>, Seq<Value>)> {
    match (arg, t) {
        (Value::Sexpr(l), TypeView::SexprT(ts)) => Some((ts, l)),
        (Value::Sexpr(l), TypeView::RSexprT(ts)) => Some((ts, l)),
        (Value::Qexpr(l), TypeView::QexprT(ts)) => Some((ts, l)),
        (Value::Qexpr(l), TypeView::RQexprT(ts)) => Some((ts, l)),
        _ => None,
    }
}

/// The descriptors inside a list descriptor.
pub open spec fn inner_types(t: TypeView) -> Option<Seq<TypeView>> {
    match t {
        TypeView::SexprT(ts) => Some(ts),
        TypeView::RSexprT(ts) => Some(ts),
        TypeView::QexprT(ts) => Some(ts),
        TypeView::RQexprT(ts) => Some(ts),
        _ => None,
    }
}

/// Whether a call can be checked against `ts`: there is at least one
/// descriptor, they are in order, and the same holds inside each list
/// descriptor among them.
pub open spec fn checkable(ts: Seq<TypeView>) -> bool
    decreases ts,
{
    ts.len() > 0 && well_formed(ts) && forall|i: int|
        0 <= i < ts.len() ==> match inner_types(#[trigger] ts[i]) {
            Some(inner) => checkable(inner),
            None => true,
        }
}

/// What is wrong with the number of arguments, if anything. Without optional
/// parameters and without an ellipsis the number must be that of the required
/// parameters; with optional parameters it may exceed it by up to their
/// number; with an ellipsis it must only reach it.
pub open spec fn arity_fault(ts: Seq<TypeView>, n: nat) -> Option<Seq<char>> {
    let required = count_required(ts);
    let optional = count_optional(ts);
    if has_ellipsis(ts) {
        if n < required {
            Some("requiers "@ + decimal(required as int) + "+ arguments, got "@ + decimal(n as int))
        } else {
            None
        }
    } else if optional == 0 {
        if n != required {
            Some("requiers "@ + decimal(required as int) + " arguments, got "@ + decimal(n as int))
        } else {
            None
        }
    } else {
        if n < required || n > required + optional {
            Some(
                "requiers "@ + decimal(required as int) + " to "@ + decimal(
                    (required + optional) as int,
                ) + " arguments, got "@ + decimal(n as int),
            )
        } else {
            None
        }
    }
}

/// What is wrong with one argument held against its descriptor, if anything.
/// `position` counts arguments from one. A list held against a list
/// descriptor of its kind is first checked as a call of its own; then the
/// argument must have the shape the descriptor asks for.
pub open spec fn argument_fault(arg: Value, t: TypeView, position: int) -> Option<Seq<char>>
    decreases t, 0nat, 0nat,
{
    let inside = match (arg, t) {
        (Value::Sexpr(l), TypeView::SexprT(ts)) => signature_fault(ts, l),
        (Value::Sexpr(l), TypeView::RSexprT(ts)) => signature_fault(ts, l),
        (Value::Qexpr(l), TypeView::QexprT(ts)) => signature_fault(ts, l),
        (Value::Qexpr(l), TypeView::RQexprT(ts)) => signature_fault(ts, l),
        _ => None,
    };
    match inside {
        Some(e) => Some("argument list at "@ + decimal(position) + ": "@ + e),
        None => if matches_type(arg, t) {
            None
        } else {
            Some(
                "argument "@ + decimal(position) + " is of type "@ + type_text(type_of(arg))
                    + " expected "@ + type_text(t),
            )
        },
    }
}

/// What is wrong with the first faulty argument from argument `i` on, if any
/// is faulty. Arguments past the last descriptor are not looked at.
pub open spec fn first_fault(ts: Seq<TypeView>, args: Seq<Value>, i: int) -> Option<Seq<char>>
    decreases ts, 1nat, args.len() - i,
{
    if 0 <= i < args.len() && 0 <= slot(ts, i) < ts.len() {
        match argument_fault(args[i], ts[slot(ts, i)], i + 1) {
            Some(e) => Some(e),
            None => first_fault(ts, args, i + 1),
        }
    } else {
        None
    }
}

/// What is wrong with a call with arguments `args` of a function whose
/// parameters are described by `ts`, if anything: the fault of the first faulty
/// argument, and if none is faulty the fault of their number.
pub open spec fn signature_fault(ts: Seq<TypeView>, args: Seq<Value>) -> Option<Seq<char>>
    decreases ts, 2nat, 0nat,
{
    match first_fault(ts, args, 0) {
        Some(e) => Some(e),
        None => arity_fault(ts, args.len()),
    }
}

/// What is wrong with a call of the native function `f` with arguments
/// `args`, if anything: the function's name, then the fault.
pub open spec fn call_fault(name: Seq<char>, ts: Seq<TypeView>, args: Seq<Value>) -> Option<
    Seq<char>,
> {
    match signature_fault(ts, args) {
        Some(e) => Some(name + ", "@ + e),
        None => None,
    }
}

fn push_count(out: &mut String, n: usize)
    ensures
        final(out)@ == old(out)@ + decimal(n as int),
{
    push_digits(out, n as u128);
}

fn arity_message(argument_types: &Vec<Type>, n: usize) -> (r: Option<String>)
    requires
        well_formed(type_views(argument_types@)),
    ensures
        option_text(r) == arity_fault(type_views(argument_types@), n as nat),
{
    let ghost ts = type_views(argument_types@);
    let arity = get_arity(argument_types);
    let len = argument_types.len();
    proof {
        lemma_counts_bounded(ts);
        assert(ts.len() == len);
        assert(arity.required + arity.optional <= len);
    }
    if arity.has_variadic {
        if n < arity.required {
            let mut m = String::new();
            m.append("requiers ");
            push_count(&mut m, arity.required);
            m.append("+ arguments, got ");
            push_count(&mut m, n);
            assert(m@ =~= "requiers "@ + decimal(arity.required as int) + "+ arguments, got "@
                + decimal(n as int));
            Some(m)
        } else {
            None
        }
    } else if arity.optional == 0 {
        if n != arity.required {
            let mut m = String::new();
            m.append("requiers ");
            push_count(&mut m, arity.required);
            m.append(" arguments, got ");
            push_count(&mut m, n);
            assert(m@ =~= "requiers "@ + decimal(arity.required as int) + " arguments, got "@
                + decimal(n as int));
            Some(m)
        } else {
            None
        }
    } else {
        if n < arity.required || n > arity.required + arity.optional {
            let mut m = String::new();
            m.append("requiers ");
            push_count(&mut m, arity.required);
            m.append(" to ");
            push_count(&mut m, arity.required + arity.optional);
            m.append(" arguments, got ");
            push_count(&mut m, n);
            assert(m@ =~= "requiers "@ + decimal(arity.required as int) + " to "@ + decimal(
                (arity.required + arity.optional) as int,
            ) + " arguments, got "@ + decimal(n as int));
            Some(m)
        } else {
            None
        }
    }
}

/// An optional text in its mathematical form.
pub open spec fn option_text(r: Option<String>) -> Option<Seq<char>> {
    match r {
        Some(s) => Some(s@),
        None => None,
    }
}

fn argument_message(arg: &Cell, t: &Type, position: usize) -> (r: Option<String>)
    requires
        match inner_types(t@) {
            Some(inner) => checkable(inner),
            None => true,
        },
    ensures
        option_text(r) == argument_fault(arg@, t@, position as int),
    decreases t, 0nat,
{
    let inside = match (arg, t) {
        (Cell::Sexpr(v), Type::SexprT(vt)) => validate_inner(vt, v.as_slice()),
        (Cell::Sexpr(v), Type::RSexprT(vt)) => validate_inner(vt, v.as_slice()),
        (Cell::Qexpr(v), Type::QexprT(vt)) => validate_inner(vt, v.as_slice()),
        (Cell::Qexpr(v), Type::RQexprT(vt)) => validate_inner(vt, v.as_slice()),
        _ => None,
    };
    match inside {
        Some(e) => {
            let mut m = String::new();
            m.append("argument list at ");
            push_count(&mut m, position);
            m.append(": ");
            m.append(e.as_str());
            assert(m@ =~= "argument list at "@ + decimal(position as int) + ": "@ + e@);
            Some(m)
        },
        None => {
            if arg.is_type(t) {
                None
            } else {
                let mut m = String::new();
                m.append("argument ");
                push_count(&mut m, position);
                m.append(" is of type ");
                arg.get_type().push_text(&mut m);
                m.append(" expected ");
                t.push_text(&mut m);
                assert(m@ =~= "argument "@ + decimal(position as int) + " is of type "@ + type_text(
                    type_of(arg@),
                ) + " expected "@ + type_text(t@));
                Some(m)
            }
        },
    }
}

/// Checks the arguments of a call against the descriptors of the parameters:
/// each argument in turn against its descriptor, then their number. Returns
/// what is wrong, or `None` for a call in order.
pub fn validate_inner(argument_types: &Vec<Type>, args: &[Cell]) -> (r: Option<String>)
    requires
        checkable(type_views(argument_types@)),
    ensures
        option_text(r) == signature_fault(type_views(argument_types@), views(args@)),
    decreases argument_types, 1nat,
{
    let ghost ts = type_views(argument_types@);
    let ghost vs = views(args@);
    let mut at: usize = 0;
    let mut i: usize = 0;
    while i < args.len() && at < argument_types.len()
        invariant
            i <= args.len(),
            at <= argument_types.len(),
            at == slot(ts, i as int),
            ts == type_views(argument_types@),
            vs == views(args@),
            checkable(ts),
            first_fault(ts, vs, 0) == first_fault(ts, vs, i as int),
        decreases args.len() - i,
    {
        assert(ts[at as int] == argument_types@[at as int]@);
        assert(vs[i as int] == args@[i as int]@);
        match argument_message(&args[i], &argument_types[at], i + 1) {
            Some(e) => {
                return Some(e);
            },
            None => {},
        }
        match &argument_types[at] {
            Type::ElipsisT(_) => {},
            _ => {
                at += 1;
            },
        }
        i += 1;
    }
    arity_message(argument_types, args.len())
}

/// Checks a call of a native function. Returns `None` for a call in order, and
/// else the function's name, a comma, and what is wrong.
pub fn validate(f: &BuiltinFunctionSpec, args: &[Cell]) -> (r: Option<String>)
    requires
        checkable(f@.2),
    ensures
        option_text(r) == call_fault(f@.1, f@.2, views(args@)),
{
    match validate_inner(&f.argument_types, args) {
        Some(e) => {
            let mut m = f.name.clone();
            m.append(", ");
            m.append(e.as_str());
            assert(m@ =~= f@.1 + ", "@ + e@);
            Some(m)
        },
        None => None,
    }
}

/// The descriptor of an argument is never before that of an earlier one.
pub proof fn lemma_slot_monotone(ts: Seq<TypeView>, i: int, j: int)
    requires
        0 <= i <= j,
    ensures
        0 <= slot(ts, i) <= slot(ts, j),
    decreases j,
{
    if j > 0 {
        if i < j {
            lemma_slot_monotone(ts, i, j - 1);
        } else {
            lemma_slot_monotone(ts, i - 1, j - 1);
        }
    }
}

/// Before any ellipsis, argument `i` is held against descriptor `i`.
pub proof fn lemma_slot_before_rest(ts: Seq<TypeView>, i: int)
    requires
        0 <= i,
        forall|j: int| 0 <= j < i && j < ts.len() ==> !(ts[j] is ElipsisT),
    ensures
        slot(ts, i) == i,
    decreases i,
{
    if i > 0 {
        lemma_slot_before_rest(ts, i - 1);
    }
}

/// From the first ellipsis on, every argument is held against it.
pub proof fn lemma_slot_at_rest(ts: Seq<TypeView>, e: int, i: int)
    requires
        0 <= e <= i,
        e < ts.len(),
        ts[e] is ElipsisT,
        forall|j: int| 0 <= j < e ==> !(ts[j] is ElipsisT),
    ensures
        slot(ts, i) == e,
    decreases i,
{
    if i == e {
        lemma_slot_before_rest(ts, e);
    } else {
        lemma_slot_at_rest(ts, e, i - 1);
    }
}

/// In a call without fault no argument that has a descriptor is faulty.
pub proof fn lemma_checked_argument(ts: Seq<TypeView>, args: Seq<Value>, i: int)
    requires
        first_fault(ts, args, 0) is None,
        0 <= i < args.len(),
        slot(ts, i) < ts.len(),
    ensures
        first_fault(ts, args, i + 1) is None,
        argument_fault(args[i], ts[slot(ts, i)], i + 1) is None,
        matches_type(args[i], ts[slot(ts, i)]),
    decreases i,
{
    lemma_slot_monotone(ts, 0, i);
    if i > 0 {
        lemma_slot_monotone(ts, i - 1, i);
        lemma_checked_argument(ts, args, i - 1);
    }
}

/// In a call without fault a list held against a list descriptor of its kind
/// is itself without fault as a call.
pub proof fn lemma_checked_nested(t: TypeView, arg: Value, position: int)
    requires
        argument_fault(arg, t, position) is None,
        nested(arg, t) is Some,
    ensures
        signature_fault(nested(arg, t)->Some_0.0, nested(arg, t)->Some_0.1) is None,
{
}

} // verus!
