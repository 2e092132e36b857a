//! Doubles as the interpreter sees them.
//!
//! A double is carried as its IEEE 754 bit pattern. Comparison, negation and the
//! test for zero are read off the bits. Whatever needs floating-point
//! arithmetic proper is a question put to the host: the interpreter looks the
//! answer up in a table of facts the host has supplied, and stops with the
//! question when the table does not hold it.

use vstd::prelude::*;
use crate::text::same_text;

verus! {

/// A question about doubles that only floating-point arithmetic can answer.
#[derive(Debug)]
pub enum FloatQuery {
    /// The sum of two doubles.
    Add(u64, u64),
    /// The first double less the second.
    Sub(u64, u64),
    /// The product of two doubles.
    Mul(u64, u64),
    /// The first double divided by the second.
    Div(u64, u64),
    /// The double nearest to an integer.
    FromInteger(i64),
    /// A double written with two digits after the decimal point.
    Render(u64),
    /// The double that a literal denotes.
    Parse(String),
}

/// The answer to a `FloatQuery`: a double for arithmetic, a conversion or a
/// literal, text for a rendering.
#[derive(Debug)]
pub enum FloatAnswer {
    Bits(u64),
    Text(String),
}

/// Why an evaluation ended without a value.
#[derive(Debug)]
pub enum Stop {
    /// Calls were nested deeper than the limit given.
    Depth,
    /// The table of float facts lacks the answer to this question.
    Float(FloatQuery),
}

/// The mathematical form of a `FloatQuery`.
pub enum FloatQueryView {
    Add(u64, u64),
    Sub(u64, u64),
    Mul(u64, u64),
    Div(u64, u64),
    FromInteger(i64),
    Render(u64),
    Parse(Seq<char>),
}

/// The mathematical form of a `FloatAnswer`.
pub enum FloatAnswerView {
    Bits(u64),
    Text(Seq<char>),
}

/// The mathematical form of a `Stop`.
pub enum StopView {
    Depth,
    Float(FloatQueryView),
}

impl View for FloatQuery {
    type V = FloatQueryView;

    open spec fn view(&self) -> FloatQueryView {
        match self {
            FloatQuery::Add(a, b) => FloatQueryView::Add(*a, *b),
            FloatQuery::Sub(a, b) => FloatQueryView::Sub(*a, *b),
            FloatQuery::Mul(a, b) => FloatQueryView::Mul(*a, *b),
            FloatQuery::Div(a, b) => FloatQueryView::Div(*a, *b),
            FloatQuery::FromInteger(i) => FloatQueryView::FromInteger(*i),
            FloatQuery::Render(a) => FloatQueryView::Render(*a),
            FloatQuery::Parse(s) => FloatQueryView::Parse(s@),
        }
    }
}

impl View for FloatAnswer {
    type V = FloatAnswerView;

    open spec fn view(&self) -> FloatAnswerView {
        match self {
            FloatAnswer::Bits(b) => FloatAnswerView::Bits(*b),
            FloatAnswer::Text(s) => FloatAnswerView::Text(s@),
        }
    }
}

impl View for Stop {
    type V = StopView;

    open spec fn view(&self) -> StopView {
        match self {
            Stop::Depth => StopView::Depth,
            Stop::Float(q) => StopView::Float(q@),
        }
    }
}

impl FloatQueryView {
    /// Whether the answer to this question is text rather than a double.
    pub open spec fn wants_text(self) -> bool {
        self is Render
    }
}

impl Clone for FloatQuery {
    fn clone(&self) -> (r: FloatQuery)
        ensures
            r@ == self@,
    {
        match self {
            FloatQuery::Add(a, b) => FloatQuery::Add(*a, *b),
            FloatQuery::Sub(a, b) => FloatQuery::Sub(*a, *b),
            FloatQuery::Mul(a, b) => FloatQuery::Mul(*a, *b),
            FloatQuery::Div(a, b) => FloatQuery::Div(*a, *b),
            FloatQuery::FromInteger(i) => FloatQuery::FromInteger(*i),
            FloatQuery::Render(a) => FloatQuery::Render(*a),
            FloatQuery::Parse(s) => FloatQuery::Parse(s.clone()),
        }
    }
}

impl Clone for FloatAnswer {
    fn clone(&self) -> (r: FloatAnswer)
        ensures
            r@ == self@,
    {
        match self {
            FloatAnswer::Bits(b) => FloatAnswer::Bits(*b),
            FloatAnswer::Text(s) => FloatAnswer::Text(s.clone()),
        }
    }
}

impl FloatQuery {
    /// Whether two questions are the same question.
    pub fn same(&self, other: &FloatQuery) -> (r: bool)
        ensures
            r == (self@ == other@),
    {
        match (self, other) {
            (FloatQuery::Add(a, b), FloatQuery::Add(c, d)) => *a == *c && *b == *d,
            (FloatQuery::Sub(a, b), FloatQuery::Sub(c, d)) => *a == *c && *b == *d,
            (FloatQuery::Mul(a, b), FloatQuery::Mul(c, d)) => *a == *c && *b == *d,
            (FloatQuery::Div(a, b), FloatQuery::Div(c, d)) => *a == *c && *b == *d,
            (FloatQuery::FromInteger(a), FloatQuery::FromInteger(c)) => *a == *c,
            (FloatQuery::Render(a), FloatQuery::Render(c)) => *a == *c,
            (FloatQuery::Parse(a), FloatQuery::Parse(c)) => same_text(a, c),
            _ => false,
        }
    }

    /// Whether the answer to this question is text rather than a double.
    pub fn wants_text(&self) -> (r: bool)
        ensures
            r == self@.wants_text(),
    {
        match self {
            FloatQuery::Render(_) => true,
            _ => false,
        }
    }
}

/// What a list of facts says: for each question the answer of the first fact
/// that is about it.
pub open spec fn facts_map(facts: Seq<(FloatQuery, FloatAnswer)>) -> Map<
    FloatQueryView,
    FloatAnswerView,
>
    decreases facts.len(),
{
    if facts.len() == 0 {
        Map::empty()
    } else {
        let before = facts_map(facts.drop_last());
        let last = facts.last();
        if before.contains_key(last.0@) {
            before
        } else {
            before.insert(last.0@, last.1@)
        }
    }
}

/// The double that `facts` gives in answer to `q`, if any.
pub open spec fn known_bits(facts: Map<FloatQueryView, FloatAnswerView>, q: FloatQueryView) -> Option<
    u64,
> {
    if facts.contains_key(q) {
        match facts[q] {
            FloatAnswerView::Bits(b) => Some(b),
            FloatAnswerView::Text(_) => None,
        }
    } else {
        None
    }
}

/// The text that `facts` gives in answer to `q`, if any.
pub open spec fn known_text(facts: Map<FloatQueryView, FloatAnswerView>, q: FloatQueryView) -> Option<
    Seq<char>,
> {
    if facts.contains_key(q) {
        match facts[q] {
            FloatAnswerView::Bits(_) => None,
            FloatAnswerView::Text(t) => Some(t),
        }
    } else {
        None
    }
}

/// The double `facts` gives for `q`, or the stop that asks for it.
pub open spec fn bits_or_stop(facts: Map<FloatQueryView, FloatAnswerView>, q: FloatQueryView) -> Result<
    u64,
    StopView,
> {
    match known_bits(facts, q) {
        Some(b) => Ok(b),
        None => Err(StopView::Float(q)),
    }
}

/// The text `facts` gives for `q`, or the stop that asks for it.
pub open spec fn text_or_stop(facts: Map<FloatQueryView, FloatAnswerView>, q: FloatQueryView) -> Result<
    Seq<char>,
    StopView,
> {
    match known_text(facts, q) {
        Some(t) => Ok(t),
        None => Err(StopView::Float(q)),
    }
}

/// The facts about doubles that the host has supplied so far.
pub struct FloatTable {
    facts: Vec<(FloatQuery, FloatAnswer)>,
}

impl View for FloatTable {
    type V = Map<FloatQueryView, FloatAnswerView>;

    closed spec fn view(&self) -> Map<FloatQueryView, FloatAnswerView> {
        facts_map(self.facts@)
    }
}

proof fn lemma_facts_map_first(facts: Seq<(FloatQuery, FloatAnswer)>, q: FloatQueryView, i: int)
    requires
        0 <= i < facts.len(),
        facts[i].0@ == q,
        forall|j: int| 0 <= j < i ==> facts[j].0@ != q,
    ensures
        facts_map(facts).contains_key(q),
        facts_map(facts)[q] == facts[i].1@,
    decreases facts.len(),
{
    if i == facts.len() - 1 {
        lemma_facts_map_none(facts.drop_last(), q);
    } else {
        lemma_facts_map_first(facts.drop_last(), q, i);
    }
}

proof fn lemma_facts_map_none(facts: Seq<(FloatQuery, FloatAnswer)>, q: FloatQueryView)
    requires
        forall|j: int| 0 <= j < facts.len() ==> facts[j].0@ != q,
    ensures
        !facts_map(facts).contains_key(q),
    decreases facts.len(),
{
    if facts.len() > 0 {
        lemma_facts_map_none(facts.drop_last(), q);
    }
}

impl FloatTable {
    /// A table without facts.
    pub fn new() -> (r: FloatTable)
        ensures
            r@ == Map::<FloatQueryView, FloatAnswerView>::empty(),
    {
        FloatTable { facts: Vec::new() }
    }

    /// The position of the first fact about `q`.
    fn find(&self, q: &FloatQuery) -> (r: Option<usize>)
        ensures
            match r {
                Some(i) => i < self.facts@.len() && self.facts@[i as int].0@ == q@ && self@.contains_key(
                    q@,
                ) && self@[q@] == self.facts@[i as int].1@,
                None => !self@.contains_key(q@),
            },
    {
        let mut i: usize = 0;
        while i < self.facts.len()
            invariant
                i <= self.facts@.len(),
                forall|j: int| 0 <= j < i ==> self.facts@[j].0@ != q@,
            decreases self.facts@.len() - i,
        {
            if self.facts[i].0.same(q) {
                proof {
                    lemma_facts_map_first(self.facts@, q@, i as int);
                }
                return Some(i);
            }
            i += 1;
        }
        proof {
            lemma_facts_map_none(self.facts@, q@);
        }
        None
    }

    /// The answer on record for `q`, if there is one.
    pub fn lookup(&self, q: &FloatQuery) -> (r: Option<FloatAnswer>)
        ensures
            match r {
                Some(a) => self@.contains_key(q@) && self@[q@] == a@,
                None => !self@.contains_key(q@),
            },
    {
        match self.find(q) {
            Some(i) => Some(self.facts[i].1.clone()),
            None => None,
        }
    }

    /// Records the answer to a question. A question that already has an answer
    /// keeps it, and an answer of the wrong kind (text for a double, a double
    /// for text) is not recorded. Returns whether the fact was added.
    pub fn learn(&mut self, q: FloatQuery, a: FloatAnswer) -> (added: bool)
        ensures
            added == (!old(self)@.contains_key(q@) && (q@.wants_text() == (a@ is Text))),
            added ==> final(self)@ == old(self)@.insert(q@, a@),
            !added ==> final(self)@ == old(self)@,
    {
        let kind_ok = match a {
            FloatAnswer::Bits(_) => !q.wants_text(),
            FloatAnswer::Text(_) => q.wants_text(),
        };
        if !kind_ok {
            return false;
        }
        match self.find(&q) {
            Some(_) => false,
            None => {
                let ghost before = self.facts@;
                self.facts.push((q, a));
                assert(self.facts@.drop_last() =~= before);
                true
            },
        }
    }

    /// The double on record for `q`, or the stop that asks the host for it.
    pub fn bits(&self, q: FloatQuery) -> (r: Result<u64, Stop>)
        ensures
            stop_view(r) == bits_or_stop(self@, q@),
    {
        match self.find(&q) {
            Some(i) => match &self.facts[i].1 {
                FloatAnswer::Bits(b) => Ok(*b),
                FloatAnswer::Text(_) => Err(Stop::Float(q)),
            },
            None => Err(Stop::Float(q)),
        }
    }

    /// The text on record for `q`, or the stop that asks the host for it.
    pub fn text(&self, q: FloatQuery) -> (r: Result<String, Stop>)
        ensures
            text_stop_view(r) == text_or_stop(self@, q@),
    {
        match self.find(&q) {
            Some(i) => match &self.facts[i].1 {
                FloatAnswer::Bits(_) => Err(Stop::Float(q)),
                FloatAnswer::Text(t) => Ok(t.clone()),
            },
            None => Err(Stop::Float(q)),
        }
    }
}

/// A result whose error is a stop, with the stop in its mathematical form.
pub open spec fn stop_view<T>(r: Result<T, Stop>) -> Result<T, StopView> {
    match r {
        Ok(v) => Ok(v),
        Err(s) => Err(s@),
    }
}

/// A text or a stop, both in their mathematical form.
pub open spec fn text_stop_view(r: Result<String, Stop>) -> Result<Seq<char>, StopView> {
    match r {
        Ok(v) => Ok(v@),
        Err(s) => Err(s@),
    }
}

/// The bit that holds a double's sign.
pub const SIGN_BIT: u64 = 0x8000_0000_0000_0000;

/// The bits of a double but its sign.
pub const MAGNITUDE_BITS: u64 = 0x7fff_ffff_ffff_ffff;

/// The magnitude of the infinities; every larger magnitude is a NaN.
pub const INFINITY_BITS: u64 = 0x7ff0_0000_0000_0000;

/// Whether the bits are those of a NaN: an all-ones exponent with a mantissa
/// that is not zero.
pub open spec fn is_nan(a: u64) -> bool {
    (a & MAGNITUDE_BITS) > INFINITY_BITS
}

/// Whether the bits are those of `0.0` or `-0.0`.
pub open spec fn is_zero(a: u64) -> bool {
    (a & MAGNITUDE_BITS) == 0
}

/// Whether the sign bit is set.
pub open spec fn is_negative(a: u64) -> bool {
    (a & SIGN_BIT) != 0
}

/// IEEE 754 equality of two doubles: no NaN equals anything, the two zeros are
/// equal, and otherwise equal doubles have equal bits.
pub open spec fn float_eq(a: u64, b: u64) -> bool {
    !is_nan(a) && !is_nan(b) && (a == b || (is_zero(a) && is_zero(b)))
}

/// IEEE 754 `<` on two doubles: false with a NaN on either side and between the
/// two zeros; a negative double is below a positive one; among positive
/// doubles the smaller bits are the smaller double, among negative ones the
/// larger bits.
pub open spec fn float_lt(a: u64, b: u64) -> bool {
    !is_nan(a) && !is_nan(b) && !(is_zero(a) && is_zero(b)) && if is_negative(a) {
        !is_negative(b) || a > b
    } else {
        !is_negative(b) && a < b
    }
}

/// The double with the opposite sign.
pub open spec fn float_neg(a: u64) -> u64 {
    a ^ SIGN_BIT
}

/// Whether the bits are those of a NaN.
pub fn nan(a: u64) -> (r: bool)
    ensures
        r == is_nan(a),
{
    (a & MAGNITUDE_BITS) > INFINITY_BITS
}

/// Whether the double is `0.0` or `-0.0`.
pub fn zero(a: u64) -> (r: bool)
    ensures
        r == is_zero(a),
{
    (a & MAGNITUDE_BITS) == 0
}

/// `a == b` on doubles.
pub fn equal(a: u64, b: u64) -> (r: bool)
    ensures
        r == float_eq(a, b),
{
    !nan(a) && !nan(b) && (a == b || (zero(a) && zero(b)))
}

/// `a < b` on doubles.
pub fn less(a: u64, b: u64) -> (r: bool)
    ensures
        r == float_lt(a, b),
{
    if nan(a) || nan(b) || (zero(a) && zero(b)) {
        false
    } else if (a & SIGN_BIT) != 0 {
        (b & SIGN_BIT) == 0 || a > b
    } else {
        (b & SIGN_BIT) == 0 && a < b
    }
}

/// `-a` on a double.
pub fn negate(a: u64) -> (r: u64)
    ensures
        r == float_neg(a),
{
    a ^ SIGN_BIT
}

} // verus!
