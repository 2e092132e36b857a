//! Reading back what was written: a value made of literals and lists, written
//! out and read again, is the same value.

use vstd::prelude::*;
use crate::cell::{Facts, Value, cell_text, cells_text};
use crate::floats::StopView;
use crate::parser::{
    AstView, ErrorView, Tag, after_sign, digits_end, digits_number, elements, expression,
    expressions, find_char, first_value, integer_value, is_digit, is_integer_token, is_space,
    is_token_char, leaf, program_value, skip_blank, token_end, token_tag, value_of, values_of,
};
use crate::text::{decimal, digit_char, digit_value, digits};

verus! {

/// Every character of the digits of a number is a digit, there is at least
/// one, and they write the number.
pub proof fn lemma_digits(n: nat)
    ensures
        digits(n).len() >= 1,
        forall|j: int| 0 <= j < digits(n).len() ==> is_digit(#[trigger] digits(n)[j]),
        digits_number(digits(n), 0, digits(n).len() as int) == n,
    decreases n,
{
    if n >= 10 {
        lemma_digits(n / 10);
        let before = digits(n / 10);
        let all = digits(n);
        assert(all == before.push(digit_char((n % 10) as int)));
        assert forall|j: int| 0 <= j < all.len() implies is_digit(#[trigger] all[j]) by {
            if j < before.len() {
                assert(all[j] == before[j]);
            }
        }
        lemma_digits_number_same(all, before, 0, before.len() as int);
        lemma_digit_value((n % 10) as int);
        assert(all.last() == digit_char((n % 10) as int));
        assert(digits_number(all, 0, all.len() as int) == digits_number(all, 0, all.len() - 1) * 10
            + (n % 10));
    } else {
        lemma_digit_value(n as int);
        let all = digits(n);
        assert(all.len() == 1 && all[0] == digit_char(n as int));
        assert(digits_number(all, 0, 0) == 0);
        assert(digits_number(all, 0, 1) == digits_number(all, 0, 0) * 10 + n);
    }
}

/// A digit's character writes that digit, and is a digit.
pub proof fn lemma_digit_value(d: int)
    requires
        0 <= d < 10,
    ensures
        digit_value(digit_char(d)) == Some(d),
        is_digit(digit_char(d)),
{
}

/// The number that digits write depends on those digits alone.
pub proof fn lemma_digits_number_same(a: Seq<char>, b: Seq<char>, from: int, to: int)
    requires
        0 <= from <= to,
        to <= a.len(),
        to <= b.len(),
        forall|j: int| from <= j < to ==> a[j] == b[j],
    ensures
        digits_number(a, from, to) == digits_number(b, from, to),
    decreases to - from,
{
    if to > from {
        lemma_digits_number_same(a, b, from, to - 1);
    }
}

/// The number that digits write does not depend on where in a text they
/// stand.
pub proof fn lemma_digits_number_shift(s: Seq<char>, pos: int, t: Seq<char>, from: int, to: int)
    requires
        0 <= pos,
        0 <= from <= to <= t.len(),
        pos + t.len() <= s.len(),
        forall|j: int| 0 <= j < t.len() ==> s[pos + j] == t[j],
    ensures
        digits_number(s, pos + from, pos + to) == digits_number(t, from, to),
    decreases to - from,
{
    if to > from {
        lemma_digits_number_shift(s, pos, t, from, to - 1);
        assert(s[pos + (to - 1)] == t[to - 1]);
    }
}

/// Where the digits of a text end does not depend on where in a longer text
/// it stands.
pub proof fn lemma_digits_end_shift(s: Seq<char>, pos: int, t: Seq<char>, from: int)
    requires
        0 <= pos,
        0 <= from <= t.len(),
        pos + t.len() <= s.len(),
        forall|j: int| 0 <= j < t.len() ==> s[pos + j] == t[j],
    ensures
        digits_end(s, pos + from, pos + t.len()) == pos + digits_end(t, from, t.len() as int),
        from <= digits_end(t, from, t.len() as int) <= t.len(),
    decreases t.len() - from,
{
    if from < t.len() {
        assert(s[pos + from] == t[from]);
        if is_digit(t[from]) {
            lemma_digits_end_shift(s, pos, t, from + 1);
        }
    }
}

/// Digits alone end where the text ends.
pub proof fn lemma_digits_end_all(t: Seq<char>, from: int)
    requires
        0 <= from <= t.len(),
        forall|j: int| from <= j < t.len() ==> is_digit(#[trigger] t[j]),
    ensures
        digits_end(t, from, t.len() as int) == t.len(),
    decreases t.len() - from,
{
    if from < t.len() {
        lemma_digits_end_all(t, from + 1);
    }
}

/// A run of token characters that is followed by none ends at its end.
pub proof fn lemma_token_end(s: Seq<char>, pos: int, n: int, from: int)
    requires
        0 <= pos,
        0 <= from <= n,
        pos + n <= s.len(),
        forall|j: int| 0 <= j < n ==> is_token_char(#[trigger] s[pos + j]),
        pos + n == s.len() || !is_token_char(s[pos + n]),
    ensures
        token_end(s, pos + from) == pos + n,
    decreases n - from,
{
    if from < n {
        assert(is_token_char(s[pos + from]));
        lemma_token_end(s, pos, n, from + 1);
    }
}

/// What kind of token a text is does not depend on where in a longer text it
/// stands.
pub proof fn lemma_token_tag_shift(s: Seq<char>, pos: int, t: Seq<char>)
    requires
        0 <= pos,
        t.len() > 0,
        pos + t.len() <= s.len(),
        forall|j: int| 0 <= j < t.len() ==> s[pos + j] == t[j],
    ensures
        token_tag(s, pos, pos + t.len()) == token_tag(t, 0, t.len() as int),
        is_integer_token(s, pos, pos + t.len()) == is_integer_token(t, 0, t.len() as int),
{
    let n = t.len() as int;
    assert(s[pos + 0] == t[0]);
    let start = after_sign(t, 0, n);
    assert(after_sign(s, pos, pos + n) == pos + start);
    lemma_digits_end_shift(s, pos, t, start);
    let whole = digits_end(t, start, n);
    if whole < n {
        assert(s[pos + whole] == t[whole]);
        lemma_digits_end_shift(s, pos, t, whole + 1);
    }
    let pointed = whole < n && t[whole] == '.';
    let mantissa = if pointed {
        digits_end(t, whole + 1, n)
    } else {
        whole
    };
    if mantissa < n {
        assert(s[pos + mantissa] == t[mantissa]);
        let power = after_sign(t, mantissa + 1, n);
        if mantissa + 1 < n {
            assert(s[pos + (mantissa + 1)] == t[mantissa + 1]);
        }
        assert(after_sign(s, pos + mantissa + 1, pos + n) == pos + power);
        lemma_digits_end_shift(s, pos, t, power);
    }
}

/// Whether a text can be the name of a symbol: it is a token, and reads
/// neither as an integer nor as a decimal number.
pub open spec fn is_symbol_text(t: Seq<char>) -> bool {
    &&& t.len() > 0
    &&& forall|j: int| 0 <= j < t.len() ==> is_token_char(#[trigger] t[j])
    &&& token_tag(t, 0, t.len() as int) == Some(Tag::Symbol)
}

/// Whether a value can be written down as a literal: an integer, a boolean, a
/// character other than the single quote, a string without a double quote, a
/// symbol with the name of a symbol, or a list of such values.
pub open spec fn literal(v: Value) -> bool
    decreases v,
{
    match v {
        Value::Integer(_) => true,
        Value::Bool(_) => true,
        Value::Char(c) => c != '\'',
        Value::Str(x) => forall|j: int| 0 <= j < x.len() ==> #[trigger] x[j] != '"',
        Value::Symbol(x) => is_symbol_text(x),
        Value::Sexpr(l) => literals(l),
        Value::Qexpr(l) => literals(l),
        _ => false,
    }
}

/// Whether all the values of a sequence can be written down as literals.
pub open spec fn literals(l: Seq<Value>) -> bool
    decreases l,
{
    forall|i: int| 0 <= i < l.len() ==> literal(#[trigger] l[i])
}

/// A literal as it is written.
pub open spec fn written(v: Value) -> Seq<char>
    decreases v,
{
    match v {
        Value::Integer(i) => decimal(i as int),
        Value::Bool(b) => if b {
            seq!['#', 't']
        } else {
            seq!['#', 'f']
        },
        Value::Char(c) => seq!['\'', c, '\''],
        Value::Str(x) => seq!['"'] + x + seq!['"'],
        Value::Symbol(x) => x,
        Value::Sexpr(l) => seq!['('] + written_from(l, 0) + seq![')'],
        Value::Qexpr(l) => seq!['{'] + written_from(l, 0) + seq!['}'],
        _ => Seq::empty(),
    }
}

/// The elements of a list from element `k` on as they are written: each in
/// turn, with a space before every element but the first of the list.
pub open spec fn written_from(l: Seq<Value>, k: int) -> Seq<char>
    decreases l, l.len() - k,
{
    if k < 0 || k >= l.len() {
        Seq::empty()
    } else {
        (if k > 0 {
            seq![' ']
        } else {
            Seq::empty()
        }) + written(l[k]) + written_from(l, k + 1)
    }
}

/// The syntax tree of a literal.
pub open spec fn tree_of(v: Value) -> AstView
    decreases v,
{
    match v {
        Value::Integer(_) => leaf(Tag::Integer, written(v)),
        Value::Bool(_) => leaf(Tag::Bool, written(v)),
        Value::Char(_) => leaf(Tag::Char, written(v)),
        Value::Str(_) => leaf(Tag::Str, written(v)),
        Value::Symbol(_) => leaf(Tag::Symbol, written(v)),
        Value::Sexpr(l) => AstView { tag: Tag::Sexpr, contents: Seq::empty(), children: trees_of(l) },
        Value::Qexpr(l) => AstView { tag: Tag::Qexpr, contents: Seq::empty(), children: trees_of(l) },
        _ => leaf(Tag::Root, Seq::empty()),
    }
}

/// The syntax trees of a sequence of literals.
pub open spec fn trees_of(l: Seq<Value>) -> Seq<AstView>
    decreases l,
{
    Seq::new(
        l.len(),
        |i: int|
            if 0 <= i < l.len() {
                tree_of(l[i])
            } else {
                leaf(Tag::Root, Seq::empty())
            },
    )
}

/// The first elements of a list as they are written, followed by the
/// remaining ones as they are written, are the list as it is written.
proof fn lemma_cells_text_written(l: Seq<Value>, facts: Facts, n: int)
    requires
        literals(l),
        0 <= n <= l.len(),
    ensures
        cells_text(l.take(n), facts) is Ok,
        cells_text(l.take(n), facts)->Ok_0 + written_from(l, n) == written_from(l, 0),
    decreases l, n,
{
    if n == 0 {
        assert(l.take(0) =~= Seq::<Value>::empty());
        assert(Seq::<char>::empty() + written_from(l, 0) =~= written_from(l, 0));
    } else {
        lemma_cells_text_written(l, facts, n - 1);
        lemma_cell_text_written(l[n - 1], facts);
        reveal_strlit(" ");
        assert(l.take(n).drop_last() =~= l.take(n - 1));
        assert(l.take(n).last() == l[n - 1]);
        let before = cells_text(l.take(n - 1), facts)->Ok_0;
        let t = written(l[n - 1]);
        if n == 1 {
            assert(before =~= Seq::<char>::empty());
            assert(t + written_from(l, 1) =~= written_from(l, 0));
        } else {
            assert(" "@ =~= seq![' ']);
            assert((before + " "@ + t) + written_from(l, n) =~= before + (seq![' '] + t
                + written_from(l, n)));
        }
    }
}

/// A literal is written, without any fact about doubles, as `written` says.
pub proof fn lemma_cell_text_written(v: Value, facts: Facts)
    requires
        literal(v),
    ensures
        cell_text(v, facts) == Ok::<Seq<char>, StopView>(written(v)),
    decreases v, 0nat,
{
    match v {
        Value::Bool(b) => {
            reveal_strlit("#t");
            reveal_strlit("#f");
            assert("#t"@ =~= seq!['#', 't']);
            assert("#f"@ =~= seq!['#', 'f']);
        },
        Value::Char(c) => {
            reveal_strlit("'");
            assert("'"@.push(c) + "'"@ =~= seq!['\'', c, '\'']);
        },
        Value::Str(x) => {
            reveal_strlit("\"");
            assert("\""@ =~= seq!['"']);
        },
        Value::Sexpr(l) => {
            reveal_strlit("(");
            reveal_strlit(")");
            lemma_cells_text_written(l, facts, l.len() as int);
            assert(l.take(l.len() as int) =~= l);
            assert(written_from(l, l.len() as int) =~= Seq::<char>::empty());
            assert(cells_text(l, facts)->Ok_0 + Seq::<char>::empty() =~= cells_text(l, facts)->Ok_0);
            assert("("@ =~= seq!['(']);
            assert(")"@ =~= seq![')']);
        },
        Value::Qexpr(l) => {
            reveal_strlit("{");
            reveal_strlit("}");
            lemma_cells_text_written(l, facts, l.len() as int);
            assert(l.take(l.len() as int) =~= l);
            assert(written_from(l, l.len() as int) =~= Seq::<char>::empty());
            assert(cells_text(l, facts)->Ok_0 + Seq::<char>::empty() =~= cells_text(l, facts)->Ok_0);
            assert("{"@ =~= seq!['{']);
            assert("}"@ =~= seq!['}']);
        },
        _ => {},
    }
}

/// An integer in decimal is a token that reads as an integer, and as the
/// integer it writes.
pub proof fn lemma_decimal_token(i: i64)
    ensures
        decimal(i as int).len() > 0,
        forall|j: int|
            0 <= j < decimal(i as int).len() ==> is_token_char(#[trigger] decimal(i as int)[j]),
        is_integer_token(decimal(i as int), 0, decimal(i as int).len() as int),
        integer_value(decimal(i as int)) == i,
        decimal(i as int)[0] == '-' || is_digit(decimal(i as int)[0]),
{
    let t = decimal(i as int);
    let n = t.len() as int;
    if i < 0 {
        let m = (-(i as int)) as nat;
        lemma_digits(m);
        let d = digits(m);
        assert(t == seq!['-'] + d);
        assert(t[0] == '-');
        assert forall|j: int| 0 <= j < d.len() implies t[1 + j] == d[j] by {}
        assert forall|j: int| 0 <= j < t.len() implies is_token_char(#[trigger] t[j]) by {
            if j > 0 {
                assert(t[j] == d[j - 1]);
                assert(is_digit(d[j - 1]));
            }
        }
        assert forall|j: int| 1 <= j < t.len() implies is_digit(#[trigger] t[j]) by {
            assert(t[j] == d[j - 1]);
            assert(is_digit(d[j - 1]));
        }
        lemma_digits_end_all(t, 1);
        lemma_digits_number_shift(t, 1, d, 0, d.len() as int);
    } else {
        lemma_digits(i as nat);
        assert(t == digits(i as nat));
        assert(is_digit(t[0]));
        assert forall|j: int| 0 <= j < t.len() implies is_token_char(#[trigger] t[j]) by {
            assert(is_digit(t[j]));
        }
        lemma_digits_end_all(t, 0);
    }
}

/// What a literal as it is written begins with: it is not empty, and its
/// first character is no blank, starts no comment and closes no list.
pub proof fn lemma_first_char(v: Value)
    requires
        literal(v),
    ensures
        written(v).len() > 0,
        !is_space(written(v)[0]),
        written(v)[0] != ';',
        written(v)[0] != ')',
        written(v)[0] != '}',
{
    match v {
        Value::Integer(i) => {
            lemma_decimal_token(i);
        },
        Value::Symbol(x) => {
            assert(is_token_char(x[0]));
        },
        _ => {},
    }
}

/// The value that the syntax tree of a literal denotes is the literal.
pub proof fn lemma_value(v: Value, facts: Facts)
    requires
        literal(v),
    ensures
        value_of(tree_of(v), facts) == Ok::<Option<Value>, StopView>(Some(v)),
    decreases v, 0nat,
{
    match v {
        Value::Integer(i) => {
            lemma_decimal_token(i);
        },
        Value::Bool(b) => {
            reveal_strlit("#t");
            assert("#t"@ =~= seq!['#', 't']);
            assert(seq!['#', 'f'][1] != seq!['#', 't'][1]);
        },
        Value::Char(c) => {},
        Value::Str(x) => {
            let t = written(v);
            assert(t.subrange(1, t.len() - 1) =~= x);
        },
        Value::Sexpr(l) => {
            lemma_values(l, facts, l.len() as int);
            assert(trees_of(l).take(l.len() as int) =~= trees_of(l));
            assert(l.take(l.len() as int) =~= l);
        },
        Value::Qexpr(l) => {
            lemma_values(l, facts, l.len() as int);
            assert(trees_of(l).take(l.len() as int) =~= trees_of(l));
            assert(l.take(l.len() as int) =~= l);
        },
        _ => {},
    }
}

/// The values that the syntax trees of literals denote are the literals.
proof fn lemma_values(l: Seq<Value>, facts: Facts, n: int)
    requires
        literals(l),
        0 <= n <= l.len(),
    ensures
        values_of(trees_of(l).take(n), facts) == Ok::<Seq<Value>, StopView>(l.take(n)),
    decreases l, n,
{
    if n == 0 {
        assert(trees_of(l).take(0) =~= Seq::<AstView>::empty());
        assert(l.take(0) =~= Seq::<Value>::empty());
    } else {
        lemma_values(l, facts, n - 1);
        lemma_value(l[n - 1], facts);
        assert(trees_of(l).take(n).drop_last() =~= trees_of(l).take(n - 1));
        assert(trees_of(l).take(n).last() == tree_of(l[n - 1]));
        assert(l.take(n - 1).push(l[n - 1]) =~= l.take(n));
    }
}

/// Where a text without double quotes is followed by one, the next double
/// quote is found right after it.
proof fn lemma_find_quote(s: Seq<char>, pos: int, n: int, from: int)
    requires
        0 <= pos,
        0 <= from <= n,
        pos + n < s.len(),
        forall|j: int| 0 <= j < n ==> #[trigger] s[pos + j] != '"',
        s[pos + n] == '"',
    ensures
        find_char(s, pos + from, '"') == pos + n,
    decreases n - from,
{
    if from < n {
        assert(s[pos + from] != '"');
        lemma_find_quote(s, pos, n, from + 1);
    }
}

/// Whether the text `t` stands in `s` at position `pos`.
pub open spec fn stands_at(s: Seq<char>, pos: int, t: Seq<char>) -> bool {
    0 <= pos && pos + t.len() <= s.len() && forall|j: int|
        0 <= j < t.len() ==> s[pos + j] == #[trigger] t[j]
}

/// Reading a literal where it stands written gives its syntax tree and ends
/// right after it, provided the text ends there or goes on with a character
/// that cannot stand in a token.
pub proof fn lemma_read(v: Value, s: Seq<char>, pos: int)
    requires
        literal(v),
        stands_at(s, pos, written(v)),
        pos + written(v).len() == s.len() || !is_token_char(s[pos + written(v).len()]),
    ensures
        expression(s, pos) == Ok::<(AstView, int), ErrorView>(
            (tree_of(v), pos + written(v).len()),
        ),
    decreases v, 0nat,
{
    let t = written(v);
    let n = t.len() as int;
    lemma_first_char(v);
    assert(s[pos + 0] == t[0]);
    match v {
        Value::Integer(i) => {
            lemma_decimal_token(i);
            assert forall|j: int| 0 <= j < n implies is_token_char(#[trigger] s[pos + j]) by {
                assert(s[pos + j] == t[j]);
            }
            lemma_token_end(s, pos, n, 0);
            lemma_token_tag_shift(s, pos, t);
            assert(s.subrange(pos, pos + n) =~= t);
        },
        Value::Symbol(x) => {
            assert forall|j: int| 0 <= j < n implies is_token_char(#[trigger] s[pos + j]) by {
                assert(s[pos + j] == t[j]);
            }
            assert(is_token_char(t[0]));
            lemma_token_end(s, pos, n, 0);
            lemma_token_tag_shift(s, pos, t);
            assert(s.subrange(pos, pos + n) =~= t);
        },
        Value::Bool(b) => {
            assert(s[pos + 1] == t[1]);
            assert(s.subrange(pos, pos + 2) =~= t);
        },
        Value::Char(c) => {
            assert(s[pos + 1] == t[1]);
            assert(s[pos + 2] == t[2]);
            assert(s.subrange(pos, pos + 3) =~= t);
        },
        Value::Str(x) => {
            assert forall|j: int| 0 <= j < x.len() implies #[trigger] s[pos + 1 + j] != '"' by {
                assert(s[pos + (1 + j)] == t[1 + j]);
                assert(t[1 + j] == x[j]);
            }
            assert(s[pos + (n - 1)] == t[n - 1]);
            lemma_find_quote(s, pos + 1, x.len() as int, 0);
            assert(s.subrange(pos, pos + n) =~= t);
        },
        Value::Sexpr(l) => {
            let inner = written_from(l, 0);
            assert forall|j: int| 0 <= j < inner.len() implies s[pos + 1 + j] == #[trigger] inner[j] by {
                assert(s[pos + (1 + j)] == t[1 + j]);
            }
            assert(s[pos + (n - 1)] == t[n - 1]);
            lemma_read_elements(l, 0, s, pos + 1, ')', Seq::empty());
            assert(trees_of(l).skip(0) =~= trees_of(l));
            assert(Seq::<AstView>::empty() + trees_of(l) =~= trees_of(l));
        },
        Value::Qexpr(l) => {
            let inner = written_from(l, 0);
            assert forall|j: int| 0 <= j < inner.len() implies s[pos + 1 + j] == #[trigger] inner[j] by {
                assert(s[pos + (1 + j)] == t[1 + j]);
            }
            assert(s[pos + (n - 1)] == t[n - 1]);
            lemma_read_elements(l, 0, s, pos + 1, '}', Seq::empty());
            assert(trees_of(l).skip(0) =~= trees_of(l));
            assert(Seq::<AstView>::empty() + trees_of(l) =~= trees_of(l));
        },
        _ => {},
    }
}

/// Reading the elements of a list from element `k` on, where they stand
/// written and are followed by the closing bracket, gives their syntax trees
/// and ends right after the bracket.
pub proof fn lemma_read_elements(
    l: Seq<Value>,
    k: int,
    s: Seq<char>,
    pos: int,
    close: char,
    done: Seq<AstView>,
)
    requires
        literals(l),
        0 <= k <= l.len(),
        close == ')' || close == '}',
        stands_at(s, pos, written_from(l, k)),
        pos + written_from(l, k).len() < s.len(),
        s[pos + written_from(l, k).len()] == close,
    ensures
        elements(s, pos, close, done) == Ok::<(Seq<AstView>, int), ErrorView>(
            (done + trees_of(l).skip(k), pos + written_from(l, k).len() + 1),
        ),
    decreases l, l.len() - k,
{
    let r = written_from(l, k);
    if k == l.len() {
        assert(r.len() == 0);
        assert(done + trees_of(l).skip(k) =~= done);
    } else {
        let v = l[k];
        let t = written(v);
        let next = written_from(l, k + 1);
        let lead: int = if k > 0 {
            1
        } else {
            0
        };
        let q = pos + lead;
        lemma_first_char(v);
        assert(r.len() == lead + t.len() + next.len());
        assert forall|j: int| 0 <= j < t.len() implies s[q + j] == #[trigger] t[j] by {
            assert(s[pos + (lead + j)] == r[lead + j]);
        }
        assert(s[q + 0] == t[0]);
        if k > 0 {
            assert(s[pos + 0] == r[0]);
            assert(s[pos] == ' ');
        }
        assert(skip_blank(s, q) == q);
        assert(skip_blank(s, pos) == q);
        // What follows the element: a space before the next one, or the bracket.
        if k + 1 < l.len() {
            assert(next[0] == ' ');
            assert(s[pos + (lead + t.len() + 0)] == r[lead + t.len() + 0]);
        }
        assert(!is_token_char(s[q + t.len()]));
        lemma_read(v, s, q);
        assert forall|j: int| 0 <= j < next.len() implies s[q + t.len() + j] == #[trigger] next[j] by {
            assert(s[pos + (lead + t.len() + j)] == r[lead + t.len() + j]);
        }
        lemma_read_elements(l, k + 1, s, q + t.len(), close, done.push(tree_of(v)));
        assert(done.push(tree_of(v)) + trees_of(l).skip(k + 1) =~= done + trees_of(l).skip(k));
    }
}

/// Round trip: a literal value, written out and read again, is the same
/// value. No fact about doubles is needed.
pub proof fn law_round_trip(v: Value, facts: Facts)
    requires
        literal(v),
    ensures
        cell_text(v, facts) is Ok,
        program_value(cell_text(v, facts)->Ok_0, facts) == Ok::<Value, StopView>(v),
{
    lemma_cell_text_written(v, facts);
    let s = written(v);
    let n = s.len() as int;
    lemma_first_char(v);
    assert(stands_at(s, 0, s));
    lemma_read(v, s, 0);
    lemma_value(v, facts);
    let tree = tree_of(v);
    assert(skip_blank(s, 0) == 0);
    assert(skip_blank(s, n) == n);
    let one = Seq::<AstView>::empty().push(tree);
    assert(expressions(s, n, one) == Ok::<Seq<AstView>, ErrorView>(one));
    assert(expressions(s, 0, Seq::empty()) == Ok::<Seq<AstView>, ErrorView>(one));
    assert(one[0] == tree);
    assert(first_value(one, facts) == Ok::<Option<Value>, StopView>(Some(v)));
}

} // verus!
