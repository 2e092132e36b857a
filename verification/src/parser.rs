//! The front end: from the text of a program to its syntax tree, and from the
//! syntax tree to the value it denotes.
//!
//! A program is a sequence of expressions. Blanks separate them, and a `;`
//! starts a comment that runs to the end of its line. An expression is a
//! list in round or curly brackets, a string in double quotes, a character in
//! single quotes, `#t` or `#f`, or a token: a run of letters, digits and the
//! signs `! $ % & * + - . / : < = > ? @ ^ _ ~ \`. A token that reads as an
//! integer is an integer, one that reads as a decimal number is a double, any
//! other that does not begin with a digit is a symbol.

use vstd::prelude::*;
use crate::cell::{Cell, Facts, Value, lemma_views_push, views};
use crate::floats::{FloatQuery, FloatQueryView, FloatTable, Stop, StopView, bits_or_stop};
use crate::text::{
    chars_of, decimal, digit_value, push_char, push_digits, str_eq, string_of,
};

verus! {

/// The kind of a node of the syntax tree.
#[derive(Clone, Copy, Debug, PartialEq, Eq, Structural)]
pub enum Tag {
    /// The whole program; its children are the expressions.
    Root,
    Float,
    Integer,
    Str,
    Char,
    Bool,
    Symbol,
    /// A list in round brackets; its children are the elements.
    Sexpr,
    /// A list in curly brackets; its children are the elements.
    Qexpr,
}

/// A node of the syntax tree: its kind, the text it was read from (for a
/// list and for the program, none), and its children.
#[derive(Debug)]
pub struct Ast {
    pub tag: Tag,
    pub contents: String,
    pub children: Vec<Ast>,
}

/// The mathematical form of an `Ast`.
pub struct AstView {
    pub tag: Tag,
    pub contents: Seq<char>,
    pub children: Seq<AstView>,
}

/// Where and why the text is no program: line and column, both counted from
/// zero, what was expected there, and the character found, if the text did
/// not end there.
#[derive(Debug)]
pub struct Error {
    pub line: usize,
    pub column: usize,
    pub expected: String,
    pub found: Option<char>,
}

/// The mathematical form of an `Error`.
pub struct ErrorView {
    pub line: usize,
    pub column: usize,
    pub expected: Seq<char>,
    pub found: Option<char>,
}

/// The mathematical forms of a sequence of nodes.
pub open spec fn ast_views(s: Seq<Ast>) -> Seq<AstView>
    decreases s,
{
    Seq::new(
        s.len(),
        |i: int|
            if 0 <= i < s.len() {
                s[i]@
            } else {
                AstView { tag: Tag::Root, contents: Seq::empty(), children: Seq::empty() }
            },
    )
}

impl View for Ast {
    type V = AstView;

    open spec fn view(&self) -> AstView
        decreases self,
    {
        AstView { tag: self.tag, contents: self.contents@, children: ast_views(self.children@) }
    }
}

impl View for Error {
    type V = ErrorView;

    open spec fn view(&self) -> ErrorView {
        ErrorView {
            line: self.line,
            column: self.column,
            expected: self.expected@,
            found: self.found,
        }
    }
}

/// The message of an error: the place, counted from one, then what was
/// expected and what was found.
pub open spec fn error_text(e: ErrorView) -> Seq<char> {
    "<input>:"@ + decimal(e.line + 1) + ":"@ + decimal(e.column + 1) + ": error: expected "@
        + e.expected + " at "@ + (match e.found {
        Some(c) => "'"@.push(c) + "'"@,
        None => "end of input"@,
    }) + "\n"@
}

impl Error {
    /// The message of this error.
    pub fn to_string(&self) -> (r: String)
        ensures
            r@ == error_text(self@),
    {
        let mut m = String::from_str("<input>:");
        push_digits(&mut m, self.line as u128 + 1);
        m.append(":");
        push_digits(&mut m, self.column as u128 + 1);
        m.append(": error: expected ");
        m.append(self.expected.as_str());
        m.append(" at ");
        match self.found {
            Some(c) => {
                m.append("'");
                push_char(&mut m, c);
                m.append("'");
            },
            None => {
                m.append("end of input");
            },
        }
        m.append("\n");
        assert(m@ =~= error_text(self@));
        m
    }
}

impl Ast {
    /// The kind of this node.
    pub fn get_tag(&self) -> (r: Tag)
        ensures
            r == self@.tag,
    {
        self.tag
    }

    /// The text this node was read from.
    pub fn get_contents(&self) -> (r: &str)
        ensures
            r@ == self@.contents,
    {
        self.contents.as_str()
    }

    /// The number of children.
    pub fn get_no_children(&self) -> (r: usize)
        ensures
            r == self@.children.len(),
    {
        self.children.len()
    }

    /// The child at `index`, if there is one.
    pub fn get_child(&self, index: usize) -> (r: Option<&Ast>)
        ensures
            match r {
                Some(child) => index < self@.children.len() && child@ == self@.children[index as int],
                None => index >= self@.children.len(),
            },
    {
        if index < self.children.len() {
            Some(&self.children[index])
        } else {
            None
        }
    }

    /// The children, in order.
    pub fn child_iter(&self) -> (r: &[Ast])
        ensures
            ast_views(r@) == self@.children,
    {
        self.children.as_slice()
    }
}

/// Whether a character is a blank.
pub open spec fn is_space(c: char) -> bool {
    c == ' ' || c == '\t' || c == '\n' || c == '\r'
}

/// Whether a character is a decimal digit.
pub open spec fn is_digit(c: char) -> bool {
    '0' <= c <= '9'
}

/// Whether a character can begin a symbol.
pub open spec fn is_symbol_start(c: char) -> bool {
    ('a' <= c <= 'z') || ('A' <= c <= 'Z') || c == '!' || c == '$' || c == '%' || c == '&' || c
        == '*' || c == '+' || c == '-' || c == '.' || c == '/' || c == ':' || c == '<' || c == '='
        || c == '>' || c == '?' || c == '@' || c == '^' || c == '_' || c == '~' || c == '\\'
}

/// Whether a character can stand in a token.
pub open spec fn is_token_char(c: char) -> bool {
    is_symbol_start(c) || is_digit(c)
}

fn space(c: char) -> (r: bool)
    ensures
        r == is_space(c),
{
    c == ' ' || c == '\t' || c == '\n' || c == '\r'
}

fn digit(c: char) -> (r: bool)
    ensures
        r == is_digit(c),
{
    '0' <= c && c <= '9'
}

fn token_char(c: char) -> (r: bool)
    ensures
        r == is_token_char(c),
{
    ('a' <= c && c <= 'z') || ('A' <= c && c <= 'Z') || c == '!' || c == '$' || c == '%' || c
        == '&' || c == '*' || c == '+' || c == '-' || c == '.' || c == '/' || c == ':' || c == '<'
        || c == '=' || c == '>' || c == '?' || c == '@' || c == '^' || c == '_' || c == '~' || c
        == '\\' || digit(c)
}

/// The number of line breaks before position `pos`.
pub open spec fn line_of(s: Seq<char>, pos: int) -> nat
    decreases pos,
{
    if pos <= 0 || pos > s.len() {
        0
    } else {
        line_of(s, pos - 1) + if s[pos - 1] == '\n' {
            1nat
        } else {
            0nat
        }
    }
}

/// The position at which the line of position `pos` begins.
pub open spec fn line_start(s: Seq<char>, pos: int) -> int
    decreases pos,
{
    if pos <= 0 || pos > s.len() {
        0
    } else if s[pos - 1] == '\n' {
        pos
    } else {
        line_start(s, pos - 1)
    }
}

/// The error of finding, at position `pos`, something else than was
/// expected.
pub open spec fn error_at(s: Seq<char>, pos: int, expected: Seq<char>) -> ErrorView {
    ErrorView {
        line: line_of(s, pos) as usize,
        column: (pos - line_start(s, pos)) as usize,
        expected,
        found: if 0 <= pos < s.len() {
            Some(s[pos])
        } else {
            None
        },
    }
}

fn fault(chars: &Vec<char>, pos: usize, expected: &str) -> (r: Error)
    requires
        pos <= chars.len(),
    ensures
        r@ == error_at(chars@, pos as int, expected@),
{
    let mut line: usize = 0;
    let mut start: usize = 0;
    let mut i: usize = 0;
    while i < pos
        invariant
            i <= pos <= chars.len(),
            line == line_of(chars@, i as int),
            start == line_start(chars@, i as int),
            line <= i,
            start <= i,
        decreases pos - i,
    {
        if chars[i] == '\n' {
            line += 1;
            start = i + 1;
        }
        i += 1;
    }
    Error {
        line,
        column: pos - start,
        expected: String::from_str(expected),
        found: if pos < chars.len() {
            Some(chars[pos])
        } else {
            None
        },
    }
}

/// The end of the line of position `pos`: the position of the next line break
/// or carriage return, or the end of the text.
pub open spec fn line_end(s: Seq<char>, pos: int) -> int
    decreases s.len() - pos,
{
    if pos < 0 || pos >= s.len() || s[pos] == '\n' || s[pos] == '\r' {
        pos
    } else {
        line_end(s, pos + 1)
    }
}

/// The first position from `pos` on that is neither a blank nor in a
/// comment.
pub open spec fn skip_blank(s: Seq<char>, pos: int) -> int
    decreases s.len() - pos,
{
    if pos < 0 || pos >= s.len() {
        pos
    } else if is_space(s[pos]) {
        skip_blank(s, pos + 1)
    } else if s[pos] == ';' {
        let end = line_end(s, pos + 1);
        if pos < end <= s.len() {
            skip_blank(s, end)
        } else {
            pos
        }
    } else {
        pos
    }
}

proof fn lemma_line_end_bounds(s: Seq<char>, pos: int)
    requires
        0 <= pos <= s.len(),
    ensures
        pos <= line_end(s, pos) <= s.len(),
    decreases s.len() - pos,
{
    if pos < s.len() && s[pos] != '\n' && s[pos] != '\r' {
        lemma_line_end_bounds(s, pos + 1);
    }
}

/// `skip_blank` moves forward and stays inside the text.
pub proof fn lemma_skip_blank_bounds(s: Seq<char>, pos: int)
    requires
        0 <= pos <= s.len(),
    ensures
        pos <= skip_blank(s, pos) <= s.len(),
    decreases s.len() - pos,
{
    if pos < s.len() {
        if is_space(s[pos]) {
            lemma_skip_blank_bounds(s, pos + 1);
        } else if s[pos] == ';' {
            lemma_line_end_bounds(s, pos + 1);
            lemma_skip_blank_bounds(s, line_end(s, pos + 1));
        }
    }
}

fn skip(chars: &Vec<char>, pos: usize) -> (r: usize)
    requires
        pos <= chars.len(),
    ensures
        r == skip_blank(chars@, pos as int),
        pos <= r <= chars.len(),
{
    let mut at = pos;
    let mut in_comment = false;
    proof {
        lemma_skip_blank_bounds(chars@, pos as int);
    }
    while at < chars.len() && (in_comment || space(chars[at]) || chars[at] == ';')
        invariant
            pos <= at <= chars.len(),
            !in_comment ==> skip_blank(chars@, pos as int) == skip_blank(chars@, at as int),
            in_comment ==> skip_blank(chars@, pos as int) == skip_blank(
                chars@,
                line_end(chars@, at as int),
            ),
        decreases chars.len() - at, if in_comment { 1nat } else { 0nat },
    {
        if in_comment {
            if chars[at] == '\n' || chars[at] == '\r' {
                in_comment = false;
            } else {
                at += 1;
            }
        } else if chars[at] == ';' {
            proof {
                lemma_line_end_bounds(chars@, at + 1);
            }
            in_comment = true;
            at += 1;
        } else {
            at += 1;
        }
    }
    at
}

/// The first position from `pos` on, and before `limit`, that holds no digit;
/// `limit` if there is none.
pub open spec fn digits_end(s: Seq<char>, pos: int, limit: int) -> int
    decreases limit - pos,
{
    if pos < 0 || pos >= limit || pos >= s.len() || !is_digit(s[pos]) {
        pos
    } else {
        digits_end(s, pos + 1, limit)
    }
}

/// The first position from `pos` on that holds no token character.
pub open spec fn token_end(s: Seq<char>, pos: int) -> int
    decreases s.len() - pos,
{
    if pos < 0 || pos >= s.len() || !is_token_char(s[pos]) {
        pos
    } else {
        token_end(s, pos + 1)
    }
}

/// The position after a sign at `pos`, or `pos` if there is no sign.
pub open spec fn after_sign(s: Seq<char>, pos: int, limit: int) -> int {
    if 0 <= pos < limit && pos < s.len() && (s[pos] == '-' || s[pos] == '+') {
        pos + 1
    } else {
        pos
    }
}

/// Whether `s[from..to]` reads as an integer: an optional sign, then digits.
pub open spec fn is_integer_token(s: Seq<char>, from: int, to: int) -> bool {
    let start = after_sign(s, from, to);
    start < to && digits_end(s, start, to) == to
}

/// Whether `s[from..to]` reads as a decimal number: an optional sign; digits
/// with an optional point among or before them and at least one digit at the
/// end; and an optional exponent, `e` or `E` with an optional sign and digits.
pub open spec fn is_float_token(s: Seq<char>, from: int, to: int) -> bool {
    let start = after_sign(s, from, to);
    let whole = digits_end(s, start, to);
    let pointed = whole < to && s[whole] == '.';
    let mantissa = if pointed {
        digits_end(s, whole + 1, to)
    } else {
        whole
    };
    let mantissa_ok = if pointed {
        mantissa > whole + 1
    } else {
        whole > start
    };
    mantissa_ok && (mantissa == to || ((s[mantissa] == 'e' || s[mantissa] == 'E') && {
        let power = after_sign(s, mantissa + 1, to);
        power < to && digits_end(s, power, to) == to
    }))
}

/// The kind of the token `s[from..to]`, if it is one: an integer, else a
/// double, else a symbol unless it begins with a digit.
pub open spec fn token_tag(s: Seq<char>, from: int, to: int) -> Option<Tag> {
    if is_integer_token(s, from, to) {
        Some(Tag::Integer)
    } else if is_float_token(s, from, to) {
        Some(Tag::Float)
    } else if !is_digit(s[from]) {
        Some(Tag::Symbol)
    } else {
        None
    }
}

/// A node without children.
pub open spec fn leaf(tag: Tag, contents: Seq<char>) -> AstView {
    AstView { tag, contents, children: Seq::empty() }
}

/// The first position from `pos` on that holds `c`, or the end of the text.
pub open spec fn find_char(s: Seq<char>, pos: int, c: char) -> int
    decreases s.len() - pos,
{
    if pos < 0 || pos >= s.len() || s[pos] == c {
        pos
    } else {
        find_char(s, pos + 1, c)
    }
}

/// The expression that begins at position `pos`, and the position after it.
pub open spec fn expression(s: Seq<char>, pos: int) -> Result<(AstView, int), ErrorView>
    decreases s.len() - pos, 0nat,
{
    if pos < 0 || pos >= s.len() {
        Err(error_at(s, pos, "an expression"@))
    } else if s[pos] == '(' {
        match elements(s, pos + 1, ')', Seq::empty()) {
            Ok((children, next)) => Ok(
                (AstView { tag: Tag::Sexpr, contents: Seq::empty(), children }, next),
            ),
            Err(e) => Err(e),
        }
    } else if s[pos] == '{' {
        match elements(s, pos + 1, '}', Seq::empty()) {
            Ok((children, next)) => Ok(
                (AstView { tag: Tag::Qexpr, contents: Seq::empty(), children }, next),
            ),
            Err(e) => Err(e),
        }
    } else if s[pos] == '"' {
        let close = find_char(s, pos + 1, '"');
        if close < s.len() {
            Ok((leaf(Tag::Str, s.subrange(pos, close + 1)), close + 1))
        } else {
            Err(error_at(s, s.len() as int, "'\"'"@))
        }
    } else if s[pos] == '\'' {
        if pos + 2 < s.len() && s[pos + 1] != '\'' && s[pos + 2] == '\'' {
            Ok((leaf(Tag::Char, s.subrange(pos, pos + 3)), pos + 3))
        } else {
            Err(error_at(s, pos + 1, "a character and \"'\""@))
        }
    } else if s[pos] == '#' {
        if pos + 1 < s.len() && (s[pos + 1] == 't' || s[pos + 1] == 'f') {
            Ok((leaf(Tag::Bool, s.subrange(pos, pos + 2)), pos + 2))
        } else {
            Err(error_at(s, pos + 1, "'t' or 'f'"@))
        }
    } else if is_token_char(s[pos]) {
        let end = token_end(s, pos);
        match token_tag(s, pos, end) {
            Some(tag) => Ok((leaf(tag, s.subrange(pos, end)), end)),
            None => Err(error_at(s, pos, "a number"@)),
        }
    } else {
        Err(error_at(s, pos, "an expression"@))
    }
}

/// What is expected where a list should go on or end.
pub open spec fn wanted(close: char) -> Seq<char> {
    if close == ')' {
        "an expression or ')'"@
    } else {
        "an expression or '}'"@
    }
}

/// The elements of a list from position `pos` on, after the elements `done`,
/// up to the bracket `close`, and the position after that bracket.
pub open spec fn elements(s: Seq<char>, pos: int, close: char, done: Seq<AstView>) -> Result<
    (Seq<AstView>, int),
    ErrorView,
>
    decreases s.len() - pos, 1nat,
{
    let at = skip_blank(s, pos);
    if pos < 0 || at < pos || at >= s.len() {
        Err(error_at(s, s.len() as int, wanted(close)))
    } else if s[at] == close {
        Ok((done, at + 1))
    } else {
        match expression(s, at) {
            Err(e) => Err(e),
            Ok((node, next)) => if at < next <= s.len() {
                elements(s, next, close, done.push(node))
            } else {
                Err(error_at(s, at, wanted(close)))
            },
        }
    }
}

/// The expressions of a program from position `pos` on, after the
/// expressions `done`.
pub open spec fn expressions(s: Seq<char>, pos: int, done: Seq<AstView>) -> Result<
    Seq<AstView>,
    ErrorView,
>
    decreases s.len() - pos, 2nat,
{
    let at = skip_blank(s, pos);
    if pos < 0 || at < pos || at >= s.len() {
        Ok(done)
    } else {
        match expression(s, at) {
            Err(e) => Err(e),
            Ok((node, next)) => if at < next <= s.len() {
                expressions(s, next, done.push(node))
            } else {
                Err(error_at(s, at, "an expression"@))
            },
        }
    }
}

/// The syntax tree of a program, or the first error in its text.
pub open spec fn syntax_of(s: Seq<char>) -> Result<AstView, ErrorView> {
    match expressions(s, 0, Seq::empty()) {
        Ok(children) => Ok(AstView { tag: Tag::Root, contents: Seq::empty(), children }),
        Err(e) => Err(e),
    }
}

/// The mathematical form of the result of reading a piece of text.
pub open spec fn read_view(r: Result<(Ast, usize), Error>) -> Result<(AstView, int), ErrorView> {
    match r {
        Ok((node, next)) => Ok((node@, next as int)),
        Err(e) => Err(e@),
    }
}

proof fn lemma_ast_views_push(s: Seq<Ast>, a: Ast)
    ensures
        ast_views(s.push(a)) == ast_views(s).push(a@),
{
    assert(ast_views(s.push(a)) =~= ast_views(s).push(a@));
}

fn scan_digits(chars: &Vec<char>, pos: usize, limit: usize) -> (r: usize)
    requires
        pos <= limit <= chars.len(),
    ensures
        r == digits_end(chars@, pos as int, limit as int),
        pos <= r <= limit,
{
    let mut at = pos;
    while at < limit && digit(chars[at])
        invariant
            pos <= at <= limit <= chars.len(),
            digits_end(chars@, pos as int, limit as int) == digits_end(
                chars@,
                at as int,
                limit as int,
            ),
        decreases limit - at,
    {
        at += 1;
    }
    at
}

fn scan_token(chars: &Vec<char>, pos: usize) -> (r: usize)
    requires
        pos <= chars.len(),
    ensures
        r == token_end(chars@, pos as int),
        pos <= r <= chars.len(),
        pos < chars.len() && is_token_char(chars@[pos as int]) ==> r > pos,
{
    let mut at = pos;
    while at < chars.len() && token_char(chars[at])
        invariant
            pos <= at <= chars.len(),
            token_end(chars@, pos as int) == token_end(chars@, at as int),
            pos < chars.len() && is_token_char(chars@[pos as int]) && at == pos ==> is_token_char(
                chars@[at as int],
            ),
        decreases chars.len() - at,
    {
        at += 1;
    }
    at
}

fn scan_sign(chars: &Vec<char>, pos: usize, limit: usize) -> (r: usize)
    requires
        pos <= limit <= chars.len(),
    ensures
        r == after_sign(chars@, pos as int, limit as int),
        pos <= r <= limit,
{
    if pos < limit && (chars[pos] == '-' || chars[pos] == '+') {
        pos + 1
    } else {
        pos
    }
}

fn integer_token(chars: &Vec<char>, from: usize, to: usize) -> (r: bool)
    requires
        from <= to <= chars.len(),
    ensures
        r == is_integer_token(chars@, from as int, to as int),
{
    let start = scan_sign(chars, from, to);
    start < to && scan_digits(chars, start, to) == to
}

fn float_token(chars: &Vec<char>, from: usize, to: usize) -> (r: bool)
    requires
        from <= to <= chars.len(),
    ensures
        r == is_float_token(chars@, from as int, to as int),
{
    let start = scan_sign(chars, from, to);
    let whole = scan_digits(chars, start, to);
    let pointed = whole < to && chars[whole] == '.';
    let mantissa = if pointed {
        scan_digits(chars, whole + 1, to)
    } else {
        whole
    };
    let mantissa_ok = if pointed {
        mantissa > whole + 1
    } else {
        whole > start
    };
    if !mantissa_ok {
        false
    } else if mantissa == to {
        true
    } else if chars[mantissa] == 'e' || chars[mantissa] == 'E' {
        let power = scan_sign(chars, mantissa + 1, to);
        power < to && scan_digits(chars, power, to) == to
    } else {
        false
    }
}

fn find(chars: &Vec<char>, pos: usize, c: char) -> (r: usize)
    requires
        pos <= chars.len(),
    ensures
        r == find_char(chars@, pos as int, c),
        pos <= r <= chars.len(),
{
    let mut at = pos;
    while at < chars.len() && chars[at] != c
        invariant
            pos <= at <= chars.len(),
            find_char(chars@, pos as int, c) == find_char(chars@, at as int, c),
        decreases chars.len() - at,
    {
        at += 1;
    }
    at
}

fn make_leaf(tag: Tag, chars: &Vec<char>, from: usize, to: usize) -> (r: Ast)
    requires
        from <= to <= chars.len(),
    ensures
        r@ == leaf(tag, chars@.subrange(from as int, to as int)),
{
    let r = Ast { tag, contents: string_of(chars, from, to), children: Vec::new() };
    assert(ast_views(r.children@) =~= Seq::<AstView>::empty());
    r
}

fn make_list(tag: Tag, children: Vec<Ast>) -> (r: Ast)
    ensures
        r@ == (AstView { tag, contents: Seq::empty(), children: ast_views(children@) }),
{
    Ast { tag, contents: String::new(), children }
}

/// Reads the expression that begins at `pos`.
fn read_expression(chars: &Vec<char>, pos: usize) -> (r: Result<(Ast, usize), Error>)
    requires
        pos <= chars.len(),
    ensures
        read_view(r) == expression(chars@, pos as int),
        r matches Ok((_, next)) ==> pos < next <= chars.len(),
    decreases chars.len() - pos, 0nat,
{
    if pos >= chars.len() {
        return Err(fault(chars, pos, "an expression"));
    }
    let c = chars[pos];
    if c == '(' {
        match read_elements(chars, pos + 1, ')') {
            Ok((children, next)) => Ok((make_list(Tag::Sexpr, children), next)),
            Err(e) => Err(e),
        }
    } else if c == '{' {
        match read_elements(chars, pos + 1, '}') {
            Ok((children, next)) => Ok((make_list(Tag::Qexpr, children), next)),
            Err(e) => Err(e),
        }
    } else if c == '"' {
        let close = find(chars, pos + 1, '"');
        if close < chars.len() {
            Ok((make_leaf(Tag::Str, chars, pos, close + 1), close + 1))
        } else {
            Err(fault(chars, chars.len(), "'\"'"))
        }
    } else if c == '\'' {
        if chars.len() - pos > 2 && chars[pos + 1] != '\'' && chars[pos + 2] == '\'' {
            Ok((make_leaf(Tag::Char, chars, pos, pos + 3), pos + 3))
        } else {
            Err(fault(chars, pos + 1, "a character and \"'\""))
        }
    } else if c == '#' {
        if chars.len() - pos > 1 && (chars[pos + 1] == 't' || chars[pos + 1] == 'f') {
            Ok((make_leaf(Tag::Bool, chars, pos, pos + 2), pos + 2))
        } else {
            Err(fault(chars, pos + 1, "'t' or 'f'"))
        }
    } else if token_char(c) {
        let end = scan_token(chars, pos);
        if integer_token(chars, pos, end) {
            Ok((make_leaf(Tag::Integer, chars, pos, end), end))
        } else if float_token(chars, pos, end) {
            Ok((make_leaf(Tag::Float, chars, pos, end), end))
        } else if !digit(c) {
            Ok((make_leaf(Tag::Symbol, chars, pos, end), end))
        } else {
            Err(fault(chars, pos, "a number"))
        }
    } else {
        Err(fault(chars, pos, "an expression"))
    }
}

/// Reads the elements of a list up to the bracket `close`.
fn read_elements(chars: &Vec<char>, pos: usize, close: char) -> (r: Result<(Vec<Ast>, usize), Error>)
    requires
        pos <= chars.len(),
        close == ')' || close == '}',
    ensures
        match r {
            Ok((children, next)) => elements(chars@, pos as int, close, Seq::empty()) == Ok::<
                (Seq<AstView>, int),
                ErrorView,
            >((ast_views(children@), next as int)) && pos < next <= chars.len(),
            Err(e) => elements(chars@, pos as int, close, Seq::empty()) == Err::<
                (Seq<AstView>, int),
                ErrorView,
            >(e@),
        },
    decreases chars.len() - pos, 1nat,
{
    let mut children: Vec<Ast> = Vec::new();
    let mut at = pos;
    assert(ast_views(children@) =~= Seq::<AstView>::empty());
    loop
        invariant
            pos <= at <= chars.len(),
            close == ')' || close == '}',
            elements(chars@, pos as int, close, Seq::empty()) == elements(
                chars@,
                at as int,
                close,
                ast_views(children@),
            ),
        decreases chars.len() - at,
    {
        let here = skip(chars, at);
        if here >= chars.len() {
            let what = if close == ')' {
                "an expression or ')'"
            } else {
                "an expression or '}'"
            };
            return Err(fault(chars, chars.len(), what));
        }
        if chars[here] == close {
            return Ok((children, here + 1));
        }
        match read_expression(chars, here) {
            Err(e) => {
                return Err(e);
            },
            Ok((node, next)) => {
                proof {
                    lemma_ast_views_push(children@, node);
                }
                children.push(node);
                at = next;
            },
        }
    }
}

/// Reads the expressions of a program.
fn read_expressions(chars: &Vec<char>) -> (r: Result<Vec<Ast>, Error>)
    ensures
        match r {
            Ok(children) => expressions(chars@, 0, Seq::empty()) == Ok::<Seq<AstView>, ErrorView>(
                ast_views(children@),
            ),
            Err(e) => expressions(chars@, 0, Seq::empty()) == Err::<Seq<AstView>, ErrorView>(e@),
        },
{
    let mut children: Vec<Ast> = Vec::new();
    let mut at: usize = 0;
    assert(ast_views(children@) =~= Seq::<AstView>::empty());
    loop
        invariant
            at <= chars.len(),
            expressions(chars@, 0, Seq::empty()) == expressions(
                chars@,
                at as int,
                ast_views(children@),
            ),
        decreases chars.len() - at,
    {
        let here = skip(chars, at);
        if here >= chars.len() {
            return Ok(children);
        }
        match read_expression(chars, here) {
            Err(e) => {
                return Err(e);
            },
            Ok((node, next)) => {
                proof {
                    lemma_ast_views_push(children@, node);
                }
                children.push(node);
                at = next;
            },
        }
    }
}

/// The number that the digits `t[from..to]` write; a character that is no
/// digit counts as zero.
pub open spec fn digits_number(t: Seq<char>, from: int, to: int) -> nat
    decreases to - from,
{
    if to <= from || to > t.len() {
        0
    } else {
        digits_number(t, from, to - 1) * 10 + (match digit_value(t[to - 1]) {
            Some(d) => d as nat,
            None => 0nat,
        })
    }
}

/// The integer that a token denotes: the number its digits write, negative
/// after a minus sign. A token that is no integer, or whose number does not
/// fit, denotes zero.
pub open spec fn integer_value(t: Seq<char>) -> i64 {
    let start = after_sign(t, 0, t.len() as int);
    let n = digits_number(t, start, t.len() as int);
    let v = if t.len() > 0 && t[0] == '-' {
        -(n as int)
    } else {
        n as int
    };
    if is_integer_token(t, 0, t.len() as int) && i64::MIN <= v <= i64::MAX {
        v as i64
    } else {
        0
    }
}

fn digit_number(c: char) -> (r: u64)
    ensures
        r < 10,
        r == (match digit_value(c) {
            Some(d) => d as nat,
            None => 0nat,
        }),
{
    if c == '1' {
        1
    } else if c == '2' {
        2
    } else if c == '3' {
        3
    } else if c == '4' {
        4
    } else if c == '5' {
        5
    } else if c == '6' {
        6
    } else if c == '7' {
        7
    } else if c == '8' {
        8
    } else if c == '9' {
        9
    } else {
        0
    }
}

proof fn lemma_digits_number_grows(t: Seq<char>, from: int, mid: int, to: int)
    requires
        from <= mid <= to <= t.len(),
    ensures
        digits_number(t, from, mid) <= digits_number(t, from, to),
    decreases to - mid,
{
    if mid < to {
        lemma_digits_number_grows(t, from, mid, to - 1);
    }
}

/// The integer that the token `text` denotes.
pub fn parse_integer(text: &str) -> (r: i64)
    ensures
        r == integer_value(text@),
{
    let t = chars_of(text);
    let n = t.len();
    if !integer_token(&t, 0, n) {
        return 0;
    }
    let start = scan_sign(&t, 0, n);
    let negative = t[0] == '-';
    // The largest magnitude that can fit, that of the least integer.
    let limit: u64 = 9223372036854775808u64;
    let mut m: u64 = 0;
    let mut i: usize = start;
    while i < n
        invariant
            start <= i <= n,
            n == t@.len(),
            t@ == text@,
            is_integer_token(t@, 0, n as int),
            start == after_sign(t@, 0, n as int),
            m == digits_number(t@, start as int, i as int),
            m <= limit,
            limit == 9223372036854775808u64,
        decreases n - i,
    {
        let d = digit_number(t[i]);
        if m > (limit - d) / 10 {
            proof {
                assert(digits_number(t@, start as int, i + 1) > limit) by (nonlinear_arith)
                    requires
                        digits_number(t@, start as int, i + 1) == m * 10 + d,
                        m > (limit - d) / 10,
                        d < 10,
                        limit == 9223372036854775808u64,
                ;
                lemma_digits_number_grows(t@, start as int, i + 1, n as int);
            }
            return 0;
        }
        assert(m * 10 + d <= limit) by (nonlinear_arith)
            requires
                m <= (limit - d) / 10,
                d < 10,
                limit == 9223372036854775808u64,
        ;
        m = m * 10 + d;
        i += 1;
    }
    if negative {
        if m == limit {
            i64::MIN
        } else {
            -(m as i64)
        }
    } else if m == limit {
        0
    } else {
        m as i64
    }
}

/// The value that a node denotes, if it denotes one. A number denotes what its
/// text reads as, a double by the facts; a string and a character what stands
/// between their quotes; a symbol its text; a list the values of its children.
/// The program denotes what its first expression denotes, and nothing if it
/// has none.
pub open spec fn value_of(ast: AstView, facts: Facts) -> Result<Option<Value>, StopView>
    decreases ast, 1nat,
{
    match ast.tag {
        Tag::Float => match bits_or_stop(facts, FloatQueryView::Parse(ast.contents)) {
            Ok(bits) => Ok(Some(Value::Float(bits))),
            Err(s) => Err(s),
        },
        Tag::Integer => Ok(Some(Value::Integer(integer_value(ast.contents)))),
        Tag::Str => Ok(
            Some(
                Value::Str(
                    if ast.contents.len() >= 2 {
                        ast.contents.subrange(1, ast.contents.len() - 1)
                    } else {
                        Seq::empty()
                    },
                ),
            ),
        ),
        Tag::Char => Ok(
            if ast.contents.len() >= 2 {
                Some(Value::Char(ast.contents[1]))
            } else {
                None
            },
        ),
        Tag::Bool => Ok(Some(Value::Bool(ast.contents == "#t"@))),
        Tag::Symbol => Ok(Some(Value::Symbol(ast.contents))),
        Tag::Sexpr => match values_of(ast.children, facts) {
            Ok(l) => Ok(Some(Value::Sexpr(l))),
            Err(s) => Err(s),
        },
        Tag::Qexpr => match values_of(ast.children, facts) {
            Ok(l) => Ok(Some(Value::Qexpr(l))),
            Err(s) => Err(s),
        },
        Tag::Root => first_value(ast.children, facts),
    }
}

/// The values that the nodes of a sequence denote, in order, without the
/// nodes that denote nothing.
pub open spec fn values_of(nodes: Seq<AstView>, facts: Facts) -> Result<Seq<Value>, StopView>
    decreases nodes, 0nat,
{
    if nodes.len() == 0 {
        Ok(Seq::empty())
    } else {
        match values_of(nodes.drop_last(), facts) {
            Err(s) => Err(s),
            Ok(before) => match value_of(nodes.last(), facts) {
                Err(s) => Err(s),
                Ok(Some(v)) => Ok(before.push(v)),
                Ok(None) => Ok(before),
            },
        }
    }
}

/// The value of the first node of a sequence that denotes one.
pub open spec fn first_value(nodes: Seq<AstView>, facts: Facts) -> Result<Option<Value>, StopView>
    decreases nodes, 0nat,
{
    if nodes.len() == 0 {
        Ok(None)
    } else {
        match value_of(nodes[0], facts) {
            Err(s) => Err(s),
            Ok(Some(v)) => Ok(Some(v)),
            Ok(None) => first_value(nodes.drop_first(), facts),
        }
    }
}

proof fn lemma_values_stop(nodes: Seq<AstView>, facts: Facts, n: int)
    requires
        0 <= n <= nodes.len(),
        values_of(nodes.take(n), facts) is Err,
    ensures
        values_of(nodes, facts) == values_of(nodes.take(n), facts),
    decreases nodes.len() - n,
{
    if n == nodes.len() {
        assert(nodes.take(n) =~= nodes);
    } else {
        assert(nodes.take(n + 1).drop_last() =~= nodes.take(n));
        lemma_values_stop(nodes, facts, n + 1);
    }
}

/// The mathematical form of an optional value or a stop.
pub open spec fn denoted(r: Result<Option<Cell>, Stop>) -> Result<Option<Value>, StopView> {
    match r {
        Ok(Some(c)) => Ok(Some(c@)),
        Ok(None) => Ok(None),
        Err(s) => Err(s@),
    }
}

fn parse_children(nodes: &Vec<Ast>, floats: &FloatTable) -> (r: Result<Vec<Cell>, Stop>)
    ensures
        match r {
            Ok(l) => values_of(ast_views(nodes@), floats@) == Ok::<Seq<Value>, StopView>(views(l@)),
            Err(s) => values_of(ast_views(nodes@), floats@) == Err::<Seq<Value>, StopView>(s@),
        },
    decreases nodes,
{
    let ghost all = ast_views(nodes@);
    let mut res: Vec<Cell> = Vec::new();
    let mut i: usize = 0;
    assert(all.take(0) =~= Seq::<AstView>::empty());
    assert(views(res@) =~= Seq::<Value>::empty());
    while i < nodes.len()
        invariant
            i <= nodes.len(),
            all == ast_views(nodes@),
            values_of(all.take(i as int), floats@) == Ok::<Seq<Value>, StopView>(views(res@)),
        decreases nodes.len() - i,
    {
        proof {
            assert(all.take(i + 1).drop_last() =~= all.take(i as int));
            assert(all.take(i + 1).last() == nodes@[i as int]@);
        }
        match parse_ast(&nodes[i], floats) {
            Err(s) => {
                proof {
                    lemma_values_stop(all, floats@, i + 1);
                }
                return Err(s);
            },
            Ok(Some(c)) => {
                proof {
                    lemma_views_push(res@, c);
                }
                res.push(c);
            },
            Ok(None) => {},
        }
        i += 1;
    }
    assert(all.take(nodes.len() as int) =~= all);
    Ok(res)
}

fn char_at(chars: &Vec<char>, i: usize) -> (c: char)
    requires
        i < chars.len(),
    ensures
        c == chars@[i as int],
{
    chars[i]
}

/// The value that a node of the syntax tree denotes, if it denotes one.
pub fn parse_ast(ast: &Ast, floats: &FloatTable) -> (r: Result<Option<Cell>, Stop>)
    ensures
        denoted(r) == value_of(ast@, floats@),
    decreases ast,
{
    match ast.tag {
        Tag::Float => match floats.bits(FloatQuery::Parse(ast.contents.clone())) {
            Ok(bits) => Ok(Some(Cell::Float(bits))),
            Err(s) => Err(s),
        },
        Tag::Integer => Ok(Some(Cell::Integer(parse_integer(ast.contents.as_str())))),
        Tag::Str => {
            let t = chars_of(ast.contents.as_str());
            if t.len() >= 2 {
                Ok(Some(Cell::Str(string_of(&t, 1, t.len() - 1))))
            } else {
                Ok(Some(Cell::Str(String::new())))
            }
        },
        Tag::Char => {
            let t = chars_of(ast.contents.as_str());
            if t.len() >= 2 {
                Ok(Some(Cell::Char(char_at(&t, 1))))
            } else {
                Ok(None)
            }
        },
        Tag::Bool => Ok(Some(Cell::Bool(str_eq(ast.contents.as_str(), "#t")))),
        Tag::Symbol => Ok(Some(Cell::Symbol(ast.contents.clone()))),
        Tag::Sexpr => match parse_children(&ast.children, floats) {
            Ok(l) => Ok(Some(Cell::Sexpr(l))),
            Err(s) => Err(s),
        },
        Tag::Qexpr => match parse_children(&ast.children, floats) {
            Ok(l) => Ok(Some(Cell::Qexpr(l))),
            Err(s) => Err(s),
        },
        Tag::Root => {
            let ghost all = ast_views(ast.children@);
            let mut i: usize = 0;
            assert(all.skip(0) =~= all);
            while i < ast.children.len()
                invariant
                    i <= ast.children.len(),
                    ast.tag == Tag::Root,
                    all == ast_views(ast.children@),
                    first_value(all, floats@) == first_value(all.skip(i as int), floats@),
                decreases ast.children.len() - i,
            {
                proof {
                    assert(all.skip(i as int)[0] == ast.children@[i as int]@);
                    assert(all.skip(i as int).drop_first() =~= all.skip(i + 1));
                }
                match parse_ast(&ast.children[i], floats) {
                    Err(s) => {
                        return Err(s);
                    },
                    Ok(Some(c)) => {
                        return Ok(Some(c));
                    },
                    Ok(None) => {},
                }
                i += 1;
            }
            Ok(None)
        },
    }
}

/// The value that a program denotes: that of its first expression, nil for a
/// program without expressions, and for a text that is no program the error
/// that says why.
pub open spec fn program_value(s: Seq<char>, facts: Facts) -> Result<Value, StopView> {
    match syntax_of(s) {
        Err(e) => Ok(Value::Error(error_text(e))),
        Ok(ast) => match value_of(ast, facts) {
            Err(stop) => Err(stop),
            Ok(Some(v)) => Ok(v),
            Ok(None) => Ok(Value::Nil),
        },
    }
}

/// The reader of programs.
#[derive(Clone, Copy, Debug)]
pub struct Parser {}

impl Parser {
    /// A reader.
    pub fn new() -> (r: Parser) {
        Parser {  }
    }

    /// The syntax tree of the program `input`, or the first error in it.
    pub fn syntax(&self, input: &str) -> (r: Result<Ast, Error>)
        ensures
            match r {
                Ok(ast) => syntax_of(input@) == Ok::<AstView, ErrorView>(ast@),
                Err(e) => syntax_of(input@) == Err::<AstView, ErrorView>(e@),
            },
    {
        let chars = chars_of(input);
        match read_expressions(&chars) {
            Ok(children) => Ok(make_list(Tag::Root, children)),
            Err(e) => Err(e),
        }
    }

    /// The value that the program `input` denotes; an error value for a text
    /// that is no program.
    pub fn parse(&self, input: &str, floats: &FloatTable) -> (r: Result<Cell, Stop>)
        ensures
            crate::builtin::outcome(r) == program_value(input@, floats@),
    {
        match self.syntax(input) {
            Err(e) => Ok(Cell::Error(e.to_string())),
            Ok(ast) => match parse_ast(&ast, floats) {
                Err(stop) => Err(stop),
                Ok(Some(c)) => Ok(c),
                Ok(None) => Ok(Cell::Nil),
            },
        }
    }
}

} // verus!

