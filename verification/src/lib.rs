//! An embeddable interpreter for a small Lisp dialect.
//!
//! Values are `Cell`s. `Rlisp` holds the scopes of one interpreter and executes
//! programs in them. Floating-point arithmetic is left to the host: where a
//! program needs it, the execution stops with a `FloatQuery`; the host answers
//! with `Rlisp::learn` and executes the program again.

use vstd::prelude::*;
use crate::cell::{Facts, cell_text};
use crate::environment::{Environment, EnvironmentView};
use crate::eval::{eval, evaluation};
use crate::floats::{FloatAnswer, FloatQuery, FloatTable, Stop, StopView, text_stop_view};
use crate::parser::{Parser, program_value};

pub mod builtin;
pub mod cell;
pub mod environment;
pub mod eval;
pub mod floats;
pub mod globals;
pub mod laws;
pub mod parser;
pub mod roundtrip;
pub mod stdlib;
pub mod text;
pub mod types;

verus! {

/// How deep calls may nest in an interpreter made by `Rlisp::new`.
pub const DEFAULT_DEPTH: usize = 200;

/// An interpreter: its scopes, the facts about doubles it has learnt, and how
/// deep calls may nest.
pub struct Rlisp {
    parser: Parser,
    environment: Environment,
    floats: FloatTable,
    depth: usize,
}

/// The mathematical form of an `Rlisp`.
pub struct RlispView {
    pub environment: EnvironmentView,
    pub facts: Facts,
    pub depth: nat,
}

impl View for Rlisp {
    type V = RlispView;

    closed spec fn view(&self) -> RlispView {
        RlispView { environment: self.environment@, facts: self.floats@, depth: self.depth as nat }
    }
}

/// What executing the program `input` comes to: the interpreter after it, and
/// the result as it is written. The program is read, the value it denotes is
/// evaluated in the outermost scope, and the result is written out. If any of
/// this stops, the interpreter is as it was before.
pub open spec fn execution(before: RlispView, input: Seq<char>) -> (RlispView, Result<
    Seq<char>,
    StopView,
>) {
    match program_value(input, before.facts) {
        Err(stop) => (before, Err(stop)),
        Ok(form) => {
            let run = evaluation(before.environment, 0, form, before.depth, before.facts);
            match run.result {
                Err(stop) => (before, Err(stop)),
                Ok(value) => match cell_text(value, before.facts) {
                    Err(stop) => (before, Err(stop)),
                    Ok(text) => (
                        RlispView {
                            environment: run.env,
                            facts: before.facts,
                            depth: before.depth,
                        },
                        Ok(text),
                    ),
                },
            }
        },
    }
}

/// An interpreter in which nothing is bound and nothing known yet.
pub open spec fn bare(depth: nat) -> RlispView {
    RlispView { environment: EnvironmentView::fresh(), facts: Map::empty(), depth }
}

impl Rlisp {
    /// An interpreter with the definitions of the library, in which calls may
    /// nest `DEFAULT_DEPTH` deep.
    pub fn new() -> (r: Rlisp)
        ensures
            r@ == crate::stdlib::injected(bare(DEFAULT_DEPTH as nat)),
    {
        Rlisp::with_depth(DEFAULT_DEPTH)
    }

    /// An interpreter with the definitions of the library, in which calls may
    /// nest `depth` deep.
    pub fn with_depth(depth: usize) -> (r: Rlisp)
        ensures
            r@ == crate::stdlib::injected(bare(depth as nat)),
    {
        let mut rlisp = Rlisp {
            parser: Parser::new(),
            environment: Environment::new(),
            floats: FloatTable::new(),
            depth,
        };
        crate::stdlib::inject(&mut rlisp);
        rlisp
    }

    /// Executes the program `input` and returns the result as it is written.
    /// Where the execution stops, for want of a fact about doubles or because
    /// calls nest too deep, the interpreter stays as it was.
    pub fn execute(&mut self, input: &str) -> (r: Result<String, Stop>)
        ensures
            (final(self)@, text_stop_view(r)) == execution(old(self)@, input@),
    {
        let form = match self.parser.parse(input, &self.floats) {
            Ok(form) => form,
            Err(stop) => {
                return Err(stop);
            },
        };
        let mut trial = self.environment.duplicate();
        let value = match eval(&mut trial, 0, &form, self.depth, &self.floats) {
            Ok(value) => value,
            Err(stop) => {
                return Err(stop);
            },
        };
        match value.to_string(&self.floats) {
            Ok(text) => {
                self.environment = trial;
                Ok(text)
            },
            Err(stop) => Err(stop),
        }
    }

    /// Records the answer to a question about doubles. A question that already
    /// has an answer keeps it, and an answer of the wrong kind is not recorded.
    /// Returns whether the fact was added.
    pub fn learn(&mut self, question: FloatQuery, answer: FloatAnswer) -> (added: bool)
        ensures
            added == (!old(self)@.facts.contains_key(question@) && (question@.wants_text() == (
            answer@ is Text))),
            final(self)@.environment == old(self)@.environment,
            final(self)@.depth == old(self)@.depth,
            final(self)@.facts == if added {
                old(self)@.facts.insert(question@, answer@)
            } else {
                old(self)@.facts
            },
    {
        self.floats.learn(question, answer)
    }

    /// Hands over the lines that programs have printed since the last call,
    /// oldest first.
    pub fn take_output(&mut self) -> (r: Vec<String>)
        ensures
            crate::environment::line_views(r@) == old(self)@.environment.printed,
            final(self)@ == (RlispView {
                environment: EnvironmentView {
                    scopes: old(self)@.environment.scopes,
                    printed: Seq::empty(),
                },
                facts: old(self)@.facts,
                depth: old(self)@.depth,
            }),
    {
        self.environment.take_printed()
    }
}

} // verus!
