//! Scopes: tables from names to values, each with the scope that encloses it.
//!
//! All the scopes of an interpreter live in one `Environment` and are named by
//! their position in it. A scope is made after the scope that encloses it, so
//! its position is the larger one: a scope counts as enclosed only by a scope
//! at a smaller position, and looking a name up walks towards smaller
//! positions and ends.

use vstd::prelude::*;
use crate::cell::{Cell, Value};
use crate::globals::{builtin_named, find};
use crate::text::str_eq;

verus! {

/// The name of a scope: its position in the environment.
pub type ScopeId = usize;

/// One scope: its own bindings, and the scope around it if there is one.
pub struct Scope {
    table: Vec<(String, Cell)>,
    enclosing: Option<ScopeId>,
}

/// The scopes of an interpreter and the lines it has printed.
pub struct Environment {
    scopes: Vec<Scope>,
    printed: Vec<String>,
}

/// The mathematical form of a `Scope`.
pub struct ScopeView {
    pub table: Map<Seq<char>, Value>,
    pub enclosing: Option<ScopeId>,
}

/// The mathematical form of an `Environment`.
pub struct EnvironmentView {
    pub scopes: Seq<ScopeView>,
    pub printed: Seq<Seq<char>>,
}

/// The value an unbound name has: the native function registered under it, or
/// an error that names it.
pub open spec fn global_value(key: Seq<char>) -> Value {
    match builtin_named(key) {
        Some(f) => Value::Builtin(f),
        None => Value::Error("Undefined symbol: "@ + key),
    }
}

impl EnvironmentView {
    /// The environment of a fresh interpreter: one scope, nothing bound,
    /// nothing printed.
    pub open spec fn fresh() -> EnvironmentView {
        EnvironmentView {
            scopes: seq![ScopeView { table: Map::empty(), enclosing: None }],
            printed: Seq::empty(),
        }
    }

    /// Whether `scope` names a scope of this environment.
    pub open spec fn has(self, scope: ScopeId) -> bool {
        scope < self.scopes.len()
    }

    /// The scope that encloses `scope`, if `scope` is a scope with one.
    pub open spec fn parent(self, scope: ScopeId) -> Option<ScopeId> {
        if self.has(scope) {
            match self.scopes[scope as int].enclosing {
                Some(p) => if p < scope {
                    Some(p)
                } else {
                    None
                },
                None => None,
            }
        } else {
            None
        }
    }

    /// The value of `key` as seen from `scope`: its binding in the nearest
    /// scope that has one, going outwards; without any, its global value.
    pub open spec fn lookup(self, scope: ScopeId, key: Seq<char>) -> Value
        decreases scope,
    {
        if self.has(scope) && self.scopes[scope as int].table.contains_key(key) {
            self.scopes[scope as int].table[key]
        } else {
            match self.parent(scope) {
                Some(p) => self.lookup(p, key),
                None => global_value(key),
            }
        }
    }

    /// The outermost scope around `scope`.
    pub open spec fn root_of(self, scope: ScopeId) -> ScopeId
        decreases scope,
    {
        match self.parent(scope) {
            Some(p) => self.root_of(p),
            None => scope,
        }
    }

    /// The environment with `key` bound to `value` in `scope` itself. Nothing
    /// changes where `scope` names no scope.
    pub open spec fn insert(self, scope: ScopeId, key: Seq<char>, value: Value) -> EnvironmentView {
        if self.has(scope) {
            EnvironmentView {
                scopes: self.scopes.update(
                    scope as int,
                    ScopeView {
                        table: self.scopes[scope as int].table.insert(key, value),
                        enclosing: self.scopes[scope as int].enclosing,
                    },
                ),
                printed: self.printed,
            }
        } else {
            self
        }
    }

    /// The environment with `key` bound to `value` in the outermost scope
    /// around `scope`.
    pub open spec fn insert_top(self, scope: ScopeId, key: Seq<char>, value: Value) -> EnvironmentView {
        self.insert(self.root_of(scope), key, value)
    }

    /// The environment with one more scope, empty and enclosed by `parent`
    /// (by nothing where `parent` names no scope). The new scope is named by
    /// the number of scopes there were.
    pub open spec fn with_scope(self, parent: ScopeId) -> EnvironmentView {
        EnvironmentView {
            scopes: self.scopes.push(
                ScopeView {
                    table: Map::empty(),
                    enclosing: if self.has(parent) {
                        Some(parent)
                    } else {
                        None
                    },
                },
            ),
            printed: self.printed,
        }
    }

    /// The environment with one more line printed.
    pub open spec fn with_line(self, line: Seq<char>) -> EnvironmentView {
        EnvironmentView { scopes: self.scopes, printed: self.printed.push(line) }
    }
}

/// What a list of bindings says: for each name the value of the first binding
/// of it.
pub open spec fn table_map(entries: Seq<(String, Cell)>) -> Map<Seq<char>, Value>
    decreases entries.len(),
{
    if entries.len() == 0 {
        Map::empty()
    } else {
        let before = table_map(entries.drop_last());
        let last = entries.last();
        if before.contains_key(last.0@) {
            before
        } else {
            before.insert(last.0@, last.1@)
        }
    }
}

proof fn lemma_table_first(entries: Seq<(String, Cell)>, key: Seq<char>, i: int)
    requires
        0 <= i < entries.len(),
        entries[i].0@ == key,
        forall|j: int| 0 <= j < i ==> entries[j].0@ != key,
    ensures
        table_map(entries).contains_key(key),
        table_map(entries)[key] == entries[i].1@,
    decreases entries.len(),
{
    if i == entries.len() - 1 {
        lemma_table_none(entries.drop_last(), key);
    } else {
        lemma_table_first(entries.drop_last(), key, i);
    }
}

proof fn lemma_table_none(entries: Seq<(String, Cell)>, key: Seq<char>)
    requires
        forall|j: int| 0 <= j < entries.len() ==> entries[j].0@ != key,
    ensures
        !table_map(entries).contains_key(key),
    decreases entries.len(),
{
    if entries.len() > 0 {
        lemma_table_none(entries.drop_last(), key);
    }
}

/// Replacing the value of the first binding of a name is binding the name
/// anew.
proof fn lemma_table_update(entries: Seq<(String, Cell)>, i: int, entry: (String, Cell))
    requires
        0 <= i < entries.len(),
        entries[i].0@ == entry.0@,
        forall|j: int| 0 <= j < i ==> entries[j].0@ != entry.0@,
    ensures
        table_map(entries.update(i, entry)) == table_map(entries).insert(entry.0@, entry.1@),
    decreases entries.len(),
{
    let after = entries.update(i, entry);
    if i == entries.len() - 1 {
        lemma_table_none(entries.drop_last(), entry.0@);
        assert(after.drop_last() =~= entries.drop_last());
        assert(table_map(after) =~= table_map(entries).insert(entry.0@, entry.1@));
    } else {
        lemma_table_update(entries.drop_last(), i, entry);
        lemma_table_first(entries.drop_last(), entry.0@, i);
        assert(after.drop_last() =~= entries.drop_last().update(i, entry));
        assert(table_map(after) =~= table_map(entries).insert(entry.0@, entry.1@));
    }
}

impl View for Scope {
    type V = ScopeView;

    closed spec fn view(&self) -> ScopeView {
        ScopeView { table: table_map(self.table@), enclosing: self.enclosing }
    }
}

/// The mathematical forms of a sequence of scopes.
pub closed spec fn scope_views(s: Seq<Scope>) -> Seq<ScopeView> {
    Seq::new(s.len(), |i: int| s[i]@)
}

/// The mathematical forms of a sequence of lines.
pub open spec fn line_views(s: Seq<String>) -> Seq<Seq<char>> {
    Seq::new(s.len(), |i: int| s[i]@)
}

impl View for Environment {
    type V = EnvironmentView;

    closed spec fn view(&self) -> EnvironmentView {
        EnvironmentView { scopes: scope_views(self.scopes@), printed: line_views(self.printed@) }
    }
}

/// Lists of bindings that agree binding by binding say the same.
proof fn lemma_table_same(a: Seq<(String, Cell)>, b: Seq<(String, Cell)>)
    requires
        a.len() == b.len(),
        forall|i: int| 0 <= i < a.len() ==> a[i].0@ == b[i].0@ && a[i].1@ == b[i].1@,
    ensures
        table_map(a) == table_map(b),
    decreases a.len(),
{
    if a.len() > 0 {
        lemma_table_same(a.drop_last(), b.drop_last());
    }
}

impl Scope {
    /// A copy of this scope.
    fn duplicate(&self) -> (r: Scope)
        ensures
            r@ == self@,
    {
        let mut table: Vec<(String, Cell)> = Vec::new();
        let mut i: usize = 0;
        while i < self.table.len()
            invariant
                i <= self.table.len(),
                table@.len() == i,
                forall|j: int|
                    0 <= j < i ==> table@[j].0@ == self.table@[j].0@ && table@[j].1@
                        == self.table@[j].1@,
            decreases self.table.len() - i,
        {
            table.push((self.table[i].0.clone(), self.table[i].1.clone()));
            i += 1;
        }
        proof {
            lemma_table_same(table@, self.table@);
        }
        Scope { table, enclosing: self.enclosing }
    }

    /// The position of the first binding of `key`.
    fn find(&self, key: &str) -> (r: Option<usize>)
        ensures
            match r {
                Some(i) => i < self.table@.len() && self.table@[i as int].0@ == key@
                    && self@.table.contains_key(key@) && self@.table[key@]
                    == self.table@[i as int].1@ && forall|j: int|
                    0 <= j < i ==> self.table@[j].0@ != key@,
                None => !self@.table.contains_key(key@),
            },
    {
        let mut i: usize = 0;
        while i < self.table.len()
            invariant
                i <= self.table@.len(),
                forall|j: int| 0 <= j < i ==> self.table@[j].0@ != key@,
            decreases self.table@.len() - i,
        {
            if str_eq(self.table[i].0.as_str(), key) {
                proof {
                    lemma_table_first(self.table@, key@, i as int);
                }
                return Some(i);
            }
            i += 1;
        }
        proof {
            lemma_table_none(self.table@, key@);
        }
        None
    }

    /// Binds `key` to `value` in this scope.
    fn bind(&mut self, key: &str, value: Cell)
        ensures
            final(self)@.table == old(self)@.table.insert(key@, value@),
            final(self)@.enclosing == old(self)@.enclosing,
    {
        match self.find(key) {
            Some(i) => {
                let ghost before = self.table@;
                let entry = (String::from_str(key), value);
                proof {
                    lemma_table_update(before, i as int, entry);
                }
                self.table.set(i, entry);
            },
            None => {
                let ghost before = self.table@;
                self.table.push((String::from_str(key), value));
                assert(self.table@.drop_last() =~= before);
            },
        }
    }
}

impl Environment {
    /// An environment with one scope, which nothing encloses and which binds
    /// nothing. That scope is scope 0.
    pub fn new() -> (r: Environment)
        ensures
            r@ == EnvironmentView::fresh(),
    {
        let mut scopes: Vec<Scope> = Vec::new();
        scopes.push(Scope { table: Vec::new(), enclosing: None });
        let r = Environment { scopes, printed: Vec::new() };
        assert(r@.scopes =~= EnvironmentView::fresh().scopes);
        assert(r@.printed =~= EnvironmentView::fresh().printed);
        r
    }

    /// Makes a new scope enclosed by `parent` and returns its name.
    pub fn make_sub_environment(&mut self, parent: ScopeId) -> (r: ScopeId)
        ensures
            r == old(self)@.scopes.len(),
            final(self)@ == old(self)@.with_scope(parent),
    {
        let r = self.scopes.len();
        let enclosing = if parent < r {
            Some(parent)
        } else {
            None
        };
        self.scopes.push(Scope { table: Vec::new(), enclosing });
        assert(self@.scopes =~= old(self)@.with_scope(parent).scopes);
        r
    }

    /// The value of `key` as seen from `scope`: the binding of the nearest
    /// scope that has one, else the native function of that name, else an
    /// error.
    pub fn lookup(&self, scope: ScopeId, key: &str) -> (r: Cell)
        ensures
            r@ == self@.lookup(scope, key@),
    {
        let mut at = scope;
        let mut walking = true;
        while walking && at < self.scopes.len()
            invariant
                self@.lookup(scope, key@) == if walking {
                    self@.lookup(at, key@)
                } else {
                    global_value(key@)
                },
            decreases
                    if walking {
                        at + 1
                    } else {
                        0
                    },
        {
            match self.scopes[at].find(key) {
                Some(i) => {
                    return self.scopes[at].table[i].1.clone();
                },
                None => {},
            }
            match self.scopes[at].enclosing {
                Some(p) if p < at => {
                    at = p;
                },
                _ => {
                    walking = false;
                },
            }
        }
        match find(key) {
            Some(f) => Cell::Builtin(f),
            None => {
                let mut m = String::from_str("Undefined symbol: ");
                m.append(key);
                Cell::Error(m)
            },
        }
    }

    /// Binds `key` to a copy of `c` in `scope` itself, over any binding that
    /// `scope` had of it.
    pub fn insert(&mut self, scope: ScopeId, key: &str, c: &Cell)
        ensures
            final(self)@ == old(self)@.insert(scope, key@, c@),
    {
        if scope < self.scopes.len() {
            let ghost before = self.scopes@;
            self.scopes[scope].bind(key, c.clone());
            assert(self@.scopes =~= old(self)@.insert(scope, key@, c@).scopes);
        }
    }

    /// The outermost scope around `scope`.
    pub fn root_of(&self, scope: ScopeId) -> (r: ScopeId)
        ensures
            r == self@.root_of(scope),
    {
        let mut at = scope;
        let mut walking = true;
        while walking && at < self.scopes.len()
            invariant
                self@.root_of(scope) == self@.root_of(at),
                !walking ==> self@.parent(at) is None,
            decreases
                    if walking {
                        at + 1
                    } else {
                        0
                    },
        {
            match self.scopes[at].enclosing {
                Some(p) if p < at => {
                    at = p;
                },
                _ => {
                    walking = false;
                },
            }
        }
        at
    }

    /// Binds `key` to a copy of `c` in the outermost scope around `scope`.
    pub fn insert_top(&mut self, scope: ScopeId, key: &str, c: &Cell)
        ensures
            final(self)@ == old(self)@.insert_top(scope, key@, c@),
    {
        let top = self.root_of(scope);
        self.insert(top, key, c);
    }

    /// Adds a line to what was printed.
    pub fn print_line(&mut self, line: String)
        ensures
            final(self)@ == old(self)@.with_line(line@),
    {
        self.printed.push(line);
        assert(self@.printed =~= old(self)@.with_line(line@).printed);
    }

    /// A copy of this environment.
    pub fn duplicate(&self) -> (r: Environment)
        ensures
            r@ == self@,
    {
        let mut scopes: Vec<Scope> = Vec::new();
        let mut i: usize = 0;
        while i < self.scopes.len()
            invariant
                i <= self.scopes.len(),
                scopes@.len() == i,
                forall|j: int| 0 <= j < i ==> scopes@[j]@ == self.scopes@[j]@,
            decreases self.scopes.len() - i,
        {
            scopes.push(self.scopes[i].duplicate());
            i += 1;
        }
        let mut printed: Vec<String> = Vec::new();
        let mut k: usize = 0;
        while k < self.printed.len()
            invariant
                k <= self.printed.len(),
                printed@.len() == k,
                forall|j: int| 0 <= j < k ==> printed@[j]@ == self.printed@[j]@,
            decreases self.printed.len() - k,
        {
            printed.push(self.printed[k].clone());
            k += 1;
        }
        let r = Environment { scopes, printed };
        assert(r@.scopes =~= self@.scopes);
        assert(r@.printed =~= self@.printed);
        r
    }

    /// Hands over the lines printed so far, oldest first, and forgets them.
    pub fn take_printed(&mut self) -> (r: Vec<String>)
        ensures
            line_views(r@) == old(self)@.printed,
            final(self)@ == (EnvironmentView { scopes: old(self)@.scopes, printed: Seq::empty() }),
    {
        let mut lines: Vec<String> = Vec::new();
        let mut k: usize = 0;
        while k < self.printed.len()
            invariant
                k <= self.printed.len(),
                lines@.len() == k,
                forall|j: int| 0 <= j < k ==> lines@[j]@ == self.printed@[j]@,
            decreases self.printed.len() - k,
        {
            lines.push(self.printed[k].clone());
            k += 1;
        }
        self.printed.clear();
        assert(line_views(lines@) =~= old(self)@.printed);
        assert(self@.printed =~= Seq::<Seq<char>>::empty());
        lines
    }
}

} // verus!
