//! The environment: a stack of scopes, each a map from names to values.
//!
//! The outermost scope is the global one and is always there. A block pushes
//! a scope when it is entered and pops it when it is left. A name is looked
//! up and assigned in the innermost scope that holds it.

use vstd::prelude::*;
use vstd::string::StringExecFns;
use crate::error::{RuntimeError, RuntimeErrorView};
use crate::expr::{Literal, LiteralView};
use crate::token::Token;

verus! {

/// One name and its value.
#[derive(Debug)]
pub struct Binding {
    name: String,
    value: Literal,
}

/// The bindings of one block. No name is bound twice.
#[derive(Debug)]
pub struct Scope {
    bindings: Vec<Binding>,
}

impl Scope {
    /// Whether the binding at `i` is one of `name`.
    pub closed spec fn binds(&self, i: int, name: Seq<char>) -> bool {
        0 <= i < self.bindings@.len() && self.bindings@[i].name@ == name
    }

    /// No name is bound twice.
    pub closed spec fn wf(&self) -> bool {
        forall|i: int, j: int|
            0 <= i < j < self.bindings@.len() ==> self.bindings@[i].name@ != self.bindings@[j].name@
    }

    fn new() -> (scope: Scope)
        ensures
            scope.wf(),
            scope@ == Map::<Seq<char>, LiteralView>::empty(),
    {
        let scope = Scope { bindings: Vec::new() };
        assert(scope@ =~= Map::<Seq<char>, LiteralView>::empty());
        scope
    }

    /// Where `name` is bound, if it is.
    fn find(&self, name: &String) -> (at: Option<usize>)
        ensures
            match at {
                Some(i) => self.binds(i as int, name@),
                None => !self@.contains_key(name@),
            },
    {
        let mut i: usize = 0;
        while i < self.bindings.len()
            invariant
                i <= self.bindings@.len(),
                forall|k: int| 0 <= k < i ==> !self.binds(k, name@),
            decreases self.bindings@.len() - i,
        {
            if self.bindings[i].name == *name {
                return Some(i);
            }
            i += 1;
        }
        None
    }

    /// A binding of `name` decides what the scope maps it to.
    proof fn lemma_bound(&self, i: int, name: Seq<char>)
        requires
            self.wf(),
            self.binds(i, name),
        ensures
            self@.contains_key(name),
            self@[name] == self.bindings@[i].value@,
    {
        let j = choose|j: int| self.binds(j, name);
        assert(self.binds(j, name));
        if i < j {
            assert(self.bindings@[i].name@ != self.bindings@[j].name@);
        }
        if j < i {
            assert(self.bindings@[j].name@ != self.bindings@[i].name@);
        }
    }

    /// Binds `name` to `value`, in place of what it was bound to.
    fn insert(&mut self, name: String, value: Literal)
        requires
            old(self).wf(),
        ensures
            final(self).wf(),
            final(self)@ == old(self)@.insert(name@, value@),
    {
        let ghost key = name@;
        let ghost bound = value@;
        match self.find(&name) {
            Some(i) => {
                self.bindings[i].value = value;
                proof {
                    assert forall|n: Seq<char>| #[trigger]
                        old(self)@.insert(key, bound).contains_key(n) implies self@.contains_key(n)
                        && self@[n] == old(self)@.insert(key, bound)[n] by {
                        if n == key {
                            self.lemma_bound(i as int, key);
                        } else {
                            let j = choose|j: int| old(self).binds(j, n);
                            assert(old(self).binds(j, n));
                            assert(self.binds(j, n));
                            self.lemma_bound(j, n);
                            old(self).lemma_bound(j, n);
                        }
                    }
                    assert forall|n: Seq<char>| #[trigger] self@.contains_key(n) implies old(self)@.insert(
                        key,
                        bound,
                    ).contains_key(n) by {
                        let j = choose|j: int| self.binds(j, n);
                        assert(self.binds(j, n));
                        assert(old(self).binds(j, n));
                    }
                    assert(self@ =~= old(self)@.insert(key, bound));
                }
            },
            None => {
                self.bindings.push(Binding { name, value });
                proof {
                    let last = old(self).bindings@.len() as int;
                    assert forall|i: int, j: int| 0 <= i < j < self.bindings@.len() implies self.bindings@[i].name@
                        != self.bindings@[j].name@ by {
                        if j == last {
                            assert(!old(self).binds(i, key));
                        }
                    }
                    assert forall|n: Seq<char>| #[trigger]
                        old(self)@.insert(key, bound).contains_key(n) implies self@.contains_key(n)
                        && self@[n] == old(self)@.insert(key, bound)[n] by {
                        if n == key {
                            assert(self.binds(last, key));
                            self.lemma_bound(last, key);
                        } else {
                            let j = choose|j: int| old(self).binds(j, n);
                            assert(old(self).binds(j, n));
                            assert(self.binds(j, n));
                            self.lemma_bound(j, n);
                            old(self).lemma_bound(j, n);
                        }
                    }
                    assert forall|n: Seq<char>| #[trigger] self@.contains_key(n) implies old(self)@.insert(
                        key,
                        bound,
                    ).contains_key(n) by {
                        let j = choose|j: int| self.binds(j, n);
                        assert(self.binds(j, n));
                        if j != last {
                            assert(old(self).binds(j, n));
                        }
                    }
                    assert(self@ =~= old(self)@.insert(key, bound));
                }
            },
        }
    }
}

impl View for Scope {
    type V = Map<Seq<char>, LiteralView>;

    closed spec fn view(&self) -> Map<Seq<char>, LiteralView> {
        Map::new(
            |name: Seq<char>| exists|i: int| self.binds(i, name),
            |name: Seq<char>| self.bindings@[choose|i: int| self.binds(i, name)].value@,
        )
    }
}

/// The innermost of `scopes` that binds `name`, if any does.
pub open spec fn holder(scopes: Seq<Map<Seq<char>, LiteralView>>, name: Seq<char>) -> Option<int>
    decreases scopes.len(),
{
    if scopes.len() == 0 {
        None
    } else if scopes.last().contains_key(name) {
        Some(scopes.len() - 1)
    } else {
        holder(scopes.drop_last(), name)
    }
}

/// What `name` stands for: its value in the innermost scope that binds it.
pub open spec fn lookup(scopes: Seq<Map<Seq<char>, LiteralView>>, name: Seq<char>) -> Option<LiteralView> {
    match holder(scopes, name) {
        Some(k) => Some(scopes[k][name]),
        None => None,
    }
}

/// The scopes after `name` has been defined in the innermost one.
pub open spec fn defined(scopes: Seq<Map<Seq<char>, LiteralView>>, name: Seq<char>, value: LiteralView) -> Seq<
    Map<Seq<char>, LiteralView>,
> {
    scopes.update(scopes.len() - 1, scopes.last().insert(name, value))
}

/// The scopes after `name` has been assigned in the innermost scope that
/// binds it; `None` if no scope does.
pub open spec fn assigned(scopes: Seq<Map<Seq<char>, LiteralView>>, name: Seq<char>, value: LiteralView) -> Option<
    Seq<Map<Seq<char>, LiteralView>>,
> {
    match holder(scopes, name) {
        Some(k) => Some(scopes.update(k, scopes[k].insert(name, value))),
        None => None,
    }
}

/// The error for a name that no scope binds.
pub open spec fn undefined_variable(name: Token) -> RuntimeErrorView {
    RuntimeErrorView { message: "Undefined variable '"@ + name.lexeme@ + "'"@, token: Some(name) }
}

/// The innermost scope that binds a name is one of the scopes, and binds it.
pub proof fn lemma_holder(scopes: Seq<Map<Seq<char>, LiteralView>>, name: Seq<char>)
    ensures
        match holder(scopes, name) {
            Some(k) => 0 <= k < scopes.len() && scopes[k].contains_key(name) && forall|i: int|
                k < i < scopes.len() ==> !(#[trigger] scopes[i]).contains_key(name),
            None => forall|i: int| 0 <= i < scopes.len() ==> !(#[trigger] scopes[i]).contains_key(name),
        },
    decreases scopes.len(),
{
    if scopes.len() > 0 && !scopes.last().contains_key(name) {
        let rest = scopes.drop_last();
        lemma_holder(rest, name);
        assert forall|i: int| 0 <= i < rest.len() implies rest[i] == scopes[i] by {}
        match holder(rest, name) {
            Some(k) => {
                assert forall|i: int| k < i < scopes.len() implies !(#[trigger] scopes[i]).contains_key(name) by {
                    if i < rest.len() {
                        assert(rest[i] == scopes[i]);
                    }
                }
            },
            None => {
                assert forall|i: int| 0 <= i < scopes.len() implies !(#[trigger] scopes[i]).contains_key(name) by {
                    if i < rest.len() {
                        assert(rest[i] == scopes[i]);
                    }
                }
            },
        }
    }
}

/// A scope that is entered and left again leaves no trace, whatever was
/// defined in it meanwhile: a variable of a block is gone when the block
/// closes, and what the name meant before, it means again.
pub proof fn lemma_block_leaves_no_trace(
    scopes: Seq<Map<Seq<char>, LiteralView>>,
    name: Seq<char>,
    value: LiteralView,
)
    ensures
        defined(scopes.push(Map::empty()), name, value).drop_last() == scopes,
        lookup(defined(scopes.push(Map::empty()), name, value), name) == Some(value),
        lookup(defined(scopes.push(Map::empty()), name, value).drop_last(), name) == lookup(scopes, name),
{
    let inner = scopes.push(Map::<Seq<char>, LiteralView>::empty());
    assert(defined(inner, name, value).drop_last() =~= scopes);
}

/// Assigning to a name that no scope binds fails, and defining a name first
/// makes the assignment succeed.
pub proof fn lemma_assignment_needs_definition(
    scopes: Seq<Map<Seq<char>, LiteralView>>,
    name: Seq<char>,
    value: LiteralView,
)
    requires
        scopes.len() > 0,
    ensures
        lookup(scopes, name) is None <==> assigned(scopes, name, value) is None,
        assigned(defined(scopes, name, value), name, value) is Some,
        assigned(scopes, name, value) is Some ==> lookup(assigned(scopes, name, value)->0, name) == Some(value),
{
    lemma_holder(scopes, name);
    match holder(scopes, name) {
        Some(k) => {
            let after = scopes.update(k, scopes[k].insert(name, value));
            lemma_holder(after, name);
            assert(after[k].contains_key(name));
            assert forall|i: int| k < i < after.len() implies !(#[trigger] after[i]).contains_key(name) by {
                assert(after[i] == scopes[i]);
            }
        },
        None => {},
    }
}

/// The stack of scopes.
#[derive(Debug)]
pub struct Environment {
    scopes: Vec<Scope>,
}

impl View for Environment {
    type V = Seq<Map<Seq<char>, LiteralView>>;

    closed spec fn view(&self) -> Seq<Map<Seq<char>, LiteralView>> {
        Seq::new(self.scopes@.len(), |i: int| self.scopes@[i]@)
    }
}

impl Environment {
    /// The global scope is there, and no scope binds a name twice.
    pub closed spec fn wf(&self) -> bool {
        &&& self.scopes@.len() >= 1
        &&& forall|i: int| 0 <= i < self.scopes@.len() ==> (#[trigger] self.scopes@[i]).wf()
    }

    /// The global scope always exists.
    pub proof fn lemma_never_empty(&self)
        requires
            self.wf(),
        ensures
            self@.len() >= 1,
    {
    }

    /// An environment with the global scope alone, and nothing in it.
    pub fn new() -> (environment: Self)
        ensures
            environment.wf(),
            environment@ == seq![Map::<Seq<char>, LiteralView>::empty()],
    {
        let mut scopes: Vec<Scope> = Vec::new();
        scopes.push(Scope::new());
        let environment = Environment { scopes };
        assert(environment@ =~= seq![Map::<Seq<char>, LiteralView>::empty()]);
        environment
    }

    /// The number of scopes.
    pub fn depth(&self) -> (depth: usize)
        ensures
            depth == self@.len(),
    {
        self.scopes.len()
    }

    /// Enters a block: pushes an empty scope.
    pub fn add_scope(&mut self)
        requires
            old(self).wf(),
        ensures
            final(self).wf(),
            final(self)@ == old(self)@.push(Map::empty()),
    {
        self.scopes.push(Scope::new());
        assert(self@ =~= old(self)@.push(Map::empty()));
    }

    /// Leaves a block: pops the innermost scope and returns it. The global
    /// scope cannot be popped.
    pub fn pop_scope(&mut self) -> (scope: Scope)
        requires
            old(self).wf(),
            old(self)@.len() > 1,
        ensures
            final(self).wf(),
            final(self)@ == old(self)@.drop_last(),
            scope@ == old(self)@.last(),
    {
        let scope = self.scopes.pop();
        assert(self@ =~= old(self)@.drop_last());
        match scope {
            Some(scope) => scope,
            None => {
                proof {
                    assert(false);
                }
                Scope::new()
            },
        }
    }

    /// Binds `name` to `value` in the innermost scope, in place of what the
    /// name was bound to there.
    pub fn define(&mut self, name: String, value: Literal)
        requires
            old(self).wf(),
        ensures
            final(self).wf(),
            final(self)@ == defined(old(self)@, name@, value@),
    {
        let last = self.scopes.len() - 1;
        let scope = &mut self.scopes[last];
        scope.insert(name, value);
        assert(self@ =~= defined(old(self)@, name@, value@));
    }

    /// The index of the innermost scope that binds `name`.
    fn holder(&self, name: &String) -> (at: Option<(usize, usize)>)
        requires
            self.wf(),
        ensures
            match at {
                Some((k, i)) => k < self.scopes@.len() && holder(self@, name@) == Some(k as int)
                    && self.scopes@[k as int].binds(
                    i as int,
                    name@,
                ),
                None => holder(self@, name@) is None,
            },
    {
        let mut k: usize = self.scopes.len();
        assert(self@.subrange(0, k as int) =~= self@);
        while k > 0
            invariant
                self.wf(),
                k <= self.scopes@.len(),
                holder(self@, name@) == holder(self@.subrange(0, k as int), name@),
            decreases k,
        {
            k -= 1;
            proof {
                let upto = self@.subrange(0, k + 1);
                assert(upto.last() == self.scopes@[k as int]@);
                assert(upto.drop_last() =~= self@.subrange(0, k as int));
            }
            match self.scopes[k].find(name) {
                Some(i) => {
                    proof {
                        self.scopes@[k as int].lemma_bound(i as int, name@);
                    }
                    return Some((k, i));
                },
                None => {},
            }
        }
        None
    }

    /// The value of the variable that `name` names, from the innermost scope
    /// that binds it; an error if no scope does.
    pub fn get(&self, name: &Token) -> (found: Result<&Literal, RuntimeError>)
        requires
            self.wf(),
        ensures
            match lookup(self@, name.lexeme@) {
                Some(value) => found is Ok && found->Ok_0@ == value,
                None => found is Err && found->Err_0@ == undefined_variable(*name),
            },
    {
        match self.holder(&name.lexeme) {
            Some((k, i)) => {
                proof {
                    self.scopes@[k as int].lemma_bound(i as int, name.lexeme@);
                }
                Ok(&self.scopes[k].bindings[i].value)
            },
            None => Err(Self::undefined(name)),
        }
    }

    /// Gives the variable that `name` names a new value, in the innermost
    /// scope that binds it; an error, and no change, if no scope does.
    pub fn assign(&mut self, name: &Token, value: &Literal) -> (done: Result<(), RuntimeError>)
        requires
            old(self).wf(),
        ensures
            final(self).wf(),
            match assigned(old(self)@, name.lexeme@, value@) {
                Some(scopes) => done is Ok && final(self)@ == scopes,
                None => done is Err && done->Err_0@ == undefined_variable(*name) && final(self)@ == old(self)@,
            },
    {
        match self.holder(&name.lexeme) {
            Some((k, _)) => {
                let scope = &mut self.scopes[k];
                scope.insert(name.lexeme.clone(), value.clone());
                assert(self@ =~= old(self)@.update(k as int, old(self)@[k as int].insert(name.lexeme@, value@)));
                Ok(())
            },
            None => Err(Self::undefined(name)),
        }
    }

    /// The error for a name that no scope binds.
    fn undefined(name: &Token) -> (error: RuntimeError)
        ensures
            error@ == undefined_variable(*name),
    {
        let mut message = String::from_str("Undefined variable '");
        message.append(name.lexeme.as_str());
        message.append("'");
        RuntimeError::new(message, Some(name.clone()))
    }
}

impl Default for Environment {
    fn default() -> (environment: Self)
        ensures
            environment.wf(),
            environment@ == seq![Map::<Seq<char>, LiteralView>::empty()],
    {
        Environment::new()
    }
}

} // verus!
