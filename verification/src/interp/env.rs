//! Environments: a chain of scopes that map names to values.
//!
//! Scopes are strictly nested, so the chain is a stack: the root scope at
//! the bottom, one child scope on top for every block that is being
//! executed.

use vstd::prelude::*;
use super::value::{Value, ValueView};
use super::RuntimeError;
use super::RuntimeErrorView;
use crate::util::Location;

verus! {

/// One scope: the names it defines, each with its value.
pub struct Scope {
    names: Vec<String>,
    values: Vec<Value>,
}

impl View for Scope {
    type V = Map<Seq<char>, ValueView>;

    closed spec fn view(&self) -> Map<Seq<char>, ValueView> {
        Map::new(
            |name: Seq<char>| self.position(name) is Some,
            |name: Seq<char>| self.values@[self.position(name).unwrap()]@,
        )
    }
}

impl Scope {
    #[verifier::type_invariant]
    spec fn distinct(self) -> bool {
        &&& self.names@.len() == self.values@.len()
        &&& forall|i: int, j: int|
            0 <= i < j < self.names@.len() ==> self.names@[i]@ != self.names@[j]@
    }

    /// Where the scope holds `name`.
    spec fn position(self, name: Seq<char>) -> Option<int> {
        if exists|i: int| 0 <= i < self.names@.len() && self.names@[i]@ == name {
            Some(choose|i: int| 0 <= i < self.names@.len() && self.names@[i]@ == name)
        } else {
            None
        }
    }

    /// A scope that defines nothing.
    pub fn new() -> (scope: Self)
        ensures
            scope@ == Map::<Seq<char>, ValueView>::empty(),
    {
        let scope = Scope { names: Vec::new(), values: Vec::new() };
        assert(scope@ =~= Map::<Seq<char>, ValueView>::empty());
        scope
    }

    /// Computes `position`.
    fn find(&self, name: &str) -> (found: Option<usize>)
        ensures
            match found {
                Some(i) => i < self.names@.len() && self.position(name@) == Some(i as int),
                None => self.position(name@) is None,
            },
    {
        proof {
            use_type_invariant(self);
        }
        let mut i: usize = 0;
        while i < self.names.len()
            invariant
                self.distinct(),
                i <= self.names@.len(),
                forall|j: int| 0 <= j < i ==> self.names@[j]@ != name@,
            decreases self.names@.len() - i,
        {
            if text_is(&self.names[i], name) {
                assert(self.names@[i as int]@ == name@);
                return Some(i);
            }
            i += 1;
        }
        None
    }

    /// Binds `name` to `value`, whether or not the scope defined `name`
    /// before.
    pub fn define(&mut self, name: String, value: Value)
        ensures
            final(self)@ == old(self)@.insert(name@, value@),
    {
        proof {
            use_type_invariant(&*self);
        }
        match self.find(name.as_str()) {
            Some(i) => {
                self.values[i] = value;
                assert(forall|n: Seq<char>| self.position(n) == old(self).position(n));
            },
            None => {
                let mut taken = Scope { names: Vec::new(), values: Vec::new() };
                core::mem::swap(self, &mut taken);
                let Scope { mut names, mut values } = taken;
                names.push(name);
                values.push(value);
                let mut grown = Scope { names, values };
                core::mem::swap(self, &mut grown);
                assert forall|n: Seq<char>| n != name@ implies self.position(n) == old(
                    self,
                ).position(n) by {
                    if old(self).position(n) is Some {
                        let i = old(self).position(n).unwrap();
                        assert(self.names@[i]@ == n);
                    }
                }
                assert(self.names@[old(self).names@.len() as int]@ == name@);
            },
        }
        assert(self@ =~= old(self)@.insert(name@, value@));
    }

    /// The value that `name` is bound to, if the scope defines `name`.
    pub fn get(&self, name: &str) -> (value: Option<Value>)
        ensures
            match value {
                Some(v) => self@.contains_key(name@) && self@[name@] == v@,
                None => !self@.contains_key(name@),
            },
    {
        proof {
            use_type_invariant(self);
        }
        match self.find(name) {
            Some(i) => Some(self.values[i].clone()),
            None => None,
        }
    }
}

/// An environment: the scopes that are in reach, the root scope first and
/// the innermost scope last.
pub struct Env {
    root: Scope,
    children: Vec<Scope>,
}

/// What an `Env` holds, as mathematical values: one map for each scope, the
/// root scope first.
pub type Scopes = Seq<Map<Seq<char>, ValueView>>;

/// The value that `name` stands for: that of the innermost scope that
/// defines `name`.
pub open spec fn resolve(scopes: Scopes, name: Seq<char>) -> Option<ValueView>
    decreases scopes.len(),
{
    if scopes.len() == 0 {
        None
    } else if scopes.last().contains_key(name) {
        Some(scopes.last()[name])
    } else {
        resolve(scopes.drop_last(), name)
    }
}

/// The scopes after `name` is bound to `value` in the innermost of them.
pub open spec fn bind(scopes: Scopes, name: Seq<char>, value: ValueView) -> Scopes {
    if scopes.len() == 0 {
        scopes
    } else {
        scopes.update(scopes.len() - 1, scopes.last().insert(name, value))
    }
}

/// Whatever is defined in a child scope is gone when the scope is left:
/// the scopes are as they were before the child scope was entered, and so
/// is the value of every name.
pub proof fn lemma_child_scope_is_discarded(
    scopes: Scopes,
    name: Seq<char>,
    value: ValueView,
    other: Seq<char>,
)
    ensures
        bind(scopes.push(Map::empty()), name, value).drop_last() == scopes,
        resolve(bind(scopes.push(Map::empty()), name, value).drop_last(), other) == resolve(
            scopes,
            other,
        ),
{
    assert(bind(scopes.push(Map::empty()), name, value).drop_last() =~= scopes);
}

/// A name that is defined in the innermost scope stands for its value
/// there, whatever the outer scopes hold; every other name stands for
/// what it stood for before.
pub proof fn lemma_inner_definition_shadows(
    scopes: Scopes,
    name: Seq<char>,
    value: ValueView,
    other: Seq<char>,
)
    requires
        scopes.len() > 0,
    ensures
        resolve(bind(scopes, name, value), name) == Some(value),
        other != name ==> resolve(bind(scopes, name, value), other) == resolve(scopes, other),
{
    let bound = bind(scopes, name, value);
    assert(bound.last() == scopes.last().insert(name, value));
    assert(bound.drop_last() =~= scopes.drop_last());
}

impl View for Env {
    type V = Scopes;

    closed spec fn view(&self) -> Scopes {
        Seq::new(
            (self.children@.len() + 1) as nat,
            |i: int|
                if i == 0 {
                    self.root@
                } else {
                    self.children@[i - 1]@
                },
        )
    }
}

impl Env {
    /// An environment of one scope, the root, which defines nothing.
    pub fn new() -> (env: Self)
        ensures
            env@ == seq![Map::<Seq<char>, ValueView>::empty()],
    {
        let env = Env { root: Scope::new(), children: Vec::new() };
        assert(env@ =~= seq![Map::<Seq<char>, ValueView>::empty()]);
        env
    }

    /// An environment has at least its root scope.
    pub proof fn lemma_has_root(&self)
        ensures
            self@.len() >= 1,
    {
    }

    /// Enters a child scope of the innermost scope. The child defines
    /// nothing yet.
    pub fn child(&mut self)
        ensures
            final(self)@ == old(self)@.push(Map::empty()),
    {
        self.children.push(Scope::new());
        assert(self@ =~= old(self)@.push(Map::empty()));
    }

    /// Leaves the innermost scope and discards what it defines. The root
    /// scope is never left.
    pub fn leave(&mut self)
        ensures
            final(self)@ == if old(self)@.len() > 1 {
                old(self)@.drop_last()
            } else {
                old(self)@
            },
    {
        let _ = self.children.pop();
        assert(self@ =~= if old(self)@.len() > 1 {
            old(self)@.drop_last()
        } else {
            old(self)@
        });
    }

    /// Leaves every child scope: only the root scope stays.
    pub fn leave_all(&mut self)
        ensures
            final(self)@ == old(self)@.take(1),
    {
        self.children.clear();
        assert(self@ =~= old(self)@.take(1));
    }

    /// Binds `name` to `value` in the innermost scope. A binding of the same
    /// name in that scope is overwritten; one in an outer scope is left as
    /// it is, and is out of sight until the innermost scope is left.
    pub fn define(&mut self, name: String, value: Value)
        ensures
            final(self)@ == bind(old(self)@, name@, value@),
    {
        match self.children.pop() {
            Some(mut innermost) => {
                innermost.define(name, value);
                self.children.push(innermost);
            },
            None => {
                self.root.define(name, value);
            },
        }
        assert(self@ =~= bind(old(self)@, name@, value@));
    }

    /// The value of `name`: scopes are searched from the innermost to the
    /// root, and the first that defines `name` gives the value. Where none
    /// does, the name is undefined at `loc`.
    pub fn lookup(&self, loc: Location, name: &str) -> (result: Result<Value, RuntimeError>)
        ensures
            match resolve(self@, name@) {
                Some(v) => result matches Ok(value) && value@ == v,
                None => result matches Err(e) && e@ == RuntimeErrorView::UndefinedVariable(
                    loc,
                    name@,
                ),
            },
    {
        let mut i: usize = self.children.len();
        assert(self@.take(i + 1) =~= self@);
        while i > 0
            invariant
                i <= self.children@.len(),
                resolve(self@, name@) == resolve(self@.take(i + 1), name@),
            decreases i,
        {
            i -= 1;
            match self.children[i].get(name) {
                Some(value) => {
                    return Ok(value);
                },
                None => {
                    assert(self@.take(i + 2).drop_last() =~= self@.take(i + 1));
                },
            }
        }
        assert(self@.take(1).last() == self.root@);
        assert(resolve(self@.take(1).drop_last(), name@) is None);
        match self.root.get(name) {
            Some(value) => Ok(value),
            None => Err(RuntimeError::UndefinedVariable(loc, String::from_str(name))),
        }
    }
}

/// Whether `a` and `b` hold the same characters.
fn text_is(a: &String, b: &str) -> (same: bool)
    ensures
        same == (a@ == b@),
{
    crate::util::text_equals(a.as_str(), b)
}

} // verus!
