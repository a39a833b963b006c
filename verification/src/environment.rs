//! Lexically scoped environments: scopes that map names to values, each with
//! an optional parent. All scopes of an interpreter live in one
//! `Environment` and are known by their index in it; the root scope is 0.

use crate::datum::{Datum, Value};
use vstd::prelude::*;

verus! {

/// One scope: its bindings, newest last, and its parent.
pub struct Scope {
    entries: Vec<(String, Option<Datum>)>,
    parent: Option<usize>,
}

/// Model of a scope. A name bound to `None` is declared and has no value yet.
pub struct ScopeView {
    pub bindings: Map<Seq<char>, Option<Value>>,
    pub parent: Option<usize>,
}

pub struct Environment {
    scopes: Vec<Scope>,
}

/// What a name is bound to.
pub enum Lookup {
    Unbound,
    Uninitialized,
    Bound(Datum),
}

pub open spec fn slot_view(v: Option<Datum>) -> Option<Value> {
    match v {
        Some(d) => Some(d@),
        None => None,
    }
}

/// The map that a sequence of bindings stands for: a later binding of a name
/// hides an earlier one.
pub open spec fn bindings_of(entries: Seq<(String, Option<Datum>)>) -> Map<Seq<char>, Option<Value>>
    decreases entries.len(),
{
    if entries.len() == 0 {
        Map::empty()
    } else {
        bindings_of(entries.drop_last()).insert(entries.last().0@, slot_view(entries.last().1))
    }
}

impl View for Scope {
    type V = ScopeView;

    closed spec fn view(&self) -> ScopeView {
        ScopeView { bindings: bindings_of(self.entries@), parent: self.parent }
    }
}

impl View for Environment {
    type V = Seq<ScopeView>;

    closed spec fn view(&self) -> Seq<ScopeView> {
        self.scopes@.map_values(|s: Scope| s@)
    }
}

impl View for Lookup {
    type V = Option<Option<Value>>;

    open spec fn view(&self) -> Option<Option<Value>> {
        match self {
            Lookup::Unbound => None,
            Lookup::Uninitialized => Some(None),
            Lookup::Bound(d) => Some(Some(d@)),
        }
    }
}

/// What `name` is bound to, seen from `scope`: the binding in the nearest
/// scope that has one, walking from `scope` through the parents. `None`
/// when there is none.
pub open spec fn lookup(env: Seq<ScopeView>, scope: int, name: Seq<char>) -> Option<Option<Value>>
    decreases scope,
{
    if !(0 <= scope < env.len()) {
        None
    } else if env[scope].bindings.contains_key(name) {
        Some(env[scope].bindings[name])
    } else {
        match env[scope].parent {
            Some(p) => if p < scope {
                lookup(env, p as int, name)
            } else {
                None
            },
            None => None,
        }
    }
}

/// The nearest scope that binds `name`, seen from `scope`.
pub open spec fn holder(env: Seq<ScopeView>, scope: int, name: Seq<char>) -> Option<int>
    decreases scope,
{
    if !(0 <= scope < env.len()) {
        None
    } else if env[scope].bindings.contains_key(name) {
        Some(scope)
    } else {
        match env[scope].parent {
            Some(p) => if p < scope {
                holder(env, p as int, name)
            } else {
                None
            },
            None => None,
        }
    }
}

/// `env` with `name` bound to `slot` in `scope`; `env` itself when there is
/// no such scope.
pub open spec fn bind(env: Seq<ScopeView>, scope: int, name: Seq<char>, slot: Option<Value>) -> Seq<
    ScopeView,
> {
    if 0 <= scope < env.len() {
        env.update(
            scope,
            ScopeView { bindings: env[scope].bindings.insert(name, slot), parent: env[scope].parent },
        )
    } else {
        env
    }
}

/// `env` with `name` bound to `value` in `scope`.
pub open spec fn define(env: Seq<ScopeView>, scope: int, name: Seq<char>, value: Value) -> Seq<
    ScopeView,
> {
    bind(env, scope, name, Some(value))
}

/// `env` with the nearest binding of `name` replaced; `None` when `name` is
/// unbound.
pub open spec fn assign(env: Seq<ScopeView>, scope: int, name: Seq<char>, value: Value) -> Option<
    Seq<ScopeView>,
> {
    match holder(env, scope, name) {
        Some(h) => Some(bind(env, h, name, Some(value))),
        None => None,
    }
}

/// `env` with one more scope, empty, whose parent is `parent`. The new scope
/// is the last one.
pub open spec fn extend(env: Seq<ScopeView>, parent: usize) -> Seq<ScopeView> {
    env.push(ScopeView { bindings: Map::empty(), parent: Some(parent) })
}

/// The models of a sequence of names with their values.
pub open spec fn binding_views(s: Seq<(String, Datum)>) -> Seq<(Seq<char>, Value)> {
    s.map_values(|b: (String, Datum)| (b.0@, b.1@))
}

/// `env` with all of `bindings` defined in `scope`, in order.
pub open spec fn bind_all(env: Seq<ScopeView>, scope: int, bindings: Seq<(Seq<char>, Value)>) -> Seq<
    ScopeView,
>
    decreases bindings.len(),
{
    if bindings.len() == 0 {
        env
    } else {
        define(
            bind_all(env, scope, bindings.drop_last()),
            scope,
            bindings.last().0,
            bindings.last().1,
        )
    }
}

/// An environment that holds the root scope alone, with no bindings.
pub open spec fn root_only() -> Seq<ScopeView> {
    seq![ScopeView { bindings: Map::empty(), parent: None }]
}

/// The index of the last binding of `name`, if there is one.
spec fn last_index(entries: Seq<(String, Option<Datum>)>, name: Seq<char>) -> Option<int>
    decreases entries.len(),
{
    if entries.len() == 0 {
        None
    } else if entries.last().0@ == name {
        Some(entries.len() - 1)
    } else {
        last_index(entries.drop_last(), name)
    }
}

proof fn lemma_last_index(entries: Seq<(String, Option<Datum>)>, name: Seq<char>)
    ensures
        match last_index(entries, name) {
            Some(i) => 0 <= i < entries.len() && entries[i].0@ == name && bindings_of(
                entries,
            ).contains_key(name) && bindings_of(entries)[name] == slot_view(entries[i].1)
                && forall|j: int| i < j < entries.len() ==> (#[trigger] entries[j]).0@ != name,
            None => !bindings_of(entries).contains_key(name) && forall|j: int|
                0 <= j < entries.len() ==> (#[trigger] entries[j]).0@ != name,
        },
    decreases entries.len(),
{
    if entries.len() > 0 {
        lemma_last_index(entries.drop_last(), name);
        if entries.last().0@ != name {
            match last_index(entries.drop_last(), name) {
                Some(i) => {
                    assert(entries.drop_last()[i] == entries[i]);
                    assert forall|j: int| i < j < entries.len() implies (#[trigger] entries[j]).0@
                        != name by {
                        if j < entries.len() - 1 {
                            assert(entries.drop_last()[j] == entries[j]);
                        }
                    }
                },
                None => {
                    assert forall|j: int| 0 <= j < entries.len() implies (#[trigger] entries[j]).0@
                        != name by {
                        if j < entries.len() - 1 {
                            assert(entries.drop_last()[j] == entries[j]);
                        }
                    }
                },
            }
        }
    }
}

/// Replacing the last binding of a name is binding the name anew.
proof fn lemma_update_last(
    entries: Seq<(String, Option<Datum>)>,
    i: int,
    entry: (String, Option<Datum>),
)
    requires
        0 <= i < entries.len(),
        entries[i].0@ == entry.0@,
        forall|j: int| i < j < entries.len() ==> (#[trigger] entries[j]).0@ != entry.0@,
    ensures
        bindings_of(entries.update(i, entry)) == bindings_of(entries).insert(
            entry.0@,
            slot_view(entry.1),
        ),
    decreases entries.len(),
{
    let updated = entries.update(i, entry);
    if i == entries.len() - 1 {
        assert(updated.drop_last() =~= entries.drop_last());
        assert(bindings_of(updated) =~= bindings_of(entries).insert(entry.0@, slot_view(entry.1)));
    } else {
        assert(updated.drop_last() =~= entries.drop_last().update(i, entry));
        assert forall|j: int| i < j < entries.drop_last().len() implies (
        #[trigger] entries.drop_last()[j]).0@ != entry.0@ by {
            assert(entries.drop_last()[j] == entries[j]);
        }
        lemma_update_last(entries.drop_last(), i, entry);
        assert(entries.last().0@ != entry.0@);
        assert(bindings_of(updated) =~= bindings_of(entries).insert(entry.0@, slot_view(entry.1)));
    }
}

impl Scope {
    /// The index of the last binding of `name`.
    fn find(&self, name: &String) -> (r: Option<usize>)
        ensures
            match r {
                Some(i) => last_index(self.entries@, name@) == Some(i as int),
                None => last_index(self.entries@, name@) is None,
            },
    {
        let mut i: usize = self.entries.len();
        assert(self.entries@.take(i as int) =~= self.entries@);
        while i > 0
            invariant
                i <= self.entries.len(),
                last_index(self.entries@, name@) == last_index(self.entries@.take(i as int), name@),
            decreases i,
        {
            i = i - 1;
            proof {
                let prefix = self.entries@.take(i + 1);
                assert(prefix.last() == self.entries@[i as int]);
                assert(prefix.drop_last() =~= self.entries@.take(i as int));
            }
            if self.entries[i].0 == *name {
                return Some(i);
            }
        }
        None
    }

    /// Binds `name` to `slot`: in place of its last binding, or as a new one.
    fn put(&mut self, name: String, slot: Option<Datum>)
        ensures
            final(self)@.bindings == old(self)@.bindings.insert(name@, slot_view(slot)),
            final(self)@.parent == old(self)@.parent,
    {
        proof {
            lemma_last_index(self.entries@, name@);
        }
        match self.find(&name) {
            Some(i) => {
                proof {
                    lemma_update_last(self.entries@, i as int, (name, slot));
                }
                self.entries.set(i, (name, slot));
            },
            None => {
                let ghost prev = self.entries@;
                self.entries.push((name, slot));
                assert(self.entries@.drop_last() =~= prev);
            },
        }
    }
}

impl Environment {
    /// An environment that holds the root scope alone, with no bindings.
    pub fn new() -> (r: Environment)
        ensures
            r@ == root_only(),
    {
        let mut scopes: Vec<Scope> = Vec::new();
        scopes.push(Scope { entries: Vec::new(), parent: None });
        let r = Environment { scopes };
        assert(r@ =~= root_only());
        r
    }

    /// How many scopes there are.
    pub fn len(&self) -> (r: usize)
        ensures
            r == self@.len(),
    {
        self.scopes.len()
    }

    /// What `name` is bound to, seen from `scope`.
    pub fn lookup(&self, scope: usize, name: &String) -> (r: Lookup)
        ensures
            r@ == lookup(self@, scope as int, name@),
    {
        let mut cur: usize = scope;
        loop
            invariant
                lookup(self@, scope as int, name@) == lookup(self@, cur as int, name@),
            decreases cur,
        {
            if cur >= self.scopes.len() {
                return Lookup::Unbound;
            }
            let s = &self.scopes[cur];
            assert(self@[cur as int] == s@);
            proof {
                lemma_last_index(s.entries@, name@);
            }
            match s.find(name) {
                Some(i) => {
                    return match &s.entries[i].1 {
                        Some(d) => Lookup::Bound(d.clone()),
                        None => Lookup::Uninitialized,
                    };
                },
                None => {
                    match s.parent {
                        Some(p) => {
                            if p < cur {
                                cur = p;
                            } else {
                                return Lookup::Unbound;
                            }
                        },
                        None => {
                            return Lookup::Unbound;
                        },
                    }
                },
            }
        }
    }

    /// The nearest scope that binds `name`, seen from `scope`.
    fn holder(&self, scope: usize, name: &String) -> (r: Option<usize>)
        ensures
            match r {
                Some(h) => holder(self@, scope as int, name@) == Some(h as int) && h < self@.len(),
                None => holder(self@, scope as int, name@) is None,
            },
    {
        let mut cur: usize = scope;
        loop
            invariant
                holder(self@, scope as int, name@) == holder(self@, cur as int, name@),
            decreases cur,
        {
            if cur >= self.scopes.len() {
                return None;
            }
            let s = &self.scopes[cur];
            assert(self@[cur as int] == s@);
            proof {
                lemma_last_index(s.entries@, name@);
            }
            match s.find(name) {
                Some(i) => {
                    return Some(cur);
                },
                None => {
                    match s.parent {
                        Some(p) => {
                            if p < cur {
                                cur = p;
                            } else {
                                return None;
                            }
                        },
                        None => {
                            return None;
                        },
                    }
                },
            }
        }
    }

    /// Binds `name` to `slot` in `scope`, if there is such a scope.
    fn put(&mut self, scope: usize, name: String, slot: Option<Datum>)
        ensures
            final(self)@ == bind(old(self)@, scope as int, name@, slot_view(slot)),
    {
        if scope < self.scopes.len() {
            let ghost before = self@;
            let ghost n = name@;
            let ghost v = slot_view(slot);
            self.scopes[scope].put(name, slot);
            assert(self@ =~= bind(before, scope as int, n, v));
        }
    }

    /// Binds `name` to `value` in `scope`, whether or not `scope` or one of
    /// its parents binds it already. Nothing happens when there is no such
    /// scope.
    pub fn define(&mut self, scope: usize, name: String, value: Datum)
        ensures
            final(self)@ == define(old(self)@, scope as int, name@, value@),
    {
        self.put(scope, name, Some(value));
    }

    /// Binds each of the names to its value in `scope`, in order.
    pub fn define_all(&mut self, scope: usize, bindings: &Vec<(String, Datum)>)
        ensures
            final(self)@ == bind_all(old(self)@, scope as int, binding_views(bindings@)),
    {
        let ghost views = binding_views(bindings@);
        let mut i: usize = 0;
        assert(views.take(0) =~= Seq::<(Seq<char>, Value)>::empty());
        while i < bindings.len()
            invariant
                i <= bindings.len(),
                views == binding_views(bindings@),
                self@ == bind_all(old(self)@, scope as int, views.take(i as int)),
            decreases bindings.len() - i,
        {
            proof {
                assert(views.take(i + 1).drop_last() =~= views.take(i as int));
                assert(views.take(i + 1).last() == (bindings@[i as int].0@, bindings@[i as int].1@));
            }
            self.define(scope, bindings[i].0.clone(), bindings[i].1.clone());
            i = i + 1;
        }
        assert(views.take(bindings.len() as int) =~= views);
    }

    /// Adds a scope whose parent is `parent` and which holds `bindings`, and
    /// returns its index.
    pub fn extend_with(&mut self, parent: usize, bindings: &Vec<(String, Datum)>) -> (r: usize)
        ensures
            r == old(self)@.len(),
            final(self)@ == bind_all(
                extend(old(self)@, parent),
                old(self)@.len() as int,
                binding_views(bindings@),
            ),
    {
        let child = self.extend(parent);
        self.define_all(child, bindings);
        child
    }

    /// Declares `name` in `scope` without a value: reading it is an error
    /// until it is set.
    pub fn declare(&mut self, scope: usize, name: String)
        ensures
            final(self)@ == bind(old(self)@, scope as int, name@, None),
    {
        self.put(scope, name, None);
    }

    /// Replaces the value of the nearest binding of `name`, seen from
    /// `scope`. Returns whether there was one.
    pub fn set(&mut self, scope: usize, name: String, value: Datum) -> (r: bool)
        ensures
            match assign(old(self)@, scope as int, name@, value@) {
                Some(env) => r && final(self)@ == env,
                None => !r && final(self)@ == old(self)@,
            },
    {
        match self.holder(scope, &name) {
            Some(h) => {
                self.put(h, name, Some(value));
                true
            },
            None => false,
        }
    }

    /// Adds an empty scope whose parent is `parent`, and returns its index.
    pub fn extend(&mut self, parent: usize) -> (r: usize)
        ensures
            r == old(self)@.len(),
            final(self)@ == extend(old(self)@, parent),
    {
        let r = self.scopes.len();
        let ghost before = self@;
        self.scopes.push(Scope { entries: Vec::new(), parent: Some(parent) });
        assert(self@ =~= extend(before, parent));
        r
    }
}

} // verus!
