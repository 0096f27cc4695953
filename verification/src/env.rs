//! The environment: a stack of name-to-value scopes.
//!
//! Scope 0 is the sole global scope. `define` writes the top scope,
//! `define_global` the bottom one, and `lookup` searches innermost to
//! outermost, so the innermost binding of a name wins.

use vstd::prelude::*;

use crate::assoc::{
    assoc_get, assoc_set, bytes_eq, lemma_assoc_get_found, lemma_assoc_get_missing,
    lemma_assoc_set_found, lemma_assoc_set_missing,
};
use crate::value::{
    lemma_value_entries_view_props, value_clone, value_entries_view, Value, ValueV,
};

verus! {

/// The image of a stack of scopes.
pub open spec fn scopes_view(sc: Seq<Vec<(Vec<u8>, Value)>>) -> Seq<Seq<(Seq<u8>, ValueV)>>
    decreases sc,
{
    if sc.len() == 0 {
        Seq::empty()
    } else {
        seq![value_entries_view(sc[0]@)] + scopes_view(sc.drop_first())
    }
}

/// The image of a scope stack is pointwise the image of its scopes.
pub proof fn lemma_scopes_view_props(sc: Seq<Vec<(Vec<u8>, Value)>>)
    ensures
        scopes_view(sc).len() == sc.len(),
        forall|i: int| 0 <= i < sc.len() ==> scopes_view(sc)[i] == value_entries_view(sc[i]@),
    decreases sc.len(),
{
    if sc.len() > 0 {
        lemma_scopes_view_props(sc.drop_first());
    }
}

/// The value of a name: the first binding found searching the scopes
/// innermost to outermost.
pub open spec fn env_lookup(scopes: Seq<Seq<(Seq<u8>, ValueV)>>, k: Seq<u8>) -> Option<ValueV>
    decreases scopes.len(),
{
    if scopes.len() == 0 {
        None
    } else {
        match assoc_get(scopes.last(), k) {
            Some(v) => Some(v),
            None => env_lookup(scopes.drop_last(), k),
        }
    }
}

/// A binding in the global scope is visible from every scope depth that
/// does not shadow it: when the bottom scope binds the name and no scope
/// above binds it, lookup finds the global value.
pub proof fn lemma_global_visible(scopes: Seq<Seq<(Seq<u8>, ValueV)>>, k: Seq<u8>, v: ValueV)
    requires
        scopes.len() > 0,
        assoc_get(scopes[0], k) == Some(v),
        forall|i: int| 1 <= i < scopes.len() ==> assoc_get(#[trigger] scopes[i], k) == None::<
            ValueV,
        >,
    ensures
        env_lookup(scopes, k) == Some(v),
    decreases scopes.len(),
{
    if scopes.len() == 1 {
        assert(scopes.last() == scopes[0]);
    } else {
        assert(scopes.last() == scopes[scopes.len() - 1]);
        assert(assoc_get(scopes.last(), k) == None::<ValueV>);
        assert(scopes.drop_last()[0] == scopes[0]);
        assert(forall|i: int|
            1 <= i < scopes.drop_last().len() ==> #[trigger] scopes.drop_last()[i] == scopes[i]);
        lemma_global_visible(scopes.drop_last(), k, v);
    }
}

/// Binds `k` to `v` in one scope, replacing the first binding of `k` in
/// place or appending a new one.
#[verifier::loop_isolation(false)]
pub fn scope_set(entries: &mut Vec<(Vec<u8>, Value)>, k: Vec<u8>, v: Value)
    ensures
        value_entries_view(final(entries)@) == assoc_set(
            value_entries_view(old(entries)@),
            k@,
            v@,
        ),
{
    let ghost env0 = value_entries_view(entries@);
    proof {
        lemma_value_entries_view_props(entries@);
    }
    let mut idx: usize = 0;
    while idx < entries.len()
        invariant
            0 <= idx <= entries@.len(),
            entries@ == old(entries)@,
            forall|i: int| 0 <= i < idx ==> entries@[i].0@ != k@,
        decreases entries@.len() - idx,
    {
        if bytes_eq(&entries[idx].0, &k) {
            let ghost j = idx as int;
            proof {
                lemma_assoc_set_found(env0, k@, v@, j);
            }
            entries[idx] = (k, v);
            proof {
                lemma_value_entries_view_props(entries@);
                assert(value_entries_view(entries@) =~= env0.update(j, (k@, v@)));
            }
            return ;
        }
        idx = idx + 1;
    }
    proof {
        lemma_assoc_set_missing(env0, k@, v@);
    }
    entries.push((k, v));
    proof {
        lemma_value_entries_view_props(entries@);
        assert(value_entries_view(entries@) =~= env0.push((k@, v@)));
    }
}

/// Finds the first binding of `k` in one scope and copies its value.
#[verifier::loop_isolation(false)]
pub fn scope_get(entries: &Vec<(Vec<u8>, Value)>, k: &Vec<u8>) -> (r: Option<Value>)
    ensures
        match r {
            Some(v) => assoc_get(value_entries_view(entries@), k@) == Some(v@),
            None => assoc_get(value_entries_view(entries@), k@) == None::<ValueV>,
        },
{
    let ghost env0 = value_entries_view(entries@);
    proof {
        lemma_value_entries_view_props(entries@);
    }
    let mut idx: usize = 0;
    while idx < entries.len()
        invariant
            0 <= idx <= entries@.len(),
            forall|i: int| 0 <= i < idx ==> entries@[i].0@ != k@,
        decreases entries@.len() - idx,
    {
        if bytes_eq(&entries[idx].0, k) {
            proof {
                lemma_assoc_get_found(env0, k@, idx as int);
            }
            return Some(value_clone(&entries[idx].1));
        }
        idx = idx + 1;
    }
    proof {
        lemma_assoc_get_missing(env0, k@);
    }
    None
}

/// The environment: a stack of scopes, each a sequence of bindings.
pub struct Env {
    pub scopes: Vec<Vec<(Vec<u8>, Value)>>,
}

impl View for Env {
    type V = Seq<Seq<(Seq<u8>, ValueV)>>;

    open spec fn view(&self) -> Seq<Seq<(Seq<u8>, ValueV)>> {
        scopes_view(self.scopes@)
    }
}

impl Env {
    /// Makes an environment with no scope yet.
    pub fn new() -> (r: Env)
        ensures
            r@ == Seq::<Seq<(Seq<u8>, ValueV)>>::empty(),
    {
        let e = Env { scopes: Vec::new() };
        proof {
            assert(scopes_view(e.scopes@) =~= Seq::<Seq<(Seq<u8>, ValueV)>>::empty());
        }
        e
    }

    /// Pushes one empty scope.
    pub fn enter(&mut self)
        ensures
            final(self)@ == old(self)@.push(Seq::empty()),
    {
        proof {
            lemma_scopes_view_props(self.scopes@);
        }
        self.scopes.push(Vec::new());
        proof {
            lemma_scopes_view_props(self.scopes@);
            assert(value_entries_view(Seq::<(Vec<u8>, Value)>::empty()) =~= Seq::<
                (Seq<u8>, ValueV),
            >::empty());
            assert(scopes_view(self.scopes@) =~= scopes_view(old(self).scopes@).push(
                Seq::empty(),
            ));
        }
    }

    /// Pops the top scope; callers must pair each `enter` with one `exit`.
    pub fn exit(&mut self)
        requires
            old(self)@.len() > 0,
        ensures
            final(self)@ == old(self)@.drop_last(),
    {
        proof {
            lemma_scopes_view_props(self.scopes@);
        }
        let _ = self.scopes.pop();
        proof {
            lemma_scopes_view_props(self.scopes@);
            assert(scopes_view(self.scopes@) =~= scopes_view(old(self).scopes@).drop_last());
        }
    }

    /// Binds a name in the top scope.
    pub fn define(&mut self, key: Vec<u8>, value: Value)
        requires
            old(self)@.len() > 0,
        ensures
            final(self)@ == old(self)@.update(
                old(self)@.len() - 1,
                assoc_set(old(self)@.last(), key@, value@),
            ),
    {
        proof {
            lemma_scopes_view_props(self.scopes@);
        }
        let mut top = self.scopes.pop().unwrap();
        scope_set(&mut top, key, value);
        self.scopes.push(top);
        proof {
            lemma_scopes_view_props(self.scopes@);
            assert(scopes_view(self.scopes@) =~= scopes_view(old(self).scopes@).update(
                old(self)@.len() - 1,
                assoc_set(old(self)@.last(), key@, value@),
            ));
        }
    }

    /// Binds a name in the global scope, whatever the current depth.
    pub fn define_global(&mut self, key: Vec<u8>, value: Value)
        requires
            old(self)@.len() > 0,
        ensures
            final(self)@ == old(self)@.update(0, assoc_set(old(self)@[0], key@, value@)),
    {
        proof {
            lemma_scopes_view_props(self.scopes@);
        }
        let mut bottom = self.scopes.remove(0);
        scope_set(&mut bottom, key, value);
        self.scopes.insert(0, bottom);
        proof {
            lemma_scopes_view_props(self.scopes@);
            assert(scopes_view(self.scopes@) =~= scopes_view(old(self).scopes@).update(
                0,
                assoc_set(old(self)@[0], key@, value@),
            ));
        }
    }

    /// Looks a name up, innermost scope first, and copies the value found.
    #[verifier::loop_isolation(false)]
    pub fn lookup(&self, key: &Vec<u8>) -> (r: Option<Value>)
        ensures
            match r {
                Some(v) => env_lookup(self@, key@) == Some(v@),
                None => env_lookup(self@, key@) == None::<ValueV>,
            },
    {
        proof {
            lemma_scopes_view_props(self.scopes@);
        }
        let mut i: usize = self.scopes.len();
        proof {
            assert(self@.subrange(0, self.scopes@.len() as int) =~= self@);
        }
        while i > 0
            invariant
                0 <= i <= self.scopes@.len(),
                env_lookup(self@, key@) == env_lookup(self@.subrange(0, i as int), key@),
            decreases i,
        {
            proof {
                let pre = self@.subrange(0, i as int);
                assert(pre.last() == self@[i - 1]);
                assert(pre.drop_last() =~= self@.subrange(0, i - 1));
            }
            match scope_get(&self.scopes[i - 1], key) {
                Some(v) => {
                    return Some(v);
                },
                None => {
                    i = i - 1;
                },
            }
        }
        proof {
            assert(self@.subrange(0, 0) =~= Seq::<Seq<(Seq<u8>, ValueV)>>::empty());
        }
        None
    }
}

} // verus!
