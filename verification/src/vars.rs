//! The runtime variable store: a mapping from variable names to ordered
//! sequences of captured strings. It is seeded from the template's
//! environment plus caller parameters, and extended only by value-capturing
//! nodes; captures for an existing name append, preserving order.

use vstd::prelude::*;

use crate::text::str_eq;

verus! {

/// The spec-level contents of a store given its entry list: later entries
/// win, though a well-formed store never repeats a key.
pub open spec fn store_map(entries: Seq<(String, Vec<String>)>) -> Map<
    Seq<char>,
    Seq<Seq<char>>,
>
    decreases entries.len(),
{
    if entries.len() == 0 {
        Map::empty()
    } else {
        store_map(entries.drop_last()).insert(
            entries.last().0@,
            entries.last().1.deep_view(),
        )
    }
}

/// The store after appending values under a name: an existing binding is
/// extended in order; a missing one is created.
pub open spec fn store_append(
    m: Map<Seq<char>, Seq<Seq<char>>>,
    name: Seq<char>,
    vs: Seq<Seq<char>>,
) -> Map<Seq<char>, Seq<Seq<char>>> {
    m.insert(
        name,
        if m.contains_key(name) {
            m[name] + vs
        } else {
            vs
        },
    )
}

/// Appends accumulate: a value node visited twice leaves, under its name,
/// everything that was there before followed by the first visit's captures
/// and then the second's, in order; the final length is the sum of the
/// parts.
pub proof fn lemma_append_accumulates(
    m: Map<Seq<char>, Seq<Seq<char>>>,
    name: Seq<char>,
    v1: Seq<Seq<char>>,
    v2: Seq<Seq<char>>,
)
    ensures
        store_append(store_append(m, name, v1), name, v2)[name] == (if m.contains_key(name) {
            m[name]
        } else {
            Seq::<Seq<char>>::empty()
        }) + v1 + v2,
        store_append(store_append(m, name, v1), name, v2)[name].len() == (if m.contains_key(
            name,
        ) {
            m[name].len()
        } else {
            0
        }) + v1.len() + v2.len(),
{
    if m.contains_key(name) {
    } else {
        assert(Seq::<Seq<char>>::empty() + v1 =~= v1);
    }
}

/// One store extends another when every binding of the old store is still
/// there, with its values an unchanged prefix of the new ones: captures
/// are only ever appended, never lost or reordered.
pub open spec fn store_extends(
    m1: Map<Seq<char>, Seq<Seq<char>>>,
    m2: Map<Seq<char>, Seq<Seq<char>>>,
) -> bool {
    forall|k: Seq<char>|
        #[trigger] m1.contains_key(k) ==> m2.contains_key(k) && m1[k].is_prefix_of(m2[k])
}

/// Extension is reflexive.
pub proof fn lemma_store_extends_refl(m: Map<Seq<char>, Seq<Seq<char>>>)
    ensures
        store_extends(m, m),
{
    assert forall|k: Seq<char>| #[trigger] m.contains_key(k) implies m.contains_key(k)
        && m[k].is_prefix_of(m[k]) by {
        assert(m[k].take(m[k].len() as int) =~= m[k]);
    }
}

/// Extension composes across successive updates.
pub proof fn lemma_store_extends_trans(
    m1: Map<Seq<char>, Seq<Seq<char>>>,
    m2: Map<Seq<char>, Seq<Seq<char>>>,
    m3: Map<Seq<char>, Seq<Seq<char>>>,
)
    requires
        store_extends(m1, m2),
        store_extends(m2, m3),
    ensures
        store_extends(m1, m3),
{
    assert forall|k: Seq<char>| #[trigger] m1.contains_key(k) implies m3.contains_key(k)
        && m1[k].is_prefix_of(m3[k]) by {
        assert(m2.contains_key(k));
        assert(m1[k].is_prefix_of(m2[k]));
        assert(m2[k].is_prefix_of(m3[k]));
        assert(m3[k].take(m1[k].len() as int) =~= m2[k].take(m1[k].len() as int));
    }
}

/// Changes between two stores are confined to the given names: any key
/// that is new, or whose values changed, is one of them.
pub open spec fn store_confined(
    m0: Map<Seq<char>, Seq<Seq<char>>>,
    m1: Map<Seq<char>, Seq<Seq<char>>>,
    names: Seq<Seq<char>>,
) -> bool {
    forall|k: Seq<char>|
        (#[trigger] m1.contains_key(k)) && (!m0.contains_key(k) || m1[k] != m0[k])
            ==> names.contains(k)
}

/// Confinement composes across successive updates.
pub proof fn lemma_store_confined_trans(
    m0: Map<Seq<char>, Seq<Seq<char>>>,
    m1: Map<Seq<char>, Seq<Seq<char>>>,
    m2: Map<Seq<char>, Seq<Seq<char>>>,
    names: Seq<Seq<char>>,
)
    requires
        store_confined(m0, m1, names),
        store_confined(m1, m2, names),
    ensures
        store_confined(m0, m2, names),
{
    assert forall|k: Seq<char>|
        (#[trigger] m2.contains_key(k)) && (!m0.contains_key(k) || m2[k] != m0[k])
            implies names.contains(k) by {
        if m1.contains_key(k) {
            if m2[k] != m1[k] {
            } else {
            }
        } else {
        }
    }
}

/// Confinement under a wider name list still holds.
pub proof fn lemma_store_confined_weaken(
    m0: Map<Seq<char>, Seq<Seq<char>>>,
    m1: Map<Seq<char>, Seq<Seq<char>>>,
    names1: Seq<Seq<char>>,
    names2: Seq<Seq<char>>,
)
    requires
        store_confined(m0, m1, names1),
        forall|x: Seq<char>| names1.contains(x) ==> #[trigger] names2.contains(x),
    ensures
        store_confined(m0, m1, names2),
{
}

/// Appending under one name is confined to any list holding that name.
pub proof fn lemma_store_append_confined(
    m: Map<Seq<char>, Seq<Seq<char>>>,
    name: Seq<char>,
    vs: Seq<Seq<char>>,
    names: Seq<Seq<char>>,
)
    requires
        names.contains(name),
    ensures
        store_confined(m, store_append(m, name, vs), names),
{
}

/// Appending captures under one name extends the store.
pub proof fn lemma_store_append_extends(
    m: Map<Seq<char>, Seq<Seq<char>>>,
    name: Seq<char>,
    vs: Seq<Seq<char>>,
)
    ensures
        store_extends(m, store_append(m, name, vs)),
{
    let m2 = store_append(m, name, vs);
    assert forall|k: Seq<char>| #[trigger] m.contains_key(k) implies m2.contains_key(k)
        && m[k].is_prefix_of(m2[k]) by {
        if k == name {
            assert(m2[k] == m[k] + vs);
            assert((m[k] + vs).take(m[k].len() as int) =~= m[k]);
        } else {
            assert(m2[k] == m[k]);
            assert(m[k].take(m[k].len() as int) =~= m[k]);
        }
    }
}

/// Name-to-values store with insertion order kept, so that every walk over
/// it is deterministic.
pub struct VarStore {
    entries: Vec<(String, Vec<String>)>,
}

impl View for VarStore {
    type V = Map<Seq<char>, Seq<Seq<char>>>;

    closed spec fn view(&self) -> Map<Seq<char>, Seq<Seq<char>>> {
        store_map(self.entries@)
    }
}

impl VarStore {
    /// No two entries share a name.
    pub closed spec fn wf(&self) -> bool {
        forall|i: int, j: int|
            0 <= i < j < self.entries@.len() ==> self.entries@[i].0@ != self.entries@[j].0@
    }

    pub fn new() -> (r: VarStore)
        ensures
            r@ == Map::<Seq<char>, Seq<Seq<char>>>::empty(),
            r.wf(),
    {
        VarStore { entries: Vec::new() }
    }

    /// The position of `name` among the entries, if any.
    fn find(&self, name: &str) -> (r: Option<usize>)
        ensures
            match r {
                Some(i) => i < self.entries@.len() && self.entries@[i as int].0@ == name@,
                None => forall|i: int|
                    0 <= i < self.entries@.len() ==> self.entries@[i].0@ != name@,
            },
    {
        let mut i: usize = 0;
        while i < self.entries.len()
            invariant
                i <= self.entries@.len(),
                forall|k: int| 0 <= k < i ==> self.entries@[k].0@ != name@,
            decreases self.entries@.len() - i,
        {
            if str_eq(self.entries[i].0.as_str(), name) {
                return Some(i);
            }
            i = i + 1;
        }
        None
    }

    /// The values bound to `name`, if the name is present.
    pub fn get(&self, name: &str) -> (r: Option<&Vec<String>>)
        requires
            self.wf(),
        ensures
            match r {
                Some(v) => self@.contains_key(name@) && v.deep_view() == self@[name@],
                None => !self@.contains_key(name@),
            },
    {
        match self.find(name) {
            Some(i) => {
                proof {
                    lemma_store_map_index(self.entries@, i as int);
                }
                Some(&self.entries[i].1)
            },
            None => {
                proof {
                    lemma_store_map_absent(self.entries@, name@);
                }
                None
            },
        }
    }

    /// Bind `name` to exactly `values`, replacing any previous binding.
    pub fn set(&mut self, name: &str, values: Vec<String>)
        requires
            old(self).wf(),
        ensures
            final(self)@ == old(self)@.insert(name@, values.deep_view()),
            final(self).wf(),
    {
        let ghost pre = self.entries@;
        match self.find(name) {
            Some(i) => {
                let name_owned = self.entries[i].0.clone();
                self.entries.set(i, (name_owned, values));
                proof {
                    lemma_store_map_update(pre, self.entries@, i as int);
                }
            },
            None => {
                let mut owned = String::new();
                owned.append(name);
                self.entries.push((owned, values));
                proof {
                    assert(self.entries@.drop_last() =~= pre);
                }
            },
        }
    }

    /// Append `values` to the binding of `name`, creating the binding (even
    /// an empty one) if the name is new. This is the only operation value
    /// captures use, so earlier captures are never lost or reordered.
    pub fn append_values(&mut self, name: &str, values: &Vec<String>)
        requires
            old(self).wf(),
        ensures
            final(self)@ == store_append(old(self)@, name@, values.deep_view()),
            final(self).wf(),
    {
        let ghost pre = self.entries@;
        match self.find(name) {
            Some(i) => {
                proof {
                    lemma_store_map_index(pre, i as int);
                }
                let name_owned = self.entries[i].0.clone();
                let mut combined: Vec<String> = Vec::new();
                let n = self.entries[i].1.len();
                let mut j: usize = 0;
                while j < n
                    invariant
                        j <= n,
                        i < self.entries@.len(),
                        self.entries@ == pre,
                        n == pre[i as int].1@.len(),
                        combined@ =~= pre[i as int].1@.take(j as int),
                    decreases n - j,
                {
                    combined.push(self.entries[i].1[j].clone());
                    assert(combined@ =~= pre[i as int].1@.take(j + 1));
                    j = j + 1;
                }
                assert(combined@ =~= pre[i as int].1@);
                let mut k: usize = 0;
                while k < values.len()
                    invariant
                        k <= values@.len(),
                        combined@ =~= pre[i as int].1@ + values@.take(k as int),
                    decreases values@.len() - k,
                {
                    combined.push(values[k].clone());
                    assert(combined@ =~= pre[i as int].1@ + values@.take(k + 1));
                    k = k + 1;
                }
                proof {
                    assert(combined@ =~= pre[i as int].1@ + values@);
                    assert(combined.deep_view() =~~= pre[i as int].1.deep_view()
                        + values.deep_view());
                }
                self.entries.set(i, (name_owned, combined));
                proof {
                    lemma_store_map_update(pre, self.entries@, i as int);
                }
            },
            None => {
                proof {
                    lemma_store_map_absent(pre, name@);
                }
                let mut owned = String::new();
                owned.append(name);
                self.entries.push((owned, values.clone()));
                proof {
                    assert(self.entries@.drop_last() =~= pre);
                }
            },
        }
    }

    /// The names in insertion order, as a spec sequence.
    pub closed spec fn names_seq(&self) -> Seq<Seq<char>> {
        self.entries@.map_values(|e: (String, Vec<String>)| e.0@)
    }

    /// The names in insertion order; useful to walk the store
    /// deterministically.
    pub fn names(&self) -> (r: Vec<String>)
        requires
            self.wf(),
        ensures
            r.deep_view() == self.names_seq(),
            forall|k: int| 0 <= k < r.deep_view().len() ==> self@.contains_key(r.deep_view()[k]),
    {
        let mut r: Vec<String> = Vec::new();
        let mut i: usize = 0;
        while i < self.entries.len()
            invariant
                i <= self.entries@.len(),
                r@ =~= self.entries@.take(i as int).map_values(
                    |e: (String, Vec<String>)| e.0,
                ),
            decreases self.entries@.len() - i,
        {
            r.push(self.entries[i].0.clone());
            proof {
                assert(r@ =~= self.entries@.take(i + 1).map_values(
                    |e: (String, Vec<String>)| e.0,
                ));
            }
            i = i + 1;
        }
        proof {
            assert(self.entries@.take(self.entries@.len() as int) =~= self.entries@);
            assert(r@ =~= self.entries@.map_values(|e: (String, Vec<String>)| e.0));
            assert(r.deep_view() =~~= self.names_seq());
            assert forall|k: int| 0 <= k < r@.len() implies self@.contains_key(
                r.deep_view()[k],
            ) by {
                lemma_store_map_index(self.entries@, k);
            }
        }
        r
    }
}

/// In a duplicate-free entry list, the map holds each entry's values under
/// its name.
proof fn lemma_store_map_index(entries: Seq<(String, Vec<String>)>, i: int)
    requires
        0 <= i < entries.len(),
        forall|a: int, b: int| 0 <= a < b < entries.len() ==> entries[a].0@ != entries[b].0@,
    ensures
        store_map(entries).contains_key(entries[i].0@),
        store_map(entries)[entries[i].0@] == entries[i].1.deep_view(),
    decreases entries.len(),
{
    if i + 1 < entries.len() {
        lemma_store_map_index(entries.drop_last(), i);
    }
}

/// A name that no entry carries is not in the map.
proof fn lemma_store_map_absent(entries: Seq<(String, Vec<String>)>, name: Seq<char>)
    requires
        forall|k: int| 0 <= k < entries.len() ==> entries[k].0@ != name,
    ensures
        !store_map(entries).contains_key(name),
    decreases entries.len(),
{
    if entries.len() > 0 {
        lemma_store_map_absent(entries.drop_last(), name);
    }
}

/// Rebinding one entry in place updates the map at that one name.
proof fn lemma_store_map_update(
    pre: Seq<(String, Vec<String>)>,
    post: Seq<(String, Vec<String>)>,
    i: int,
)
    requires
        0 <= i < pre.len(),
        post.len() == pre.len(),
        post[i].0@ == pre[i].0@,
        forall|k: int| 0 <= k < pre.len() && k != i ==> post[k] == pre[k],
        forall|a: int, b: int| 0 <= a < b < pre.len() ==> pre[a].0@ != pre[b].0@,
    ensures
        store_map(post) == store_map(pre).insert(pre[i].0@, post[i].1.deep_view()),
    decreases pre.len(),
{
    if i + 1 == pre.len() {
        assert(post.drop_last() =~= pre.drop_last());
        assert(store_map(post) =~= store_map(pre).insert(pre[i].0@, post[i].1.deep_view()));
    } else {
        lemma_store_map_update(pre.drop_last(), post.drop_last(), i);
        assert(post.last() == pre.last());
        lemma_store_map_absent(
            pre.drop_last().update(i, post[i]),
            pre.last().0@,
        );
        assert(store_map(post) =~= store_map(pre).insert(pre[i].0@, post[i].1.deep_view()));
    }
}

} // verus!
