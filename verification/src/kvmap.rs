//! A small association map with `String` keys, kept as a list of entries
//! with pairwise distinct keys. Insertion replaces the value of an
//! existing key in place and appends a new key at the end, so the entry
//! order is the order of first insertion.

use vstd::prelude::*;

verus! {

/// No two entries share a key.
pub open spec fn keys_unique<W>(es: Seq<(Seq<char>, W)>) -> bool {
    forall|i: int, j: int| 0 <= i < j < es.len() ==> es[i].0 != es[j].0
}

/// The mapping an entry list stands for; a later entry for the same key
/// wins, though under `keys_unique` there is at most one.
pub open spec fn map_of<W>(es: Seq<(Seq<char>, W)>) -> Map<Seq<char>, W>
    decreases es.len(),
{
    if es.len() == 0 {
        Map::empty()
    } else {
        map_of(es.drop_last()).insert(es.last().0, es.last().1)
    }
}

/// The entry list after inserting `(k, v)`: the first entry for `k` is
/// replaced in place, or `(k, v)` is appended when `k` is new.
pub open spec fn entries_insert<W>(es: Seq<(Seq<char>, W)>, k: Seq<char>, v: W) -> Seq<
    (Seq<char>, W),
>
    decreases es.len(),
{
    if es.len() == 0 {
        seq![(k, v)]
    } else if es[0].0 == k {
        seq![(k, v)] + es.skip(1)
    } else {
        seq![es[0]] + entries_insert(es.skip(1), k, v)
    }
}

pub proof fn lemma_map_of_membership<W>(es: Seq<(Seq<char>, W)>, k: Seq<char>)
    ensures
        map_of(es).dom().contains(k) <==> exists|i: int| 0 <= i < es.len() && es[i].0 == k,
    decreases es.len(),
{
    if es.len() == 0 {
    } else {
        lemma_map_of_membership(es.drop_last(), k);
        if map_of(es).dom().contains(k) {
            if es.last().0 == k {
                assert(es[es.len() - 1].0 == k);
            } else {
                let i = choose|i: int| 0 <= i < es.len() - 1 && es.drop_last()[i].0 == k;
                assert(es[i].0 == k);
            }
        }
        if exists|i: int| 0 <= i < es.len() && es[i].0 == k {
            let i = choose|i: int| 0 <= i < es.len() && es[i].0 == k;
            if i < es.len() - 1 {
                assert(es.drop_last()[i].0 == k);
            }
        }
    }
}

pub proof fn lemma_map_of_value<W>(es: Seq<(Seq<char>, W)>, k: Seq<char>, i: int)
    requires
        0 <= i < es.len(),
        es[i].0 == k,
        forall|j: int| i < j < es.len() ==> es[j].0 != k,
    ensures
        map_of(es).dom().contains(k),
        map_of(es)[k] == es[i].1,
    decreases es.len(),
{
    if i == es.len() - 1 {
    } else {
        assert(es.drop_last()[i].0 == k);
        lemma_map_of_value(es.drop_last(), k, i);
        assert(es.last().0 != k);
    }
}

pub proof fn lemma_entries_insert_update<W>(es: Seq<(Seq<char>, W)>, k: Seq<char>, v: W, i: int)
    requires
        0 <= i < es.len(),
        es[i].0 == k,
        forall|j: int| 0 <= j < i ==> es[j].0 != k,
    ensures
        entries_insert(es, k, v) == es.update(i, (k, v)),
    decreases es.len(),
{
    if i == 0 {
        assert(entries_insert(es, k, v) == seq![(k, v)] + es.skip(1));
        assert(seq![(k, v)] + es.skip(1) =~= es.update(0, (k, v)));
    } else {
        assert(es[0].0 != k);
        assert(es.skip(1)[i - 1].0 == k);
        assert forall|j: int| 0 <= j < i - 1 implies es.skip(1)[j].0 != k by {
            assert(es.skip(1)[j] == es[j + 1]);
        }
        lemma_entries_insert_update(es.skip(1), k, v, i - 1);
        assert(seq![es[0]] + es.skip(1).update(i - 1, (k, v)) =~= es.update(i, (k, v)));
    }
}

pub proof fn lemma_entries_insert_append<W>(es: Seq<(Seq<char>, W)>, k: Seq<char>, v: W)
    requires
        forall|j: int| 0 <= j < es.len() ==> es[j].0 != k,
    ensures
        entries_insert(es, k, v) == es.push((k, v)),
    decreases es.len(),
{
    if es.len() == 0 {
        assert(entries_insert(es, k, v) =~= es.push((k, v)));
    } else {
        assert forall|j: int| 0 <= j < es.skip(1).len() implies es.skip(1)[j].0 != k by {
            assert(es.skip(1)[j] == es[j + 1]);
        }
        lemma_entries_insert_append(es.skip(1), k, v);
        assert(seq![es[0]] + es.skip(1).push((k, v)) =~= es.push((k, v)));
    }
}

pub proof fn lemma_map_of_update<W>(es: Seq<(Seq<char>, W)>, k: Seq<char>, v: W, i: int)
    requires
        keys_unique(es),
        0 <= i < es.len(),
        es[i].0 == k,
    ensures
        map_of(es.update(i, (k, v))) =~= map_of(es).insert(k, v),
        keys_unique(es.update(i, (k, v))),
    decreases es.len(),
{
    let es2 = es.update(i, (k, v));
    assert forall|a: int, b: int| 0 <= a < b < es2.len() implies es2[a].0 != es2[b].0 by {
        assert(es2[a].0 == es[a].0 && es2[b].0 == es[b].0);
    }
    if i == es.len() - 1 {
        assert(es2.drop_last() =~= es.drop_last());
        assert(map_of(es2) == map_of(es.drop_last()).insert(k, v));
        assert(map_of(es) == map_of(es.drop_last()).insert(k, es[i].1));
        assert(map_of(es.drop_last()).insert(k, es[i].1).insert(k, v) =~= map_of(
            es.drop_last(),
        ).insert(k, v));
    } else {
        assert(es.drop_last()[i].0 == k);
        assert(keys_unique(es.drop_last())) by {
            assert forall|a: int, b: int|
                0 <= a < b < es.drop_last().len() implies es.drop_last()[a].0
                != es.drop_last()[b].0 by {
                assert(es.drop_last()[a].0 == es[a].0 && es.drop_last()[b].0 == es[b].0);
            }
        }
        lemma_map_of_update(es.drop_last(), k, v, i);
        assert(es2.drop_last() =~= es.drop_last().update(i, (k, v)));
        assert(es2.last() == es.last());
        assert(es.last().0 != k);
        assert(map_of(es2) == map_of(es.drop_last()).insert(k, v).insert(
            es.last().0,
            es.last().1,
        ));
        assert(map_of(es.drop_last()).insert(k, v).insert(es.last().0, es.last().1) =~= map_of(
            es.drop_last(),
        ).insert(es.last().0, es.last().1).insert(k, v));
    }
}

/// An entry list stands for the empty mapping exactly when it is empty.
pub proof fn lemma_map_of_empty<W>(es: Seq<(Seq<char>, W)>)
    ensures
        es.len() == 0 <==> map_of(es) =~= Map::<Seq<char>, W>::empty(),
{
    if es.len() > 0 {
        assert(map_of(es).dom().contains(es.last().0));
    }
}

/// An association map from strings to values of `V`, with distinct keys.
pub struct KvMap<V> {
    entries: Vec<(String, V)>,
}

/// An association map from header or parameter names to their values.
pub type StrMap = KvMap<String>;

/// An association map from query keys to their optional values.
pub type QueryMap = KvMap<Option<String>>;

impl<V: DeepView> View for KvMap<V> {
    type V = Map<Seq<char>, V::V>;

    closed spec fn view(&self) -> Map<Seq<char>, V::V> {
        map_of(self.entry_seq())
    }
}

impl<V: DeepView> KvMap<V> {
    /// The entries in order, as key and value abstractions.
    pub closed spec fn entry_seq(&self) -> Seq<(Seq<char>, V::V)> {
        Seq::new(self.entries@.len(), |i: int| (self.entries@[i].0@, self.entries@[i].1.deep_view()))
    }

    /// The entries carry pairwise distinct keys.
    pub open spec fn wf(&self) -> bool {
        keys_unique(self.entry_seq())
    }

    pub open spec fn spec_len(&self) -> nat {
        self.entry_seq().len()
    }

    /// The map this value stands for is the mapping of its entry list:
    /// the bridge between the two abstractions of one `KvMap`.
    pub proof fn lemma_view_is_entries(&self)
        ensures
            self@ == map_of(self.entry_seq()),
    {
    }

    /// The map is empty exactly when the entry list is.
    pub proof fn lemma_empty_view(&self)
        ensures
            self.spec_len() == 0 <==> self@ =~= Map::<Seq<char>, V::V>::empty(),
    {
        lemma_map_of_empty(self.entry_seq());
    }

    pub fn new() -> (r: KvMap<V>)
        ensures
            r.wf(),
            r.entry_seq() == Seq::<(Seq<char>, V::V)>::empty(),
            r@ == Map::<Seq<char>, V::V>::empty(),
    {
        let r = KvMap { entries: Vec::new() };
        proof {
            assert(r.entry_seq() =~= Seq::<(Seq<char>, V::V)>::empty());
        }
        r
    }

    pub fn len(&self) -> (n: usize)
        ensures
            n == self.spec_len(),
    {
        self.entries.len()
    }

    /// The entry at position `i`.
    pub fn entry_at(&self, i: usize) -> (e: &(String, V))
        requires
            i < self.spec_len(),
        ensures
            e.0@ == self.entry_seq()[i as int].0,
            e.1.deep_view() == self.entry_seq()[i as int].1,
    {
        vstd::std_specs::vec::vec_index(&self.entries, i)
    }

    /// Binds `key` to `value`, replacing any earlier binding of `key` in
    /// place and otherwise appending the new entry.
    pub fn insert(&mut self, key: String, value: V)
        requires
            old(self).wf(),
        ensures
            final(self).wf(),
            final(self)@ == old(self)@.insert(key@, value.deep_view()),
            final(self).entry_seq() == entries_insert(
                old(self).entry_seq(),
                key@,
                value.deep_view(),
            ),
    {
        let ghost es = self.entry_seq();
        proof {
            assert(es.len() == self.entries@.len());
        }
        let n = self.entries.len();
        let mut i: usize = 0;
        while i < n
            invariant
                i <= n,
                n == self.entries@.len(),
                es.len() == n,
                self == old(self),
                es == self.entry_seq(),
                keys_unique(es),
                forall|j: int| 0 <= j < i ==> es[j].0 != key@,
            decreases n - i,
        {
            let hit = {
                let e = vstd::std_specs::vec::vec_index(&self.entries, i);
                e.0 == key
            };
            proof {
                assert(es[i as int].0 == self.entries@[i as int].0@);
            }
            if hit {
                proof {
                    lemma_entries_insert_update(es, key@, value.deep_view(), i as int);
                    lemma_map_of_update(es, key@, value.deep_view(), i as int);
                }
                let slot = vstd::std_specs::vec::vec_index_mut(&mut self.entries, i);
                *slot = (key, value);
                proof {
                    assert(self.entry_seq() =~= es.update(
                        i as int,
                        (key@, value.deep_view()),
                    ));
                }
                return ;
            }
            i += 1;
        }
        proof {
            lemma_entries_insert_append(es, key@, value.deep_view());
        }
        self.entries.push((key, value));
        proof {
            assert(self.entry_seq() =~= es.push((key@, value.deep_view())));
            assert(self.entry_seq().drop_last() =~= es);
            assert(self.entry_seq().last() == (key@, value.deep_view()));
            assert(map_of(self.entry_seq()) == map_of(es).insert(key@, value.deep_view()));
            assert(keys_unique(self.entry_seq())) by {
                let es2 = self.entry_seq();
                assert forall|a: int, b: int| 0 <= a < b < es2.len() implies es2[a].0
                    != es2[b].0 by {
                    if b < es2.len() - 1 {
                        assert(es2[a] == es[a] && es2[b] == es[b]);
                    } else {
                        assert(es2[a] == es[a] && es2[b].0 == key@);
                    }
                }
            }
        }
    }

    /// The value bound to `key`, if any.
    pub fn get(&self, key: &str) -> (r: Option<&V>)
        requires
            self.wf(),
        ensures
            match r {
                Some(v) => self@.dom().contains(key@) && v.deep_view() == self@[key@],
                None => !self@.dom().contains(key@),
            },
    {
        let ghost es = self.entry_seq();
        let n = self.entries.len();
        let mut i: usize = 0;
        while i < n
            invariant
                i <= n,
                n == self.entries@.len(),
                forall|j: int| 0 <= j < i ==> es[j].0 != key@,
                es == self.entry_seq(),
                self.wf(),
            decreases n - i,
        {
            let e = vstd::std_specs::vec::vec_index(&self.entries, i);
            if crate::text::str_eq(e.0.as_str(), key) {
                proof {
                    assert forall|j: int| i < j < es.len() implies es[j].0 != key@ by {
                        assert(es[i as int].0 == key@);
                    }
                    lemma_map_of_value(es, key@, i as int);
                }
                return Some(&e.1);
            }
            i += 1;
        }
        proof {
            lemma_map_of_membership(es, key@);
        }
        None
    }

    /// Whether `key` is bound.
    pub fn contains_key(&self, key: &str) -> (r: bool)
        requires
            self.wf(),
        ensures
            r == self@.dom().contains(key@),
    {
        self.get(key).is_some()
    }
}

} // verus!
