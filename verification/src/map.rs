use vstd::prelude::*;

use crate::text::{chars_of, seq_eq, seq_less, seq_lt};

verus! {

/// A map from strings to values that keeps its entries in key order, each key once.
#[derive(Debug)]
pub struct StrMap<V> {
    entries: Vec<(String, V)>,
}

/// The first index at or after `i` whose key is `key`.
pub open spec fn key_index_from<V>(items: Seq<(String, V)>, key: Seq<char>, i: int) -> Option<int>
    decreases items.len() - i,
{
    if i < 0 || i >= items.len() {
        None
    } else if items[i].0@ == key {
        Some(i)
    } else {
        key_index_from(items, key, i + 1)
    }
}

/// Keys strictly increasing: each key occurs once, in order.
pub open spec fn keys_sorted<V>(items: Seq<(String, V)>) -> bool {
    forall|i: int, j: int|
        0 <= i < j < items.len() ==> seq_lt(#[trigger] items[i].0@, #[trigger] items[j].0@)
}

impl<V> StrMap<V> {
    /// The entries, in order.
    pub closed spec fn items(&self) -> Seq<(String, V)> {
        self.entries@
    }

    /// The keys, in order.
    pub open spec fn keys(&self) -> Seq<Seq<char>> {
        self.items().map_values(|e: (String, V)| e.0@)
    }

    /// The value stored under `key`.
    pub open spec fn get_spec(&self, key: Seq<char>) -> Option<V> {
        match key_index_from(self.items(), key, 0) {
            Some(i) => Some(self.items()[i].1),
            None => None,
        }
    }

    pub open spec fn has(&self, key: Seq<char>) -> bool {
        key_index_from(self.items(), key, 0) is Some
    }

    /// Keys strictly increasing.
    pub open spec fn wf(&self) -> bool {
        keys_sorted(self.items())
    }

    /// An empty map.
    pub fn new() -> (m: Self)
        ensures
            m.items().len() == 0,
            m.wf(),
    {
        StrMap { entries: Vec::new() }
    }

    pub fn len(&self) -> (n: usize)
        ensures
            n == self.items().len(),
    {
        self.entries.len()
    }

    pub fn is_empty(&self) -> (b: bool)
        ensures
            b == (self.items().len() == 0),
    {
        self.entries.len() == 0
    }

    /// The entries, in key order.
    pub fn entries(&self) -> (r: &Vec<(String, V)>)
        ensures
            r@ == self.items(),
    {
        &self.entries
    }

    /// Gives up the map for its entries, in key order.
    pub fn into_entries(self) -> (r: Vec<(String, V)>)
        ensures
            r@ == self.items(),
    {
        self.entries
    }

    /// The value stored under `key`.
    pub fn get(&self, key: &str) -> (r: Option<&V>)
        ensures
            r is Some <==> self.has(key@),
            r is Some ==> *r->0 == self.get_spec(key@)->0,
    {
        let k = chars_of(key);
        let mut i: usize = 0;
        while i < self.entries.len()
            invariant
                i <= self.entries@.len(),
                k@ == key@,
                key_index_from(self.entries@, key@, 0) == key_index_from(
                    self.entries@,
                    key@,
                    i as int,
                ),
            decreases self.entries.len() - i,
        {
            let e = chars_of(self.entries[i].0.as_str());
            if seq_eq(&e, &k) {
                return Some(&self.entries[i].1);
            }
            i = i + 1;
        }
        None
    }

    /// Whether a value is stored under `key`.
    pub fn contains_key(&self, key: &str) -> (b: bool)
        ensures
            b == self.has(key@),
    {
        self.get(key).is_some()
    }

    /// Stores `value` under `key`, keeping the keys in order; gives back the value
    /// that was stored under `key` before, if any.
    pub fn insert(&mut self, key: String, value: V) -> (prev: Option<V>)
        ensures
            final(self).get_spec(key@) == Some(value),
            forall|k: Seq<char>| k != key@ ==> final(self).get_spec(k) == old(self).get_spec(k),
            old(self).wf() ==> prev == old(self).get_spec(key@),
            old(self).wf() ==> final(self).wf(),
            old(self).wf() && old(self).has(key@) ==> final(self).items().len() == old(
                self,
            ).items().len(),
            old(self).wf() && !old(self).has(key@) ==> final(self).items().len() == old(
                self,
            ).items().len() + 1,
    {
        let k = chars_of(key.as_str());
        let mut i: usize = 0;
        while i < self.entries.len()
            invariant
                i <= self.entries@.len(),
                k@ == key@,
                forall|j: int| 0 <= j < i ==> seq_lt(#[trigger] self.entries@[j].0@, key@),
                key_index_from(self.entries@, key@, 0) == key_index_from(
                    self.entries@,
                    key@,
                    i as int,
                ),
            ensures
                i <= self.entries@.len(),
                i < self.entries@.len() ==> !seq_lt(self.entries@[i as int].0@, key@),
                forall|j: int| 0 <= j < i ==> seq_lt(#[trigger] self.entries@[j].0@, key@),
                key_index_from(self.entries@, key@, 0) == key_index_from(
                    self.entries@,
                    key@,
                    i as int,
                ),
            decreases self.entries.len() - i,
        {
            let e = chars_of(self.entries[i].0.as_str());
            if !seq_less(&e, &k) {
                break;
            }
            proof {
                lemma_seq_lt_irreflexive(key@);
            }
            i = i + 1;
        }
        let ghost before = self.entries@;
        let found = if i < self.entries.len() {
            let e = chars_of(self.entries[i].0.as_str());
            seq_eq(&e, &k)
        } else {
            false
        };
        if found {
            let (old_key, old_value) = self.entries.remove(i);
            self.entries.insert(i, (old_key, value));
            proof {
                assert(key_index_from(before, key@, i as int) == Some(i as int));
                lemma_key_index_same_keys(before, self.entries@, key@, 0, i as int);
                assert forall|q: Seq<char>| q != key@ implies self.get_spec(q)
                    == old(self).get_spec(q) by {
                    lemma_key_index_same_keys(before, self.entries@, q, 0, i as int);
                    lemma_key_index_found(before, q, 0);
                    match key_index_from(before, q, 0) {
                        Some(x) => {
                            assert(x != i);
                            assert(self.entries@[x] == before[x]);
                        },
                        None => {},
                    }
                }
            }
            Some(old_value)
        } else {
            self.entries.insert(i, (key, value));
            proof {
                if keys_sorted(before) {
                    if i < before.len() {
                        lemma_seq_lt_total(before[i as int].0@, key@);
                    }
                    lemma_sorted_absent(before, key@, i as int, 0);
                }
                lemma_insert_index(before, self.entries@, key@, i as int);
                assert forall|q: Seq<char>| q != key@ implies self.get_spec(q)
                    == old(self).get_spec(q) by {
                    lemma_insert_index_other(before, self.entries@, key@, q, i as int);
                }
                if keys_sorted(before) {
                    assert forall|a: int, b: int|
                        0 <= a < b < self.entries@.len() implies seq_lt(
                        #[trigger] self.entries@[a].0@,
                        #[trigger] self.entries@[b].0@,
                    ) by {
                        if b == i {
                            assert(seq_lt(before[a].0@, key@));
                        } else if a == i {
                            assert(!seq_lt(before[i as int].0@, key@));
                            assert(before[i as int].0@ != key@);
                            lemma_seq_lt_total(before[i as int].0@, key@);
                            if b - 1 > i {
                                lemma_seq_lt_transitive(
                                    key@,
                                    before[i as int].0@,
                                    before[b - 1].0@,
                                );
                            }
                        } else if a < i && b > i {
                            assert(seq_lt(before[a].0@, before[b - 1].0@));
                        } else if a > i {
                            assert(seq_lt(before[a - 1].0@, before[b - 1].0@));
                        }
                    }
                }
            }
            None
        }
    }
}

impl<V: Clone> Clone for StrMap<V> {
    fn clone(&self) -> (r: Self)
        ensures
            r.keys() == self.keys(),
            r.items().len() == self.items().len(),
            self.wf() ==> r.wf(),
    {
        let mut entries: Vec<(String, V)> = Vec::new();
        let mut i: usize = 0;
        while i < self.entries.len()
            invariant
                i <= self.entries@.len(),
                entries@.len() == i,
                forall|j: int| 0 <= j < i ==> (#[trigger] entries@[j]).0@ == self.entries@[j].0@,
            decreases self.entries.len() - i,
        {
            let k = self.entries[i].0.clone();
            let v = self.entries[i].1.clone();
            entries.push((k, v));
            i = i + 1;
        }
        let r = StrMap { entries };
        assert(r.keys() =~= self.keys());
        r
    }
}

pub proof fn lemma_seq_lt_irreflexive(a: Seq<char>)
    ensures
        !seq_lt(a, a),
    decreases a.len(),
{
    if a.len() > 0 {
        lemma_seq_lt_irreflexive(a.drop_first());
    }
}

pub proof fn lemma_seq_lt_total(a: Seq<char>, b: Seq<char>)
    ensures
        a != b ==> seq_lt(a, b) || seq_lt(b, a),
    decreases a.len(),
{
    if a.len() > 0 && b.len() > 0 && a[0] == b[0] {
        lemma_seq_lt_total(a.drop_first(), b.drop_first());
        if a.drop_first() == b.drop_first() {
            assert(a =~= seq![a[0]] + a.drop_first());
            assert(b =~= seq![b[0]] + b.drop_first());
        }
    } else if a.len() == 0 && b.len() == 0 {
        assert(a =~= b);
    } else if a.len() > 0 && b.len() > 0 {
        let x = a[0] as u32;
        let y = b[0] as u32;
        assert(a[0] != b[0]);
        vstd::utf8::char_u32_cast(a[0], x);
        vstd::utf8::char_u32_cast(b[0], y);
    }
}

pub proof fn lemma_seq_lt_transitive(a: Seq<char>, b: Seq<char>, c: Seq<char>)
    requires
        seq_lt(a, b),
        seq_lt(b, c),
    ensures
        seq_lt(a, c),
    decreases a.len(),
{
    if a.len() > 0 && b.len() > 0 && c.len() > 0 && a[0] == b[0] && b[0] == c[0] {
        lemma_seq_lt_transitive(a.drop_first(), b.drop_first(), c.drop_first());
    }
}

proof fn lemma_key_index_same_keys<V>(
    a: Seq<(String, V)>,
    b: Seq<(String, V)>,
    key: Seq<char>,
    from: int,
    changed: int,
)
    requires
        a.len() == b.len(),
        forall|j: int| 0 <= j < a.len() ==> (#[trigger] a[j]).0@ == b[j].0@,
        0 <= from,
    ensures
        key_index_from(a, key, from) == key_index_from(b, key, from),
    decreases a.len() - from,
{
    if from < a.len() {
        assert(a[from].0@ == b[from].0@);
        lemma_key_index_same_keys(a, b, key, from + 1, changed);
    }
}

proof fn lemma_key_index_found<V>(a: Seq<(String, V)>, key: Seq<char>, from: int)
    ensures
        key_index_from(a, key, from) matches Some(x) ==> from <= x < a.len() && a[x].0@ == key,
    decreases a.len() - from,
{
    if 0 <= from < a.len() && a[from].0@ != key {
        lemma_key_index_found(a, key, from + 1);
    }
}

proof fn lemma_sorted_absent<V>(a: Seq<(String, V)>, key: Seq<char>, i: int, from: int)
    requires
        0 <= i <= a.len(),
        0 <= from,
        keys_sorted(a),
        i < a.len() ==> seq_lt(key, a[i].0@),
        forall|j: int| 0 <= j < i ==> seq_lt(#[trigger] a[j].0@, key),
    ensures
        key_index_from(a, key, from) is None,
    decreases a.len() - from,
{
    if from < a.len() {
        lemma_seq_lt_irreflexive(key);
        if from < i {
            assert(seq_lt(a[from].0@, key));
        } else if from > i {
            assert(seq_lt(a[i].0@, a[from].0@));
            if a[from].0@ == key {
                lemma_seq_lt_transitive(key, a[i].0@, key);
            }
        }
        lemma_sorted_absent(a, key, i, from + 1);
    }
}

proof fn lemma_insert_index<V>(a: Seq<(String, V)>, b: Seq<(String, V)>, key: Seq<char>, i: int)
    requires
        0 <= i <= a.len(),
        b == a.insert(i, b[i]),
        b[i].0@ == key,
        forall|j: int| 0 <= j < i ==> seq_lt(#[trigger] a[j].0@, key),
    ensures
        key_index_from(b, key, 0) == Some(i),
{
    lemma_index_skip_lt(b, key, 0, i);
}

proof fn lemma_index_skip_lt<V>(b: Seq<(String, V)>, key: Seq<char>, from: int, i: int)
    requires
        0 <= from <= i < b.len(),
        b[i].0@ == key,
        forall|j: int| 0 <= j < i ==> seq_lt(#[trigger] b[j].0@, key),
    ensures
        key_index_from(b, key, from) == Some(i),
    decreases i - from,
{
    if from < i {
        lemma_seq_lt_irreflexive(key);
        assert(seq_lt(b[from].0@, key));
        lemma_index_skip_lt(b, key, from + 1, i);
    }
}

proof fn lemma_insert_index_other<V>(
    a: Seq<(String, V)>,
    b: Seq<(String, V)>,
    key: Seq<char>,
    q: Seq<char>,
    i: int,
)
    requires
        0 <= i <= a.len(),
        b == a.insert(i, b[i]),
        b[i].0@ == key,
        q != key,
    ensures
        match key_index_from(a, q, 0) {
            Some(x) => key_index_from(b, q, 0) matches Some(y) && b[y] == a[x],
            None => key_index_from(b, q, 0) is None,
        },
{
    lemma_insert_index_other_from(a, b, key, q, i, 0);
}

proof fn lemma_insert_index_other_from<V>(
    a: Seq<(String, V)>,
    b: Seq<(String, V)>,
    key: Seq<char>,
    q: Seq<char>,
    i: int,
    from: int,
)
    requires
        0 <= i <= a.len(),
        0 <= from <= a.len(),
        b == a.insert(i, b[i]),
        b[i].0@ == key,
        q != key,
    ensures
        match key_index_from(a, q, from) {
            Some(x) => key_index_from(b, q, if from <= i {
                from
            } else {
                from + 1
            }) matches Some(y) && b[y] == a[x],
            None => key_index_from(b, q, if from <= i {
                from
            } else {
                from + 1
            }) is None,
        },
    decreases a.len() - from,
{
    if from == a.len() {
        if from <= i {
            assert(from == i);
            assert(key_index_from(b, q, from + 1) is None);
        }
    } else if from < i {
        lemma_insert_index_other_from(a, b, key, q, i, from + 1);
    } else if from == i {
        lemma_insert_index_other_from(a, b, key, q, i, from + 1);
        assert(b[from].0@ == key);
    } else {
        lemma_insert_index_other_from(a, b, key, q, i, from + 1);
    }
}

/// A key is in the map exactly where some entry has it.
pub proof fn lemma_has_iff_entry<V>(m: StrMap<V>, key: Seq<char>)
    ensures
        m.has(key) <==> exists|i: int| 0 <= i < m.items().len() && (#[trigger] m.items()[i]).0@ == key,
{
    lemma_key_index_found(m.items(), key, 0);
    if exists|i: int| 0 <= i < m.items().len() && (#[trigger] m.items()[i]).0@ == key {
        let i = choose|i: int| 0 <= i < m.items().len() && (#[trigger] m.items()[i]).0@ == key;
        lemma_index_reaches(m.items(), key, 0, i);
    }
}

proof fn lemma_index_reaches<V>(a: Seq<(String, V)>, key: Seq<char>, from: int, i: int)
    requires
        0 <= from <= i < a.len(),
        a[i].0@ == key,
    ensures
        key_index_from(a, key, from) is Some,
    decreases i - from,
{
    if a[from].0@ != key {
        lemma_index_reaches(a, key, from + 1, i);
    }
}

} // verus!
