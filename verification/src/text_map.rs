//! A map from text to values, kept in the order of its keys.

use vstd::prelude::*;
use crate::text;

verus! {

/// A finite map keyed by text. Keys are held once each and in lexicographic
/// order.
#[derive(Debug, PartialEq, Eq)]
pub struct TextMap<V> {
    entries: Vec<(String, V)>,
}

/// Whether `s` is in strictly ascending lexicographic order.
pub open spec fn ascending(s: Seq<Seq<char>>) -> bool {
    forall|i: int, j: int| 0 <= i < j < s.len() ==> text::lex_lt(#[trigger] s[i], #[trigger] s[j])
}

/// The ascending sequence of the keys of a finite map.
pub open spec fn sorted_keys<V>(m: Map<Seq<char>, V>) -> Seq<Seq<char>> {
    choose|s: Seq<Seq<char>>| #[trigger] ascending(s) && s.to_set() == m.dom()
}

/// Two ascending sequences with the same members are the same sequence.
pub proof fn lemma_ascending_unique(a: Seq<Seq<char>>, b: Seq<Seq<char>>)
    requires
        ascending(a),
        ascending(b),
        a.to_set() == b.to_set(),
    ensures
        a == b,
    decreases a.len(),
{
    if a.len() == 0 {
        if b.len() > 0 {
            assert(b.to_set().contains(b[0]));
            assert(a.contains(b[0]));
        }
        assert(a =~= b);
    } else if b.len() == 0 {
        assert(a.to_set().contains(a[0]));
        assert(b.contains(a[0]));
    } else {
        assert(a[0] == b[0]) by {
            assert(a.to_set().contains(a[0]) && b.to_set().contains(b[0]));
            assert(b.contains(a[0]) && a.contains(b[0]));
            let i = choose|i: int| 0 <= i < b.len() && b[i] == a[0];
            let j = choose|j: int| 0 <= j < a.len() && a[j] == b[0];
            if a[0] != b[0] {
                assert(text::lex_lt(b[0], b[i]));
                assert(text::lex_lt(a[0], a[j]));
                text::lemma_lex_transitive(a[0], b[0], a[0]);
                text::lemma_lex_irreflexive(a[0]);
            }
        }
        let ta = a.drop_first();
        let tb = b.drop_first();
        assert forall|x: Seq<char>| ta.to_set().contains(x) <==> tb.to_set().contains(x) by {
            if ta.contains(x) {
                let i = choose|i: int| 0 <= i < ta.len() && ta[i] == x;
                assert(a[i + 1] == x);
                assert(text::lex_lt(a[0], a[i + 1]));
                text::lemma_lex_irreflexive(a[0]);
                assert(a.to_set().contains(x));
                assert(b.contains(x));
                let j = choose|j: int| 0 <= j < b.len() && b[j] == x;
                assert(tb[j - 1] == x);
            }
            if tb.contains(x) {
                let i = choose|i: int| 0 <= i < tb.len() && tb[i] == x;
                assert(b[i + 1] == x);
                assert(text::lex_lt(b[0], b[i + 1]));
                text::lemma_lex_irreflexive(b[0]);
                assert(b.to_set().contains(x));
                assert(a.contains(x));
                let j = choose|j: int| 0 <= j < a.len() && a[j] == x;
                assert(ta[j - 1] == x);
            }
        }
        assert(ta.to_set() =~= tb.to_set());
        lemma_ascending_unique(ta, tb);
        assert(a =~= seq![a[0]] + ta);
        assert(b =~= seq![b[0]] + tb);
    }
}

/// An ascending sequence with one more member.
proof fn lemma_ascending_with(t: Seq<Seq<char>>, x: Seq<char>) -> (r: Seq<Seq<char>>)
    requires
        ascending(t),
        !t.contains(x),
    ensures
        ascending(r),
        r.to_set() == t.to_set().insert(x),
    decreases t.len(),
{
    if t.len() == 0 {
        let r = seq![x];
        assert(r[0] == x);
        assert(r.to_set() =~= t.to_set().insert(x));
        r
    } else if text::lex_lt(x, t[0]) {
        let r = seq![x] + t;
        assert forall|i: int, j: int| 0 <= i < j < r.len() implies text::lex_lt(#[trigger] r[i], #[trigger] r[j]) by {
            if i == 0 && j > 1 {
                assert(text::lex_lt(t[0], t[j - 1]));
                text::lemma_lex_transitive(x, t[0], t[j - 1]);
            } else if i > 0 {
                assert(r[i] == t[i - 1] && r[j] == t[j - 1]);
            }
        }
        assert forall|y: Seq<char>| r.to_set().contains(y) <==> t.to_set().insert(x).contains(y) by {
            if t.contains(y) {
                let k = choose|k: int| 0 <= k < t.len() && t[k] == y;
                assert(r[k + 1] == y);
            }
            assert(r[0] == x);
            if r.contains(y) && y != x {
                let k = choose|k: int| 0 <= k < r.len() && r[k] == y;
                assert(t[k - 1] == y);
            }
        }
        assert(r.to_set() =~= t.to_set().insert(x));
        r
    } else {
        assert(t[0] != x);
        text::lemma_lex_total(x, t[0]);
        let rest = t.drop_first();
        assert forall|i: int, j: int| 0 <= i < j < rest.len() implies text::lex_lt(#[trigger] rest[i], #[trigger] rest[j]) by {
            assert(rest[i] == t[i + 1] && rest[j] == t[j + 1]);
        }
        let u = lemma_ascending_with(rest, x);
        let r = seq![t[0]] + u;
        assert forall|y: Seq<char>| u.contains(y) implies text::lex_lt(t[0], y) by {
            assert(u.to_set().contains(y));
            if y != x {
                assert(rest.to_set().contains(y));
                let k = choose|k: int| 0 <= k < rest.len() && rest[k] == y;
                assert(t[k + 1] == y);
            }
        }
        assert forall|i: int, j: int| 0 <= i < j < r.len() implies text::lex_lt(#[trigger] r[i], #[trigger] r[j]) by {
            assert(r[j] == u[j - 1]);
            assert(u.contains(u[j - 1]));
            if i > 0 {
                assert(r[i] == u[i - 1]);
            }
        }
        assert forall|y: Seq<char>| r.to_set().contains(y) <==> t.to_set().insert(x).contains(y) by {
            if r.contains(y) {
                let k = choose|k: int| 0 <= k < r.len() && r[k] == y;
                if k > 0 {
                    assert(u[k - 1] == y);
                    assert(u.to_set().contains(y));
                    if y != x {
                        assert(rest.to_set().contains(y));
                        let a = choose|a: int| 0 <= a < rest.len() && rest[a] == y;
                        assert(t[a + 1] == y);
                    }
                }
            }
            if t.contains(y) || y == x {
                if y == t[0] {
                    assert(r[0] == y);
                } else {
                    if y != x {
                        let a = choose|a: int| 0 <= a < t.len() && t[a] == y;
                        assert(rest[a - 1] == y);
                        assert(rest.to_set().contains(y));
                    }
                    assert(u.to_set().contains(y));
                    let k = choose|k: int| 0 <= k < u.len() && u[k] == y;
                    assert(r[k + 1] == y);
                }
            }
        }
        assert(r.to_set() =~= t.to_set().insert(x));
        r
    }
}

proof fn lemma_ascending_exists(d: Set<Seq<char>>) -> (r: Seq<Seq<char>>)
    requires
        d.finite(),
    ensures
        ascending(r),
        r.to_set() == d,
    decreases d.len(),
{
    if d.len() == 0 {
        let r = Seq::<Seq<char>>::empty();
        assert(r.to_set() =~= d);
        r
    } else {
        let x = d.choose();
        let t = lemma_ascending_exists(d.remove(x));
        assert(!t.to_set().contains(x));
        let r = lemma_ascending_with(t, x);
        assert(d.remove(x).insert(x) =~= d);
        r
    }
}

/// A finite map has its sorted keys.
pub proof fn lemma_sorted_keys<V>(m: Map<Seq<char>, V>)
    requires
        m.dom().finite(),
    ensures
        ascending(sorted_keys(m)),
        sorted_keys(m).to_set() == m.dom(),
{
    let r = lemma_ascending_exists(m.dom());
    assert(ascending(r) && r.to_set() == m.dom());
}

impl<V> TextMap<V> {
    spec fn key_seq(self) -> Seq<Seq<char>> {
        Seq::new(self.entries@.len(), |i: int| self.entries@[i].0@)
    }

    spec fn index_of(self, k: Seq<char>) -> int {
        choose|i: int| 0 <= i < self.entries@.len() && #[trigger] self.entries@[i].0@ == k
    }

    #[verifier::type_invariant]
    spec fn sorted(self) -> bool {
        ascending(self.key_seq())
    }

    /// The map that is held.
    pub closed spec fn view(&self) -> Map<Seq<char>, V> {
        Map::new(
            |k: Seq<char>| self.key_seq().contains(k),
            |k: Seq<char>| self.entries@[self.index_of(k)].1,
        )
    }

    /// The keys, in order.
    pub closed spec fn keys(&self) -> Seq<Seq<char>> {
        self.key_seq()
    }

    proof fn lemma_entry(self, i: int)
        requires
            self.sorted(),
            0 <= i < self.entries@.len(),
        ensures
            self@.dom().contains(self.entries@[i].0@),
            self@[self.entries@[i].0@] == self.entries@[i].1,
            self.index_of(self.entries@[i].0@) == i,
    {
        let k = self.entries@[i].0@;
        assert(self.key_seq()[i] == k);
        let j = self.index_of(k);
        assert(self.key_seq()[j] == k);
        if j != i {
            text::lemma_lex_irreflexive(k);
        }
    }

    proof fn lemma_keys(self)
        requires
            self.sorted(),
        ensures
            self.keys() == sorted_keys(self@),
            ascending(self.keys()),
            self.keys().to_set() == self@.dom(),
            self@.dom().finite(),
    {
        assert(self.keys().to_set() =~= self@.dom());
        lemma_ascending_unique(self.keys(), sorted_keys(self@));
        vstd::seq_lib::seq_to_set_is_finite(self.keys());
    }

    /// A value that a map holds is a smaller term than the map.
    pub proof fn lemma_value_decreases(self, k: Seq<char>)
        requires
            self@.dom().contains(k),
        ensures
            decreases_to!(self => self@[k]),
    {
        let i = self.index_of(k);
        assert(exists|i: int| 0 <= i < self.entries@.len() && self.entries@[i].0@ == k) by {
            assert(self.key_seq().contains(k));
            let j = choose|j: int| 0 <= j < self.key_seq().len() && self.key_seq()[j] == k;
            assert(self.entries@[j].0@ == k);
        }
        assert(decreases_to!(self => self.entries));
        assert(decreases_to!(self.entries => self.entries@));
        assert(decreases_to!(self.entries@ => self.entries@[i]));
        assert(decreases_to!(self.entries@[i] => self.entries@[i].1));
    }

    /// The empty map.
    pub fn new() -> (r: Self)
        ensures
            r@ == Map::<Seq<char>, V>::empty(),
    {
        let r = TextMap { entries: Vec::new() };
        assert(r@ =~= Map::<Seq<char>, V>::empty());
        r
    }

    /// How many keys there are.
    pub fn len(&self) -> (r: usize)
        ensures
            r == self.keys().len(),
            r == self@.len(),
            self.keys() == sorted_keys(self@),
            ascending(self.keys()),
            self.keys().to_set() == self@.dom(),
            self@.dom().finite(),
    {
        proof {
            use_type_invariant(self);
            self.lemma_keys();
            assert(self.keys().no_duplicates()) by {
                assert forall|i: int, j: int| 0 <= i < j < self.keys().len() implies self.keys()[i]
                    != self.keys()[j] by {
                    text::lemma_lex_irreflexive(self.keys()[i]);
                }
            }
            self.keys().unique_seq_to_set();
        }
        self.entries.len()
    }

    /// Whether there are no keys.
    pub fn is_empty(&self) -> (r: bool)
        ensures
            r == (self@ == Map::<Seq<char>, V>::empty()),
    {
        let r = self.entries.len() == 0;
        proof {
            use_type_invariant(self);
            if r {
                assert(self@ =~= Map::<Seq<char>, V>::empty());
            } else {
                self.lemma_entry(0);
            }
        }
        r
    }

    /// The key at position `i` of the order, with its value.
    pub fn at(&self, i: usize) -> (r: (&String, &V))
        requires
            i < self.keys().len(),
        ensures
            r.0@ == self.keys()[i as int],
            self@.dom().contains(r.0@),
            *r.1 == self@[r.0@],
    {
        proof {
            use_type_invariant(self);
            self.lemma_entry(i as int);
        }
        (&self.entries[i].0, &self.entries[i].1)
    }

    /// The value held under `key`.
    pub fn get(&self, key: &str) -> (r: Option<&V>)
        ensures
            match r {
                Some(v) => self@.dom().contains(key@) && *v == self@[key@],
                None => !self@.dom().contains(key@),
            },
    {
        proof {
            use_type_invariant(self);
        }
        let mut i: usize = 0;
        while i < self.entries.len()
            invariant
                self.sorted(),
                i <= self.entries@.len(),
                forall|j: int| 0 <= j < i ==> self.entries@[j].0@ != key@,
            decreases self.entries@.len() - i,
        {
            if text::same(self.entries[i].0.as_str(), key) {
                proof {
                    self.lemma_entry(i as int);
                }
                return Some(&self.entries[i].1);
            }
            i += 1;
        }
        None
    }

    /// Whether `key` has a value.
    pub fn contains_key(&self, key: &str) -> (r: bool)
        ensures
            r == self@.dom().contains(key@),
    {
        self.get(key).is_some()
    }

    /// Put `value` under `key`, in place of what was there.
    pub fn insert(&mut self, key: String, value: V)
        ensures
            final(self)@ == old(self)@.insert(key@, value),
    {
        let ghost before = *self;
        proof {
            use_type_invariant(&*self);
        }
        let mut entries: Vec<(String, V)> = Vec::new();
        std::mem::swap(&mut entries, &mut self.entries);
        let mut i: usize = 0;
        while i < entries.len() && text::before(entries[i].0.as_str(), key.as_str())
            invariant
                entries@ == before.entries@,
                i <= entries@.len(),
                forall|j: int| 0 <= j < i ==> text::lex_lt(before.key_seq()[j], key@),
            decreases entries@.len() - i,
        {
            assert(before.key_seq()[i as int] == entries@[i as int].0@);
            i += 1;
        }
        if i < entries.len() && text::same(entries[i].0.as_str(), key.as_str()) {
            assert(before.key_seq()[i as int] == key@);
            entries.set(i, (key, value));
            assert(TextMap { entries: entries }.key_seq() =~= before.key_seq());
            self.entries = entries;
            proof {
                self.lemma_replaced(before, i as int);
            }
        } else {
            proof {
                if i < entries@.len() {
                    assert(before.key_seq()[i as int] == entries@[i as int].0@);
                    text::lemma_lex_total(key@, before.key_seq()[i as int]);
                }
            }
            entries.insert(i, (key, value));
            proof {
                lemma_inserted(before, TextMap { entries: entries }, i as int);
            }
            self.entries = entries;
        }
    }

    /// Take `key` out, with its value.
    pub fn remove(&mut self, key: &str)
        ensures
            final(self)@ == old(self)@.remove(key@),
    {
        let ghost before = *self;
        proof {
            use_type_invariant(&*self);
        }
        let mut entries: Vec<(String, V)> = Vec::new();
        std::mem::swap(&mut entries, &mut self.entries);
        let mut i: usize = 0;
        while i < entries.len() && !text::same(entries[i].0.as_str(), key)
            invariant
                entries@ == before.entries@,
                i <= entries@.len(),
                forall|j: int| 0 <= j < i ==> (#[trigger] before.entries@[j]).0@ != key@,
            decreases entries@.len() - i,
        {
            i += 1;
        }
        if i < entries.len() {
            entries.remove(i);
            proof {
                lemma_removed(before, TextMap { entries: entries }, i as int);
            }
        } else {
            proof {
                assert forall|k: Seq<char>| before@.dom().contains(k) implies k != key@ by {
                    let j = choose|j: int| 0 <= j < before.key_seq().len() && before.key_seq()[j] == k;
                    assert(before.entries@[j].0@ == k);
                }
                assert(before@ =~= before@.remove(key@));
            }
        }
        self.entries = entries;
    }

    proof fn lemma_replaced(self, before: Self, i: int)
        requires
            before.sorted(),
            0 <= i < before.entries@.len(),
            self.entries@ == before.entries@.update(i, self.entries@[i]),
            self.entries@[i].0@ == before.entries@[i].0@,
            self.key_seq() == before.key_seq(),
        ensures
            self@ == before@.insert(self.entries@[i].0@, self.entries@[i].1),
    {
        let m = before@.insert(self.entries@[i].0@, self.entries@[i].1);
        assert(before.key_seq()[i] == self.entries@[i].0@);
        assert forall|k: Seq<char>| self@.dom().contains(k) implies self@[k] == m[k] by {
            let j = choose|j: int| 0 <= j < self.key_seq().len() && self.key_seq()[j] == k;
            self.lemma_entry(j);
            before.lemma_entry(j);
            before.lemma_entry(i);
        }
        assert(self@ =~= m);
    }
}

impl<V: Clone> Clone for TextMap<V> {
    fn clone(&self) -> (r: Self)
        ensures
            r.keys() == self.keys(),
            r@.dom() == self@.dom(),
            forall|k: Seq<char>| #[trigger]
                self@.dom().contains(k) ==> cloned::<V>(self@[k], r@[k]),
    {
        proof {
            use_type_invariant(self);
        }
        let mut entries: Vec<(String, V)> = Vec::new();
        let mut i: usize = 0;
        while i < self.entries.len()
            invariant
                i <= self.entries@.len(),
                entries@.len() == i,
                forall|j: int| #![trigger entries@[j]]
                    0 <= j < i ==> entries@[j].0@ == self.entries@[j].0@ && cloned::<V>(
                        self.entries@[j].1,
                        entries@[j].1,
                    ),
            decreases self.entries@.len() - i,
        {
            entries.push((self.entries[i].0.clone(), self.entries[i].1.clone()));
            i += 1;
        }
        assert(TextMap { entries: entries }.key_seq() =~= self.key_seq());
        let r = TextMap { entries };
        proof {
            assert(r@.dom() =~= self@.dom());
            assert forall|k: Seq<char>| #[trigger] self@.dom().contains(k) implies cloned::<V>(
                self@[k],
                r@[k],
            ) by {
                let j = choose|j: int| 0 <= j < self.key_seq().len() && self.key_seq()[j] == k;
                self.lemma_entry(j);
                r.lemma_entry(j);
                assert(r.key_seq()[j] == k);
            }
        }
        r
    }
}

proof fn lemma_inserted<V>(before: TextMap<V>, after: TextMap<V>, i: int)
    requires
        before.sorted(),
        0 <= i <= before.entries@.len(),
        after.entries@ == before.entries@.insert(i, after.entries@[i]),
        forall|j: int| 0 <= j < i ==> text::lex_lt(before.key_seq()[j], after.entries@[i].0@),
        i < before.entries@.len() ==> text::lex_lt(after.entries@[i].0@, before.key_seq()[i]),
    ensures
        after.sorted(),
        after@ == before@.insert(after.entries@[i].0@, after.entries@[i].1),
{
    let key = after.entries@[i].0@;
    assert(after.key_seq() =~= before.key_seq().insert(i, key));
    assert forall|a: int, b: int| 0 <= a < b < after.key_seq().len() implies text::lex_lt(
        #[trigger] after.key_seq()[a],
        #[trigger] after.key_seq()[b],
    ) by {
        if a == i && b > i + 1 {
            assert(text::lex_lt(before.key_seq()[i], before.key_seq()[b - 1]));
            text::lemma_lex_transitive(key, before.key_seq()[i], before.key_seq()[b - 1]);
        }
    }
    assert forall|k: Seq<char>| after.key_seq().contains(k) <==> (k == key || before.key_seq().contains(k)) by {
        if after.key_seq().contains(k) && k != key {
            let j = choose|j: int| 0 <= j < after.key_seq().len() && after.key_seq()[j] == k;
            if j < i {
                assert(before.key_seq()[j] == k);
            } else {
                assert(before.key_seq()[j - 1] == k);
            }
        }
        if before.key_seq().contains(k) {
            let j = choose|j: int| 0 <= j < before.key_seq().len() && before.key_seq()[j] == k;
            if j < i {
                assert(after.key_seq()[j] == k);
            } else {
                assert(after.key_seq()[j + 1] == k);
            }
        }
        assert(after.key_seq()[i] == key);
    }
    let m = before@.insert(key, after.entries@[i].1);
    assert forall|k: Seq<char>| after@.dom().contains(k) implies after@[k] == m[k] by {
        let j = choose|j: int| 0 <= j < after.key_seq().len() && after.key_seq()[j] == k;
        after.lemma_entry(j);
        after.lemma_entry(i);
        if j < i {
            before.lemma_entry(j);
        } else if j > i {
            before.lemma_entry(j - 1);
        }
    }
    assert(after@ =~= m);
}

proof fn lemma_removed<V>(before: TextMap<V>, after: TextMap<V>, i: int)
    requires
        before.sorted(),
        0 <= i < before.entries@.len(),
        after.entries@ == before.entries@.remove(i),
    ensures
        after.sorted(),
        after@ == before@.remove(before.entries@[i].0@),
{
    let key = before.entries@[i].0@;
    let f = |a: int| if a < i {
        a
    } else {
        a + 1
    };
    assert forall|a: int| 0 <= a < after.entries@.len() implies #[trigger] after.entries@[a] == before.entries@[f(a)] by {}
    assert forall|a: int, b: int| 0 <= a < b < after.key_seq().len() implies text::lex_lt(
        #[trigger] after.key_seq()[a],
        #[trigger] after.key_seq()[b],
    ) by {
        assert(after.key_seq()[a] == before.key_seq()[f(a)]);
        assert(after.key_seq()[b] == before.key_seq()[f(b)]);
    }
    let m = before@.remove(key);
    assert forall|k: Seq<char>| after@.dom().contains(k) <==> m.dom().contains(k) by {
        if after@.dom().contains(k) {
            let a = choose|a: int| 0 <= a < after.key_seq().len() && after.key_seq()[a] == k;
            assert(before.key_seq()[f(a)] == k);
            before.lemma_entry(f(a));
            before.lemma_entry(i);
            if k == key {
                assert(before.index_of(k) == f(a) && before.index_of(k) == i);
            }
        }
        if m.dom().contains(k) {
            let b = choose|b: int| 0 <= b < before.key_seq().len() && before.key_seq()[b] == k;
            assert(b != i);
            let a = if b < i {
                b
            } else {
                b - 1
            };
            assert(after.entries@[a] == before.entries@[b]);
            assert(after.key_seq()[a] == k);
        }
    }
    assert forall|k: Seq<char>| after@.dom().contains(k) implies after@[k] == m[k] by {
        let a = choose|a: int| 0 <= a < after.key_seq().len() && after.key_seq()[a] == k;
        after.lemma_entry(a);
        before.lemma_entry(f(a));
        assert(after.entries@[a] == before.entries@[f(a)]);
        assert(after.entries@[a].0@ == k);
        assert(m.dom().contains(k));
        assert(k != key);
    }
    assert(after@ =~= m);
}

} // verus!
