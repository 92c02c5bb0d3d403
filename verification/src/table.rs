//! A table keyed by host name (or any other name), kept in insertion order.
//!
//! The plugins keep per-host statistics keyed by host name. The table is a
//! vector of `(name, value)` pairs in which no name occurs twice; its view is
//! the map from each name's characters to its value.
use vstd::prelude::*;
use crate::text::{lex_lt, lemma_lex_total, lemma_lex_transitive, str_eq, str_lt};
pub use crate::text::views;

verus! {

/// The map that a list of distinct-keyed pairs stands for.
pub open spec fn map_of<T>(es: Seq<(String, T)>) -> Map<Seq<char>, T>
    decreases es.len(),
{
    if es.len() == 0 {
        Map::empty()
    } else {
        map_of(es.drop_last()).insert(es.last().0@, es.last().1)
    }
}

/// Pair lists with the same names and values give the same map.
proof fn lemma_map_of_same<T>(a: Seq<(String, T)>, b: Seq<(String, T)>)
    requires
        a.len() == b.len(),
        forall|j: int| 0 <= j < a.len() ==> (#[trigger] a[j]).0@ == b[j].0@ && a[j].1 == b[j].1,
    ensures
        map_of(a) == map_of(b),
        key_seq(a) == key_seq(b),
        keys_distinct(a) == keys_distinct(b),
    decreases a.len(),
{
    if a.len() > 0 {
        lemma_map_of_same(a.drop_last(), b.drop_last());
        assert(a.last().0@ == b.last().0@);
    }
    assert(key_seq(a) =~= key_seq(b));
    assert(keys_distinct(a) == keys_distinct(b)) by {
        if keys_distinct(a) {
            assert forall|i: int, j: int| 0 <= i < j < b.len() implies b[i].0@ != b[j].0@ by {
                assert(a[i].0@ == b[i].0@);
                assert(a[j].0@ == b[j].0@);
            }
        }
        if keys_distinct(b) {
            assert forall|i: int, j: int| 0 <= i < j < a.len() implies a[i].0@ != a[j].0@ by {
                assert(a[i].0@ == b[i].0@);
                assert(a[j].0@ == b[j].0@);
            }
        }
    }
}

/// No name occurs twice.
pub open spec fn keys_distinct<T>(es: Seq<(String, T)>) -> bool {
    forall|i: int, j: int| 0 <= i < j < es.len() ==> es[i].0@ != es[j].0@
}

/// The names of the pairs, in order.
pub open spec fn key_seq<T>(es: Seq<(String, T)>) -> Seq<Seq<char>> {
    Seq::new(es.len(), |i: int| es[i].0@)
}

/// Every pair is found in the map, and the map holds nothing else.
pub proof fn lemma_map_of<T>(es: Seq<(String, T)>)
    requires
        keys_distinct(es),
    ensures
        forall|i: int|
            0 <= i < es.len() ==> #[trigger] map_of(es).contains_key(es[i].0@) && map_of(es)[es[i].0@]
                == es[i].1,
        forall|k: Seq<char>|
            #[trigger] map_of(es).contains_key(k) ==> exists|i: int| 0 <= i < es.len() && es[i].0@ == k,
    decreases es.len(),
{
    if es.len() > 0 {
        let init = es.drop_last();
        assert(keys_distinct(init));
        lemma_map_of(init);
        assert(map_of(es) == map_of(init).insert(es.last().0@, es.last().1));
        assert forall|i: int| 0 <= i < es.len() implies #[trigger] map_of(es).contains_key(es[i].0@)
            && map_of(es)[es[i].0@] == es[i].1 by {
            if i < es.len() - 1 {
                assert(init[i] == es[i]);
                assert(es[i].0@ != es[es.len() - 1].0@);
                assert(map_of(init).contains_key(init[i].0@));
            }
        }
        assert forall|k: Seq<char>| #[trigger] map_of(es).contains_key(k) implies exists|i: int|
            0 <= i < es.len() && es[i].0@ == k by {
            if k == es.last().0@ {
                assert(es[es.len() - 1].0@ == k);
            } else {
                assert(map_of(init).contains_key(k));
                let i = choose|i: int| 0 <= i < init.len() && init[i].0@ == k;
                assert(es[i] == init[i]);
            }
        }
    }
}

/// Replacing the value of an existing name updates the map at that name.
pub proof fn lemma_map_of_update<T>(es: Seq<(String, T)>, i: int, key: String, v: T)
    requires
        keys_distinct(es),
        0 <= i < es.len(),
        es[i].0@ == key@,
    ensures
        map_of(es.update(i, (key, v))) == map_of(es).insert(key@, v),
        keys_distinct(es.update(i, (key, v))),
    decreases es.len(),
{
    let es2 = es.update(i, (key, v));
    assert(keys_distinct(es2)) by {
        assert forall|a: int, b: int| 0 <= a < b < es2.len() implies es2[a].0@ != es2[b].0@ by {
            assert(es2[a].0@ == es[a].0@);
            assert(es2[b].0@ == es[b].0@);
        }
    }
    if i == es.len() - 1 {
        assert(es2.drop_last() =~= es.drop_last());
        assert(map_of(es2) =~= map_of(es).insert(key@, v));
    } else {
        let init = es.drop_last();
        assert(keys_distinct(init));
        lemma_map_of_update(init, i, key, v);
        assert(es2.drop_last() =~= init.update(i, (key, v)));
        assert(es2.last() == es.last());
        assert(es.last().0@ != key@);
        assert(map_of(es2) =~= map_of(es).insert(key@, v));
    }
}

/// Adding a pair whose name is new keeps the names distinct.
pub proof fn lemma_push_distinct<T>(es: Seq<(String, T)>, key: String, v: T)
    requires
        keys_distinct(es),
        !map_of(es).contains_key(key@),
    ensures
        keys_distinct(es.push((key, v))),
        map_of(es.push((key, v))) == map_of(es).insert(key@, v),
{
    lemma_map_of(es);
    let es2 = es.push((key, v));
    assert(es2.drop_last() =~= es);
    assert forall|a: int, b: int| 0 <= a < b < es2.len() implies es2[a].0@ != es2[b].0@ by {
        if b == es.len() {
            assert(map_of(es).contains_key(es[a].0@));
        }
    }
}

/// Replacing the value at position `i`, whatever the new value, updates the
/// map at that name and keeps the names.
pub proof fn lemma_map_of_update_any<T>(es: Seq<(String, T)>, i: int)
    requires
        keys_distinct(es),
        0 <= i < es.len(),
    ensures
        forall|v: T|
            #![trigger es.update(i, (es[i].0, v))]
            map_of(es.update(i, (es[i].0, v))) == map_of(es).insert(es[i].0@, v)
                && keys_distinct(es.update(i, (es[i].0, v)))
                && key_seq(es.update(i, (es[i].0, v))) == key_seq(es),
{
    assert forall|v: T| #![trigger es.update(i, (es[i].0, v))]
        map_of(es.update(i, (es[i].0, v))) == map_of(es).insert(es[i].0@, v)
            && keys_distinct(es.update(i, (es[i].0, v)))
            && key_seq(es.update(i, (es[i].0, v))) == key_seq(es) by {
        lemma_map_of_update(es, i, es[i].0, v);
        assert(key_seq(es.update(i, (es[i].0, v))) =~= key_seq(es));
    }
}

/// Removing the pair at position `i` removes its name from the map and from
/// the name sequence.
pub proof fn lemma_remove_at<T>(es: Seq<(String, T)>, i: int)
    requires
        keys_distinct(es),
        0 <= i < es.len(),
    ensures
        keys_distinct(es.remove(i)),
        map_of(es.remove(i)) == map_of(es).remove(es[i].0@),
        key_seq(es.remove(i)) == drop_name(key_seq(es), es[i].0@),
{
    let r = es.remove(i);
    let k = es[i].0@;
    assert forall|a: int, b: int| 0 <= a < b < r.len() implies r[a].0@ != r[b].0@ by {
        let a2 = if a < i { a } else { a + 1 };
        let b2 = if b < i { b } else { b + 1 };
        assert(r[a] == es[a2]);
        assert(r[b] == es[b2]);
    }
    lemma_map_of(es);
    lemma_map_of(r);
    assert forall|x: Seq<char>| #[trigger] map_of(r).contains_key(x) == map_of(es).remove(k).contains_key(x)
        by {
        if map_of(r).contains_key(x) {
            let j = choose|j: int| 0 <= j < r.len() && r[j].0@ == x;
            let j2 = if j < i { j } else { j + 1 };
            assert(r[j] == es[j2]);
            assert(map_of(es).contains_key(es[j2].0@));
        }
        if map_of(es).remove(k).contains_key(x) {
            let j = choose|j: int| 0 <= j < es.len() && es[j].0@ == x;
            assert(j != i);
            let j2 = if j < i { j } else { j - 1 };
            assert(r[j2] == es[j]);
            assert(map_of(r).contains_key(r[j2].0@));
        }
    }
    assert forall|x: Seq<char>| #[trigger] map_of(r).contains_key(x) implies map_of(r)[x] == map_of(es).remove(k)[x]
        by {
        let j = choose|j: int| 0 <= j < r.len() && r[j].0@ == x;
        let j2 = if j < i { j } else { j + 1 };
        assert(r[j] == es[j2]);
    }
    assert(map_of(r) =~= map_of(es).remove(k));
    lemma_key_seq_remove(es, i);
}

/// The names left after removing position `i` are the others, in order.
proof fn lemma_key_seq_remove<T>(es: Seq<(String, T)>, i: int)
    requires
        keys_distinct(es),
        0 <= i < es.len(),
    ensures
        key_seq(es.remove(i)) == drop_name(key_seq(es), es[i].0@),
    decreases es.len(),
{
    let k = es[i].0@;
    let ks = key_seq(es);
    assert(ks.drop_last() =~= key_seq(es.drop_last()));
    if i == es.len() - 1 {
        assert(es.remove(i) =~= es.drop_last());
        assert forall|j: int| 0 <= j < ks.drop_last().len() implies ks.drop_last()[j] != k by {
            assert(es[j].0@ != es[i].0@);
        }
        lemma_filter_absent(ks.drop_last(), k);
    } else {
        let init = es.drop_last();
        assert(keys_distinct(init));
        lemma_key_seq_remove(init, i);
        assert(init[i] == es[i]);
        assert(es.remove(i) =~= init.remove(i).push(es.last()));
        assert(key_seq(es.remove(i)) =~= key_seq(init.remove(i)).push(es.last().0@));
        assert(es[es.len() - 1].0@ != k);
    }
}

/// `ks` without the occurrences of `k`, the others in order.
pub open spec fn drop_name(ks: Seq<Seq<char>>, k: Seq<char>) -> Seq<Seq<char>>
    decreases ks.len(),
{
    if ks.len() == 0 {
        ks
    } else if ks.last() == k {
        drop_name(ks.drop_last(), k)
    } else {
        drop_name(ks.drop_last(), k).push(ks.last())
    }
}

/// Filtering out a name that does not occur changes nothing.
pub proof fn lemma_filter_absent(ks: Seq<Seq<char>>, k: Seq<char>)
    requires
        forall|j: int| 0 <= j < ks.len() ==> ks[j] != k,
    ensures
        drop_name(ks, k) == ks,
    decreases ks.len(),
{
    if ks.len() > 0 {
        lemma_filter_absent(ks.drop_last(), k);
        assert(ks =~= ks.drop_last().push(ks.last()));
    }
}

/// `a` comes strictly before `b` for every pair of positions.
pub open spec fn strictly_sorted(s: Seq<Seq<char>>) -> bool {
    forall|i: int, j: int| 0 <= i < j < s.len() ==> lex_lt(s[i], s[j])
}

/// Two strictly sorted lists with the same names are the same list.
pub proof fn lemma_strictly_sorted_unique(s: Seq<Seq<char>>, t: Seq<Seq<char>>)
    requires
        strictly_sorted(s),
        strictly_sorted(t),
        forall|k: Seq<char>| s.contains(k) <==> t.contains(k),
    ensures
        s == t,
    decreases s.len(),
{
    if s.len() == 0 {
        if t.len() > 0 {
            assert(t.contains(t[0]));
        }
        assert(s =~= t);
    } else if t.len() == 0 {
        assert(s.contains(s[0]));
    } else {
        assert(s.contains(s[0]));
        assert(t.contains(t[0]));
        let j = choose|j: int| 0 <= j < t.len() && t[j] == s[0];
        let i = choose|i: int| 0 <= i < s.len() && s[i] == t[0];
        if j > 0 {
            assert(lex_lt(t[0], t[j]));
            if i > 0 {
                assert(lex_lt(s[0], s[i]));
                lemma_lex_transitive(t[0], s[0], t[0]);
                crate::text::lemma_lex_irreflexive(t[0]);
            } else {
                crate::text::lemma_lex_irreflexive(t[0]);
            }
        }
        assert(s[0] == t[0]);
        let s2 = s.drop_first();
        let t2 = t.drop_first();
        assert forall|k: Seq<char>| s2.contains(k) <==> t2.contains(k) by {
            if s2.contains(k) {
                let a = choose|a: int| 0 <= a < s2.len() && s2[a] == k;
                assert(s[a + 1] == k);
                assert(lex_lt(s[0], s[a + 1]));
                assert(s.contains(k));
                assert(t.contains(k));
                let b = choose|b: int| 0 <= b < t.len() && t[b] == k;
                if b == 0 {
                    crate::text::lemma_lex_irreflexive(k);
                }
                assert(t2[b - 1] == k);
            }
            if t2.contains(k) {
                let a = choose|a: int| 0 <= a < t2.len() && t2[a] == k;
                assert(t[a + 1] == k);
                assert(lex_lt(t[0], t[a + 1]));
                assert(t.contains(k));
                assert(s.contains(k));
                let b = choose|b: int| 0 <= b < s.len() && s[b] == k;
                if b == 0 {
                    crate::text::lemma_lex_irreflexive(k);
                }
                assert(s2[b - 1] == k);
            }
        }
        lemma_strictly_sorted_unique(s2, t2);
        assert(s =~= t) by {
            assert forall|x: int| 0 <= x < s.len() implies s[x] == t[x] by {
                if x > 0 {
                    assert(s2[x - 1] == t2[x - 1]);
                }
            }
        }
    }
}


// ---------------------------------------------------------------------------
// Counting names whose value satisfies a predicate
// ---------------------------------------------------------------------------

/// How many of the names `ns` have a value in `m` that satisfies `f`.
pub open spec fn count_in<T>(ns: Seq<Seq<char>>, m: Map<Seq<char>, T>, f: spec_fn(T) -> bool) -> nat
    decreases ns.len(),
{
    if ns.len() == 0 {
        0
    } else {
        count_in(ns.drop_last(), m, f) + if f(m[ns.last()]) { 1nat } else { 0nat }
    }
}

/// The names whose value satisfies `f`.
pub open spec fn keys_where<T>(m: Map<Seq<char>, T>, f: spec_fn(T) -> bool) -> Set<Seq<char>> {
    m.dom().filter(|k: Seq<char>| f(m[k]))
}

/// Counting along names only looks at the values of those names.
proof fn lemma_count_in_congruent<T>(ns: Seq<Seq<char>>, m1: Map<Seq<char>, T>, m2: Map<Seq<char>, T>, f: spec_fn(T) -> bool)
    requires
        forall|i: int| 0 <= i < ns.len() ==> m1[#[trigger] ns[i]] == m2[ns[i]],
    ensures
        count_in(ns, m1, f) == count_in(ns, m2, f),
    decreases ns.len(),
{
    if ns.len() > 0 {
        assert(m1[ns[ns.len() - 1]] == m2[ns[ns.len() - 1]]);
        lemma_count_in_congruent(ns.drop_last(), m1, m2, f);
    }
}

/// Counting along a list of all the names, each once, counts the names
/// whose value satisfies `f`.
pub proof fn lemma_count_in<T>(ns: Seq<Seq<char>>, m: Map<Seq<char>, T>, f: spec_fn(T) -> bool)
    requires
        forall|i: int, j: int| 0 <= i < j < ns.len() ==> ns[i] != ns[j],
        forall|k: Seq<char>| m.contains_key(k) <==> ns.contains(k),
    ensures
        count_in(ns, m, f) == keys_where(m, f).len(),
        keys_where(m, f).finite(),
    decreases ns.len(),
{
    if ns.len() == 0 {
        assert(keys_where(m, f) =~= Set::empty()) by {
            assert forall|k: Seq<char>| !keys_where(m, f).contains(k) by {
                if m.contains_key(k) {
                    assert(ns.contains(k));
                }
            }
        }
    } else {
        let last = ns.last();
        let init = ns.drop_last();
        let m2 = m.remove(last);
        assert(ns.contains(last)) by {
            assert(ns[ns.len() - 1] == last);
        }
        assert forall|k: Seq<char>| m2.contains_key(k) <==> init.contains(k) by {
            if m2.contains_key(k) {
                assert(ns.contains(k));
                let i = choose|i: int| 0 <= i < ns.len() && ns[i] == k;
                assert(i != ns.len() - 1);
                assert(init[i] == k);
            }
            if init.contains(k) {
                let i = choose|i: int| 0 <= i < init.len() && init[i] == k;
                assert(ns[i] == k);
                assert(ns[i] != ns[ns.len() - 1]);
                assert(ns.contains(k));
            }
        }
        lemma_count_in(init, m2, f);
        assert forall|i: int| 0 <= i < init.len() implies m[#[trigger] init[i]] == m2[init[i]] by {
            assert(ns[i] == init[i]);
            assert(ns[i] != ns[ns.len() - 1]);
        }
        lemma_count_in_congruent(init, m, m2, f);
        assert(keys_where(m2, f) =~= keys_where(m, f).remove(last));
        if f(m[last]) {
            assert(keys_where(m, f).contains(last));
            assert(keys_where(m, f) =~= keys_where(m2, f).insert(last));
        } else {
            assert(keys_where(m, f) =~= keys_where(m2, f));
        }
    }
}

/// A table from names to values, in insertion order.
#[derive(Debug)]
pub struct HostTable<T> {
    entries: Vec<(String, T)>,
}

impl<T> HostTable<T> {
    /// Names are distinct.
    pub closed spec fn wf(&self) -> bool {
        keys_distinct(self.entries@)
    }

    /// The map from names to values.
    pub closed spec fn view(&self) -> Map<Seq<char>, T> {
        map_of(self.entries@)
    }

    /// The names in insertion order.
    pub closed spec fn names(&self) -> Seq<Seq<char>> {
        key_seq(self.entries@)
    }

    /// Facts about the view that callers use.
    pub proof fn lemma_view(&self)
        requires
            self.wf(),
        ensures
            self.names().len() == self.view().dom().len(),
            self.view().dom().finite(),
            forall|k: Seq<char>| self.view().contains_key(k) <==> self.names().contains(k),
            forall|i: int, j: int|
                0 <= i < j < self.names().len() ==> self.names()[i] != self.names()[j],
    {
        lemma_map_of(self.entries@);
        let ks = self.names();
        assert forall|k: Seq<char>| self.view().contains_key(k) <==> ks.contains(k) by {
            if self.view().contains_key(k) {
                let i = choose|i: int| 0 <= i < self.entries@.len() && self.entries@[i].0@ == k;
                assert(ks[i] == k);
            }
            if ks.contains(k) {
                let i = choose|i: int| 0 <= i < ks.len() && ks[i] == k;
                assert(self.entries@[i].0@ == k);
            }
        }
        assert(ks.no_duplicates());
        ks.unique_seq_to_set();
        assert(ks.to_set() =~= self.view().dom());
    }

    /// Counting along the insertion order counts the names whose value
    /// satisfies `f`.
    pub proof fn lemma_count(&self, f: spec_fn(T) -> bool)
        requires
            self.wf(),
        ensures
            count_in(self.names(), self@, f) == keys_where(self@, f).len(),
            keys_where(self@, f).finite(),
    {
        self.lemma_view();
        lemma_count_in(self.names(), self@, f);
    }

    /// An empty table.
    pub fn new() -> (t: Self)
        ensures
            t.wf(),
            t@ == Map::<Seq<char>, T>::empty(),
            t.names() == Seq::<Seq<char>>::empty(),
    {
        let t = HostTable { entries: Vec::new() };
        proof {
            assert(t.names() =~= Seq::<Seq<char>>::empty());
        }
        t
    }

    /// The number of names.
    pub fn len(&self) -> (n: usize)
        requires
            self.wf(),
        ensures
            n == self@.dom().len(),
            n == self.names().len(),
    {
        proof {
            self.lemma_view();
        }
        self.entries.len()
    }

    /// Removes every name.
    pub fn clear(&mut self)
        ensures
            final(self).wf(),
            final(self)@ == Map::<Seq<char>, T>::empty(),
            final(self).names() == Seq::<Seq<char>>::empty(),
    {
        self.entries.clear();
        proof {
            assert(final(self).names() =~= Seq::<Seq<char>>::empty());
        }
    }

    /// The position of `key`, if present.
    fn position(&self, key: &str) -> (r: Option<usize>)
        requires
            self.wf(),
        ensures
            match r {
                Some(i) => i < self.entries@.len() && self.entries@[i as int].0@ == key@,
                None => !self@.contains_key(key@),
            },
    {
        let mut i: usize = 0;
        while i < self.entries.len()
            invariant
                i <= self.entries@.len(),
                forall|j: int| 0 <= j < i ==> self.entries@[j].0@ != key@,
            decreases self.entries.len() - i,
        {
            if str_eq(self.entries[i].0.as_str(), key) {
                return Some(i);
            }
            i = i + 1;
        }
        proof {
            lemma_map_of(self.entries@);
        }
        None
    }

    /// Whether `key` is present.
    pub fn contains(&self, key: &str) -> (b: bool)
        requires
            self.wf(),
        ensures
            b == self@.contains_key(key@),
    {
        proof {
            lemma_map_of(self.entries@);
        }
        match self.position(key) {
            Some(i) => true,
            None => false,
        }
    }

    /// Stores `value` under `key`, replacing any earlier value; a new name
    /// goes last.
    pub fn set(&mut self, key: &str, value: T)
        requires
            old(self).wf(),
        ensures
            final(self).wf(),
            final(self)@ == old(self)@.insert(key@, value),
            old(self)@.contains_key(key@) ==> final(self).names() == old(self).names(),
            !old(self)@.contains_key(key@) ==> final(self).names() == old(self).names().push(key@),
    {
        proof {
            lemma_map_of(self.entries@);
        }
        let owned = key.to_owned();
        match self.position(key) {
            Some(i) => {
                proof {
                    lemma_map_of_update(self.entries@, i as int, owned, value);
                }
                self.entries.set(i, (owned, value));
                proof {
                    assert(final(self).names() =~= old(self).names());
                }
            },
            None => {
                proof {
                    lemma_push_distinct(self.entries@, owned, value);
                }
                self.entries.push((owned, value));
                proof {
                    assert(final(self).names() =~= old(self).names().push(key@));
                }
            },
        }
    }

    /// Stores `init` under `key` unless the name is already present.
    pub fn ensure(&mut self, key: &str, init: T)
        requires
            old(self).wf(),
        ensures
            final(self).wf(),
            final(self)@ == if old(self)@.contains_key(key@) {
                old(self)@
            } else {
                old(self)@.insert(key@, init)
            },
            old(self)@.contains_key(key@) ==> final(self).names() == old(self).names(),
            !old(self)@.contains_key(key@) ==> final(self).names() == old(self).names().push(key@),
    {
        if !self.contains(key) {
            self.set(key, init);
        }
    }

    /// The names in `str` order.
    pub fn sorted_names(&self) -> (r: Vec<String>)
        requires
            self.wf(),
        ensures
            strictly_sorted(views(r@)),
            r.len() == self.names().len(),
            forall|k: Seq<char>| self@.contains_key(k) <==> views(r@).contains(k),
    {
        proof {
            lemma_map_of(self.entries@);
        }
        let mut r: Vec<String> = Vec::new();
        let mut k: usize = 0;
        while k < self.entries.len()
            invariant
                self.wf(),
                k <= self.entries@.len(),
                r.len() == k,
                strictly_sorted(views(r@)),
                forall|x: Seq<char>|
                    views(r@).contains(x) <==> exists|j: int| 0 <= j < k && self.entries@[j].0@ == x,
            decreases self.entries.len() - k,
        {
            let key = &self.entries[k].0;
            let ghost kv = key@;
            proof {
                assert forall|j: int| 0 <= j < r.len() implies views(r@)[j] != kv by {
                    if views(r@)[j] == kv {
                        assert(views(r@).contains(kv));
                        let jj = choose|jj: int| 0 <= jj < k && self.entries@[jj].0@ == kv;
                        assert(self.entries@[jj].0@ != self.entries@[k as int].0@);
                    }
                }
            }
            let mut p: usize = 0;
            while p < r.len() && !str_lt(key.as_str(), r[p].as_str())
                invariant
                    p <= r.len(),
                    forall|j: int| 0 <= j < p ==> lex_lt(views(r@)[j], kv),
                    forall|j: int| 0 <= j < r.len() ==> views(r@)[j] != kv,
                    key@ == kv,
                decreases r.len() - p,
            {
                proof {
                    lemma_lex_total(kv, r@[p as int]@);
                }
                p = p + 1;
            }
            let ghost old_views = views(r@);
            r.insert(p, key.clone());
            proof {
                assert(views(r@) =~= old_views.insert(p as int, kv));
                assert forall|i: int, j: int| 0 <= i < j < views(r@).len() implies lex_lt(
                    views(r@)[i],
                    views(r@)[j],
                ) by {
                    if j < p {
                    } else if j == p {
                    } else if i < p {
                        if p < old_views.len() {
                            lemma_lex_transitive(old_views[i], kv, old_views[p as int]);
                            if j - 1 > p {
                                lemma_lex_transitive(old_views[i], old_views[p as int], old_views[j - 1]);
                            }
                        }
                    } else if i == p {
                        if j - 1 > p {
                            lemma_lex_transitive(kv, old_views[p as int], old_views[j - 1]);
                        }
                    } else {
                    }
                }
                assert forall|x: Seq<char>| views(r@).contains(x) <==> exists|j: int|
                    0 <= j < k + 1 && self.entries@[j].0@ == x by {
                    if views(r@).contains(x) {
                        let i = choose|i: int| 0 <= i < views(r@).len() && views(r@)[i] == x;
                        if i == p {
                            assert(self.entries@[k as int].0@ == x);
                        } else if i < p {
                            assert(old_views[i] == x);
                            assert(old_views.contains(x));
                        } else {
                            assert(old_views[i - 1] == x);
                            assert(old_views.contains(x));
                        }
                    }
                    if exists|j: int| 0 <= j < k + 1 && self.entries@[j].0@ == x {
                        let j = choose|j: int| 0 <= j < k + 1 && self.entries@[j].0@ == x;
                        if j == k {
                            assert(views(r@)[p as int] == x);
                        } else {
                            assert(old_views.contains(x));
                            let i = choose|i: int| 0 <= i < old_views.len() && old_views[i] == x;
                            if i < p {
                                assert(views(r@)[i] == x);
                            } else {
                                assert(views(r@)[i + 1] == x);
                            }
                        }
                    }
                }
            }
            k = k + 1;
        }
        proof {
            assert forall|x: Seq<char>| self@.contains_key(x) <==> views(r@).contains(x) by {
                if self@.contains_key(x) {
                    let i = choose|i: int| 0 <= i < self.entries@.len() && self.entries@[i].0@ == x;
                }
                if views(r@).contains(x) {
                    let j = choose|j: int| 0 <= j < k && self.entries@[j].0@ == x;
                    assert(map_of(self.entries@).contains_key(self.entries@[j].0@));
                }
            }
        }
        r
    }

    /// A reference to the value stored under `key`.
    pub fn get_ref(&self, key: &str) -> (r: Option<&T>)
        requires
            self.wf(),
        ensures
            r.is_some() == self@.contains_key(key@),
            r.is_some() ==> *r.unwrap() == self@[key@],
    {
        proof {
            lemma_map_of(self.entries@);
        }
        match self.position(key) {
            Some(i) => {
                proof {
                    assert(map_of(self.entries@).contains_key(self.entries@[i as int].0@));
                }
                Some(&self.entries[i].1)
            },
            None => None,
        }
    }

    /// A reference to the name and value at position `i` of the insertion
    /// order.
    pub fn entry_ref(&self, i: usize) -> (r: (&String, &T))
        requires
            self.wf(),
            i < self.names().len(),
        ensures
            r.0@ == self.names()[i as int],
            self@.contains_key(r.0@),
            self@[r.0@] == *r.1,
    {
        proof {
            lemma_map_of(self.entries@);
        }
        (&self.entries[i].0, &self.entries[i].1)
    }

    /// Removes `key` and returns its value, if it was present. The other
    /// names keep their order.
    pub fn remove(&mut self, key: &str) -> (r: Option<T>)
        requires
            old(self).wf(),
        ensures
            final(self).wf(),
            final(self)@ == old(self)@.remove(key@),
            r.is_some() == old(self)@.contains_key(key@),
            r.is_some() ==> r.unwrap() == old(self)@[key@],
            final(self).names() == drop_name(old(self).names(), key@),
    {
        proof {
            lemma_map_of(self.entries@);
        }
        match self.position(key) {
            Some(i) => {
                let ghost es = self.entries@;
                proof {
                    assert(map_of(es).contains_key(es[i as int].0@));
                }
                let (_, v) = self.entries.remove(i);
                proof {
                    lemma_remove_at(es, i as int);
                }
                Some(v)
            },
            None => {
                proof {
                    assert(old(self)@.remove(key@) =~= old(self)@);
                    assert forall|j: int| 0 <= j < key_seq(self.entries@).len() implies key_seq(self.entries@)[j] != key@ by {
                        assert(map_of(self.entries@).contains_key(self.entries@[j].0@));
                    }
                    lemma_filter_absent(key_seq(self.entries@), key@);
                }
                None
            },
        }
    }
    /// A mutable reference to the value stored under `key`; what is written
    /// through it becomes the value under `key`.
    pub fn get_mut(&mut self, key: &str) -> (r: &mut T)
        requires
            old(self).wf(),
            old(self)@.contains_key(key@),
        ensures
            *r == old(self)@[key@],
            final(self).wf(),
            final(self)@ == old(self)@.insert(key@, *final(r)),
            final(self).names() == old(self).names(),
    {
        proof {
            lemma_map_of(self.entries@);
        }
        let i = match self.position(key) {
            Some(i) => i,
            None => 0,
        };
        let ghost es = self.entries@;
        proof {
            assert(map_of(es).contains_key(es[i as int].0@));
        }
        proof {
            lemma_map_of_update_any(es, i as int);
        }
        let entry = &mut self.entries[i];
        &mut entry.1
    }

    /// Takes out the last pair of the insertion order.
    pub fn pop_last(&mut self) -> (r: Option<(String, T)>)
        requires
            old(self).wf(),
        ensures
            final(self).wf(),
            r.is_none() == (old(self).names().len() == 0),
            r.is_none() ==> final(self)@ == old(self)@,
            r.is_some() ==> {
                let (k, v) = r.unwrap();
                &&& !final(self)@.contains_key(k@)
                &&& old(self)@ == final(self)@.insert(k@, v)
                &&& final(self).names().len() + 1 == old(self).names().len()
            },
    {
        let ghost es = self.entries@;
        let r = self.entries.pop();
        proof {
            if es.len() > 0 {
                assert(self.entries@ =~= es.drop_last());
                lemma_map_of(self.entries@);
                assert forall|j: int| 0 <= j < self.entries@.len() implies self.entries@[j].0@ != es.last().0@ by {
                    assert(es[j].0@ != es[es.len() - 1].0@);
                }
            }
        }
        r
    }

    /// Moves every pair of `other` into this table; `other`'s values win.
    pub fn absorb(&mut self, other: HostTable<T>)
        requires
            old(self).wf(),
            other.wf(),
        ensures
            final(self).wf(),
            final(self)@ == old(self)@.union_prefer_right(other@),
    {
        let mut rest = other;
        while rest.len() > 0
            invariant
                self.wf(),
                rest.wf(),
                self@.union_prefer_right(rest@) == old(self)@.union_prefer_right(other@),
            decreases rest.names().len(),
        {
            let ghost before = self@;
            let ghost rest_before = rest@;
            match rest.pop_last() {
                Some((k, v)) => {
                    self.set(k.as_str(), v);
                    proof {
                        assert(self@.union_prefer_right(rest@) =~= before.union_prefer_right(rest_before));
                    }
                },
                None => {},
            }
        }
        proof {
            rest.lemma_view();
            assert(rest@.dom() =~= Set::empty());
            assert(self@.union_prefer_right(rest@) =~= self@);
        }
    }
}

impl<T: Copy> HostTable<T> {
    /// A copy of the table.
    pub fn copy_table(&self) -> (t: Self)
        requires
            self.wf(),
        ensures
            t.wf(),
            t@ == self@,
            t.names() == self.names(),
    {
        let mut entries: Vec<(String, T)> = Vec::new();
        let mut i: usize = 0;
        while i < self.entries.len()
            invariant
                i <= self.entries@.len(),
                entries@.len() == i,
                forall|j: int| 0 <= j < i ==> (#[trigger] entries@[j]).0@ == self.entries@[j].0@ && entries@[j].1
                    == self.entries@[j].1,
            decreases self.entries@.len() - i,
        {
            let k = self.entries[i].0.clone();
            entries.push((k, self.entries[i].1));
            i = i + 1;
        }
        let t = HostTable { entries };
        proof {
            lemma_map_of_same(t.entries@, self.entries@);
        }
        t
    }

    /// The value stored under `key`.
    pub fn get(&self, key: &str) -> (r: Option<T>)
        requires
            self.wf(),
        ensures
            r == if self@.contains_key(key@) {
                Some(self@[key@])
            } else {
                None::<T>
            },
    {
        proof {
            lemma_map_of(self.entries@);
        }
        match self.position(key) {
            Some(i) => Some(self.entries[i].1),
            None => None,
        }
    }

    /// The name and value at position `i` of the insertion order.
    pub fn entry_at(&self, i: usize) -> (r: (&String, T))
        requires
            self.wf(),
            i < self.names().len(),
        ensures
            r.0@ == self.names()[i as int],
            self@.contains_key(r.0@),
            self@[r.0@] == r.1,
    {
        proof {
            lemma_map_of(self.entries@);
        }
        (&self.entries[i].0, self.entries[i].1)
    }
}

} // verus!
