//! Maps and sets keyed by text, which keep the order in which keys came.

use crate::ranking::{law_ranked_in_order, law_ranked_same_items, ranked, sort, Ranked};
use crate::text::{
    law_lex_asymmetric, law_lex_total, law_lex_transitive, lex_lt, same, text_lt,
};
use vstd::prelude::*;

verus! {

/// A map from texts to values.
pub struct KeyMap<V> {
    entries: Vec<(String, V)>,
}

/// Where the key `k` stands, or the length of `s`.
pub open spec fn key_at<V>(s: Seq<(String, V)>, k: Seq<char>) -> int
    decreases s.len(),
{
    if s.len() == 0 || s[0].0@ == k {
        0
    } else {
        1 + key_at(s.drop_first(), k)
    }
}

/// No key stands twice.
pub open spec fn distinct_keys<V>(s: Seq<(String, V)>) -> bool {
    forall|i: int, j: int| 0 <= i < j < s.len() ==> (#[trigger] s[i]).0@ != (#[trigger] s[j]).0@
}

/// The map that a list of entries with distinct keys stands for.
pub open spec fn as_map<V>(s: Seq<(String, V)>) -> Map<Seq<char>, V> {
    Map::new(|k: Seq<char>| key_at(s, k) < s.len(), |k: Seq<char>| s[key_at(s, k)].1)
}

proof fn lemma_key_at<V>(s: Seq<(String, V)>, k: Seq<char>)
    ensures
        0 <= key_at(s, k) <= s.len(),
        key_at(s, k) < s.len() ==> s[key_at(s, k)].0@ == k,
        forall|i: int| 0 <= i < key_at(s, k) ==> (#[trigger] s[i]).0@ != k,
    decreases s.len(),
{
    if s.len() > 0 && s[0].0@ != k {
        let t = s.drop_first();
        lemma_key_at(t, k);
        assert forall|i: int| 0 <= i < key_at(s, k) implies (#[trigger] s[i]).0@ != k by {
            if i > 0 {
                assert(t[i - 1].0@ != k);
            }
        }
    }
}

proof fn lemma_key_is_at<V>(s: Seq<(String, V)>, i: int)
    requires
        distinct_keys(s),
        0 <= i < s.len(),
    ensures
        key_at(s, s[i].0@) == i,
{
    lemma_key_at(s, s[i].0@);
    let j = key_at(s, s[i].0@);
    if j < i {
        assert(s[j].0@ != s[i].0@);
    }
    if i < j {
        assert(s[i].0@ != s[i].0@);
    }
}

impl<V> KeyMap<V> {
    #[verifier::type_invariant]
    spec fn well_formed(self) -> bool {
        distinct_keys(self.entries@)
    }

    pub closed spec fn list(self) -> Seq<(String, V)> {
        self.entries@
    }

    /// The keys in the order in which they came.
    pub open spec fn keys(self) -> Seq<Seq<char>> {
        self.list().map_values(|e: (String, V)| e.0@)
    }
}

impl<V> View for KeyMap<V> {
    type V = Map<Seq<char>, V>;

    open spec fn view(&self) -> Map<Seq<char>, V> {
        as_map(self.list())
    }
}

impl<V> KeyMap<V> {
    pub fn new() -> (r: KeyMap<V>)
        ensures
            r@ == Map::<Seq<char>, V>::empty(),
            r.list() == Seq::<(String, V)>::empty(),
    {
        let r = KeyMap { entries: Vec::new() };
        proof {
            assert(r@ =~= Map::<Seq<char>, V>::empty());
        }
        r
    }

    /// Every key stands once, and the keys are those of the map.
    proof fn lemma_entries(&self)
        requires
            distinct_keys(self.list()),
        ensures
            forall|i: int|
                0 <= i < self.list().len() ==> self@.contains_key((#[trigger] self.list()[i]).0@)
                    && self@[self.list()[i].0@] == self.list()[i].1,
            forall|k: Seq<char>| #[trigger]
                self@.contains_key(k) ==> self.keys().contains(k),
            self@.dom().finite(),
            self@.dom().len() == self.list().len(),
            self@.dom() == self.keys().to_set(),
            self.keys().no_duplicates(),
    {
        let s = self.list();
        assert forall|i: int| 0 <= i < s.len() implies self@.contains_key((#[trigger] s[i]).0@)
            && self@[s[i].0@] == s[i].1 by {
            lemma_key_is_at(s, i);
        }
        assert forall|k: Seq<char>| #[trigger] self@.contains_key(k) implies self.keys().contains(
            k,
        ) by {
            lemma_key_at(s, k);
            assert(self.keys()[key_at(s, k)] == k);
        }
        let ks = self.keys();
        assert(ks.no_duplicates()) by {
            assert forall|i: int, j: int|
                0 <= i < ks.len() && 0 <= j < ks.len() && i != j implies ks[i] != ks[j] by {
                if i < j {
                    assert(s[i].0@ != s[j].0@);
                } else {
                    assert(s[j].0@ != s[i].0@);
                }
            }
        }
        assert(self@.dom() =~= ks.to_set()) by {
            assert forall|k: Seq<char>| ks.to_set().contains(k) implies self@.dom().contains(k) by {
                let i = choose|i: int| 0 <= i < ks.len() && ks[i] == k;
                assert(self@.contains_key(s[i].0@));
            }
        }
        ks.unique_seq_to_set();
    }

    fn position(&self, key: &str) -> (r: usize)
        ensures
            r == key_at(self.list(), key@),
            r <= self.list().len(),
            self@.contains_key(key@) <==> r < self.list().len(),
            r < self.list().len() ==> self@[key@] == self.list()[r as int].1
                && self.list()[r as int].0@ == key@,
    {
        let ghost s = self.entries@;
        let mut i: usize = 0;
        proof {
            assert(s.skip(0) =~= s);
        }
        while i < self.entries.len()
            invariant_except_break
                s == self.entries@,
                i <= s.len(),
                key_at(s, key@) == i + key_at(s.skip(i as int), key@),
            ensures
                s == self.entries@,
                i == key_at(s, key@),
            decreases self.entries.len() - i,
        {
            if same(self.entries[i].0.as_str(), key) {
                break;
            }
            proof {
                assert(s.skip(i as int).drop_first() =~= s.skip(i + 1));
            }
            i = i + 1;
        }
        proof {
            lemma_key_at(s, key@);
        }
        i
    }

    pub fn len(&self) -> (r: usize)
        ensures
            r == self.list().len(),
            r == self@.dom().len(),
            self@.dom().finite(),
            self@.dom() == self.keys().to_set(),
            self.keys().no_duplicates(),
            distinct_keys(self.list()),
            forall|i: int|
                0 <= i < self.list().len() ==> self@.contains_key((#[trigger] self.list()[i]).0@)
                    && self@[self.list()[i].0@] == self.list()[i].1,
    {
        proof {
            use_type_invariant(self);
            self.lemma_entries();
        }
        self.entries.len()
    }

    pub fn is_empty(&self) -> (r: bool)
        ensures
            r == (self.list().len() == 0),
            r == (self@ == Map::<Seq<char>, V>::empty()),
    {
        proof {
            use_type_invariant(self);
            self.lemma_entries();
            if self.list().len() == 0 {
                assert(self@ =~= Map::<Seq<char>, V>::empty());
            } else {
                assert(self@.contains_key(self.list()[0].0@));
            }
        }
        self.entries.len() == 0
    }

    pub fn contains(&self, key: &str) -> (r: bool)
        ensures
            r == self@.contains_key(key@),
    {
        self.position(key) < self.entries.len()
    }

    pub fn get(&self, key: &str) -> (r: Option<&V>)
        ensures
            match r {
                Some(v) => self@.contains_key(key@) && *v == self@[key@],
                None => !self@.contains_key(key@),
            },
    {
        let i = self.position(key);
        if i < self.entries.len() {
            Some(&self.entries[i].1)
        } else {
            None
        }
    }

    /// The key of the `i`th entry.
    pub fn key(&self, i: usize) -> (r: &String)
        requires
            i < self.list().len(),
        ensures
            *r == self.list()[i as int].0,
            r@ == self.keys()[i as int],
    {
        &self.entries[i].0
    }

    /// The value of the `i`th entry.
    pub fn value(&self, i: usize) -> (r: &V)
        requires
            i < self.list().len(),
        ensures
            *r == self.list()[i as int].1,
            self@.contains_key(self.keys()[i as int]),
            *r == self@[self.keys()[i as int]],
    {
        proof {
            use_type_invariant(self);
            self.lemma_entries();
        }
        &self.entries[i].1
    }

    /// Puts `value` under `key`; a value that stood there goes.
    pub fn insert(&mut self, key: &str, value: V)
        ensures
            final(self)@ == old(self)@.insert(key@, value),
    {
        proof {
            use_type_invariant(&*self);
        }
        let at = self.position(key);
        let ghost s = self.entries@;
        let mut entries: Vec<(String, V)> = Vec::new();
        std::mem::swap(&mut entries, &mut self.entries);
        let k: String = key.to_owned();
        if at < entries.len() {
            entries.set(at, (k, value));
        } else {
            entries.push((k, value));
        }
        proof {
            let t = entries@;
            assert(distinct_keys(t)) by {
                lemma_key_at(s, key@);
                assert forall|i: int, j: int| 0 <= i < j < t.len() implies (#[trigger] t[i]).0@ != (
                #[trigger] t[j]).0@ by {
                    if i < s.len() && j < s.len() {
                        assert(s[i].0@ != s[j].0@);
                    } else {
                        assert(s[i].0@ != key@);
                    }
                }
            }
            assert(as_map(t) =~= as_map(s).insert(key@, value)) by {
                let m = as_map(s).insert(key@, value);
                assert forall|q: Seq<char>|
                    (#[trigger] as_map(t).dom().contains(q) <==> m.dom().contains(q)) && (as_map(
                        t,
                    ).dom().contains(q) ==> as_map(t)[q] == m[q]) by {
                    lemma_key_at(t, q);
                    lemma_key_at(s, q);
                    lemma_key_is_at(t, at as int);
                    if q != key@ {
                        let i = key_at(s, q);
                        if i < s.len() {
                            assert(t[i].0@ == q);
                            lemma_key_is_at(t, i);
                        }
                        let j = key_at(t, q);
                        if j < t.len() {
                            assert(j != at);
                            assert(s[j].0@ == q);
                            lemma_key_is_at(s, j);
                        }
                    }
                }
                assert(as_map(t).dom() =~= m.dom());
            }
        }
        self.entries = entries;
    }

    /// Takes the entry of `key` out.
    pub fn remove(&mut self, key: &str) -> (r: Option<V>)
        ensures
            final(self)@ == old(self)@.remove(key@),
            r == (if old(self)@.contains_key(key@) {
                Some(old(self)@[key@])
            } else {
                None::<V>
            }),
    {
        proof {
            use_type_invariant(&*self);
        }
        let at = self.position(key);
        let ghost s = self.entries@;
        if at >= self.entries.len() {
            proof {
                assert(as_map(s) =~= as_map(s).remove(key@));
            }
            return None;
        }
        let mut entries: Vec<(String, V)> = Vec::new();
        std::mem::swap(&mut entries, &mut self.entries);
        let e = entries.remove(at);
        proof {
            let t = entries@;
            assert(t =~= s.remove(at as int));
            let up = |i: int|
                if i < at {
                    i
                } else {
                    i + 1
                };
            assert(distinct_keys(t)) by {
                assert forall|i: int, j: int| 0 <= i < j < t.len() implies (#[trigger] t[i]).0@ != (
                #[trigger] t[j]).0@ by {
                    assert(s[up(i)].0@ != s[up(j)].0@);
                }
            }
            assert(as_map(t) =~= as_map(s).remove(key@)) by {
                let m = as_map(s).remove(key@);
                assert forall|q: Seq<char>|
                    (#[trigger] as_map(t).dom().contains(q) <==> m.dom().contains(q)) && (as_map(
                        t,
                    ).dom().contains(q) ==> as_map(t)[q] == m[q]) by {
                    lemma_key_at(t, q);
                    lemma_key_at(s, q);
                    let j = key_at(t, q);
                    if j < t.len() {
                        assert(s[up(j)].0@ == q);
                        lemma_key_is_at(s, up(j));
                        assert(s[at as int].0@ == key@);
                        if q == key@ {
                            lemma_key_is_at(s, at as int);
                        }
                    }
                    let i = key_at(s, q);
                    if i < s.len() && q != key@ {
                        assert(i != at);
                        let i2 = if i < at {
                            i
                        } else {
                            i - 1
                        };
                        assert(t[i2].0@ == q);
                        lemma_key_is_at(t, i2);
                    }
                }
                assert(as_map(t).dom() =~= m.dom());
            }
        }
        self.entries = entries;
        Some(e.1)
    }

    /// Takes every entry out.
    pub fn clear(&mut self)
        ensures
            final(self)@ == Map::<Seq<char>, V>::empty(),
    {
        *self = KeyMap::new();
    }
}

impl Ranked for String {
    open spec fn precedes(self, other: String) -> bool {
        lex_lt(self@, other@)
    }

    fn is_before(&self, other: &String) -> (r: bool) {
        text_lt(self.as_str(), other.as_str())
    }
}

/// `v` lists the texts of `dom`, each once, in dictionary order.
pub open spec fn lists_in_order(v: Seq<String>, dom: Set<Seq<char>>) -> bool {
    &&& forall|i: int, j: int| 0 <= i < j < v.len() ==> lex_lt(#[trigger] v[i]@, #[trigger] v[j]@)
    &&& forall|i: int| 0 <= i < v.len() ==> dom.contains(#[trigger] v[i]@)
    &&& forall|k: Seq<char>| #[trigger]
        dom.contains(k) ==> exists|i: int| 0 <= i < v.len() && #[trigger] v[i]@ == k
}

pub proof fn lemma_texts_ordered()
    ensures
        crate::ranking::is_weak_order::<String>(),
{
    assert forall|a: String, b: String| #[trigger] a.precedes(b) implies !b.precedes(a) by {
        law_lex_asymmetric(a@, b@);
    }
    assert forall|a: String, b: String, c: String|
        #![trigger a.precedes(b), b.precedes(c)]
        !a.precedes(b) && !b.precedes(c) implies !a.precedes(c) by {
        law_lex_total(a@, b@);
        law_lex_total(b@, c@);
        if a.precedes(c) {
            if a@ == b@ {
            } else if b@ == c@ {
            } else {
                law_lex_transitive(c@, b@, a@);
                law_lex_asymmetric(a@, c@);
            }
        }
    }
}

proof fn lemma_sorted_list(s: Seq<String>, dom: Set<Seq<char>>)
    requires
        forall|i: int, j: int| 0 <= i < j < s.len() ==> #[trigger] s[i]@ != #[trigger] s[j]@,
        forall|k: Seq<char>| #[trigger]
            dom.contains(k) <==> exists|i: int| 0 <= i < s.len() && #[trigger] s[i]@ == k,
    ensures
        lists_in_order(ranked(s), dom),
{
    broadcast use vstd::seq_lib::group_to_multiset_ensures;

    let r = ranked(s);
    law_ranked_same_items(s);
    lemma_texts_ordered();
    law_ranked_in_order(s);
    assert(s.no_duplicates()) by {
        assert forall|i: int, j: int|
            0 <= i < s.len() && 0 <= j < s.len() && i != j implies s[i] != s[j] by {
            if i < j {
                assert(s[i]@ != s[j]@);
            } else {
                assert(s[j]@ != s[i]@);
            }
        }
    }
    s.lemma_multiset_has_no_duplicates();
    r.lemma_multiset_has_no_duplicates_conv();
    assert forall|i: int| 0 <= i < r.len() implies s.contains(#[trigger] r[i]) by {
        assert(r.to_multiset().count(r[i]) > 0);
    }
    assert forall|i: int| 0 <= i < s.len() implies r.contains(#[trigger] s[i]) by {
        assert(s.to_multiset().count(s[i]) > 0);
    }
    assert forall|i: int, j: int| 0 <= i < j < r.len() implies lex_lt(
        #[trigger] r[i]@,
        #[trigger] r[j]@,
    ) by {
        assert(!r[j].precedes(r[i]));
        law_lex_total(r[i]@, r[j]@);
        if r[i]@ == r[j]@ {
            assert(s.contains(r[i]));
            assert(s.contains(r[j]));
            let a = choose|a: int| 0 <= a < s.len() && s[a] == r[i];
            let b = choose|b: int| 0 <= b < s.len() && s[b] == r[j];
            assert(r[i] != r[j]);
            if a < b {
                assert(s[a]@ != s[b]@);
            } else {
                assert(s[b]@ != s[a]@);
            }
        }
    }
    assert forall|i: int| 0 <= i < r.len() implies dom.contains(#[trigger] r[i]@) by {
        assert(s.contains(r[i]));
        let a = choose|a: int| 0 <= a < s.len() && s[a] == r[i];
        assert(s[a]@ == r[i]@);
    }
    assert forall|k: Seq<char>| #[trigger] dom.contains(k) implies exists|i: int|
        0 <= i < r.len() && #[trigger] r[i]@ == k by {
        let a = choose|a: int| 0 <= a < s.len() && #[trigger] s[a]@ == k;
        assert(r.contains(s[a]));
        let i = choose|i: int| 0 <= i < r.len() && r[i] == s[a];
        assert(r[i]@ == k);
    }
}

impl<V> KeyMap<V> {
    /// The keys in dictionary order.
    pub fn sorted_keys(&self) -> (r: Vec<String>)
        ensures
            lists_in_order(r@, self@.dom()),
    {
        let n = self.len();
        let mut keys: Vec<String> = Vec::new();
        let mut i: usize = 0;
        while i < n
            invariant
                n == self.list().len(),
                i <= n,
                keys@.len() == i,
                forall|k: int| 0 <= k < i ==> #[trigger] keys@[k] == self.list()[k].0,
            decreases n - i,
        {
            keys.push(self.key(i).clone());
            i = i + 1;
        }
        proof {
            assert forall|k: Seq<char>| #[trigger] self@.dom().contains(k) <==> exists|i: int|
                0 <= i < keys@.len() && #[trigger] keys@[i]@ == k by {
                if self@.dom().contains(k) {
                    assert(self.keys().contains(k));
                    let j = choose|j: int| 0 <= j < self.keys().len() && self.keys()[j] == k;
                    assert(keys@[j]@ == k);
                }
                if exists|i: int| 0 <= i < keys@.len() && #[trigger] keys@[i]@ == k {
                    let j = choose|j: int| 0 <= j < keys@.len() && #[trigger] keys@[j]@ == k;
                    assert(self@.contains_key(self.list()[j].0@));
                }
            }
            assert forall|i: int, j: int| 0 <= i < j < keys@.len() implies #[trigger] keys@[i]@
                != #[trigger] keys@[j]@ by {
                assert(self.list()[i].0@ != self.list()[j].0@);
            }
            lemma_sorted_list(keys@, self@.dom());
        }
        sort(keys)
    }
}

/// A set of texts.
pub type KeySet = KeyMap<()>;

impl<V> KeyMap<V> {
    /// Puts `value` in the place of the `i`th entry's value and hands that out.
    pub fn exchange_value(&mut self, i: usize, value: V) -> (r: V)
        requires
            i < old(self).list().len(),
        ensures
            r == old(self).list()[i as int].1,
            final(self).list() == old(self).list().update(
                i as int,
                (old(self).list()[i as int].0, value),
            ),
    {
        proof {
            use_type_invariant(&*self);
        }
        let ghost s = self.entries@;
        let mut entries: Vec<(String, V)> = Vec::new();
        std::mem::swap(&mut entries, &mut self.entries);
        let (key, taken) = entries.remove(i);
        entries.insert(i, (key, value));
        proof {
            assert(entries@ =~= s.update(i as int, (s[i as int].0, value)));
            let t = entries@;
            assert forall|a: int, b: int| 0 <= a < b < t.len() implies (#[trigger] t[a]).0@ != (
            #[trigger] t[b]).0@ by {
                assert(s[a].0@ != s[b].0@);
            }
        }
        self.entries = entries;
        taken
    }

    /// Keeps the entries whose keys are in `keep`.
    pub fn retain(&mut self, keep: &KeySet)
        ensures
            final(self)@ == old(self)@.restrict(keep@.dom()),
    {
        let ghost start = self@;
        let n = self.len();
        let ghost all = self.list();
        let mut taken: Vec<(String, V)> = Vec::new();
        std::mem::swap(&mut taken, &mut self.entries);
        let mut out: KeyMap<V> = KeyMap::new();
        let mut i: usize = 0;
        proof {
            assert(all.skip(0) =~= all);
            assert(out@ =~= as_map(all.take(0)).restrict(keep@.dom())) by {
                assert(all.take(0).len() == 0);
            }
        }
        while i < n
            invariant
                n == all.len(),
                distinct_keys(all),
                i <= n,
                taken@ == all.skip(i as int),
                out@ == as_map(all.take(i as int)).restrict(keep@.dom()),
            decreases n - i,
        {
            let (key, value) = taken.remove(0);
            proof {
                assert(taken@ =~= all.skip(i + 1));
                assert((key, value) == all[i as int]);
                lemma_as_map_push(all, i as int);
            }
            let ghost before = out@;
            if keep.contains(key.as_str()) {
                out.insert(key.as_str(), value);
            }
            proof {
                assert(out@ =~= as_map(all.take(i + 1)).restrict(keep@.dom()));
            }
            i = i + 1;
        }
        proof {
            assert(all.take(n as int) =~= all);
        }
        *self = out;
    }
}

proof fn lemma_as_map_push<V>(s: Seq<(String, V)>, i: int)
    requires
        distinct_keys(s),
        0 <= i < s.len(),
    ensures
        as_map(s.take(i + 1)) == as_map(s.take(i)).insert(s[i].0@, s[i].1),
{
    let a = s.take(i);
    let b = s.take(i + 1);
    assert(distinct_keys(a)) by {
        assert forall|x: int, y: int| 0 <= x < y < a.len() implies (#[trigger] a[x]).0@ != (
        #[trigger] a[y]).0@ by {
            assert(s[x].0@ != s[y].0@);
        }
    }
    assert(distinct_keys(b)) by {
        assert forall|x: int, y: int| 0 <= x < y < b.len() implies (#[trigger] b[x]).0@ != (
        #[trigger] b[y]).0@ by {
            assert(s[x].0@ != s[y].0@);
        }
    }
    let m = as_map(a).insert(s[i].0@, s[i].1);
    assert forall|q: Seq<char>|
        (#[trigger] as_map(b).dom().contains(q) <==> m.dom().contains(q)) && (as_map(
            b,
        ).dom().contains(q) ==> as_map(b)[q] == m[q]) by {
        lemma_key_at(a, q);
        lemma_key_at(b, q);
        let j = key_at(b, q);
        if j < b.len() {
            if j < i {
                assert(a[j].0@ == q);
                lemma_key_is_at(a, j);
                assert(s[j].0@ != s[i].0@);
            }
        }
        let l = key_at(a, q);
        if l < a.len() {
            assert(b[l].0@ == q);
            lemma_key_is_at(b, l);
        }
        lemma_key_is_at(b, i);
    }
    assert(as_map(b).dom() =~= m.dom());
    assert(as_map(b) =~= m);
}

/// Values that each become `g` of what they were, as `f` sees them, make a map
/// whose values do.
pub proof fn lemma_mapped<V, W>(
    s: Seq<(String, V)>,
    t: Seq<(String, V)>,
    f: spec_fn(V) -> W,
    g: spec_fn(W) -> W,
)
    requires
        s.len() == t.len(),
        forall|i: int|
            0 <= i < s.len() ==> (#[trigger] t[i]).0 == s[i].0 && f(t[i].1) == g(f(s[i].1)),
    ensures
        as_map(t).map_values(f) == as_map(s).map_values(f).map_values(g),
{
    let a = as_map(t).map_values(f);
    let b = as_map(s).map_values(f).map_values(g);
    assert forall|q: Seq<char>|
        (#[trigger] a.dom().contains(q) <==> b.dom().contains(q)) && (a.dom().contains(q) ==> a[q]
            == b[q]) by {
        lemma_same_place(s, t, q);
        lemma_key_at(t, q);
    }
    assert(a.dom() =~= b.dom());
    assert(a =~= b);
}

proof fn lemma_same_place<V>(s: Seq<(String, V)>, t: Seq<(String, V)>, q: Seq<char>)
    requires
        s.len() == t.len(),
        forall|i: int| 0 <= i < s.len() ==> (#[trigger] t[i]).0 == s[i].0,
    ensures
        key_at(s, q) == key_at(t, q),
    decreases s.len(),
{
    if s.len() > 0 {
        assert(t[0].0 == s[0].0);
        let u = s.drop_first();
        let v = t.drop_first();
        assert forall|i: int| 0 <= i < u.len() implies (#[trigger] v[i]).0 == u[i].0 by {
            assert(t[i + 1].0 == s[i + 1].0);
        }
        lemma_same_place(u, v, q);
    }
}

} // verus!
