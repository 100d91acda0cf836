//! A string-to-string map kept in key order, the way
//! `BTreeMap<String, String>` keeps its entries.
//!
//! vstd's specifications of `BTreeMap` hold only when
//! `key_obeys_cmp_spec::<Key>()`, and vstd establishes that for no `String`
//! order; with `String` keys nothing about a `BTreeMap`'s contents can be
//! proved. This map keeps its entries in a `Vec` instead, and states as its
//! type invariant what a `BTreeMap` gives: each key once, in key order.

use vstd::prelude::*;
use crate::text::chars_of;

verus! {

/// Whether key `a` comes before key `b` in the order of `String`: char by
/// char, a proper prefix before the longer text. (UTF-8 byte order, which
/// `String` compares by, agrees with the order of the chars' code points.)
pub open spec fn key_before(a: Seq<char>, b: Seq<char>) -> bool
    decreases a.len(),
{
    if b.len() == 0 {
        false
    } else if a.len() == 0 {
        true
    } else if a[0] != b[0] {
        a[0] < b[0]
    } else {
        key_before(a.drop_first(), b.drop_first())
    }
}

/// No key comes before itself.
pub proof fn lemma_key_before_irreflexive(a: Seq<char>)
    ensures
        !key_before(a, a),
    decreases a.len(),
{
    if a.len() > 0 {
        lemma_key_before_irreflexive(a.drop_first());
    }
}

/// The key order is transitive.
pub proof fn lemma_key_before_transitive(a: Seq<char>, b: Seq<char>, c: Seq<char>)
    requires
        key_before(a, b),
        key_before(b, c),
    ensures
        key_before(a, c),
    decreases a.len(),
{
    if a.len() > 0 && b.len() > 0 && c.len() > 0 && a[0] == b[0] && b[0] == c[0] {
        lemma_key_before_transitive(a.drop_first(), b.drop_first(), c.drop_first());
    }
}

/// Of two different keys, one comes before the other.
pub proof fn lemma_key_before_total(a: Seq<char>, b: Seq<char>)
    requires
        a != b,
    ensures
        key_before(a, b) || key_before(b, a),
    decreases a.len(),
{
    if a.len() > 0 && b.len() > 0 && a[0] == b[0] {
        if a.drop_first() == b.drop_first() {
            assert(a =~= seq![a[0]] + a.drop_first());
            assert(b =~= seq![b[0]] + b.drop_first());
            assert(a =~= b);
        } else {
            lemma_key_before_total(a.drop_first(), b.drop_first());
        }
    } else if a.len() == 0 && b.len() == 0 {
        assert(a =~= b);
    }
}

/// After a common prefix of length `i`, the order is that of the rests.
proof fn lemma_key_before_skip(a: Seq<char>, b: Seq<char>, i: int)
    requires
        0 <= i <= a.len(),
        i <= b.len(),
        forall|j: int| 0 <= j < i ==> a[j] == b[j],
    ensures
        key_before(a, b) == key_before(a.skip(i), b.skip(i)),
    decreases i,
{
    if i > 0 {
        assert(a.drop_first().skip(i - 1) =~= a.skip(i));
        assert(b.drop_first().skip(i - 1) =~= b.skip(i));
        lemma_key_before_skip(a.drop_first(), b.drop_first(), i - 1);
    } else {
        assert(a.skip(0) =~= a);
        assert(b.skip(0) =~= b);
    }
}

/// Whether key `a` comes before key `b`.
pub fn key_precedes(a: &str, b: &str) -> (r: bool)
    ensures
        r == key_before(a@, b@),
{
    let va = chars_of(a);
    let vb = chars_of(b);
    let mut i: usize = 0;
    while i < va.len() && i < vb.len() && va[i] == vb[i]
        invariant
            i <= va@.len(),
            i <= vb@.len(),
            va@ == a@,
            vb@ == b@,
            forall|j: int| 0 <= j < i ==> va@[j] == vb@[j],
        decreases va@.len() - i,
    {
        i = i + 1;
    }
    proof {
        lemma_key_before_skip(a@, b@, i as int);
        if i < va@.len() {
            assert(a@.skip(i as int)[0] == va@[i as int]);
        }
        if i < vb@.len() {
            assert(b@.skip(i as int)[0] == vb@[i as int]);
        }
    }
    if i == vb.len() {
        false
    } else if i == va.len() {
        true
    } else {
        va[i] < vb[i]
    }
}

/// The keys of `s` are in strictly increasing key order.
pub open spec fn keys_increasing(s: Seq<(String, String)>) -> bool {
    forall|i: int, j: int| 0 <= i < j < s.len() ==> key_before(#[trigger] s[i].0@, #[trigger] s[j].0@)
}

/// The map a sequence of key/value pairs describes when they are inserted in
/// order, a later pair replacing an earlier one with the same key.
pub open spec fn pairs_map(s: Seq<(String, String)>) -> Map<Seq<char>, Seq<char>>
    decreases s.len(),
{
    if s.len() == 0 {
        Map::empty()
    } else {
        pairs_map(s.drop_last()).insert(s.last().0@, s.last().1@)
    }
}

/// Whether `k` is the key of one of the pairs.
pub open spec fn has_key(s: Seq<(String, String)>, k: Seq<char>) -> bool {
    exists|i: int| 0 <= i < s.len() && #[trigger] s[i].0@ == k
}

/// With distinct keys, the map of the pairs has exactly their keys, each
/// with its pair's value.
pub proof fn lemma_pairs_map_distinct(s: Seq<(String, String)>)
    requires
        forall|i: int, j: int| 0 <= i < j < s.len() ==> #[trigger] s[i].0@ != #[trigger] s[j].0@,
    ensures
        forall|k: Seq<char>| #[trigger] pairs_map(s).contains_key(k) == has_key(s, k),
        forall|i: int| 0 <= i < s.len() ==> pairs_map(s)[#[trigger] s[i].0@] == s[i].1@,
    decreases s.len(),
{
    if s.len() > 0 {
        let t = s.drop_last();
        assert forall|i: int, j: int| 0 <= i < j < t.len() implies #[trigger] t[i].0@ != #[trigger] t[j].0@ by {
            assert(t[i] == s[i] && t[j] == s[j]);
        }
        lemma_pairs_map_distinct(t);
        assert(pairs_map(s) == pairs_map(t).insert(s.last().0@, s.last().1@));
        assert forall|k: Seq<char>| #[trigger] pairs_map(s).contains_key(k) == has_key(s, k) by {
            assert(pairs_map(t).contains_key(k) == has_key(t, k));
            if has_key(s, k) {
                let i = choose|i: int| 0 <= i < s.len() && #[trigger] s[i].0@ == k;
                if i < s.len() - 1 {
                    assert(t[i] == s[i]);
                    assert(t[i].0@ == k);
                }
            }
            if has_key(t, k) {
                let i = choose|i: int| 0 <= i < t.len() && #[trigger] t[i].0@ == k;
                assert(s[i] == t[i]);
                assert(s[i].0@ == k);
            }
            if k == s.last().0@ {
                assert(s[s.len() - 1].0@ == k);
            }
        }
        assert forall|i: int| 0 <= i < s.len() implies pairs_map(s)[#[trigger] s[i].0@] == s[i].1@ by {
            if i < s.len() - 1 {
                assert(t[i] == s[i]);
                assert(s[i].0@ != s[s.len() - 1].0@);
            }
        }
    }
}

/// Increasing keys are distinct.
proof fn lemma_increasing_distinct(s: Seq<(String, String)>)
    requires
        keys_increasing(s),
    ensures
        forall|i: int, j: int| 0 <= i < j < s.len() ==> #[trigger] s[i].0@ != #[trigger] s[j].0@,
{
    assert forall|i: int, j: int| 0 <= i < j < s.len() implies #[trigger] s[i].0@ != #[trigger] s[j].0@ by {
        lemma_key_before_irreflexive(s[i].0@);
    }
}

/// A string-to-string map whose entries are kept in increasing key order,
/// each key once, as `BTreeMap<String, String>` keeps them.
pub struct RawMap {
    entries: Vec<(String, String)>,
}

impl RawMap {
    #[verifier::type_invariant]
    spec fn ordered(self) -> bool {
        keys_increasing(self.entries@)
    }
}

impl View for RawMap {
    type V = Map<Seq<char>, Seq<char>>;

    closed spec fn view(&self) -> Map<Seq<char>, Seq<char>> {
        pairs_map(self.entries@)
    }
}

impl RawMap {
    /// The empty map.
    pub fn new() -> (m: RawMap)
        ensures
            m@ == Map::<Seq<char>, Seq<char>>::empty(),
    {
        RawMap { entries: Vec::new() }
    }

    /// Sets `key` to `value`, replacing any earlier value of `key`; the
    /// entries stay in key order.
    pub fn insert(&mut self, key: String, value: String)
        ensures
            final(self)@ == old(self)@.insert(key@, value@),
    {
        proof {
            use_type_invariant(&*self);
        }
        let mut entries: Vec<(String, String)> = Vec::new();
        std::mem::swap(&mut entries, &mut self.entries);
        let ghost old_entries = entries@;
        proof {
            lemma_increasing_distinct(old_entries);
            lemma_pairs_map_distinct(old_entries);
        }
        let mut p: usize = 0;
        while p < entries.len() && key_precedes(entries[p].0.as_str(), key.as_str())
            invariant
                p <= entries@.len(),
                entries@ == old_entries,
                forall|j: int| 0 <= j < p ==> key_before(#[trigger] entries@[j].0@, key@),
            decreases entries@.len() - p,
        {
            p = p + 1;
        }
        let found = p < entries.len() && entries[p].0 == key;
        let ghost k = key@;
        let ghost v = value@;
        if found {
            entries.set(p, (key, value));
            proof {
                assert forall|i: int, j: int| 0 <= i < j < entries@.len() implies
                    key_before(#[trigger] entries@[i].0@, #[trigger] entries@[j].0@) by {
                    assert(old_entries[i].0@ == entries@[i].0@ || i == p);
                    assert(old_entries[j].0@ == entries@[j].0@ || j == p);
                }
                lemma_increasing_distinct(entries@);
                lemma_pairs_map_distinct(entries@);
                assert forall|q: Seq<char>| #[trigger] pairs_map(entries@).contains_key(q)
                    == pairs_map(old_entries).insert(k, v).contains_key(q) by {
                    if has_key(entries@, q) {
                        let i = choose|i: int| 0 <= i < entries@.len() && #[trigger] entries@[i].0@ == q;
                        assert(old_entries[i].0@ == q);
                    }
                    if has_key(old_entries, q) {
                        let i = choose|i: int| 0 <= i < old_entries.len() && #[trigger] old_entries[i].0@ == q;
                        assert(entries@[i].0@ == q);
                    }
                }
                assert forall|q: Seq<char>| #[trigger] pairs_map(entries@).contains_key(q) implies
                    pairs_map(entries@)[q] == pairs_map(old_entries).insert(k, v)[q] by {
                    let i = choose|i: int| 0 <= i < entries@.len() && #[trigger] entries@[i].0@ == q;
                    if i != p {
                        assert(old_entries[i] == entries@[i]);
                        assert(q != k);
                    }
                }
                assert(pairs_map(entries@) =~= pairs_map(old_entries).insert(k, v));
            }
        } else {
            entries.insert(p, (key, value));
            proof {
                assert(entries@[p as int].0@ == k);
                if p < old_entries.len() {
                    lemma_key_before_total(old_entries[p as int].0@, k);
                }
                assert forall|i: int, j: int| 0 <= i < j < entries@.len() implies
                    key_before(#[trigger] entries@[i].0@, #[trigger] entries@[j].0@) by {
                    if j == p {
                        assert(entries@[i] == old_entries[i]);
                    } else if i == p {
                        assert(entries@[j] == old_entries[j - 1]);
                        if j - 1 > p {
                            lemma_key_before_transitive(k, old_entries[p as int].0@, old_entries[j - 1].0@);
                        }
                    } else if j < p {
                        assert(entries@[i] == old_entries[i] && entries@[j] == old_entries[j]);
                    } else if i < p {
                        assert(entries@[i] == old_entries[i] && entries@[j] == old_entries[j - 1]);
                    } else {
                        assert(entries@[i] == old_entries[i - 1] && entries@[j] == old_entries[j - 1]);
                    }
                }
                lemma_increasing_distinct(entries@);
                lemma_pairs_map_distinct(entries@);
                assert forall|q: Seq<char>| #[trigger] pairs_map(entries@).contains_key(q)
                    == pairs_map(old_entries).insert(k, v).contains_key(q) by {
                    if has_key(entries@, q) {
                        let i = choose|i: int| 0 <= i < entries@.len() && #[trigger] entries@[i].0@ == q;
                        if i < p {
                            assert(entries@[i] == old_entries[i]);
                        } else if i > p {
                            assert(entries@[i] == old_entries[i - 1]);
                        }
                    }
                    if has_key(old_entries, q) {
                        let i = choose|i: int| 0 <= i < old_entries.len() && #[trigger] old_entries[i].0@ == q;
                        if i < p {
                            assert(entries@[i] == old_entries[i]);
                        } else {
                            assert(entries@[i + 1] == old_entries[i]);
                        }
                    }
                    assert(has_key(entries@, k)) by {
                        assert(entries@[p as int].0@ == k);
                    }
                }
                assert forall|q: Seq<char>| #[trigger] pairs_map(entries@).contains_key(q) implies
                    pairs_map(entries@)[q] == pairs_map(old_entries).insert(k, v)[q] by {
                    let i = choose|i: int| 0 <= i < entries@.len() && #[trigger] entries@[i].0@ == q;
                    if i < p {
                        assert(entries@[i] == old_entries[i]);
                        lemma_key_before_irreflexive(k);
                    } else if i > p {
                        assert(entries@[i] == old_entries[i - 1]);
                        lemma_key_before_irreflexive(k);
                        if i - 1 > p {
                            lemma_key_before_transitive(k, old_entries[p as int].0@, old_entries[i - 1].0@);
                        }
                    }
                }
                assert(pairs_map(entries@) =~= pairs_map(old_entries).insert(k, v));
            }
        }
        self.entries = entries;
    }

    /// The value of `key`, if the map has it.
    pub fn get(&self, key: &str) -> (r: Option<String>)
        ensures
            match r {
                Some(v) => self@.contains_key(key@) && self@[key@] == v@,
                None => !self@.contains_key(key@),
            },
    {
        proof {
            use_type_invariant(self);
            lemma_increasing_distinct(self.entries@);
            lemma_pairs_map_distinct(self.entries@);
        }
        let target = String::from_str(key);
        let mut i: usize = 0;
        while i < self.entries.len()
            invariant
                i <= self.entries@.len(),
                target@ == key@,
                forall|j: int| 0 <= j < i ==> #[trigger] self.entries@[j].0@ != key@,
            decreases self.entries@.len() - i,
        {
            if self.entries[i].0 == target {
                proof {
                    use_type_invariant(self);
                    lemma_increasing_distinct(self.entries@);
                    lemma_pairs_map_distinct(self.entries@);
                }
                return Some(self.entries[i].1.clone());
            }
            i = i + 1;
        }
        None
    }

    /// Whether the map has no key.
    pub fn is_empty(&self) -> (b: bool)
        ensures
            b == (self@ == Map::<Seq<char>, Seq<char>>::empty()),
    {
        proof {
            if self.entries@.len() > 0 {
                use_type_invariant(self);
                lemma_increasing_distinct(self.entries@);
                lemma_pairs_map_distinct(self.entries@);
                assert(self@.contains_key(self.entries@[0].0@));
                assert(!Map::<Seq<char>, Seq<char>>::empty().contains_key(self.entries@[0].0@));
            } else {
                assert(self@ =~= Map::<Seq<char>, Seq<char>>::empty());
            }
        }
        self.entries.len() == 0
    }

    /// The entries in increasing key order, each key once; they hold
    /// exactly the keys and values of the map.
    pub fn entries(&self) -> (r: &Vec<(String, String)>)
        ensures
            keys_increasing(r@),
            forall|k: Seq<char>| #[trigger] self@.contains_key(k) == has_key(r@, k),
            forall|i: int| 0 <= i < r@.len() ==> self@[#[trigger] r@[i].0@] == r@[i].1@,
    {
        proof {
            use_type_invariant(self);
            lemma_increasing_distinct(self.entries@);
            lemma_pairs_map_distinct(self.entries@);
        }
        &self.entries
    }
}

} // verus!
