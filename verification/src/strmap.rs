//! Maps keyed by strings, kept in key order: the tables of manifests,
//! locks, registries and profiles.
//!
//! Keys are ordered character by character by code point, which is the
//! order of their UTF-8 bytes.

use vstd::prelude::*;
use crate::text::chars_of;

verus! {

/// `a` comes before `b` in code-point lexicographic order.
pub open spec fn seq_lt(a: Seq<char>, b: Seq<char>) -> bool
    decreases a.len(),
{
    if a.len() == 0 {
        b.len() > 0
    } else if b.len() == 0 {
        false
    } else if a[0] != b[0] {
        (a[0] as u32) < (b[0] as u32)
    } else {
        seq_lt(a.drop_first(), b.drop_first())
    }
}

/// Nothing comes before itself.
pub proof fn lemma_lt_irreflexive(a: Seq<char>)
    ensures
        !seq_lt(a, a),
    decreases a.len(),
{
    if a.len() > 0 {
        lemma_lt_irreflexive(a.drop_first());
    }
}

/// The order is transitive.
pub proof fn lemma_lt_transitive(a: Seq<char>, b: Seq<char>, c: Seq<char>)
    requires
        seq_lt(a, b),
        seq_lt(b, c),
    ensures
        seq_lt(a, c),
    decreases a.len(),
{
    if a.len() > 0 && b.len() > 0 && c.len() > 0 {
        if a[0] == b[0] && b[0] == c[0] {
            lemma_lt_transitive(a.drop_first(), b.drop_first(), c.drop_first());
        }
    }
}

/// Two different texts are ordered one way or the other.
pub proof fn lemma_lt_total(a: Seq<char>, b: Seq<char>)
    ensures
        a == b || seq_lt(a, b) || seq_lt(b, a),
    decreases a.len(),
{
    if a.len() > 0 && b.len() > 0 {
        if a[0] == b[0] {
            lemma_lt_total(a.drop_first(), b.drop_first());
            if a.drop_first() == b.drop_first() {
                assert(a =~= seq![a[0]] + a.drop_first());
                assert(b =~= seq![b[0]] + b.drop_first());
            }
        } else {
            vstd::utf8::char_u32_cast(a[0], a[0] as u32);
            vstd::utf8::char_u32_cast(b[0], b[0] as u32);
        }
    } else if a.len() == 0 && b.len() == 0 {
        assert(a =~= b);
    }
}

/// Compares two texts: `-1`, `0` or `1` as `a` comes before, equals or
/// comes after `b`.
pub fn compare(a: &[char], b: &[char]) -> (r: i8)
    ensures
        r == 0 <==> a@ == b@,
        r < 0 <==> seq_lt(a@, b@),
        r > 0 <==> seq_lt(b@, a@),
{
    proof {
        lemma_lt_total(a@, b@);
        lemma_lt_irreflexive(a@);
        assert(a@.skip(0) =~= a@);
        assert(b@.skip(0) =~= b@);
        assert(a@.take(0) =~= b@.take(0));
    }
    let mut i: usize = 0;
    while i < a.len() && i < b.len()
        invariant
            0 <= i <= a@.len(),
            i <= b@.len(),
            a@.take(i as int) == b@.take(i as int),
            seq_lt(a@, b@) == seq_lt(a@.skip(i as int), b@.skip(i as int)),
            seq_lt(b@, a@) == seq_lt(b@.skip(i as int), a@.skip(i as int)),
        decreases a@.len() - i,
    {
        if a[i] != b[i] {
            proof {
                assert(a@.skip(i as int)[0] == a@[i as int]);
                assert(b@.skip(i as int)[0] == b@[i as int]);
                if a@ == b@ {
                    assert(a@[i as int] == b@[i as int]);
                }
                vstd::utf8::char_u32_cast(a@[i as int], a@[i as int] as u32);
                vstd::utf8::char_u32_cast(b@[i as int], b@[i as int] as u32);
            }
            if (a[i] as u32) < (b[i] as u32) {
                return -1;
            } else {
                return 1;
            }
        }
        proof {
            assert(a@.skip(i as int).drop_first() =~= a@.skip(i + 1));
            assert(b@.skip(i as int).drop_first() =~= b@.skip(i + 1));
            assert(a@.take(i + 1) =~= a@.take(i as int).push(a@[i as int]));
            assert(b@.take(i + 1) =~= b@.take(i as int).push(b@[i as int]));
        }
        i = i + 1;
    }
    proof {
        if i == a.len() {
            assert(a@.take(i as int) =~= a@);
        }
        if i == b.len() {
            assert(b@.take(i as int) =~= b@);
        }
        if a@.len() == b@.len() {
            assert(a@ =~= b@);
        }
    }
    if a.len() == b.len() {
        0
    } else if a.len() < b.len() {
        -1
    } else {
        1
    }
}

/// Keys strictly increasing.
pub open spec fn sorted_keys<V>(s: Seq<(Seq<char>, V)>) -> bool {
    forall|i: int, j: int| 0 <= i < j < s.len() ==> seq_lt(#[trigger] s[i].0, #[trigger] s[j].0)
}

/// `k` is a key of the entries.
pub open spec fn has_key<V>(s: Seq<(Seq<char>, V)>, k: Seq<char>) -> bool {
    exists|i: int| 0 <= i < s.len() && (#[trigger] s[i]).0 == k
}

/// The entries as a map.
pub open spec fn as_map<V>(s: Seq<(Seq<char>, V)>) -> Map<Seq<char>, V> {
    Map::new(
        |k: Seq<char>| has_key(s, k),
        |k: Seq<char>| s[choose|i: int| 0 <= i < s.len() && (#[trigger] s[i]).0 == k].1,
    )
}

/// The keys, in order.
pub open spec fn keys_of<V>(s: Seq<(Seq<char>, V)>) -> Seq<Seq<char>> {
    Seq::new(s.len(), |i: int| s[i].0)
}

/// In sorted entries, the map holds the value at each entry's key.
pub proof fn lemma_as_map_at<V>(s: Seq<(Seq<char>, V)>, i: int)
    requires
        sorted_keys(s),
        0 <= i < s.len(),
    ensures
        as_map(s).contains_key(s[i].0),
        as_map(s)[s[i].0] == s[i].1,
{
    assert(has_key(s, s[i].0));
    let j = choose|j: int| 0 <= j < s.len() && (#[trigger] s[j]).0 == s[i].0;
    if j < i {
        lemma_lt_irreflexive(s[i].0);
    } else if j > i {
        lemma_lt_irreflexive(s[i].0);
    }
}

/// The map of a prefix grows by the next entry.
pub proof fn lemma_take_push_map<V>(s: Seq<(Seq<char>, V)>, i: int)
    requires
        sorted_keys(s),
        0 <= i < s.len(),
    ensures
        sorted_keys(s.take(i + 1)),
        as_map(s.take(i + 1)) == as_map(s.take(i)).insert(s[i].0, s[i].1),
        !as_map(s.take(i)).contains_key(s[i].0),
{
    let t = s.take(i);
    let u = s.take(i + 1);
    assert(u =~= t.insert(i, s[i]));
    assert forall|j: int| 0 <= j < i implies seq_lt(#[trigger] t[j].0, s[i].0) by {
        assert(t[j] == s[j]);
    }
    assert forall|j: int| i <= j < t.len() implies seq_lt(s[i].0, #[trigger] t[j].0) by {}
    lemma_map_insert(t, i, s[i].0, s[i].1);
}

/// A map from strings to values, iterated in key order.
#[derive(Debug)]
pub struct StrMap<V> {
    entries: Vec<(String, V)>,
}

impl<V> View for StrMap<V> {
    type V = Seq<(Seq<char>, V)>;

    closed spec fn view(&self) -> Seq<(Seq<char>, V)> {
        Seq::new(self.entries@.len(), |i: int| (self.entries@[i].0@, self.entries@[i].1))
    }
}

impl<V> StrMap<V> {
    #[verifier::type_invariant]
    closed spec fn inv(self) -> bool {
        sorted_keys(self@)
    }

    /// An empty map.
    pub fn new() -> (m: Self)
        ensures
            m@ == Seq::<(Seq<char>, V)>::empty(),
    {
        let m = StrMap { entries: Vec::new() };
        assert(m@ =~= Seq::<(Seq<char>, V)>::empty());
        m
    }

    /// The entries are in strictly increasing key order.
    pub fn len(&self) -> (n: usize)
        ensures
            n == self@.len(),
            sorted_keys(self@),
    {
        proof {
            use_type_invariant(self);
        }
        self.entries.len()
    }

    /// The key of the `i`-th entry.
    pub fn key_at(&self, i: usize) -> (k: &String)
        requires
            i < self@.len(),
        ensures
            k@ == self@[i as int].0,
    {
        &self.entries[i].0
    }

    /// The value of the `i`-th entry.
    pub fn value_at(&self, i: usize) -> (v: &V)
        requires
            i < self@.len(),
        ensures
            *v == self@[i as int].1,
    {
        &self.entries[i].1
    }

    /// The index of key `k`, if present.
    pub fn index_of(&self, k: &str) -> (r: Option<usize>)
        ensures
            sorted_keys(self@),
            r matches Some(i) ==> i < self@.len() && self@[i as int].0 == k@,
            r is None ==> !has_key(self@, k@),
    {
        proof {
            use_type_invariant(self);
        }
        let kc = chars_of(k);
        let mut i: usize = 0;
        while i < self.entries.len()
            invariant
                0 <= i <= self@.len(),
                self@.len() == self.entries@.len(),
                kc@ == k@,
                sorted_keys(self@),
                forall|j: int| 0 <= j < i ==> (#[trigger] self@[j]).0 != k@,
            decreases self@.len() - i,
        {
            let ec = chars_of(self.entries[i].0.as_str());
            assert(ec@ == self@[i as int].0);
            if compare(ec.as_slice(), kc.as_slice()) == 0 {
                return Some(i);
            }
            i = i + 1;
        }
        None
    }

    /// The value at key `k`.
    pub fn get(&self, k: &str) -> (r: Option<&V>)
        ensures
            sorted_keys(self@),
            r matches Some(v) ==> as_map(self@).contains_key(k@) && as_map(self@)[k@] == *v,
            r is None ==> !as_map(self@).contains_key(k@),
    {
        match self.index_of(k) {
            Some(i) => {
                proof {
                    lemma_as_map_at(self@, i as int);
                }
                Some(&self.entries[i].1)
            },
            None => None,
        }
    }

    /// Whether `k` is a key.
    pub fn contains_key(&self, k: &str) -> (b: bool)
        ensures
            b == as_map(self@).contains_key(k@),
    {
        self.index_of(k).is_some()
    }

    /// The keys, in order.
    pub fn keys(&self) -> (ks: Vec<String>)
        ensures
            crate::text::views(ks@) == keys_of(self@),
            sorted_keys(self@),
    {
        proof {
            use_type_invariant(self);
        }
        let mut ks: Vec<String> = Vec::new();
        let mut i: usize = 0;
        while i < self.entries.len()
            invariant
                0 <= i <= self@.len(),
                self@.len() == self.entries@.len(),
                crate::text::views(ks@) == keys_of(self@).take(i as int),
            decreases self@.len() - i,
        {
            let k = self.entries[i].0.clone();
            assert(k@ == self@[i as int].0);
            let ghost before = ks@;
            ks.push(k);
            proof {
                assert(crate::text::views(ks@) =~= crate::text::views(before).push(k@));
                assert(keys_of(self@).take(i + 1) =~= keys_of(self@).take(i as int).push(
                    self@[i as int].0,
                ));
            }
            i = i + 1;
        }
        proof {
            assert(keys_of(self@).take(i as int) =~= keys_of(self@));
        }
        ks
    }

    /// Sets the value at key `k`, replacing the value it had.
    pub fn insert(&mut self, k: String, v: V)
        ensures
            sorted_keys(final(self)@),
            as_map(final(self)@) == as_map(old(self)@).insert(k@, v),
            has_key(old(self)@, k@) ==> final(self)@.len() == old(self)@.len(),
            !has_key(old(self)@, k@) ==> final(self)@.len() == old(self)@.len() + 1,
    {
        proof {
            use_type_invariant(&*self);
        }
        let ghost s0 = self@;
        let kc = chars_of(k.as_str());
        let mut i: usize = 0;
        while i < self.entries.len() && compare(
            chars_of(self.entries[i].0.as_str()).as_slice(),
            kc.as_slice(),
        ) < 0
            invariant
                0 <= i <= s0.len(),
                self@ == s0,
                s0.len() == self.entries@.len(),
                kc@ == k@,
                sorted_keys(s0),
                forall|j: int| 0 <= j < i ==> seq_lt(#[trigger] s0[j].0, k@),
            decreases s0.len() - i,
        {
            i = i + 1;
        }
        // Every key at or after `i` is not before `k`.
        proof {
            assert forall|j: int| i <= j < s0.len() implies !seq_lt(#[trigger] s0[j].0, k@) by {
                if j > i {
                    if seq_lt(s0[j].0, k@) {
                        lemma_lt_transitive(s0[i as int].0, s0[j].0, k@);
                    }
                }
            }
        }
        let same = i < self.entries.len() && compare(
            chars_of(self.entries[i].0.as_str()).as_slice(),
            kc.as_slice(),
        ) == 0;
        let mut entries: Vec<(String, V)> = Vec::new();
        std::mem::swap(&mut entries, &mut self.entries);
        assert(entries@.len() == s0.len());
        if same {
            let _ = entries.remove(i);
            entries.insert(i, (k, v));
            proof {
                lemma_map_update(s0, i as int, v);
            }
        } else {
            proof {
                assert forall|j: int| i <= j < s0.len() implies seq_lt(k@, #[trigger] s0[j].0) by {
                    lemma_lt_total(s0[j].0, k@);
                    if j > i {
                        assert(seq_lt(s0[i as int].0, s0[j].0));
                        assert(!seq_lt(s0[i as int].0, k@));
                    }
                }
            }
            entries.insert(i, (k, v));
            proof {
                lemma_map_insert(s0, i as int, k@, v);
            }
        }
        proof {
            let t = Seq::new(entries@.len(), |j: int| (entries@[j].0@, entries@[j].1));
            if same {
                assert(t =~= s0.update(i as int, (k@, v)));
            } else {
                assert(t =~= s0.insert(i as int, (k@, v)));
            }
        }
        self.entries = entries;
    }

    /// Removes key `k`, giving back its value.
    pub fn remove(&mut self, k: &str) -> (r: Option<V>)
        ensures
            sorted_keys(final(self)@),
            as_map(final(self)@) == as_map(old(self)@).remove(k@),
            r matches Some(v) ==> as_map(old(self)@).contains_key(k@) && as_map(old(self)@)[k@]
                == v,
            r is None ==> !as_map(old(self)@).contains_key(k@),
    {
        proof {
            use_type_invariant(&*self);
        }
        let ghost s0 = self@;
        match self.index_of(k) {
            None => {
                proof {
                    assert(as_map(s0).remove(k@) =~= as_map(s0));
                }
                None
            },
            Some(i) => {
                proof {
                    lemma_as_map_at(s0, i as int);
                }
                let mut entries: Vec<(String, V)> = Vec::new();
                std::mem::swap(&mut entries, &mut self.entries);
                let (_, v) = entries.remove(i);
                proof {
                    lemma_map_remove(s0, i as int);
                    let t = Seq::new(entries@.len(), |j: int| (entries@[j].0@, entries@[j].1));
                    assert(t =~= s0.remove(i as int));
                }
                self.entries = entries;
                Some(v)
            },
        }
    }

    /// Removes every entry.
    pub fn clear(&mut self)
        ensures
            final(self)@ == Seq::<(Seq<char>, V)>::empty(),
    {
        self.entries = Vec::new();
        assert(self@ =~= Seq::<(Seq<char>, V)>::empty());
    }
}

/// Replacing the value of an entry.
proof fn lemma_map_update<V>(s: Seq<(Seq<char>, V)>, i: int, v: V)
    requires
        sorted_keys(s),
        0 <= i < s.len(),
    ensures
        sorted_keys(s.update(i, (s[i].0, v))),
        as_map(s.update(i, (s[i].0, v))) == as_map(s).insert(s[i].0, v),
{
    let t = s.update(i, (s[i].0, v));
    assert forall|a: int, b: int| 0 <= a < b < t.len() implies seq_lt(
        #[trigger] t[a].0,
        #[trigger] t[b].0,
    ) by {
        assert(t[a].0 == s[a].0 && t[b].0 == s[b].0);
    }
    assert forall|k2: Seq<char>| #[trigger] has_key(t, k2) == has_key(s, k2) by {
        if has_key(t, k2) {
            let j = choose|j: int| 0 <= j < t.len() && (#[trigger] t[j]).0 == k2;
            assert(s[j].0 == k2);
        }
        if has_key(s, k2) {
            let j = choose|j: int| 0 <= j < s.len() && (#[trigger] s[j]).0 == k2;
            assert(t[j].0 == k2);
        }
    }
    assert forall|k2: Seq<char>| #[trigger] as_map(t).contains_key(k2) implies as_map(t)[k2]
        == as_map(s).insert(s[i].0, v)[k2] by {
        let j = choose|j: int| 0 <= j < t.len() && (#[trigger] t[j]).0 == k2;
        lemma_as_map_at(t, j);
        lemma_as_map_at(s, j);
        if j < i {
            assert(seq_lt(s[j].0, s[i].0));
            lemma_lt_irreflexive(s[i].0);
        } else if j > i {
            assert(seq_lt(s[i].0, s[j].0));
            lemma_lt_irreflexive(s[i].0);
        }
    }
    assert(as_map(t) =~= as_map(s).insert(s[i].0, v));
}

/// Inserting a new key at its place.
proof fn lemma_map_insert<V>(s: Seq<(Seq<char>, V)>, i: int, k: Seq<char>, v: V)
    requires
        sorted_keys(s),
        0 <= i <= s.len(),
        forall|j: int| 0 <= j < i ==> seq_lt(#[trigger] s[j].0, k),
        forall|j: int| i <= j < s.len() ==> seq_lt(k, #[trigger] s[j].0),
    ensures
        sorted_keys(s.insert(i, (k, v))),
        as_map(s.insert(i, (k, v))) == as_map(s).insert(k, v),
        !has_key(s, k),
{
    let t = s.insert(i, (k, v));
    assert forall|a: int, b: int| 0 <= a < b < t.len() implies seq_lt(
        #[trigger] t[a].0,
        #[trigger] t[b].0,
    ) by {
        if b < i {
        } else if b == i {
        } else if a < i {
            assert(t[b].0 == s[b - 1].0);
            lemma_lt_transitive(t[a].0, k, t[b].0);
        } else if a == i {
            assert(t[b].0 == s[b - 1].0);
        } else {
            assert(t[a].0 == s[a - 1].0);
            assert(t[b].0 == s[b - 1].0);
        }
    }
    assert forall|j: int| 0 <= j < s.len() implies (#[trigger] s[j]).0 != k by {
        lemma_lt_irreflexive(k);
    }
    assert forall|k2: Seq<char>| #[trigger] has_key(t, k2) == (has_key(s, k2) || k2 == k) by {
        if has_key(t, k2) {
            let j = choose|j: int| 0 <= j < t.len() && (#[trigger] t[j]).0 == k2;
            if j < i {
                assert(s[j].0 == k2);
            } else if j > i {
                assert(s[j - 1].0 == k2);
            }
        }
        if has_key(s, k2) {
            let j = choose|j: int| 0 <= j < s.len() && (#[trigger] s[j]).0 == k2;
            if j < i {
                assert(t[j].0 == k2);
            } else {
                assert(t[j + 1].0 == k2);
            }
        }
        if k2 == k {
            assert(t[i].0 == k2);
        }
    }
    assert forall|k2: Seq<char>| #[trigger] as_map(t).contains_key(k2) implies as_map(t)[k2]
        == as_map(s).insert(k, v)[k2] by {
        let j = choose|j: int| 0 <= j < t.len() && (#[trigger] t[j]).0 == k2;
        lemma_as_map_at(t, j);
        if j < i {
            lemma_as_map_at(s, j);
        } else if j > i {
            lemma_as_map_at(s, j - 1);
        }
    }
    assert(as_map(t) =~= as_map(s).insert(k, v));
}

/// Removing an entry.
proof fn lemma_map_remove<V>(s: Seq<(Seq<char>, V)>, i: int)
    requires
        sorted_keys(s),
        0 <= i < s.len(),
    ensures
        sorted_keys(s.remove(i)),
        as_map(s.remove(i)) == as_map(s).remove(s[i].0),
{
    let t = s.remove(i);
    let k = s[i].0;
    assert forall|a: int, b: int| 0 <= a < b < t.len() implies seq_lt(
        #[trigger] t[a].0,
        #[trigger] t[b].0,
    ) by {
        let a2 = if a < i { a } else { a + 1 };
        let b2 = if b < i { b } else { b + 1 };
        assert(t[a].0 == s[a2].0);
        assert(t[b].0 == s[b2].0);
    }
    assert forall|k2: Seq<char>| #[trigger] has_key(t, k2) == (has_key(s, k2) && k2 != k) by {
        if has_key(t, k2) {
            let j = choose|j: int| 0 <= j < t.len() && (#[trigger] t[j]).0 == k2;
            let j2 = if j < i { j } else { j + 1 };
            assert(s[j2].0 == k2);
            lemma_lt_irreflexive(k);
        }
        if has_key(s, k2) && k2 != k {
            let j = choose|j: int| 0 <= j < s.len() && (#[trigger] s[j]).0 == k2;
            if j < i {
                assert(t[j].0 == k2);
            } else {
                assert(t[j - 1].0 == k2);
            }
        }
    }
    assert forall|k2: Seq<char>| #[trigger] as_map(t).contains_key(k2) implies as_map(t)[k2]
        == as_map(s).remove(k)[k2] by {
        let j = choose|j: int| 0 <= j < t.len() && (#[trigger] t[j]).0 == k2;
        lemma_as_map_at(t, j);
        let j2 = if j < i { j } else { j + 1 };
        assert(s[j2] == t[j]);
        lemma_as_map_at(s, j2);
    }
    assert(as_map(t) =~= as_map(s).remove(k));
}

} // verus!
