//! Ordered string-keyed maps.
//!
//! Keys are kept unique and in ascending lexicographic order, so iteration
//! visits entries in the order a `BTreeMap<String, _>` would.
use vstd::prelude::*;
use crate::text::{
    chars_lt, lemma_chars_lt_asymmetric, lemma_chars_lt_irreflexive, lemma_chars_lt_total,
    lemma_chars_lt_transitive, str_equal, str_less,
};

verus! {

/// Keys strictly ascending.
pub open spec fn keys_ascend<V>(s: Seq<(Seq<char>, V)>) -> bool {
    forall|i: int, j: int| 0 <= i < j < s.len() ==> chars_lt(#[trigger] s[i].0, #[trigger] s[j].0)
}

/// The value stored under `k`, if any (the first entry with that key).
pub open spec fn lookup<V>(s: Seq<(Seq<char>, V)>, k: Seq<char>) -> Option<V>
    decreases s.len(),
{
    if s.len() == 0 {
        None
    } else if s[0].0 == k {
        Some(s[0].1)
    } else {
        lookup(s.drop_first(), k)
    }
}

/// Insertion into an ascending association list: an entry with an equal key
/// has its value replaced in place, otherwise the entry goes before the first
/// greater key.
pub open spec fn sorted_insert<V>(s: Seq<(Seq<char>, V)>, k: Seq<char>, v: V) -> Seq<(Seq<char>, V)>
    decreases s.len(),
{
    if s.len() == 0 {
        seq![(k, v)]
    } else if s[0].0 == k {
        seq![(k, v)] + s.drop_first()
    } else if chars_lt(k, s[0].0) {
        seq![(k, v)] + s
    } else {
        seq![s[0]] + sorted_insert(s.drop_first(), k, v)
    }
}

/// Inserting every entry of `t`, in order, into `s`.
pub open spec fn insert_all<V>(s: Seq<(Seq<char>, V)>, t: Seq<(Seq<char>, V)>) -> Seq<(Seq<char>, V)>
    decreases t.len(),
{
    if t.len() == 0 {
        s
    } else {
        insert_all(sorted_insert(s, t[0].0, t[0].1), t.drop_first())
    }
}

pub proof fn lemma_lookup_index<V>(s: Seq<(Seq<char>, V)>, k: Seq<char>, i: int)
    requires
        0 <= i < s.len(),
        s[i].0 == k,
        forall|j: int| 0 <= j < i ==> s[j].0 != k,
    ensures
        lookup(s, k) == Some(s[i].1),
    decreases i,
{
    if i > 0 {
        lemma_lookup_index(s.drop_first(), k, i - 1);
    }
}

pub proof fn lemma_lookup_absent<V>(s: Seq<(Seq<char>, V)>, k: Seq<char>)
    requires
        forall|j: int| 0 <= j < s.len() ==> s[j].0 != k,
    ensures
        lookup(s, k) is None,
    decreases s.len(),
{
    if s.len() > 0 {
        lemma_lookup_absent(s.drop_first(), k);
    }
}

/// In an ascending list, `lookup` finds the entry with the key, wherever it is.
/// `sorted_insert` at the first position whose key is not below `k`.
pub proof fn lemma_sorted_insert_at<V>(s: Seq<(Seq<char>, V)>, k: Seq<char>, v: V, i: int)
    requires
        0 <= i <= s.len(),
        forall|j: int| 0 <= j < i ==> chars_lt(#[trigger] s[j].0, k),
        i < s.len() ==> !chars_lt(s[i].0, k),
    ensures
        i < s.len() && s[i].0 == k ==> sorted_insert(s, k, v) == s.update(i, (k, v)),
        !(i < s.len() && s[i].0 == k) ==> sorted_insert(s, k, v) == s.insert(i, (k, v)),
    decreases i,
{
    if i == 0 {
        if s.len() > 0 {
            if s[0].0 == k {
                assert(seq![(k, v)] + s.drop_first() =~= s.update(0, (k, v)));
            } else {
                lemma_chars_lt_total(k, s[0].0);
                assert(seq![(k, v)] + s =~= s.insert(0, (k, v)));
            }
        } else {
            assert(seq![(k, v)] =~= s.insert(0, (k, v)));
        }
    } else {
        let t = s.drop_first();
        assert(chars_lt(s[0].0, k));
        lemma_chars_lt_irreflexive(k);
        lemma_chars_lt_asymmetric(s[0].0, k);
        assert forall|j: int| 0 <= j < i - 1 implies chars_lt(#[trigger] t[j].0, k) by {
            assert(t[j] == s[j + 1]);
        }
        lemma_sorted_insert_at(t, k, v, i - 1);
        if i < s.len() && s[i].0 == k {
            assert(seq![s[0]] + t.update(i - 1, (k, v)) =~= s.update(i, (k, v)));
        } else {
            assert(seq![s[0]] + t.insert(i - 1, (k, v)) =~= s.insert(i, (k, v)));
        }
    }
}

/// `sorted_insert` keeps keys ascending and adds no key below a common lower bound.
pub proof fn lemma_sorted_insert_ascends<V>(s: Seq<(Seq<char>, V)>, k: Seq<char>, v: V)
    requires
        keys_ascend(s),
    ensures
        keys_ascend(sorted_insert(s, k, v)),
        forall|lo: Seq<char>|
            chars_lt(lo, k) && (forall|i: int| 0 <= i < s.len() ==> chars_lt(lo, #[trigger] s[i].0))
                ==> (forall|j: int|
                0 <= j < sorted_insert(s, k, v).len() ==> chars_lt(lo, #[trigger] sorted_insert(s, k, v)[j].0)),
    decreases s.len(),
{
    let r = sorted_insert(s, k, v);
    if s.len() == 0 {
    } else if s[0].0 == k {
        assert forall|i: int, j: int| 0 <= i < j < r.len() implies chars_lt(#[trigger] r[i].0, #[trigger] r[j].0) by {
            assert(r[i].0 == s[i].0);
            assert(r[j].0 == s[j].0);
        }
        assert forall|lo: Seq<char>|
            chars_lt(lo, k) && (forall|i: int| 0 <= i < s.len() ==> chars_lt(lo, #[trigger] s[i].0))
            implies (forall|j: int| 0 <= j < r.len() ==> chars_lt(lo, #[trigger] r[j].0)) by {
            assert forall|j: int| 0 <= j < r.len() implies chars_lt(lo, #[trigger] r[j].0) by {
                assert(r[j].0 == s[j].0);
            }
        }
    } else if chars_lt(k, s[0].0) {
        assert forall|i: int, j: int| 0 <= i < j < r.len() implies chars_lt(#[trigger] r[i].0, #[trigger] r[j].0) by {
            if i == 0 {
                assert(r[j].0 == s[j - 1].0);
                if j - 1 > 0 {
                    lemma_chars_lt_transitive(k, s[0].0, s[j - 1].0);
                }
            } else {
                assert(r[i].0 == s[i - 1].0);
                assert(r[j].0 == s[j - 1].0);
            }
        }
        assert forall|lo: Seq<char>|
            chars_lt(lo, k) && (forall|i: int| 0 <= i < s.len() ==> chars_lt(lo, #[trigger] s[i].0))
            implies (forall|j: int| 0 <= j < r.len() ==> chars_lt(lo, #[trigger] r[j].0)) by {
            assert forall|j: int| 0 <= j < r.len() implies chars_lt(lo, #[trigger] r[j].0) by {
                if j > 0 {
                    assert(r[j].0 == s[j - 1].0);
                }
            }
        }
    } else {
        let t = s.drop_first();
        let rt = sorted_insert(t, k, v);
        assert(keys_ascend(t)) by {
            assert forall|i: int, j: int| 0 <= i < j < t.len() implies chars_lt(#[trigger] t[i].0, #[trigger] t[j].0) by {
                assert(t[i] == s[i + 1]);
                assert(t[j] == s[j + 1]);
            }
        }
        lemma_sorted_insert_ascends(t, k, v);
        lemma_chars_lt_total(k, s[0].0);
        assert(chars_lt(s[0].0, k));
        assert forall|i: int| 0 <= i < t.len() implies chars_lt(s[0].0, #[trigger] t[i].0) by {
            assert(t[i] == s[i + 1]);
        }
        assert(forall|j: int| 0 <= j < rt.len() ==> chars_lt(s[0].0, #[trigger] rt[j].0));
        assert(r == seq![s[0]] + rt);
        assert forall|i: int, j: int| 0 <= i < j < r.len() implies chars_lt(#[trigger] r[i].0, #[trigger] r[j].0) by {
            assert(r[j] == rt[j - 1]);
            if i > 0 {
                assert(r[i] == rt[i - 1]);
            }
        }
        assert forall|lo: Seq<char>|
            chars_lt(lo, k) && (forall|i: int| 0 <= i < s.len() ==> chars_lt(lo, #[trigger] s[i].0))
            implies (forall|j: int| 0 <= j < r.len() ==> chars_lt(lo, #[trigger] r[j].0)) by {
            assert forall|i: int| 0 <= i < t.len() implies chars_lt(lo, #[trigger] t[i].0) by {
                assert(t[i] == s[i + 1]);
            }
            assert forall|j: int| 0 <= j < r.len() implies chars_lt(lo, #[trigger] r[j].0) by {
                if j > 0 {
                    assert(r[j] == rt[j - 1]);
                }
            }
        }
    }
}

/// After `sorted_insert`, the key maps to the inserted value.
pub proof fn lemma_sorted_insert_lookup<V>(s: Seq<(Seq<char>, V)>, k: Seq<char>, v: V)
    ensures
        lookup(sorted_insert(s, k, v), k) == Some(v),
    decreases s.len(),
{
    if s.len() > 0 && s[0].0 != k && !chars_lt(k, s[0].0) {
        lemma_sorted_insert_lookup(s.drop_first(), k, v);
        assert(sorted_insert(s, k, v).drop_first() == sorted_insert(s.drop_first(), k, v));
    }
}

/// `sorted_insert` leaves the value of every other key unchanged.
pub proof fn lemma_sorted_insert_other<V>(s: Seq<(Seq<char>, V)>, k: Seq<char>, v: V, k2: Seq<char>)
    requires
        k2 != k,
    ensures
        lookup(sorted_insert(s, k, v), k2) == lookup(s, k2),
    decreases s.len(),
{
    let r = sorted_insert(s, k, v);
    if s.len() == 0 {
        assert(r.drop_first() =~= s);
    } else if s[0].0 == k {
        assert(r.drop_first() =~= s.drop_first());
    } else if chars_lt(k, s[0].0) {
        assert(r.drop_first() =~= s);
    } else {
        lemma_sorted_insert_other(s.drop_first(), k, v, k2);
        assert(r.drop_first() =~= sorted_insert(s.drop_first(), k, v));
    }
}

pub closed spec fn pairs_view(v: Seq<(String, String)>) -> Seq<(Seq<char>, Seq<char>)> {
    Seq::new(v.len(), |i: int| (v[i].0@, v[i].1@))
}

/// A string-to-string map with keys kept in ascending order.
#[derive(Debug, PartialEq, Eq)]
pub struct StringMap {
    pub(crate) entries: Vec<(String, String)>,
}

impl View for StringMap {
    type V = Seq<(Seq<char>, Seq<char>)>;

    closed spec fn view(&self) -> Seq<(Seq<char>, Seq<char>)> {
        pairs_view(self.entries@)
    }
}

impl StringMap {
    #[verifier::type_invariant]
    pub(crate) closed spec fn keys_in_order(&self) -> bool {
        keys_ascend(self@)
    }

    /// An empty map.
    pub fn new() -> (m: Self)
        ensures
            m@ == Seq::<(Seq<char>, Seq<char>)>::empty(),
    {
        let m = StringMap { entries: Vec::new() };
        assert(m@ =~= Seq::<(Seq<char>, Seq<char>)>::empty());
        m
    }

    /// Number of entries; the keys ascend strictly (and are therefore unique).
    pub fn len(&self) -> (n: usize)
        ensures
            n == self@.len(),
            keys_ascend(self@),
    {
        proof {
            use_type_invariant(self);
        }
        self.entries.len()
    }

    /// The key of the `i`-th entry in ascending order.
    pub fn key_at(&self, i: usize) -> (k: &String)
        requires
            i < self@.len(),
        ensures
            k@ == self@[i as int].0,
    {
        &self.entries[i].0
    }

    /// The value of the `i`-th entry in ascending key order.
    pub fn value_at(&self, i: usize) -> (v: &String)
        requires
            i < self@.len(),
        ensures
            v@ == self@[i as int].1,
    {
        &self.entries[i].1
    }

    /// The value stored under `key`.
    pub fn get(&self, key: &str) -> (r: Option<&String>)
        ensures
            match r {
                Some(v) => lookup(self@, key@) == Some(v@),
                None => lookup(self@, key@) is None,
            },
    {
        let mut i: usize = 0;
        while i < self.entries.len()
            invariant
                i <= self@.len(),
                forall|j: int| 0 <= j < i ==> self@[j].0 != key@,
            decreases self@.len() - i,
        {
            if str_equal(self.entries[i].0.as_str(), key) {
                proof {
                    lemma_lookup_index(self@, key@, i as int);
                }
                return Some(&self.entries[i].1);
            }
            i = i + 1;
        }
        proof {
            lemma_lookup_absent(self@, key@);
        }
        None
    }

    /// Whether some entry has `key`.
    pub fn contains_key(&self, key: &str) -> (r: bool)
        ensures
            r == lookup(self@, key@) is Some,
    {
        self.get(key).is_some()
    }

    /// Inserts `value` under `key`, replacing an existing value.
    pub fn insert(&mut self, key: String, value: String)
        ensures
            final(self)@ == sorted_insert(old(self)@, key@, value@),
    {
        proof {
            use_type_invariant(&*self);
        }
        let ghost s = self@;
        let mut i: usize = 0;
        while i < self.entries.len() && str_less(self.entries[i].0.as_str(), key.as_str())
            invariant
                s == self@,
                i <= s.len(),
                forall|j: int| 0 <= j < i ==> chars_lt(#[trigger] s[j].0, key@),
            decreases s.len() - i,
        {
            i = i + 1;
        }
        proof {
            lemma_sorted_insert_at(s, key@, value@, i as int);
            lemma_sorted_insert_ascends(s, key@, value@);
        }
        let mut entries = Vec::new();
        std::mem::swap(&mut entries, &mut self.entries);
        if i < entries.len() && str_equal(entries[i].0.as_str(), key.as_str()) {
            entries.set(i, (key, value));
        } else {
            entries.insert(i, (key, value));
        }
        assert(pairs_view(entries@) =~= sorted_insert(s, key@, value@));
        self.entries = entries;
    }

    /// Inserts `value` under `key` only when the key is absent.
    pub fn insert_if_absent(&mut self, key: String, value: String)
        ensures
            lookup(old(self)@, key@) is Some ==> final(self)@ == old(self)@,
            lookup(old(self)@, key@) is None ==> final(self)@ == sorted_insert(old(self)@, key@, value@),
    {
        if !self.contains_key(key.as_str()) {
            self.insert(key, value);
        }
    }

    /// Inserts every entry of `other`, in its order.
    pub fn extend(&mut self, other: StringMap)
        ensures
            final(self)@ == insert_all(old(self)@, other@),
    {
        let mut i: usize = 0;
        assert(other@.skip(0) =~= other@);
        while i < other.entries.len()
            invariant
                i <= other@.len(),
                insert_all(self@, other@.skip(i as int)) == insert_all(old(self)@, other@),
            decreases other@.len() - i,
        {
            let ghost before = self@;
            let k = other.entries[i].0.clone();
            let v = other.entries[i].1.clone();
            self.insert(k, v);
            assert(other@.skip(i as int).drop_first() =~= other@.skip(i + 1));
            i = i + 1;
        }
        assert(other@.skip(i as int) =~= Seq::<(Seq<char>, Seq<char>)>::empty());
    }
}

impl Clone for StringMap {
    /// A copy with the same entries.
    fn clone(&self) -> (r: Self)
        ensures
            r@ == self@,
    {
        proof {
            use_type_invariant(self);
        }
        let mut entries: Vec<(String, String)> = Vec::new();
        let mut i: usize = 0;
        while i < self.entries.len()
            invariant
                i <= self@.len(),
                keys_ascend(self@),
                entries@.len() == i,
                pairs_view(entries@) == self@.subrange(0, i as int),
            decreases self@.len() - i,
        {
            let ghost prev = entries@;
            entries.push((self.entries[i].0.clone(), self.entries[i].1.clone()));
            assert(entries@ == prev.push(entries@[i as int]));
            i = i + 1;
            assert(pairs_view(entries@) =~= self@.subrange(0, i as int));
        }
        assert(self@.subrange(0, i as int) =~= self@);
        StringMap { entries }
    }
}

impl Default for StringMap {
    /// An empty map.
    fn default() -> (m: Self)
        ensures
            m@ == Seq::<(Seq<char>, Seq<char>)>::empty(),
    {
        StringMap::new()
    }
}

/// A string-keyed map whose values are lists of strings, keys ascending.
#[derive(Debug, PartialEq, Eq)]
pub struct MultiValueMap {
    pub(crate) entries: Vec<(String, Vec<String>)>,
}

pub open spec fn strings_view(v: Vec<String>) -> Seq<Seq<char>> {
    Seq::new(v@.len(), |i: int| v@[i]@)
}

pub closed spec fn multi_pairs_view(v: Seq<(String, Vec<String>)>) -> Seq<(Seq<char>, Seq<Seq<char>>)> {
    Seq::new(v.len(), |i: int| (v[i].0@, strings_view(v[i].1)))
}

impl View for MultiValueMap {
    type V = Seq<(Seq<char>, Seq<Seq<char>>)>;

    closed spec fn view(&self) -> Seq<(Seq<char>, Seq<Seq<char>>)> {
        multi_pairs_view(self.entries@)
    }
}

impl MultiValueMap {
    #[verifier::type_invariant]
    pub(crate) closed spec fn keys_in_order(&self) -> bool {
        keys_ascend(self@)
    }

    /// An empty map.
    pub fn new() -> (m: Self)
        ensures
            m@ == Seq::<(Seq<char>, Seq<Seq<char>>)>::empty(),
    {
        let m = MultiValueMap { entries: Vec::new() };
        assert(m@ =~= Seq::<(Seq<char>, Seq<Seq<char>>)>::empty());
        m
    }

    /// Number of entries; the keys ascend strictly (and are therefore unique).
    pub fn len(&self) -> (n: usize)
        ensures
            n == self@.len(),
            keys_ascend(self@),
    {
        proof {
            use_type_invariant(self);
        }
        self.entries.len()
    }

    /// The key of the `i`-th entry in ascending order.
    pub fn key_at(&self, i: usize) -> (k: &String)
        requires
            i < self@.len(),
        ensures
            k@ == self@[i as int].0,
    {
        &self.entries[i].0
    }

    /// The values of the `i`-th entry in ascending key order.
    pub fn values_at(&self, i: usize) -> (v: &Vec<String>)
        requires
            i < self@.len(),
        ensures
            strings_view(*v) == self@[i as int].1,
    {
        &self.entries[i].1
    }

    /// The values stored under `key`.
    pub fn get(&self, key: &str) -> (r: Option<&Vec<String>>)
        ensures
            match r {
                Some(v) => lookup(self@, key@) == Some(strings_view(*v)),
                None => lookup(self@, key@) is None,
            },
    {
        let mut i: usize = 0;
        while i < self.entries.len()
            invariant
                i <= self@.len(),
                forall|j: int| 0 <= j < i ==> self@[j].0 != key@,
            decreases self@.len() - i,
        {
            if str_equal(self.entries[i].0.as_str(), key) {
                proof {
                    lemma_lookup_index(self@, key@, i as int);
                }
                return Some(&self.entries[i].1);
            }
            i = i + 1;
        }
        proof {
            lemma_lookup_absent(self@, key@);
        }
        None
    }

    /// Whether some entry has `key`.
    pub fn contains_key(&self, key: &str) -> (r: bool)
        ensures
            r == lookup(self@, key@) is Some,
    {
        self.get(key).is_some()
    }

    /// Inserts `values` under `key`, replacing existing values.
    pub fn insert(&mut self, key: String, values: Vec<String>)
        ensures
            final(self)@ == sorted_insert(old(self)@, key@, strings_view(values)),
    {
        proof {
            use_type_invariant(&*self);
        }
        let ghost s = self@;
        let ghost vv = strings_view(values);
        let mut i: usize = 0;
        while i < self.entries.len() && str_less(self.entries[i].0.as_str(), key.as_str())
            invariant
                s == self@,
                i <= s.len(),
                forall|j: int| 0 <= j < i ==> chars_lt(#[trigger] s[j].0, key@),
            decreases s.len() - i,
        {
            i = i + 1;
        }
        proof {
            lemma_sorted_insert_at(s, key@, vv, i as int);
            lemma_sorted_insert_ascends(s, key@, vv);
        }
        let mut entries = Vec::new();
        std::mem::swap(&mut entries, &mut self.entries);
        if i < entries.len() && str_equal(entries[i].0.as_str(), key.as_str()) {
            entries.set(i, (key, values));
        } else {
            entries.insert(i, (key, values));
        }
        assert(multi_pairs_view(entries@) =~= sorted_insert(s, key@, vv));
        self.entries = entries;
    }
}

impl Clone for MultiValueMap {
    /// A copy with the same entries.
    fn clone(&self) -> (r: Self)
        ensures
            r@ == self@,
    {
        proof {
            use_type_invariant(self);
        }
        let mut entries: Vec<(String, Vec<String>)> = Vec::new();
        let mut i: usize = 0;
        while i < self.entries.len()
            invariant
                i <= self@.len(),
                keys_ascend(self@),
                entries@.len() == i,
                multi_pairs_view(entries@) == self@.subrange(0, i as int),
            decreases self@.len() - i,
        {
            let values = clone_strings(&self.entries[i].1);
            let ghost prev = entries@;
            entries.push((self.entries[i].0.clone(), values));
            assert(entries@ == prev.push(entries@[i as int]));
            i = i + 1;
            assert(multi_pairs_view(entries@) =~= self@.subrange(0, i as int));
        }
        assert(self@.subrange(0, i as int) =~= self@);
        MultiValueMap { entries }
    }
}

impl Default for MultiValueMap {
    /// An empty map.
    fn default() -> (m: Self)
        ensures
            m@ == Seq::<(Seq<char>, Seq<Seq<char>>)>::empty(),
    {
        MultiValueMap::new()
    }
}

/// A copy of a list of strings.
pub fn clone_strings(v: &Vec<String>) -> (r: Vec<String>)
    ensures
        strings_view(r) == strings_view(*v),
{
    let mut out: Vec<String> = Vec::new();
    let mut i: usize = 0;
    while i < v.len()
        invariant
            i <= v@.len(),
            out@.len() == i,
            strings_view(out) == strings_view(*v).subrange(0, i as int),
        decreases v@.len() - i,
    {
        let ghost prev = out@;
        out.push(v[i].clone());
        assert(out@ == prev.push(out@[i as int]));
        i = i + 1;
        assert(strings_view(out) =~= strings_view(*v).subrange(0, i as int));
    }
    assert(strings_view(*v).subrange(0, i as int) =~= strings_view(*v));
    out
}

/// The keys and viewed values of a list of keyed entries.
pub open spec fn entries_view<V: View>(s: Seq<(String, V)>) -> Seq<(Seq<char>, V::V)> {
    Seq::new(s.len(), |i: int| (s[i].0@, s[i].1@))
}

/// Inserts `value` under `key` into a list of entries kept in key order, as
/// `sorted_insert` states.
pub fn insert_entry<V: View>(entries: &mut Vec<(String, V)>, key: String, value: V)
    ensures
        entries_view(final(entries)@) == sorted_insert(entries_view(old(entries)@), key@, value@),
{
    let ghost s = entries_view(entries@);
    let ghost kv = key@;
    let ghost vv = value@;
    let mut i: usize = 0;
    while i < entries.len() && str_less(entries[i].0.as_str(), key.as_str())
        invariant
            s == entries_view(entries@),
            i <= s.len(),
            forall|j: int| 0 <= j < i ==> chars_lt(#[trigger] s[j].0, key@),
        decreases s.len() - i,
    {
        i = i + 1;
    }
    proof {
        lemma_sorted_insert_at(s, kv, vv, i as int);
    }
    if i < entries.len() && str_equal(entries[i].0.as_str(), key.as_str()) {
        entries.set(i, (key, value));
    } else {
        entries.insert(i, (key, value));
    }
    assert(entries_view(entries@) =~= sorted_insert(s, kv, vv));
}

} // verus!
