//! A map from text keys where the first value stored for a key stays: the behaviour of
//! `entry(key).or_insert(value)` that the parser relies on for headers and attributes.
use vstd::prelude::*;

verus! {

/// Entries in the order they were first inserted; no key occurs twice.
pub struct StringMap<V> {
    pub(crate) entries: Vec<(String, V)>,
}

/// The value stored for `k` in an entry list: that of the first entry with key `k`.
pub open spec fn lookup<V>(s: Seq<(Seq<char>, V)>, k: Seq<char>) -> Option<V>
    decreases s.len(),
{
    if s.len() == 0 {
        None
    } else if s[0].0 == k {
        Some(s[0].1)
    } else {
        lookup(s.drop_first(), k)
    }
}

/// `s` with `(k, v)` added unless `k` already has a value.
pub open spec fn insert_absent<V>(s: Seq<(Seq<char>, V)>, k: Seq<char>, v: V) -> Seq<(Seq<char>, V)> {
    if lookup(s, k) is Some {
        s
    } else {
        s.push((k, v))
    }
}

/// No key occurs twice in the entry list.
pub open spec fn keys_distinct<V>(s: Seq<(Seq<char>, V)>) -> bool {
    forall|i: int, j: int| 0 <= i < j < s.len() ==> #[trigger] s[i].0 != #[trigger] s[j].0
}

/// A key that `lookup` does not find occurs in no entry.
proof fn lemma_lookup_none<V>(s: Seq<(Seq<char>, V)>, k: Seq<char>)
    requires
        lookup(s, k) is None,
    ensures
        forall|i: int| 0 <= i < s.len() ==> #[trigger] s[i].0 != k,
    decreases s.len(),
{
    if s.len() > 0 {
        lemma_lookup_none(s.drop_first(), k);
        assert forall|i: int| 0 <= i < s.len() implies #[trigger] s[i].0 != k by {
            if i > 0 {
                assert(s[i] == s.drop_first()[i - 1]);
            }
        }
    }
}

impl<V> StringMap<V> {
    /// No key occurs twice.
    #[verifier::type_invariant]
    spec fn no_key_twice(self) -> bool {
        keys_distinct(self.entries@.map_values(|e: (String, V)| (e.0@, e.1)))
    }

    /// The entries as (key, value) pairs, oldest first.
    pub closed spec fn view(&self) -> Seq<(Seq<char>, V)> {
        self.entries@.map_values(|e: (String, V)| (e.0@, e.1))
    }

    /// The value stored for `k`.
    pub open spec fn spec_get(&self, k: Seq<char>) -> Option<V> {
        lookup(self.view(), k)
    }

    /// An empty map.
    pub fn new() -> (m: Self)
        ensures
            m.view() == Seq::<(Seq<char>, V)>::empty(),
    {
        let m = StringMap { entries: Vec::new() };
        assert(m.view() =~= Seq::<(Seq<char>, V)>::empty());
        m
    }

    /// Number of keys.
    pub fn len(&self) -> (n: usize)
        ensures
            n == self.view().len(),
    {
        self.entries.len()
    }

    /// Position of the entry with key `k`.
    fn find(&self, k: &String) -> (i: Option<usize>)
        ensures
            i matches Some(j) ==> j < self.view().len() && self.view()[j as int].0 == k@
                && lookup(self.view(), k@) == Some(self.view()[j as int].1),
            i is None ==> lookup(self.view(), k@) is None,
    {
        let mut j: usize = 0;
        assert(self.view().skip(0) =~= self.view());
        while j < self.entries.len()
            invariant
                j <= self.entries.len(),
                self.view().len() == self.entries.len(),
                lookup(self.view(), k@) == lookup(self.view().skip(j as int), k@),
            decreases self.entries.len() - j,
        {
            proof {
                assert(self.view().skip(j as int).drop_first() =~= self.view().skip(j + 1));
                assert(self.view().skip(j as int)[0] == self.view()[j as int]);
            }
            if self.entries[j].0 == *k {
                return Some(j);
            }
            j = j + 1;
        }
        None
    }

    /// Stores `v` for `k` unless `k` already has a value.
    pub fn insert_if_absent(&mut self, k: String, v: V)
        ensures
            final(self).view() == insert_absent(old(self).view(), k@, v),
    {
        match self.find(&k) {
            Some(_) => {},
            None => {
                let ghost k_view = k@;
                proof {
                    use_type_invariant(&*self);
                    lemma_lookup_none(self.view(), k_view);
                }
                let mut entries: Vec<(String, V)> = Vec::new();
                std::mem::swap(&mut entries, &mut self.entries);
                entries.push((k, v));
                assert(entries@.map_values(|e: (String, V)| (e.0@, e.1)) =~= old(self).view().push((k_view, v)));
                self.entries = entries;
            },
        }
    }

    /// Whether `k` has a value.
    pub fn contains_key(&self, k: &str) -> (b: bool)
        ensures
            b == self.spec_get(k@) is Some,
    {
        let key = String::from_str(k);
        self.find(&key).is_some()
    }

    /// The value stored for `k`.
    pub fn get(&self, k: &str) -> (r: Option<&V>)
        ensures
            r matches Some(v) ==> self.spec_get(k@) == Some(*v),
            r is None ==> self.spec_get(k@) is None,
    {
        let key = String::from_str(k);
        match self.find(&key) {
            Some(j) => Some(&self.entries[j].1),
            None => None,
        }
    }

    /// The key and value of the entry at `i`, oldest first.
    pub fn entry_at(&self, i: usize) -> (r: (&String, &V))
        requires
            i < self.view().len(),
        ensures
            (r.0@, *r.1) == self.view()[i as int],
    {
        (&self.entries[i].0, &self.entries[i].1)
    }
}

/// The entries of a map of texts, each value by its characters.
pub open spec fn text_entries(s: Seq<(Seq<char>, String)>) -> Seq<(Seq<char>, Seq<char>)> {
    s.map_values(|e: (Seq<char>, String)| (e.0, e.1@))
}

/// Storing a text and then viewing the values as characters is viewing and then storing.
pub proof fn lemma_text_insert(s: Seq<(Seq<char>, String)>, k: Seq<char>, v: String)
    ensures
        text_entries(insert_absent(s, k, v)) == insert_absent(text_entries(s), k, v@),
{
    lemma_text_lookup(s, k);
    assert(text_entries(s.push((k, v))) =~= text_entries(s).push((k, v@)));
}

/// A key is found among text entries exactly when it is found among the entries.
pub proof fn lemma_text_lookup(s: Seq<(Seq<char>, String)>, k: Seq<char>)
    ensures
        lookup(s, k) is Some <==> lookup(text_entries(s), k) is Some,
    decreases s.len(),
{
    if s.len() > 0 {
        assert(text_entries(s).drop_first() =~= text_entries(s.drop_first()));
        lemma_text_lookup(s.drop_first(), k);
    }
}

impl StringMap<usize> {
    /// A copy of the map.
    pub fn duplicate(&self) -> (m: Self)
        ensures
            m.view() == self.view(),
    {
        let mut entries: Vec<(String, usize)> = Vec::new();
        let mut i: usize = 0;
        while i < self.entries.len()
            invariant
                i <= self.entries.len(),
                entries@.map_values(|e: (String, usize)| (e.0@, e.1)) =~= self.entries@.take(
                    i as int,
                ).map_values(|e: (String, usize)| (e.0@, e.1)),
            decreases self.entries.len() - i,
        {
            proof {
                use_type_invariant(self);
            }
            let ghost old_entries = entries@;
            let key = self.entries[i].0.clone();
            entries.push((key, self.entries[i].1));
            assert(entries@.map_values(|e: (String, usize)| (e.0@, e.1)) =~= old_entries.map_values(
                |e: (String, usize)| (e.0@, e.1),
            ).push((self.entries@[i as int].0@, self.entries@[i as int].1)));
            i = i + 1;
            assert(self.entries@.take(i as int).drop_last() =~= self.entries@.take(i - 1));
        }
        assert(self.entries@.take(i as int) =~= self.entries@);
        proof {
            use_type_invariant(self);
        }
        StringMap { entries }
    }
}

/// The first value stored for a key stays, and storing a new key leaves the other keys as
/// they were.
pub proof fn law_insert_then_lookup<V>(s: Seq<(Seq<char>, V)>, k: Seq<char>, v: V, j: Seq<char>)
    requires
        lookup(s, k) is None,
    ensures
        lookup(s.push((k, v)), j) == (if j == k {
            Some(v)
        } else {
            lookup(s, j)
        }),
    decreases s.len(),
{
    if s.len() > 0 {
        assert(s.push((k, v))[0] == s[0]);
        assert(s.push((k, v)).drop_first() =~= s.drop_first().push((k, v)));
        if s[0].0 != k {
            law_insert_then_lookup(s.drop_first(), k, v, j);
        }
    } else {
        let t = s.push((k, v));
        assert(t.drop_first() =~= Seq::<(Seq<char>, V)>::empty());
        assert(lookup(t.drop_first(), j) is None);
        assert(t[0] == (k, v));
    }
}

} // verus!
