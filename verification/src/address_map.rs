//! Tables keyed by 20-byte addresses (accounts, votes).
use vstd::prelude::*;

verus! {

broadcast use vstd::array::group_array_axioms;

/// A 20-byte account or validator address.
pub type Address = [u8; 20];

/// Compares two addresses byte by byte.
pub fn same_address(a: &Address, b: &Address) -> (r: bool)
    ensures
        r == (*a == *b),
{
    let mut i: usize = 0;
    while i < 20
        invariant
            0 <= i <= 20,
            forall|j: int| 0 <= j < i ==> a[j] == b[j],
        decreases 20 - i,
    {
        if a[i] != b[i] {
            return false;
        }
        i = i + 1;
    }
    assert(*a =~= *b);
    true
}

/// No key occurs twice among `s`.
pub open spec fn unique_keys<V>(s: Seq<(Address, V)>) -> bool {
    forall|i: int, j: int| 0 <= i < s.len() && 0 <= j < s.len() && i != j ==> s[i].0 != s[j].0
}

/// The map that the entries `s` describe (a later entry for a key overrides an earlier one).
pub open spec fn entries_map<V>(s: Seq<(Address, V)>) -> Map<Address, V>
    decreases s.len(),
{
    if s.len() == 0 {
        Map::empty()
    } else {
        entries_map(s.drop_last()).insert(s.last().0, s.last().1)
    }
}

/// The index of the entry with key `k` (meaningful where there is one).
pub open spec fn key_index<V>(s: Seq<(Address, V)>, k: Address) -> int {
    choose|i: int| 0 <= i < s.len() && s[i].0 == k
}

/// The entries after storing `v` under `k`: the entry with key `k` gets the value where
/// there is one; otherwise the pair is appended.
pub open spec fn upsert<V>(s: Seq<(Address, V)>, k: Address, v: V) -> Seq<(Address, V)> {
    if exists|i: int| 0 <= i < s.len() && s[i].0 == k {
        s.update(key_index(s, k), (k, v))
    } else {
        s.push((k, v))
    }
}

pub proof fn lemma_entries_map_domain<V>(s: Seq<(Address, V)>, k: Address)
    ensures
        entries_map(s).contains_key(k) <==> exists|i: int| 0 <= i < s.len() && s[i].0 == k,
    decreases s.len(),
{
    if s.len() > 0 {
        lemma_entries_map_domain(s.drop_last(), k);
        if exists|i: int| 0 <= i < s.len() && s[i].0 == k {
            let i = choose|i: int| 0 <= i < s.len() && s[i].0 == k;
            if i < s.len() - 1 {
                assert(s.drop_last()[i].0 == k);
            }
        }
        if exists|i: int| 0 <= i < s.len() - 1 && s.drop_last()[i].0 == k {
            let i = choose|i: int| 0 <= i < s.len() - 1 && s.drop_last()[i].0 == k;
            assert(s[i].0 == k);
        }
    }
}

pub proof fn lemma_entries_map_value<V>(s: Seq<(Address, V)>, i: int)
    requires
        unique_keys(s),
        0 <= i < s.len(),
    ensures
        entries_map(s).contains_key(s[i].0),
        entries_map(s)[s[i].0] == s[i].1,
    decreases s.len(),
{
    if i < s.len() - 1 {
        assert(s.drop_last()[i] == s[i]);
        lemma_entries_map_value(s.drop_last(), i);
    }
}

pub proof fn lemma_entries_map_finite<V>(s: Seq<(Address, V)>)
    ensures
        entries_map(s).dom().finite(),
        unique_keys(s) ==> entries_map(s).dom().len() == s.len(),
    decreases s.len(),
{
    if s.len() > 0 {
        lemma_entries_map_finite(s.drop_last());
        if unique_keys(s) {
            assert(unique_keys(s.drop_last()));
            lemma_entries_map_domain(s.drop_last(), s.last().0);
            if entries_map(s.drop_last()).contains_key(s.last().0) {
                let j = choose|j: int| 0 <= j < s.len() - 1 && s.drop_last()[j].0 == s.last().0;
                assert(s[j].0 == s[s.len() - 1].0);
            }
        }
    }
}

pub proof fn lemma_entries_map_update<V>(s: Seq<(Address, V)>, i: int, v: V)
    requires
        unique_keys(s),
        0 <= i < s.len(),
    ensures
        entries_map(s.update(i, (s[i].0, v))) == entries_map(s).insert(s[i].0, v),
    decreases s.len(),
{
    let t = s.update(i, (s[i].0, v));
    if i == s.len() - 1 {
        assert(t.drop_last() =~= s.drop_last());
        assert(entries_map(t) =~= entries_map(s).insert(s[i].0, v));
    } else {
        assert(t.drop_last() =~= s.drop_last().update(i, (s[i].0, v)));
        assert(s.drop_last()[i] == s[i]);
        lemma_entries_map_update(s.drop_last(), i, v);
        assert(s.last().0 != s[i].0);
        assert(entries_map(t) =~= entries_map(s).insert(s[i].0, v));
    }
}

/// A read after a write: once `insert(k, v)` has run on a table, `get(k)` gives `v`,
/// and every other key keeps what it had (the tables' views before and after `insert`
/// are `m` and `m.insert(k, v)`, and `get` reads the view).
pub proof fn lemma_get_after_insert<V>(m: Map<Address, V>, k: Address, v: V, other: Address)
    ensures
        m.insert(k, v).contains_key(k),
        m.insert(k, v)[k] == v,
        other != k ==> m.insert(k, v).contains_key(other) == m.contains_key(other),
        other != k && m.contains_key(other) ==> m.insert(k, v)[other] == m[other],
{
}

/// A table from addresses to values, in which each address occurs at most once.
/// Entries keep the order in which their keys were first inserted.
#[derive(Debug)]
pub struct AddressMap<V> {
    entries: Vec<(Address, V)>,
}

impl<V> View for AddressMap<V> {
    type V = Map<Address, V>;

    open spec fn view(&self) -> Map<Address, V> {
        entries_map(self.entries())
    }
}

impl<V> AddressMap<V> {
    /// The entries, in the order kept.
    pub closed spec fn entries(&self) -> Seq<(Address, V)> {
        self.entries@
    }

    #[verifier::type_invariant]
    spec fn keys_unique(&self) -> bool {
        unique_keys(self.entries@)
    }

    /// An empty table.
    pub fn new() -> (m: Self)
        ensures
            m@ == Map::<Address, V>::empty(),
            m.entries() == Seq::<(Address, V)>::empty(),
    {
        AddressMap { entries: Vec::new() }
    }

    /// The position of `key` among the entries, if it occurs.
    fn find(&self, key: &Address) -> (r: Option<usize>)
        ensures
            match r {
                Some(i) => i < self.entries@.len() && self.entries@[i as int].0 == *key,
                None => forall|i: int| 0 <= i < self.entries@.len() ==> self.entries@[i].0 != *key,
            },
    {
        let mut i: usize = 0;
        while i < self.entries.len()
            invariant
                0 <= i <= self.entries@.len(),
                forall|j: int| 0 <= j < i ==> self.entries@[j].0 != *key,
            decreases self.entries@.len() - i,
        {
            if same_address(&self.entries[i].0, key) {
                return Some(i);
            }
            i = i + 1;
        }
        None
    }

    /// The number of entries.
    pub fn len(&self) -> (n: usize)
        ensures
            n == self@.len(),
            n == self.entries().len(),
            unique_keys(self.entries()),
    {
        proof {
            use_type_invariant(self);
            lemma_entries_map_finite(self.entries@);
        }
        self.entries.len()
    }

    /// Whether the table has no entry.
    pub fn is_empty(&self) -> (b: bool)
        ensures
            b == (self@.len() == 0),
            unique_keys(self.entries()),
    {
        proof {
            use_type_invariant(self);
            lemma_entries_map_finite(self.entries@);
        }
        self.entries.len() == 0
    }

    /// The value stored under `key`, if any.
    pub fn get(&self, key: &Address) -> (r: Option<&V>)
        ensures
            match r {
                Some(v) => self@.contains_key(*key) && *v == self@[*key],
                None => !self@.contains_key(*key),
            },
            unique_keys(self.entries()),
    {
        proof {
            use_type_invariant(self);
            lemma_entries_map_domain(self.entries@, *key);
        }
        match self.find(key) {
            Some(i) => {
                proof {
                    lemma_entries_map_value(self.entries@, i as int);
                }
                Some(&self.entries[i].1)
            },
            None => None,
        }
    }

    /// Whether `key` has an entry.
    pub fn contains_key(&self, key: &Address) -> (b: bool)
        ensures
            b == self@.contains_key(*key),
            unique_keys(self.entries()),
    {
        proof {
            use_type_invariant(self);
            lemma_entries_map_domain(self.entries@, *key);
        }
        self.find(key).is_some()
    }

    /// Stores `value` under `key`, and returns the value that was stored there before.
    /// A new key is appended after the others; an existing one keeps its place.
    pub fn insert(&mut self, key: Address, value: V) -> (previous: Option<V>)
        ensures
            final(self)@ == old(self)@.insert(key, value),
            unique_keys(old(self).entries()),
            unique_keys(final(self).entries()),
            previous == (if old(self)@.contains_key(key) {
                Some(old(self)@[key])
            } else {
                None
            }),
            final(self).entries() == upsert(old(self).entries(), key, value),
    {
        proof {
            use_type_invariant(&*self);
            lemma_entries_map_domain(self.entries@, key);
        }
        let ghost old_entries = self.entries@;
        let found = self.find(&key);
        let mut entries: Vec<(Address, V)> = Vec::new();
        std::mem::swap(&mut entries, &mut self.entries);
        match found {
            Some(i) => {
                let ghost k = key_index(old_entries, key);
                proof {
                    assert(old_entries[i as int].0 == key);
                    assert(old_entries[k].0 == key);
                    assert(k == i);
                    lemma_entries_map_value(old_entries, i as int);
                    lemma_entries_map_update(old_entries, i as int, value);
                }
                let (_, prev) = entries.remove(i);
                entries.insert(i, (key, value));
                assert(entries@ =~= old_entries.update(i as int, (key, value)));
                self.entries = entries;
                Some(prev)
            },
            None => {
                entries.push((key, value));
                assert(entries@.drop_last() =~= old_entries);
                self.entries = entries;
                None
            },
        }
    }

    /// Removes every entry.
    pub fn clear(&mut self)
        ensures
            final(self)@ == Map::<Address, V>::empty(),
            final(self).entries() == Seq::<(Address, V)>::empty(),
    {
        self.entries = Vec::new();
    }

    /// The entries, in the order kept.
    pub fn as_entries(&self) -> (r: &Vec<(Address, V)>)
        ensures
            r@ == self.entries(),
            unique_keys(self.entries()),
    {
        proof {
            use_type_invariant(self);
        }
        &self.entries
    }
}

} // verus!
