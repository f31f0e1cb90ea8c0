use vstd::prelude::*;

use crate::strings::string_eq;

verus! {

/// The keys of an association sequence, by their characters.
pub open spec fn keys_of<V>(s: Seq<(String, V)>) -> Seq<Seq<char>> {
    Seq::new(s.len(), |i: int| s[i].0@)
}

/// No key occurs twice.
pub open spec fn distinct_keys(k: Seq<Seq<char>>) -> bool {
    forall|i: int, j: int| 0 <= i < k.len() && 0 <= j < k.len() && i != j ==> k[i] != k[j]
}

/// Position of the first occurrence of `key` in `k`, or -1.
pub open spec fn index_of_key(k: Seq<Seq<char>>, key: Seq<char>) -> int
    decreases k.len(),
{
    if k.len() == 0 {
        -1
    } else if k[0] == key {
        0
    } else {
        let r = index_of_key(k.drop_first(), key);
        if r < 0 {
            -1
        } else {
            r + 1
        }
    }
}

pub proof fn lemma_index_of_key(k: Seq<Seq<char>>, key: Seq<char>)
    ensures
        -1 <= index_of_key(k, key) < k.len(),
        index_of_key(k, key) >= 0 ==> k[index_of_key(k, key)] == key,
        index_of_key(k, key) >= 0 ==> forall|j: int|
            0 <= j < index_of_key(k, key) ==> k[j] != key,
        index_of_key(k, key) < 0 <==> !k.contains(key),
    decreases k.len(),
{
    if k.len() > 0 {
        lemma_index_of_key(k.drop_first(), key);
        if k[0] != key {
            assert forall|j: int| 1 <= j < k.len() implies k[j] == k.drop_first()[j - 1] by {}
            if k.drop_first().contains(key) {
                let j = choose|j: int| 0 <= j < k.drop_first().len() && k.drop_first()[j] == key;
                assert(k[j + 1] == key);
            }
            if k.contains(key) {
                let j = choose|j: int| 0 <= j < k.len() && k[j] == key;
                assert(k.drop_first()[j - 1] == key);
            }
        } else {
            assert(k.contains(key));
        }
    }
}

/// Inserting into an insertion-ordered association: an existing key keeps its
/// position and gets the new value; a new key goes last.
pub open spec fn assoc_insert<V>(s: Seq<(String, V)>, key: String, value: V) -> Seq<(String, V)> {
    let i = index_of_key(keys_of(s), key@);
    if i >= 0 {
        s.update(i, (s[i].0, value))
    } else {
        s.push((key, value))
    }
}

/// Inserting each pair of `items` in turn, starting from `s`.
pub open spec fn assoc_insert_all<V>(s: Seq<(String, V)>, items: Seq<(String, V)>) -> Seq<(String, V)>
    decreases items.len(),
{
    if items.len() == 0 {
        s
    } else {
        assoc_insert(assoc_insert_all(s, items.drop_last()), items.last().0, items.last().1)
    }
}

pub proof fn lemma_assoc_insert_keys<V>(s: Seq<(String, V)>, key: String, value: V)
    requires
        distinct_keys(keys_of(s)),
    ensures
        distinct_keys(keys_of(assoc_insert(s, key, value))),
        keys_of(assoc_insert(s, key, value)).contains(key@),
        forall|k: Seq<char>| #[trigger] keys_of(s).contains(k) ==> keys_of(assoc_insert(s, key, value)).contains(k),
        forall|k: Seq<char>| #[trigger] keys_of(assoc_insert(s, key, value)).contains(k) ==> k == key@ || keys_of(s).contains(k),
{
    lemma_index_of_key(keys_of(s), key@);
    let r = assoc_insert(s, key, value);
    let i = index_of_key(keys_of(s), key@);
    if i >= 0 {
        assert(keys_of(r) =~= keys_of(s));
        assert(keys_of(r)[i] == key@);
    } else {
        assert(keys_of(r) =~= keys_of(s).push(key@));
        assert(keys_of(r)[s.len() as int] == key@);
        assert forall|k: Seq<char>| #[trigger] keys_of(r).contains(k) implies k == key@ || keys_of(s).contains(k) by {
            let j = choose|j: int| 0 <= j < keys_of(r).len() && keys_of(r)[j] == k;
            if j < s.len() {
                assert(keys_of(s)[j] == k);
            }
        }
    }
    assert forall|k: Seq<char>| #[trigger] keys_of(s).contains(k) implies keys_of(r).contains(k) by {
        let j = choose|j: int| 0 <= j < keys_of(s).len() && keys_of(s)[j] == k;
        assert(keys_of(r)[j] == k);
    }
}

/// Position of `key` among the keys of `entries`, found by a scan from the front.
pub fn find_key<V>(entries: &Vec<(String, V)>, key: &String) -> (r: Option<usize>)
    ensures
        match r {
            Some(i) => i == index_of_key(keys_of(entries@), key@),
            None => index_of_key(keys_of(entries@), key@) < 0,
        },
{
    proof {
        lemma_index_of_key(keys_of(entries@), key@);
    }
    let mut i: usize = 0;
    while i < entries.len()
        invariant
            i <= entries@.len(),
            forall|j: int| 0 <= j < i ==> keys_of(entries@)[j] != key@,
            -1 <= index_of_key(keys_of(entries@), key@) < entries@.len(),
            index_of_key(keys_of(entries@), key@) >= 0 ==> keys_of(entries@)[index_of_key(keys_of(entries@), key@)] == key@,
            index_of_key(keys_of(entries@), key@) >= 0 ==> forall|j: int|
                0 <= j < index_of_key(keys_of(entries@), key@) ==> keys_of(entries@)[j] != key@,
            index_of_key(keys_of(entries@), key@) < 0 <==> !keys_of(entries@).contains(key@),
        decreases entries.len() - i,
    {
        if string_eq(&entries[i].0, key) {
            assert(keys_of(entries@)[i as int] == key@);
            assert(keys_of(entries@).contains(key@));
            return Some(i);
        }
        i = i + 1;
    }
    proof {
        if keys_of(entries@).contains(key@) {
            let j = choose|j: int| 0 <= j < keys_of(entries@).len() && keys_of(entries@)[j] == key@;
            assert(keys_of(entries@)[j] != key@);
        }
    }
    None
}

/// Insert into an insertion-ordered association held in a vector.
pub fn assoc_insert_exec<V>(entries: &mut Vec<(String, V)>, key: String, value: V)
    ensures
        final(entries)@ == assoc_insert(old(entries)@, key, value),
{
    match find_key(entries, &key) {
        Some(i) => {
            proof {
                lemma_index_of_key(keys_of(entries@), key@);
            }
            let (k, _old) = entries.remove(i);
            entries.insert(i, (k, value));
            assert(final(entries)@ =~= assoc_insert(old(entries)@, key, value));
        },
        None => {
            entries.push((key, value));
        },
    }
}

/// A string-keyed map that remembers the order in which keys were first
/// inserted; no key occurs twice (see `wf`).
///
/// The entries are held as a vector of pairs, in insertion order, since the
/// values of this crate contain maps of themselves.
#[derive(Clone, Debug)]
pub struct BamlMap<V> {
    pub entries: Vec<(String, V)>,
}

impl<V> BamlMap<V> {
    /// The map's invariant: keys are distinct.
    pub open spec fn wf(&self) -> bool {
        distinct_keys(keys_of(self.entries@))
    }

    /// An empty map.
    pub fn new() -> (r: Self)
        ensures
            r.entries@ == Seq::<(String, V)>::empty(),
            r.wf(),
    {
        BamlMap { entries: Vec::new() }
    }

    /// Number of entries.
    pub fn len(&self) -> (r: usize)
        ensures
            r == self.entries@.len(),
    {
        self.entries.len()
    }

    /// Insert `value` under `key`: an existing key keeps its position and its
    /// value is replaced; a new key is appended.
    pub fn insert(&mut self, key: String, value: V)
        requires
            old(self).wf(),
        ensures
            final(self).entries@ == assoc_insert(old(self).entries@, key, value),
            final(self).wf(),
    {
        proof {
            lemma_assoc_insert_keys(self.entries@, key, value);
        }
        assoc_insert_exec(&mut self.entries, key, value);
    }

    /// Build a map by inserting the given pairs in order, as collecting an
    /// iterator of pairs into an insertion-ordered map does.
    pub fn from_pairs(pairs: Vec<(String, V)>) -> (r: Self)
        ensures
            r.entries@ == assoc_insert_all(Seq::<(String, V)>::empty(), pairs@),
            r.wf(),
    {
        let mut pairs = pairs;
        let ghost all = pairs@;
        let total = pairs.len();
        let mut rev: Vec<(String, V)> = Vec::new();
        while pairs.len() > 0
            invariant
                pairs@.len() + rev@.len() == all.len(),
                forall|j: int| 0 <= j < pairs@.len() ==> pairs@[j] == all[j],
                forall|j: int| 0 <= j < rev@.len() ==> rev@[j] == all[all.len() - 1 - j],
            decreases pairs@.len(),
        {
            let p = pairs.pop().unwrap();
            rev.push(p);
        }
        let mut m = BamlMap::new();
        let mut n: usize = 0;
        while rev.len() > 0
            invariant
                n + rev@.len() == all.len(),
                total == all.len(),
                forall|j: int| 0 <= j < rev@.len() ==> rev@[j] == all[all.len() - 1 - j],
                m.entries@ == assoc_insert_all(Seq::<(String, V)>::empty(), all.take(n as int)),
                m.wf(),
            decreases rev@.len(),
        {
            let (k, v) = rev.pop().unwrap();
            assert(all.take(n + 1).drop_last() =~= all.take(n as int));
            m.insert(k, v);
            n = n + 1;
        }
        assert(all.take(n as int) =~= all);
        m
    }
}

} // verus!
