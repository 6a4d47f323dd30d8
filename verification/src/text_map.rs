//! A map keyed by text that remembers the order in which its keys came.

use vstd::prelude::*;
use crate::text::chars_of;

verus! {

/// Whether two string slices hold the same characters.
pub fn same_text(a: &str, b: &str) -> (r: bool)
    ensures
        r == (a@ == b@),
{
    let x = chars_of(a);
    let y = chars_of(b);
    if x.len() != y.len() {
        return false;
    }
    let mut i: usize = 0;
    while i < x.len()
        invariant
            i <= x.len(),
            x.len() == y.len(),
            x@ == a@,
            y@ == b@,
            forall|j: int| 0 <= j < i ==> x@[j] == y@[j],
        decreases x.len() - i,
    {
        if x[i] != y[i] {
            assert(a@[i as int] != b@[i as int]);
            return false;
        }
        i += 1;
    }
    assert(x@ =~= y@);
    true
}

/// The map in which each of the first `n` keys has its value, a later key
/// taking the place of an equal earlier one.
pub open spec fn built<V>(keys: Seq<String>, values: Seq<V>, n: int) -> Map<Seq<char>, V>
    decreases n,
{
    if n <= 0 {
        Map::empty()
    } else {
        built(keys, values, n - 1).insert(keys[n - 1]@, values[n - 1])
    }
}

/// Whether no two of the keys hold the same text.
pub open spec fn distinct(keys: Seq<String>) -> bool {
    forall|i: int, j: int|
        0 <= i < keys.len() && 0 <= j < keys.len() && i != j ==> (#[trigger] keys[i])@ != (
        #[trigger] keys[j])@
}

/// The keys of the built map are the texts of the first `n` keys.
pub proof fn lemma_built_domain<V>(keys: Seq<String>, values: Seq<V>, n: int, k: Seq<char>)
    requires
        0 <= n <= keys.len(),
    ensures
        built(keys, values, n).contains_key(k) <==> exists|i: int|
            0 <= i < n && (#[trigger] keys[i])@ == k,
    decreases n,
{
    if n > 0 {
        lemma_built_domain(keys, values, n - 1, k);
        if keys[n - 1]@ == k {
        } else if built(keys, values, n).contains_key(k) {
            let i = choose|i: int| 0 <= i < n - 1 && (#[trigger] keys[i])@ == k;
            assert(0 <= i < n && keys[i]@ == k);
        }
    }
}

/// Where no two keys are equal, each of the first `n` keys has the value at
/// its own position.
pub proof fn lemma_built_value<V>(keys: Seq<String>, values: Seq<V>, n: int, i: int)
    requires
        0 <= i < n <= keys.len(),
        distinct(keys),
    ensures
        built(keys, values, n).contains_key(keys[i]@),
        built(keys, values, n)[keys[i]@] == values[i],
    decreases n,
{
    if i < n - 1 {
        lemma_built_value(keys, values, n - 1, i);
        assert(keys[i]@ != keys[n - 1]@);
    }
}

/// The built map depends on the first `n` keys and values alone.
pub proof fn lemma_built_prefix<V>(
    keys: Seq<String>,
    values: Seq<V>,
    keys2: Seq<String>,
    values2: Seq<V>,
    n: int,
)
    requires
        0 <= n <= keys.len(),
        n <= values.len(),
        n <= keys2.len(),
        n <= values2.len(),
        forall|i: int| 0 <= i < n ==> keys[i] == keys2[i] && values[i] == values2[i],
    ensures
        built(keys, values, n) == built(keys2, values2, n),
    decreases n,
{
    if n > 0 {
        lemma_built_prefix(keys, values, keys2, values2, n - 1);
    }
}

/// A finite map from texts to values. Its keys are kept in the order in
/// which they were first inserted.
pub struct TextMap<V> {
    keys: Vec<String>,
    values: Vec<V>,
}

impl<V> TextMap<V> {
    /// Each key has exactly one value.
    pub closed spec fn wf(&self) -> bool {
        &&& self.keys@.len() == self.values@.len()
        &&& distinct(self.keys@)
    }

    /// The map that this value stands for.
    pub closed spec fn view(&self) -> Map<Seq<char>, V> {
        built(self.keys@, self.values@, self.keys@.len() as int)
    }

    /// The keys in the order of their first insertion.
    pub closed spec fn key_seq(&self) -> Seq<Seq<char>> {
        Seq::new(self.keys@.len(), |i: int| self.keys@[i]@)
    }

    /// The keys of the map are those of `key_seq`, none of them twice, and
    /// the map is finite.
    pub proof fn lemma_keys(&self)
        requires
            self.wf(),
        ensures
            forall|k: Seq<char>| self@.contains_key(k) <==> self.key_seq().contains(k),
            self.key_seq().no_duplicates(),
    {
        let ks = self.key_seq();
        assert forall|k: Seq<char>| self@.contains_key(k) <==> ks.contains(k) by {
            lemma_built_domain(self.keys@, self.values@, self.keys@.len() as int, k);
            if self@.contains_key(k) {
                let i = choose|i: int| 0 <= i < self.keys@.len() && (#[trigger] self.keys@[i])@ == k;
                assert(ks[i] == k);
            }
            if ks.contains(k) {
                let i = choose|i: int| 0 <= i < ks.len() && ks[i] == k;
                assert(self.keys@[i]@ == k);
            }
        }
    }

    /// The empty map.
    pub fn new() -> (m: Self)
        ensures
            m.wf(),
            m@ == Map::<Seq<char>, V>::empty(),
            m.key_seq() == Seq::<Seq<char>>::empty(),
    {
        let m = TextMap { keys: Vec::new(), values: Vec::new() };
        assert(m.key_seq() =~= Seq::<Seq<char>>::empty());
        m
    }

    /// The number of keys.
    pub fn len(&self) -> (n: usize)
        requires
            self.wf(),
        ensures
            n == self.key_seq().len(),
    {
        self.keys.len()
    }

    /// The position of `key` among the keys, if the map has it.
    fn position(&self, key: &str) -> (r: Option<usize>)
        requires
            self.wf(),
        ensures
            match r {
                Some(i) => i < self.keys@.len() && self.keys@[i as int]@ == key@,
                None => forall|i: int| 0 <= i < self.keys@.len() ==> (#[trigger] self.keys@[i])@ != key@,
            },
    {
        let mut i: usize = 0;
        while i < self.keys.len()
            invariant
                i <= self.keys@.len(),
                forall|j: int| 0 <= j < i ==> (#[trigger] self.keys@[j])@ != key@,
            decreases self.keys.len() - i,
        {
            if same_text(self.keys[i].as_str(), key) {
                return Some(i);
            }
            i += 1;
        }
        None
    }

    /// The value of `key`, if the map has that key.
    pub fn get(&self, key: &str) -> (r: Option<&V>)
        requires
            self.wf(),
        ensures
            match r {
                Some(v) => self@.contains_key(key@) && *v == self@[key@],
                None => !self@.contains_key(key@),
            },
    {
        proof {
            lemma_built_domain(self.keys@, self.values@, self.keys@.len() as int, key@);
        }
        match self.position(key) {
            Some(i) => {
                proof {
                    lemma_built_value(self.keys@, self.values@, self.keys@.len() as int, i as int);
                }
                Some(&self.values[i])
            },
            None => None,
        }
    }

    /// Whether the map has `key`.
    pub fn contains_key(&self, key: &str) -> (r: bool)
        requires
            self.wf(),
        ensures
            r == self@.contains_key(key@),
    {
        self.get(key).is_some()
    }

    /// Gives `key` the value `value`. A key that the map already has keeps
    /// its place among the keys; a new one comes last.
    pub fn insert(&mut self, key: &str, value: V)
        requires
            old(self).wf(),
        ensures
            final(self).wf(),
            final(self)@ == old(self)@.insert(key@, value),
            final(self).key_seq() == if old(self)@.contains_key(key@) {
                old(self).key_seq()
            } else {
                old(self).key_seq().push(key@)
            },
    {
        let ghost keys0 = self.keys@;
        let ghost values0 = self.values@;
        let ghost n = keys0.len() as int;
        let ghost ks0 = self.key_seq();
        proof {
            lemma_built_domain(keys0, values0, n, key@);
        }
        match self.position(key) {
            Some(i) => {
                self.values.set(i, value);
                proof {
                    let values1 = self.values@;
                    let a = built(keys0, values1, n);
                    let b = built(keys0, values0, n).insert(key@, value);
                    assert forall|k: Seq<char>| a.contains_key(k) <==> b.contains_key(k) by {
                        lemma_built_domain(keys0, values1, n, k);
                        lemma_built_domain(keys0, values0, n, k);
                    }
                    assert forall|k: Seq<char>| a.contains_key(k) implies a[k] == b[k] by {
                        lemma_built_domain(keys0, values1, n, k);
                        let j = choose|j: int| 0 <= j < n && (#[trigger] keys0[j])@ == k;
                        lemma_built_value(keys0, values1, n, j);
                        lemma_built_value(keys0, values0, n, j);
                    }
                    assert(a =~= b);
                    assert(self.key_seq() =~= ks0);
                }
            },
            None => {
                self.keys.push(key.to_owned());
                self.values.push(value);
                proof {
                    lemma_built_prefix(self.keys@, self.values@, keys0, values0, n);
                    assert(self.key_seq() =~= ks0.push(key@));
                }
            },
        }
    }

    /// The key at position `i` of the keys, with its value.
    pub fn entry(&self, i: usize) -> (r: (&String, &V))
        requires
            self.wf(),
            i < self.key_seq().len(),
        ensures
            r.0@ == self.key_seq()[i as int],
            self@.contains_key(r.0@),
            *r.1 == self@[r.0@],
    {
        proof {
            lemma_built_value(self.keys@, self.values@, self.keys@.len() as int, i as int);
        }
        (&self.keys[i], &self.values[i])
    }
}

} // verus!
