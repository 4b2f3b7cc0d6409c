//! A small table that is looked up by key and keeps the order in which its
//! entries were added.

use vstd::prelude::*;
use vstd::std_specs::cmp::PartialEqSpec;

verus! {

/// The key asked for is not in the table.
#[derive(Debug)]
pub struct KeyError {}

/// Keys with their values, in the order of insertion. No two keys are equal.
pub struct KeyedVec<K, V> where K: PartialEq {
    keys: Vec<K>,
    values: Vec<V>,
}

/// Whether some entry of `keys` equals `key`.
pub open spec fn spec_has_key<K: PartialEq>(keys: Seq<K>, key: K) -> bool {
    exists|i: int| 0 <= i < keys.len() && #[trigger] keys[i].eq_spec(&key)
}

impl<K, V> KeyedVec<K, V> where K: PartialEq {
    pub closed spec fn spec_keys(&self) -> Seq<K> {
        self.keys@
    }

    pub closed spec fn spec_values(&self) -> Seq<V> {
        self.values@
    }

    /// Every key has its value.
    pub open spec fn wf(&self) -> bool {
        self.spec_keys().len() == self.spec_values().len()
    }

    /// An empty table.
    pub fn new() -> (t: Self)
        ensures
            t.wf(),
            t.spec_keys().len() == 0,
    {
        KeyedVec { keys: Vec::new(), values: Vec::new() }
    }

    /// Appends the entry. The key has to be new to the table.
    pub fn add(&mut self, key: K, value: V)
        requires
            old(self).wf(),
            !spec_has_key(old(self).spec_keys(), key),
        ensures
            final(self).wf(),
            final(self).spec_keys() == old(self).spec_keys().push(key),
            final(self).spec_values() == old(self).spec_values().push(value),
    {
        self.keys.push(key);
        self.values.push(value);
    }

    /// The position of the first key equal to `key`.
    pub fn position(&self, key: &K) -> (r: Option<usize>)
        ensures
            K::obeys_eq_spec() ==> match r {
                Some(i) => i < self.spec_keys().len() && self.spec_keys()[i as int].eq_spec(key)
                    && forall|k: int| 0 <= k < i ==> !(#[trigger] self.spec_keys()[k]).eq_spec(key),
                None => !spec_has_key(self.spec_keys(), *key),
            },
            r matches Some(i) ==> i < self.spec_keys().len(),
    {
        let mut i: usize = 0;
        while i < self.keys.len()
            invariant
                i <= self.keys@.len(),
                K::obeys_eq_spec() ==> forall|k: int|
                    0 <= k < i ==> !(#[trigger] self.keys@[k]).eq_spec(key),
            decreases self.keys@.len() - i,
        {
            if self.keys[i] == *key {
                return Some(i);
            }
            i += 1;
        }
        None
    }

    /// The value of the first key equal to `key`.
    pub fn get(&self, key: &K) -> (r: Result<&V, KeyError>)
        requires
            self.wf(),
        ensures
            K::obeys_eq_spec() ==> (r is Ok <==> spec_has_key(self.spec_keys(), *key)),
            K::obeys_eq_spec() ==> (r matches Ok(v) ==> exists|i: int|
                0 <= i < self.spec_keys().len() && #[trigger] self.spec_keys()[i].eq_spec(key)
                    && *v == self.spec_values()[i] && forall|k: int|
                    0 <= k < i ==> !(#[trigger] self.spec_keys()[k]).eq_spec(key)),
    {
        match self.position(key) {
            Some(i) => Ok(&self.values[i]),
            None => Err(KeyError {  }),
        }
    }

    /// The value that was added as number `idx`.
    pub fn index(&self, idx: usize) -> (v: &V)
        requires
            self.wf(),
            idx < self.spec_keys().len(),
        ensures
            *v == self.spec_values()[idx as int],
    {
        &self.values[idx]
    }

    /// The number of entries.
    pub fn len(&self) -> (n: usize)
        ensures
            n == self.spec_keys().len(),
    {
        self.keys.len()
    }

    /// Whether some key equals `key`.
    pub fn contains(&self, key: &K) -> (b: bool)
        ensures
            K::obeys_eq_spec() ==> b == spec_has_key(self.spec_keys(), *key),
    {
        self.position(key).is_some()
    }

    /// The keys, in the order of insertion.
    pub fn keys(&self) -> (r: &Vec<K>)
        ensures
            r@ == self.spec_keys(),
    {
        &self.keys
    }

    /// The values, in the order of insertion.
    pub fn values(&self) -> (r: &Vec<V>)
        ensures
            r@ == self.spec_values(),
    {
        &self.values
    }

    /// Takes the table apart into its keys and its values, each in the
    /// order of insertion.
    pub fn into_parts(self) -> (r: (Vec<K>, Vec<V>))
        ensures
            r.0@ == self.spec_keys(),
            r.1@ == self.spec_values(),
    {
        (self.keys, self.values)
    }
}

} // verus!
