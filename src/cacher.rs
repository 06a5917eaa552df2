use std::collections::HashMap;
use std::hash::Hash;

use vstd::prelude::*;
use vstd::std_specs::hash::obeys_key_model;

verus! {

broadcast use vstd::std_specs::hash::group_hash_axioms;

/// Remembers the result of `calculation` for each argument it was called with, so that each
/// argument is computed at most once.
pub struct Cacher<K, V, F> {
    calculation: F,
    value: HashMap<K, V>,
}

impl<K, V, F> Cacher<K, V, F> where K: Hash + Eq + Copy, V: Clone, F: Fn(K) -> V {
    pub closed spec fn calculation(&self) -> F {
        self.calculation
    }

    /// The results computed so far, by argument.
    pub closed spec fn cache(&self) -> Map<K, V> {
        self.value@
    }

    pub fn new(calculation: F) -> (r: Self)
        ensures
            r.calculation() == calculation,
            r.cache() == Map::<K, V>::empty(),
    {
        Cacher { calculation, value: HashMap::new() }
    }

    /// The result of `calculation` on `arg`: the remembered one when there is one, else
    /// computed now and remembered.
    pub fn value(&mut self, arg: K) -> (r: V)
        requires
            old(self).calculation().requires((arg,)),
        ensures
            final(self).calculation() == old(self).calculation(),
            obeys_key_model::<K>() ==> if old(self).cache().contains_key(arg) {
                &&& final(self).cache() == old(self).cache()
                &&& cloned(old(self).cache()[arg], r)
            } else {
                exists|v: V|
                    {
                        &&& old(self).calculation().ensures((arg,), v)
                        &&& final(self).cache() == old(self).cache().insert(arg, v)
                        &&& cloned(v, r)
                    }
            },
    {
        match self.value.get(&arg) {
            Some(val) => {
                let r = val.clone();
                proof {
                    assert(cloned(*val, r));
                }
                r
            },
            None => {
                let calculated = (self.calculation)(arg);
                let r = calculated.clone();
                proof {
                    assert(cloned(calculated, r));
                    assert(self.calculation.ensures((arg,), calculated));
                }
                self.value.insert(arg, calculated);
                r
            },
        }
    }
}

} // verus!
