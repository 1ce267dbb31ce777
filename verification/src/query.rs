//! The query builder: a reusable specification of required component
//! types, consumed by the registry's query operation.

use vstd::prelude::*;

verus! {

/// A reusable filter for `World::query`: the set of component-type keys that
/// a matching entity must carry.
///
/// A query is a stateless value, built incrementally with [`Query::with`].
/// Its view is the set of required type keys; a query requiring zero types
/// matches every live entity.
pub struct Query {
    required: Vec<u64>,
}

impl View for Query {
    type V = Set<u64>;

    closed spec fn view(&self) -> Set<u64> {
        self.required@.to_set()
    }
}

impl Query {
    /// An empty requirement set: requires nothing, so it matches all live entities.
    pub fn new() -> (q: Query)
        ensures
            q@ == Set::<u64>::empty(),
    {
        let q = Query { required: Vec::new() };
        proof {
            assert(q@ =~= Set::<u64>::empty());
        }
        q
    }

    /// Adds `key` to the required set. Repeated calls with the same key are
    /// idempotent: the required set has set semantics.
    pub fn with(self, key: u64) -> (q: Query)
        ensures
            q@ == self@.insert(key),
    {
        let mut q = self;
        let ghost pre = q.required@;
        if !contains_key(&q.required, key) {
            q.required.push(key);
            proof {
                assert(q.required@ == pre.push(key));
                assert(q@ =~= pre.to_set().insert(key)) by {
                    broadcast use vstd::seq_lib::lemma_seq_contains_after_push;
                }
            }
        } else {
            proof {
                assert(q@ =~= pre.to_set().insert(key));
            }
        }
        q
    }

    /// The backing list of required type keys; its elements are exactly the
    /// view's elements.
    pub(crate) fn keys(&self) -> (keys: &Vec<u64>)
        ensures
            keys@.to_set() == self@,
    {
        &self.required
    }
}

/// Linear membership test on the backing vector of type keys.
fn contains_key(keys: &Vec<u64>, key: u64) -> (present: bool)
    ensures
        present == keys@.contains(key),
{
    let mut i: usize = 0;
    while i < keys.len()
        invariant
            i <= keys@.len(),
            forall|j: int| 0 <= j < i ==> keys@[j] != key,
        decreases keys@.len() - i,
    {
        if keys[i] == key {
            return true;
        }
        i += 1;
    }
    false
}

} // verus!
