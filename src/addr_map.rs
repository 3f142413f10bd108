use vstd::prelude::*;

verus! {

/// `k` is the greatest key of `dom` that is at most `a`.
pub open spec fn is_floor(dom: Set<u64>, a: u64, k: u64) -> bool {
    &&& dom.contains(k)
    &&& k <= a
    &&& forall|j: u64| dom.contains(j) && j <= a ==> j <= k
}

/// The entry of `m` with the greatest key at most `a`, if there is one.
pub open spec fn floor_entry<V>(m: Map<u64, V>, a: u64) -> Option<(u64, V)> {
    if exists|k: u64| is_floor(m.dom(), a, k) {
        let k = choose|k: u64| is_floor(m.dom(), a, k);
        Some((k, m[k]))
    } else {
        None
    }
}

/// The floor key is unique.
pub proof fn lemma_floor_unique(dom: Set<u64>, a: u64, k1: u64, k2: u64)
    requires
        is_floor(dom, a, k1),
        is_floor(dom, a, k2),
    ensures
        k1 == k2,
{
}

/// Where some key is at most `a`, a greatest such key exists.
pub proof fn lemma_floor_exists(dom: Set<u64>, a: u64, k: u64)
    requires
        dom.contains(k),
        k <= a,
    ensures
        exists|c: u64| is_floor(dom, a, c),
    decreases a - k,
{
    if forall|j: u64| dom.contains(j) && j <= a ==> j <= k {
        assert(is_floor(dom, a, k));
    } else {
        let j = choose|j: u64| !(dom.contains(j) && j <= a ==> j <= k);
        lemma_floor_exists(dom, a, j);
    }
}

/// A map from addresses to values, ordered by address.
pub struct AddrMap<V> {
    keys: Vec<u64>,
    vals: Vec<V>,
    contents: Ghost<Map<u64, V>>,
}

impl<V> View for AddrMap<V> {
    type V = Map<u64, V>;

    closed spec fn view(&self) -> Map<u64, V> {
        self.contents@
    }
}

impl<V> AddrMap<V> {
    /// Keys strictly ascending, one value per key, and the model agrees.
    pub closed spec fn wf(&self) -> bool {
        &&& self.keys@.len() == self.vals@.len()
        &&& forall|i: int, j: int|
            0 <= i < j < self.keys@.len() ==> self.keys@[i] < self.keys@[j]
        &&& forall|k: u64| self.contents@.contains_key(k) <==> self.keys@.contains(k)
        &&& forall|i: int|
            0 <= i < self.keys@.len() ==> self.contents@[#[trigger] self.keys@[i]]
                == self.vals@[i]
    }

    pub fn new() -> (r: Self)
        ensures
            r.wf(),
            r@ == Map::<u64, V>::empty(),
    {
        AddrMap { keys: Vec::new(), vals: Vec::new(), contents: Ghost(Map::empty()) }
    }

    /// The number of keys at most `a`.
    fn count_at_most(&self, a: u64) -> (r: usize)
        requires
            self.wf(),
        ensures
            r <= self.keys@.len(),
            forall|i: int| 0 <= i < r ==> self.keys@[i] <= a,
            forall|i: int| r <= i < self.keys@.len() ==> self.keys@[i] > a,
    {
        let mut lo: usize = 0;
        let mut hi: usize = self.keys.len();
        while lo < hi
            invariant
                self.wf(),
                lo <= hi <= self.keys@.len(),
                forall|i: int| 0 <= i < lo ==> self.keys@[i] <= a,
                forall|i: int| hi <= i < self.keys@.len() ==> self.keys@[i] > a,
            decreases hi - lo,
        {
            let mid = lo + (hi - lo) / 2;
            if self.keys[mid] <= a {
                lo = mid + 1;
            } else {
                hi = mid;
            }
        }
        lo
    }

    /// Stores `v` under `k`, replacing what was there.
    pub fn insert(&mut self, k: u64, v: V)
        requires
            old(self).wf(),
        ensures
            final(self).wf(),
            final(self)@ == old(self)@.insert(k, v),
    {
        let pos = self.count_at_most(k);
        let ghost old_keys = self.keys@;
        let ghost old_vals = self.vals@;
        if pos > 0 && self.keys[pos - 1] == k {
            self.vals.set(pos - 1, v);
            self.contents = Ghost(self.contents@.insert(k, v));
            assert forall|j: u64| self.contents@.contains_key(j) <==> self.keys@.contains(j) by {
                if self.keys@.contains(j) {
                    let i = choose|i: int| 0 <= i < self.keys@.len() && self.keys@[i] == j;
                    assert(old_keys[i] == j);
                }
                if old(self)@.contains_key(j) {
                    assert(old_keys.contains(j));
                }
            }
        } else {
            self.keys.insert(pos, k);
            self.vals.insert(pos, v);
            self.contents = Ghost(self.contents@.insert(k, v));
            assert forall|i: int| 0 <= i < self.keys@.len() implies self.contents@[
                #[trigger] self.keys@[i]] == self.vals@[i] by {
                if i < pos {
                    assert(self.keys@[i] == old_keys[i]);
                    assert(self.keys@[i] < k);
                } else if i > pos {
                    assert(self.keys@[i] == old_keys[i - 1]);
                    assert(self.keys@[i] > k);
                }
            }
            assert forall|j: u64| self.keys@.contains(j) implies self.contents@.contains_key(j) by {
                let i = choose|i: int| 0 <= i < self.keys@.len() && self.keys@[i] == j;
                if i < pos {
                    assert(old_keys[i] == j);
                    assert(old_keys.contains(j));
                } else if i > pos {
                    assert(old_keys[i - 1] == j);
                    assert(old_keys.contains(j));
                }
            }
            assert forall|j: u64| self.contents@.contains_key(j) implies self.keys@.contains(j) by {
                if j == k {
                    assert(self.keys@[pos as int] == k);
                } else {
                    assert(old_keys.contains(j));
                    let i = choose|i: int| 0 <= i < old_keys.len() && old_keys[i] == j;
                    if i < pos {
                        assert(self.keys@[i] == j);
                    } else {
                        assert(self.keys@[i + 1] == j);
                    }
                }
            }
        }
    }

    /// The entry with the greatest key at most `a`.
    pub fn floor(&self, a: u64) -> (r: Option<(u64, &V)>)
        requires
            self.wf(),
        ensures
            match r {
                Some((k, v)) => floor_entry(self@, a) == Some((k, *v)),
                None => floor_entry(self@, a) is None,
            },
    {
        let n = self.count_at_most(a);
        if n == 0 {
            assert forall|k: u64| !is_floor(self@.dom(), a, k) by {
                if self@.dom().contains(k) && k <= a {
                    assert(self.keys@.contains(k));
                }
            }
            None
        } else {
            let k = self.keys[n - 1];
            assert(self.keys@.contains(k));
            assert forall|j: u64| self@.dom().contains(j) && j <= a implies j <= k by {
                assert(self.keys@.contains(j));
                let i = choose|i: int| 0 <= i < self.keys@.len() && self.keys@[i] == j;
                if i > n - 1 {
                    assert(i >= n);
                }
            }
            assert(is_floor(self@.dom(), a, k));
            let ghost c = choose|c: u64| is_floor(self@.dom(), a, c);
            proof {
                lemma_floor_unique(self@.dom(), a, k, c);
            }
            Some((k, &self.vals[n - 1]))
        }
    }

    /// The value stored under `k`.
    pub fn get(&self, k: u64) -> (r: Option<&V>)
        requires
            self.wf(),
        ensures
            match r {
                Some(v) => self@.contains_key(k) && self@[k] == *v,
                None => !self@.contains_key(k),
            },
    {
        let n = self.count_at_most(k);
        if n > 0 && self.keys[n - 1] == k {
            assert(self.keys@[n - 1] == k);
            assert(self.keys@.contains(k));
            Some(&self.vals[n - 1])
        } else {
            proof {
                if self@.contains_key(k) {
                    assert(self.keys@.contains(k));
                    let i = choose|i: int| 0 <= i < self.keys@.len() && self.keys@[i] == k;
                    assert(i == n - 1);
                }
            }
            None
        }
    }
}

} // verus!
