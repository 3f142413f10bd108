use vstd::prelude::*;

use crate::addr_map::{floor_entry, is_floor, lemma_floor_exists, AddrMap};

verus! {

/// An item with the size of the address range it covers.
pub struct RangeItem<T> {
    pub item: T,
    pub size: u64,
}

/// The item whose range holds `a`: the entry with the greatest start at most
/// `a`, when `a` lies within its size from that start.
pub open spec fn range_lookup<T>(m: Map<u64, RangeItem<T>>, a: u64) -> Option<T> {
    match floor_entry(m, a) {
        Some((k, e)) => if a <= k + e.size {
            Some(e.item)
        } else {
            None
        },
        None => None,
    }
}

/// No two ranges share an address: a range ends before the next one starts.
pub open spec fn disjoint_ranges<T>(m: Map<u64, RangeItem<T>>) -> bool {
    forall|k1: u64, k2: u64|
        m.contains_key(k1) && m.contains_key(k2) && k1 < k2 ==> k1 + m[k1].size < k2
}

/// Among ranges that share no address, a lookup finds the one range that
/// holds the address, and nothing where no range holds it: between ranges
/// or before the first.
pub proof fn lemma_retrieve_disjoint<T>(m: Map<u64, RangeItem<T>>, a: u64, k: u64)
    requires
        disjoint_ranges(m),
    ensures
        m.contains_key(k) && k <= a && a <= k + m[k].size ==> range_lookup(m, a) == Some(
            m[k].item,
        ),
        (forall|j: u64| #[trigger] m.contains_key(j) ==> !(j <= a && a <= j + m[j].size))
            ==> range_lookup(m, a) is None,
{
    if m.contains_key(k) && k <= a && a <= k + m[k].size {
        lemma_floor_exists(m.dom(), a, k);
        let c = choose|c: u64| is_floor(m.dom(), a, c);
        if c > k {
            assert(k + m[k].size < c);
        }
        assert(c == k);
    }
    if forall|j: u64| #[trigger] m.contains_key(j) ==> !(j <= a && a <= j + m[j].size) {
        if exists|c: u64| is_floor(m.dom(), a, c) {
            let c = choose|c: u64| is_floor(m.dom(), a, c);
            assert(m.contains_key(c));
        }
    }
}

/// Address ranges keyed by their start. Overlap is not checked: where ranges
/// overlap, the one with the greatest start at most the address is looked at.
pub struct RangeMap<T> {
    map: AddrMap<RangeItem<T>>,
}

impl<T> View for RangeMap<T> {
    type V = Map<u64, RangeItem<T>>;

    closed spec fn view(&self) -> Map<u64, RangeItem<T>> {
        self.map@
    }
}

impl<T> RangeMap<T> {
    pub closed spec fn wf(&self) -> bool {
        self.map.wf()
    }

    pub fn new() -> (r: Self)
        ensures
            r.wf(),
            r@ == Map::<u64, RangeItem<T>>::empty(),
    {
        RangeMap { map: AddrMap::new() }
    }

    /// Stores `item` for the range from `address` to `address + size`,
    /// replacing a range with the same start.
    pub fn insert(&mut self, address: u64, size: u64, item: T)
        requires
            old(self).wf(),
        ensures
            final(self).wf(),
            final(self)@ == old(self)@.insert(address, RangeItem { item, size }),
    {
        self.map.insert(address, RangeItem { item, size });
    }

    /// The item whose range holds `address`.
    pub fn retrieve_range(&self, address: u64) -> (r: Option<&T>)
        requires
            self.wf(),
        ensures
            match r {
                Some(t) => range_lookup(self@, address) == Some(*t),
                None => range_lookup(self@, address) is None,
            },
    {
        match self.map.floor(address) {
            Some((start, entry)) => {
                if address - start <= entry.size {
                    Some(&entry.item)
                } else {
                    None
                }
            },
            None => None,
        }
    }
}

} // verus!
