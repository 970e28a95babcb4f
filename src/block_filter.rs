use vstd::prelude::*;

use crate::bytes::array_eq;
use crate::chain::Address;
use crate::data_source::{start_block, start_block_of, BlockHandler, DataSource};

verus! {

/// A contract whose blocks with calls to it trigger block handlers, active after
/// its start block.
pub type BlockFilterEntry = (Option<u64>, Address);

/// Whether some block handler of the list has no filter.
pub open spec fn has_unfiltered_handler(hs: Seq<BlockHandler>) -> bool {
    exists|j: int| 0 <= j < hs.len() && (#[trigger] hs[j]).filter is None
}

/// Whether some block handler of the list is gated on calls.
pub open spec fn has_call_handler(hs: Seq<BlockHandler>) -> bool {
    exists|j: int| 0 <= j < hs.len() && (#[trigger] hs[j]).filter is Some
}

/// Whether some data source with a contract has a block handler without a filter.
pub open spec fn every_block_of(dss: Seq<DataSource>) -> bool {
    exists|i: int| 0 <= i < dss.len() && (#[trigger] dss[i]).source.address is Some
        && has_unfiltered_handler(dss[i].mapping.block_handlers@)
}

/// The contracts, with their start blocks, of the data sources that have a
/// call-gated block handler.
pub open spec fn block_entries_of(dss: Seq<DataSource>) -> Set<BlockFilterEntry> {
    Set::new(|e: BlockFilterEntry| exists|i: int| 0 <= i < dss.len() && (#[trigger] dss[i]).source.address == Some(e.1)
        && has_call_handler(dss[i].mapping.block_handlers@) && e.0 == start_block_of(dss[i]))
}

/// The contracts whose blocks trigger call-gated block handlers, and whether
/// every block triggers a handler.
pub struct EthereumBlockFilter {
    pub contract_addresses: Vec<BlockFilterEntry>,
    pub trigger_every_block: bool,
}

impl View for EthereumBlockFilter {
    type V = (Set<BlockFilterEntry>, bool);

    open spec fn view(&self) -> (Set<BlockFilterEntry>, bool) {
        (self.contract_addresses@.to_set(), self.trigger_every_block)
    }
}

fn entry_eq(a: &BlockFilterEntry, b: &BlockFilterEntry) -> (r: bool)
    ensures
        r == (*a == *b),
{
    a.0 == b.0 && array_eq(&a.1, &b.1)
}

impl EthereumBlockFilter {
    /// Entries are held once each.
    pub open spec fn well_formed(&self) -> bool {
        self.contract_addresses@.no_duplicates()
    }

    /// A filter that no block passes.
    pub fn new() -> (r: Self)
        ensures
            r.well_formed(),
            r@ == (Set::<BlockFilterEntry>::empty(), false),
    {
        let r = EthereumBlockFilter { contract_addresses: Vec::new(), trigger_every_block: false };
        assert(r@.0 =~= Set::<BlockFilterEntry>::empty());
        r
    }

    /// Adds an entry unless the filter already holds it.
    pub fn insert(&mut self, e: BlockFilterEntry)
        requires
            old(self).well_formed(),
        ensures
            final(self).well_formed(),
            final(self)@ == (old(self)@.0.insert(e), old(self)@.1),
    {
        if !self.contains(&e) {
            self.contract_addresses.push(e);
            proof {
                old(self).contract_addresses@.lemma_push_to_set_commute(e);
                assert forall|k: int| 0 <= k < old(self).contract_addresses@.len()
                    implies old(self).contract_addresses@[k] != e by {
                    if old(self).contract_addresses@[k] == e {
                        assert(old(self).contract_addresses@.contains(e));
                    }
                }
            }
        } else {
            assert(self@.0 =~= old(self)@.0.insert(e));
        }
    }

    /// Whether the filter holds the entry.
    pub fn contains(&self, e: &BlockFilterEntry) -> (r: bool)
        ensures
            r == self@.0.contains(*e),
    {
        let v = &self.contract_addresses;
        let mut i: usize = 0;
        while i < v.len()
            invariant
                *v == self.contract_addresses,
                i <= v@.len(),
                forall|k: int| 0 <= k < i ==> v@[k] != *e,
            decreases v@.len() - i,
        {
            if entry_eq(&v[i], e) {
                assert(v@.contains(*e));
                return true;
            }
            i = i + 1;
        }
        false
    }

    /// Builds the filter of a list of data sources: among those with a contract,
    /// every block triggers when one has a block handler without a filter, and
    /// the contract with its start block is kept for each that has a
    /// call-gated block handler.
    pub fn from_data_sources(data_sources: &Vec<DataSource>) -> (r: Self)
        ensures
            r.well_formed(),
            r@ == (block_entries_of(data_sources@), every_block_of(data_sources@)),
    {
        let mut r = EthereumBlockFilter::new();
        let mut i: usize = 0;
        while i < data_sources.len()
            invariant
                i <= data_sources@.len(),
                r.well_formed(),
                r@ == (block_entries_of(data_sources@.take(i as int)), every_block_of(data_sources@.take(i as int))),
            decreases data_sources@.len() - i,
        {
            let ds = &data_sources[i];
            let ghost dss = data_sources@;
            let ghost before = r@;
            let hs = &ds.mapping.block_handlers;
            let mut has_call = false;
            let mut has_none = false;
            let mut j: usize = 0;
            while j < hs.len()
                invariant
                    j <= hs@.len(),
                    has_call == has_call_handler(hs@.take(j as int)),
                    has_none == has_unfiltered_handler(hs@.take(j as int)),
                decreases hs@.len() - j,
            {
                let ghost t = hs@.take(j as int + 1);
                assert(t[j as int] == hs@[j as int]);
                match &hs[j].filter {
                    Some(_) => {
                        has_call = true;
                    },
                    None => {
                        has_none = true;
                    },
                }
                proof {
                    if has_call_handler(t) && !has_call_handler(hs@.take(j as int)) {
                        let k = choose|k: int| 0 <= k < t.len() && (#[trigger] t[k]).filter is Some;
                        if k < j {
                            assert(hs@.take(j as int)[k] == t[k]);
                        }
                    }
                    if has_call_handler(hs@.take(j as int)) {
                        let k = choose|k: int| 0 <= k < j && (#[trigger] hs@.take(j as int)[k]).filter is Some;
                        assert(hs@.take(j as int)[k] == t[k]);
                    }
                    if has_unfiltered_handler(t) && !has_unfiltered_handler(hs@.take(j as int)) {
                        let k = choose|k: int| 0 <= k < t.len() && (#[trigger] t[k]).filter is None;
                        if k < j {
                            assert(hs@.take(j as int)[k] == t[k]);
                        }
                    }
                    if has_unfiltered_handler(hs@.take(j as int)) {
                        let k = choose|k: int| 0 <= k < j && (#[trigger] hs@.take(j as int)[k]).filter is None;
                        assert(hs@.take(j as int)[k] == t[k]);
                    }
                }
                j = j + 1;
            }
            assert(hs@.take(j as int) =~= hs@);
            let ghost pre = dss.take(i as int);
            let ghost post = dss.take(i as int + 1);
            assert(post[i as int] == *ds);
            assert forall|k: int| 0 <= k < i implies post[k] == pre[k] by {}
            match ds.source.address {
                Some(address) => {
                    if has_none {
                        r.trigger_every_block = true;
                    }
                    if has_call {
                        let sb = start_block(ds);
                        r.insert((sb, address));
                    }
                },
                None => {},
            }
            proof {
                assert(r@.1 == every_block_of(post)) by {
                    if every_block_of(post) {
                        let k = choose|k: int| 0 <= k < post.len() && (#[trigger] post[k]).source.address is Some
                            && has_unfiltered_handler(post[k].mapping.block_handlers@);
                        if k < i {
                            assert(pre[k] == post[k]);
                        }
                    }
                    if every_block_of(pre) {
                        let k = choose|k: int| 0 <= k < pre.len() && (#[trigger] pre[k]).source.address is Some
                            && has_unfiltered_handler(pre[k].mapping.block_handlers@);
                        assert(pre[k] == post[k]);
                    }
                }
                assert forall|e: BlockFilterEntry| #[trigger] r@.0.contains(e) <==> block_entries_of(post).contains(e) by {
                    if block_entries_of(post).contains(e) {
                        let k = choose|k: int| 0 <= k < post.len() && (#[trigger] post[k]).source.address == Some(e.1)
                            && has_call_handler(post[k].mapping.block_handlers@) && e.0 == start_block_of(post[k]);
                        if k < i {
                            assert(pre[k] == post[k]);
                            assert(before.0.contains(e));
                        }
                    }
                    if before.0.contains(e) {
                        let k = choose|k: int| 0 <= k < pre.len() && (#[trigger] pre[k]).source.address == Some(e.1)
                            && has_call_handler(pre[k].mapping.block_handlers@) && e.0 == start_block_of(pre[k]);
                        assert(pre[k] == post[k]);
                    }
                }
                assert(r@.0 =~= block_entries_of(post));
            }
            i = i + 1;
        }
        assert(data_sources@.take(i as int) =~= data_sources@);
        r
    }

    /// Joins another filter into this one: every block triggers when it does in
    /// either, and the contracts of both are kept.
    pub fn extend(&mut self, other: EthereumBlockFilter)
        requires
            old(self).well_formed(),
        ensures
            final(self).well_formed(),
            final(self)@ == (old(self)@.0.union(other@.0), old(self)@.1 || other@.1),
    {
        self.trigger_every_block = self.trigger_every_block || other.trigger_every_block;
        let v = &other.contract_addresses;
        let mut i: usize = 0;
        while i < v.len()
            invariant
                i <= v@.len(),
                self.well_formed(),
                self@ == (old(self)@.0.union(v@.take(i as int).to_set()), old(self)@.1 || other@.1),
            decreases v@.len() - i,
        {
            self.insert(v[i]);
            proof {
                assert(v@.take(i as int + 1) =~= v@.take(i as int).push(v@[i as int]));
                v@.take(i as int).lemma_push_to_set_commute(v@[i as int]);
                assert(self@.0 =~= old(self)@.0.union(v@.take(i as int + 1).to_set()));
            }
            i = i + 1;
        }
        assert(v@.take(i as int) =~= v@);
    }
}

} // verus!
