use vstd::prelude::*;

use crate::bytes::{array_eq, option_array_eq};
use crate::chain::{Address, Log, H256};
use crate::data_source::{start_block, start_block_of, DataSource, EventHandler};
use crate::hash::{event_topic, topic_of};

verus! {

/// One entry of a log filter: the block after which it is active, the contract
/// (any contract where absent) and the event topic.
pub type LogFilterEntry = (Option<u64>, Option<Address>, H256);

/// Whether one entry admits a log of `address` with first topic `topic0` in block `block`.
pub open spec fn entry_admits(e: LogFilterEntry, address: Address, topic0: H256, block: u64) -> bool {
    &&& e.2 == topic0
    &&& (e.1 is None || e.1 == Some(address))
    &&& (e.0 is None || e.0.unwrap() < block)
}

/// Whether a set of entries admits a log in block `block`.
pub open spec fn log_filter_admits(entries: Set<LogFilterEntry>, log: Log, block: u64) -> bool {
    &&& log.topics@.len() > 0
    &&& exists|e: LogFilterEntry| #[trigger] entries.contains(e) && entry_admits(e, log.address, log.topics@[0], block)
}

/// The entries that one data source's event handlers `hs` contribute.
pub open spec fn handler_log_entries(ds: DataSource, hs: Seq<EventHandler>) -> Set<LogFilterEntry> {
    Set::new(|e: LogFilterEntry| exists|j: int| 0 <= j < hs.len() && e == (start_block_of(ds), ds.source.address, e.2) && e.2@ == topic_of(#[trigger] hs[j].event@))
}

/// The entries of the log filter of a list of data sources: one per data source
/// and event handler.
pub open spec fn log_entries_of(dss: Seq<DataSource>) -> Set<LogFilterEntry> {
    Set::new(|e: LogFilterEntry| exists|i: int| 0 <= i < dss.len() && #[trigger] handler_log_entries(dss[i], dss[i].mapping.event_handlers@).contains(e))
}

/// Building the log filter of two lists of data sources at once gives the
/// entries of the two filters built apart, joined.
pub proof fn lemma_log_filter_of_concat(a: Seq<DataSource>, b: Seq<DataSource>)
    ensures
        log_entries_of(a + b) == log_entries_of(a).union(log_entries_of(b)),
{
    let ab = a + b;
    assert forall|x: LogFilterEntry| #[trigger] log_entries_of(ab).contains(x)
        <==> log_entries_of(a).union(log_entries_of(b)).contains(x) by {
        if log_entries_of(ab).contains(x) {
            let k = choose|k: int| 0 <= k < ab.len() && #[trigger] handler_log_entries(ab[k], ab[k].mapping.event_handlers@).contains(x);
            if k < a.len() {
                assert(ab[k] == a[k]);
            } else {
                assert(ab[k] == b[k - a.len()]);
            }
        }
        if log_entries_of(a).contains(x) {
            let k = choose|k: int| 0 <= k < a.len() && #[trigger] handler_log_entries(a[k], a[k].mapping.event_handlers@).contains(x);
            assert(ab[k] == a[k]);
        }
        if log_entries_of(b).contains(x) {
            let k = choose|k: int| 0 <= k < b.len() && #[trigger] handler_log_entries(b[k], b[k].mapping.event_handlers@).contains(x);
            assert(ab[k + a.len()] == b[k]);
        }
    }
    assert(log_entries_of(ab) =~= log_entries_of(a).union(log_entries_of(b)));
}

/// The log filter of a single data source with a start block matches no log
/// seen in a block before that start block.
pub proof fn lemma_log_filter_inactive_before_start(ds: DataSource, log: Log, n: u64)
    requires
        start_block_of(ds) is Some,
        n < start_block_of(ds).unwrap(),
    ensures
        !log_filter_admits(log_entries_of(seq![ds]), log, n),
{
    let s = log_entries_of(seq![ds]);
    assert forall|e: LogFilterEntry| #[trigger] s.contains(e) implies !entry_admits(e, log.address, log.topics@[0], n) by {
        let k = choose|k: int| 0 <= k < 1 && #[trigger] handler_log_entries(seq![ds][k], seq![ds][k].mapping.event_handlers@).contains(e);
        assert(seq![ds][k] == ds);
    }
}

/// A set of (start block, contract, event topic) entries; a log matches when one
/// entry admits it.
pub struct EthereumLogFilter {
    pub contract_address_and_event_sig_pairs: Vec<LogFilterEntry>,
}

impl View for EthereumLogFilter {
    type V = Set<LogFilterEntry>;

    open spec fn view(&self) -> Set<LogFilterEntry> {
        self.contract_address_and_event_sig_pairs@.to_set()
    }
}

fn entry_eq(a: &LogFilterEntry, b: &LogFilterEntry) -> (r: bool)
    ensures
        r == (*a == *b),
{
    a.0 == b.0 && option_array_eq(&a.1, &b.1) && array_eq(&a.2, &b.2)
}

impl EthereumLogFilter {
    /// Entries are held once each.
    pub open spec fn well_formed(&self) -> bool {
        self.contract_address_and_event_sig_pairs@.no_duplicates()
    }

    /// A filter without entries.
    pub fn new() -> (r: Self)
        ensures
            r.well_formed(),
            r@ == Set::<LogFilterEntry>::empty(),
    {
        let r = EthereumLogFilter { contract_address_and_event_sig_pairs: Vec::new() };
        assert(r@ =~= Set::<LogFilterEntry>::empty());
        r
    }

    /// Whether the filter holds the entry.
    pub fn contains(&self, e: &LogFilterEntry) -> (r: bool)
        ensures
            r == self@.contains(*e),
    {
        let v = &self.contract_address_and_event_sig_pairs;
        let mut i: usize = 0;
        while i < v.len()
            invariant
                *v == self.contract_address_and_event_sig_pairs,
                i <= v@.len(),
                forall|k: int| 0 <= k < i ==> v@[k] != *e,
            decreases v@.len() - i,
        {
            if entry_eq(&v[i], e) {
                assert(v@.contains(*e));
                return true;
            }
            i = i + 1;
        }
        false
    }

    /// Adds an entry unless the filter already holds it.
    pub fn insert(&mut self, e: LogFilterEntry)
        requires
            old(self).well_formed(),
        ensures
            final(self).well_formed(),
            final(self)@ == old(self)@.insert(e),
    {
        if !self.contains(&e) {
            self.contract_address_and_event_sig_pairs.push(e);
            proof {
                old(self).contract_address_and_event_sig_pairs@.lemma_push_to_set_commute(e);
                assert forall|k: int| 0 <= k < old(self).contract_address_and_event_sig_pairs@.len()
                    implies old(self).contract_address_and_event_sig_pairs@[k] != e by {
                    if old(self).contract_address_and_event_sig_pairs@[k] == e {
                        assert(old(self).contract_address_and_event_sig_pairs@.contains(e));
                    }
                }
            }
        } else {
            assert(self@ =~= old(self)@.insert(e));
        }
    }

    /// Check if a log bloom filter indicates a possible match for this filter.
    /// Every bloom is taken as a possible match, so no log is ever missed.
    pub fn check_bloom(&self, _bloom: &[u8; 256]) -> (r: bool)
        ensures
            r,
    {
        true
    }

    /// Whether the log, seen in block `block_num`, matches the filter: its first
    /// topic is the topic of an entry whose contract is absent or the log's, and
    /// whose start block is absent or before `block_num`.
    pub fn matches(&self, log: &Log, block_num: u64) -> (r: bool)
        ensures
            r == log_filter_admits(self@, *log, block_num),
            log.topics@.len() == 0 ==> !r,
    {
        if log.topics.len() == 0 {
            return false;
        }
        let sig = &log.topics[0];
        let v = &self.contract_address_and_event_sig_pairs;
        let mut i: usize = 0;
        while i < v.len()
            invariant
                *v == self.contract_address_and_event_sig_pairs,
                i <= v@.len(),
                log.topics@.len() > 0,
                *sig == log.topics@[0],
                forall|k: int| 0 <= k < i ==> !entry_admits(v@[k], log.address, *sig, block_num),
            decreases v@.len() - i,
        {
            let e = &v[i];
            let addr_ok = match &e.1 {
                Some(a) => array_eq(a, &log.address),
                None => true,
            };
            let block_ok = match e.0 {
                Some(sb) => sb < block_num,
                None => true,
            };
            if array_eq(&e.2, sig) && addr_ok && block_ok {
                assert(self@.contains(v@[i as int]));
                return true;
            }
            i = i + 1;
        }
        assert forall|e: LogFilterEntry| #[trigger] self@.contains(e) implies !entry_admits(e, log.address, log.topics@[0], block_num) by {
            let k = choose|k: int| 0 <= k < v@.len() && v@[k] == e;
        }
        false
    }

    /// Builds the filter of a list of data sources: an entry for each data source
    /// and each of its event handlers, with the data source's start block and
    /// contract and the topic of the handler's event signature.
    pub fn from_data_sources(data_sources: &Vec<DataSource>) -> (r: Self)
        ensures
            r.well_formed(),
            r@ == log_entries_of(data_sources@),
    {
        let mut r = EthereumLogFilter::new();
        let mut i: usize = 0;
        while i < data_sources.len()
            invariant
                i <= data_sources@.len(),
                r.well_formed(),
                r@ == log_entries_of(data_sources@.take(i as int)),
            decreases data_sources@.len() - i,
        {
            let ds = &data_sources[i];
            let sb = start_block(ds);
            let hs = &ds.mapping.event_handlers;
            let ghost before = r@;
            let mut j: usize = 0;
            while j < hs.len()
                invariant
                    i < data_sources@.len(),
                    *ds == data_sources@[i as int],
                    *hs == ds.mapping.event_handlers,
                    sb == start_block_of(*ds),
                    j <= hs@.len(),
                    r.well_formed(),
                    r@ == before.union(handler_log_entries(*ds, hs@.take(j as int))),
                decreases hs@.len() - j,
            {
                let topic = event_topic(hs[j].event.as_str());
                let e: LogFilterEntry = (sb, ds.source.address, topic);
                r.insert(e);
                proof {
                    assert(hs@.take(j as int + 1)[j as int] == hs@[j as int]);
                    assert forall|x: LogFilterEntry| #[trigger] handler_log_entries(*ds, hs@.take(j as int + 1)).contains(x)
                        <==> handler_log_entries(*ds, hs@.take(j as int)).insert(e).contains(x) by {
                        if handler_log_entries(*ds, hs@.take(j as int + 1)).contains(x) && x != e {
                            let k = choose|k: int| 0 <= k < j + 1 && x == (start_block_of(*ds), ds.source.address, x.2) && x.2@ == topic_of(#[trigger] hs@.take(j as int + 1)[k].event@);
                            if k == j {
                                assert(x.2@ == e.2@);
                                assert(x.2 =~= e.2);
                            }
                            assert(hs@.take(j as int)[k] == hs@.take(j as int + 1)[k]);
                        }
                        if handler_log_entries(*ds, hs@.take(j as int)).contains(x) {
                            let k = choose|k: int| 0 <= k < j && x == (start_block_of(*ds), ds.source.address, x.2) && x.2@ == topic_of(#[trigger] hs@.take(j as int)[k].event@);
                            assert(hs@.take(j as int)[k] == hs@.take(j as int + 1)[k]);
                        }
                    }
                    assert(r@ =~= before.union(handler_log_entries(*ds, hs@.take(j as int + 1))));
                }
                j = j + 1;
            }
            proof {
                assert(hs@.take(j as int) =~= hs@);
                let dss = data_sources@;
                assert forall|x: LogFilterEntry| #[trigger] log_entries_of(dss.take(i as int + 1)).contains(x)
                    <==> before.union(handler_log_entries(*ds, hs@)).contains(x) by {
                    if log_entries_of(dss.take(i as int + 1)).contains(x) {
                        let k = choose|k: int| 0 <= k < i + 1 && #[trigger] handler_log_entries(dss.take(i as int + 1)[k], dss.take(i as int + 1)[k].mapping.event_handlers@).contains(x);
                        if k < i {
                            assert(dss.take(i as int)[k] == dss.take(i as int + 1)[k]);
                        }
                    }
                    if before.contains(x) {
                        let k = choose|k: int| 0 <= k < i && #[trigger] handler_log_entries(dss.take(i as int)[k], dss.take(i as int)[k].mapping.event_handlers@).contains(x);
                        assert(dss.take(i as int)[k] == dss.take(i as int + 1)[k]);
                    }
                    if handler_log_entries(*ds, hs@).contains(x) {
                        assert(dss.take(i as int + 1)[i as int] == *ds);
                    }
                }
                assert(r@ =~= log_entries_of(dss.take(i as int + 1)));
            }
            i = i + 1;
        }
        assert(data_sources@.take(i as int) =~= data_sources@);
        r
    }

    /// Extends this filter with the entries of another one.
    pub fn extend(&mut self, other: EthereumLogFilter)
        requires
            old(self).well_formed(),
        ensures
            final(self).well_formed(),
            final(self)@ == old(self)@.union(other@),
    {
        let v = &other.contract_address_and_event_sig_pairs;
        let mut i: usize = 0;
        while i < v.len()
            invariant
                i <= v@.len(),
                self.well_formed(),
                self@ == old(self)@.union(v@.take(i as int).to_set()),
            decreases v@.len() - i,
        {
            self.insert(v[i]);
            proof {
                assert(v@.take(i as int + 1) =~= v@.take(i as int).push(v@[i as int]));
                v@.take(i as int).lemma_push_to_set_commute(v@[i as int]);
                assert(self@ =~= old(self)@.union(v@.take(i as int + 1).to_set()));
            }
            i = i + 1;
        }
        assert(v@.take(i as int) =~= v@);
    }

    /// An empty filter is one that never matches.
    pub fn is_empty(&self) -> (r: bool)
        ensures
            r == (self@ == Set::<LogFilterEntry>::empty()),
    {
        let r = self.contract_address_and_event_sig_pairs.len() == 0;
        proof {
            if !r {
                assert(self@.contains(self.contract_address_and_event_sig_pairs@[0]));
            } else {
                assert(self@ =~= Set::<LogFilterEntry>::empty());
            }
        }
        r
    }

    /// The entries already active from `start_block` on: those without a start
    /// block, or whose start block is `start_block` or later.
    pub fn only_activated_filters(&mut self, start_block: u64) -> (r: Self)
        requires
            old(self).well_formed(),
        ensures
            *final(self) == *old(self),
            r.well_formed(),
            r@ == old(self)@.filter(|e: LogFilterEntry| e.0 is None || e.0.unwrap() >= start_block),
    {
        let v = &self.contract_address_and_event_sig_pairs;
        let mut r = EthereumLogFilter::new();
        let mut i: usize = 0;
        while i < v.len()
            invariant
                *v == self.contract_address_and_event_sig_pairs,
                *self == *old(self),
                i <= v@.len(),
                r.well_formed(),
                r@ == v@.take(i as int).to_set().filter(|e: LogFilterEntry| e.0 is None || e.0.unwrap() >= start_block),
            decreases v@.len() - i,
        {
            let e = v[i];
            let keep = match e.0 {
                Some(b) => b >= start_block,
                None => true,
            };
            if keep {
                r.insert(e);
            }
            proof {
                assert(v@.take(i as int + 1) =~= v@.take(i as int).push(e));
                v@.take(i as int).lemma_push_to_set_commute(e);
                assert(r@ =~= v@.take(i as int + 1).to_set().filter(|e: LogFilterEntry| e.0 is None || e.0.unwrap() >= start_block));
            }
            i = i + 1;
        }
        assert(v@.take(i as int) =~= v@);
        r
    }
}

} // verus!
