use vstd::prelude::*;

use crate::block_filter::EthereumBlockFilter;
use crate::bytes::{array_eq, bytes_eq};
use crate::chain::{Address, EthereumCall, MethodId};
use crate::data_source::{start_block, start_block_of, CallHandler, DataSource};
use crate::hash::{method_id, method_id_of};

verus! {

/// What a call filter holds for one contract: a start block and method ids.
pub type CallFilterValue = (Option<u64>, Set<Seq<u8>>);

/// The method ids of a list, as byte strings.
pub open spec fn ids_view(ids: Seq<MethodId>) -> Set<Seq<u8>> {
    Set::new(|s: Seq<u8>| exists|k: int| 0 <= k < ids.len() && #[trigger] ids[k]@ == s)
}

/// The contract of one call filter entry, with its start block and method ids.
pub struct CallFilterEntry {
    pub address: Address,
    pub start_block: Option<u64>,
    pub method_ids: Vec<MethodId>,
}

pub open spec fn entry_view(e: CallFilterEntry) -> CallFilterValue {
    (e.start_block, ids_view(e.method_ids@))
}

/// The map that a list of entries stands for; a later entry of an address wins.
pub open spec fn entries_map(s: Seq<CallFilterEntry>) -> Map<Address, CallFilterValue>
    decreases s.len(),
{
    if s.len() == 0 {
        Map::empty()
    } else {
        entries_map(s.drop_last()).insert(s.last().address, entry_view(s.last()))
    }
}

pub open spec fn unique_addresses(s: Seq<CallFilterEntry>) -> bool {
    forall|i: int, j: int| 0 <= i < s.len() && 0 <= j < s.len() && i != j ==> s[i].address != s[j].address
}

/// Whether a call filter admits a call: the call's target has an entry, and that
/// entry has no method ids or holds the first four bytes of the call's input.
pub open spec fn call_filter_admits(m: Map<Address, CallFilterValue>, call: EthereumCall) -> bool {
    &&& m.dom().contains(call.to)
    &&& (m[call.to].1 == Set::<Seq<u8>>::empty() || (call.input@.len() >= 4
        && m[call.to].1.contains(call.input@.subrange(0, 4))))
}

/// One method id of one contract added to a call filter; a contract seen for
/// the first time takes the start block given with it.
pub open spec fn call_map_add(m: Map<Address, CallFilterValue>, sb: Option<u64>, address: Address, id: Seq<u8>) -> Map<Address, CallFilterValue> {
    if m.dom().contains(address) {
        m.insert(address, (m[address].0, m[address].1.insert(id)))
    } else {
        m.insert(address, (sb, set![id]))
    }
}

/// The method ids of the call handlers `hs` of data source `ds` added in order.
pub open spec fn handlers_fold(m: Map<Address, CallFilterValue>, ds: DataSource, hs: Seq<CallHandler>) -> Map<Address, CallFilterValue>
    decreases hs.len(),
{
    if hs.len() == 0 {
        m
    } else {
        call_map_add(handlers_fold(m, ds, hs.drop_last()), start_block_of(ds), ds.source.address.unwrap(), method_id_of(hs.last().function@))
    }
}

/// The call filter of a list of data sources: for each data source with a
/// contract, the method id of each call handler, in order.
pub open spec fn call_map_of(dss: Seq<DataSource>) -> Map<Address, CallFilterValue>
    decreases dss.len(),
{
    if dss.len() == 0 {
        Map::empty()
    } else {
        let d = dss.last();
        let m = call_map_of(dss.drop_last());
        if d.source.address is Some {
            handlers_fold(m, d, d.mapping.call_handlers@)
        } else {
            m
        }
    }
}

/// Two call filters joined: the method ids of a contract in both are united and
/// the start block of the second is kept.
pub open spec fn call_map_merge(m1: Map<Address, CallFilterValue>, m2: Map<Address, CallFilterValue>) -> Map<Address, CallFilterValue> {
    Map::new(
        |a: Address| m1.dom().contains(a) || m2.dom().contains(a),
        |a: Address|
            if m2.dom().contains(a) {
                (m2[a].0, if m1.dom().contains(a) { m1[a].1.union(m2[a].1) } else { m2[a].1 })
            } else {
                m1[a]
            },
    )
}

proof fn lemma_entries_map_lookup(s: Seq<CallFilterEntry>, k: int)
    requires
        unique_addresses(s),
        0 <= k < s.len(),
    ensures
        entries_map(s).dom().contains(s[k].address),
        entries_map(s)[s[k].address] == entry_view(s[k]),
    decreases s.len(),
{
    if k < s.len() - 1 {
        let p = s.drop_last();
        assert(p[k] == s[k]);
        lemma_entries_map_lookup(p, k);
        assert(s.last().address != s[k].address);
    }
}

proof fn lemma_entries_map_dom(s: Seq<CallFilterEntry>, a: Address)
    ensures
        entries_map(s).dom().contains(a) <==> exists|k: int| 0 <= k < s.len() && #[trigger] s[k].address == a,
    decreases s.len(),
{
    if s.len() > 0 {
        let p = s.drop_last();
        lemma_entries_map_dom(p, a);
        if exists|k: int| 0 <= k < s.len() && #[trigger] s[k].address == a {
            let k = choose|k: int| 0 <= k < s.len() && #[trigger] s[k].address == a;
            if k < s.len() - 1 {
                assert(p[k] == s[k]);
            }
        }
        if exists|k: int| 0 <= k < p.len() && #[trigger] p[k].address == a {
            let k = choose|k: int| 0 <= k < p.len() && #[trigger] p[k].address == a;
            assert(s[k] == p[k]);
        }
    }
}

proof fn lemma_entries_map_update(s: Seq<CallFilterEntry>, k: int, e: CallFilterEntry)
    requires
        unique_addresses(s),
        0 <= k < s.len(),
        e.address == s[k].address,
    ensures
        entries_map(s.update(k, e)) == entries_map(s).insert(e.address, entry_view(e)),
    decreases s.len(),
{
    let u = s.update(k, e);
    if k == s.len() - 1 {
        assert(u.drop_last() =~= s.drop_last());
        assert(entries_map(u) =~= entries_map(s).insert(e.address, entry_view(e)));
    } else {
        let p = s.drop_last();
        assert(u.drop_last() =~= p.update(k, e));
        assert(p[k] == s[k]);
        lemma_entries_map_update(p, k, e);
        assert(s.last().address != s[k].address);
        assert(entries_map(u) =~= entries_map(s).insert(e.address, entry_view(e)));
    }
}

fn ids_contain(ids: &Vec<MethodId>, id: &[u8]) -> (r: bool)
    ensures
        r == ids_view(ids@).contains(id@),
{
    let mut i: usize = 0;
    while i < ids.len()
        invariant
            i <= ids@.len(),
            forall|k: int| 0 <= k < i ==> ids@[k]@ != id@,
        decreases ids@.len() - i,
    {
        if bytes_eq(ids[i].as_slice(), id) {
            assert(ids_view(ids@).contains(id@));
            return true;
        }
        i = i + 1;
    }
    false
}

proof fn lemma_ids_view_concat(a: Seq<MethodId>, b: Seq<MethodId>)
    ensures
        ids_view(a + b) == ids_view(a).union(ids_view(b)),
{
    let ab = a + b;
    assert forall|s: Seq<u8>| #[trigger] ids_view(ab).contains(s) <==> ids_view(a).union(ids_view(b)).contains(s) by {
        if ids_view(ab).contains(s) {
            let j = choose|j: int| 0 <= j < ab.len() && #[trigger] ab[j]@ == s;
            if j < a.len() {
                assert(ab[j] == a[j]);
            } else {
                assert(ab[j] == b[j - a.len()]);
            }
        }
        if ids_view(a).contains(s) {
            let j = choose|j: int| 0 <= j < a.len() && #[trigger] a[j]@ == s;
            assert(ab[j] == a[j]);
        }
        if ids_view(b).contains(s) {
            let j = choose|j: int| 0 <= j < b.len() && #[trigger] b[j]@ == s;
            assert(ab[j + a.len()] == b[j]);
        }
    }
    assert(ids_view(ab) =~= ids_view(a).union(ids_view(b)));
}

/// Appends the method ids of `src` to `dst`.
fn append_ids(dst: &mut Vec<MethodId>, src: &Vec<MethodId>)
    ensures
        final(dst)@ == old(dst)@ + src@,
{
    let mut i: usize = 0;
    while i < src.len()
        invariant
            i <= src@.len(),
            dst@ == old(dst)@ + src@.take(i as int),
        decreases src@.len() - i,
    {
        dst.push(src[i]);
        assert(src@.take(i as int + 1) =~= src@.take(i as int).push(src@[i as int]));
        i = i + 1;
    }
    assert(src@.take(i as int) =~= src@);
}

/// The method ids of each call handler of a data source with a contract are
/// among the method ids that the call filter of the data sources holds for
/// that contract.
pub proof fn lemma_call_filter_holds_method_ids(dss: Seq<DataSource>, i: int, j: int)
    requires
        0 <= i < dss.len(),
        dss[i].source.address is Some,
        0 <= j < dss[i].mapping.call_handlers@.len(),
    ensures
        call_map_of(dss).dom().contains(dss[i].source.address.unwrap()),
        call_map_of(dss)[dss[i].source.address.unwrap()].1.contains(method_id_of(dss[i].mapping.call_handlers@[j].function@)),
    decreases dss.len(),
{
    let a = dss[i].source.address.unwrap();
    let id = method_id_of(dss[i].mapping.call_handlers@[j].function@);
    let d = dss.last();
    let p = dss.drop_last();
    if i < dss.len() - 1 {
        assert(p[i] == dss[i]);
        lemma_call_filter_holds_method_ids(p, i, j);
        if d.source.address is Some {
            lemma_handlers_fold_keeps(call_map_of(p), d, d.mapping.call_handlers@, a, id);
        }
    } else {
        lemma_handlers_fold_adds(call_map_of(p), d, d.mapping.call_handlers@, j);
    }
}

proof fn lemma_handlers_fold_keeps(m: Map<Address, CallFilterValue>, ds: DataSource, hs: Seq<CallHandler>, a: Address, id: Seq<u8>)
    requires
        m.dom().contains(a),
        m[a].1.contains(id),
    ensures
        handlers_fold(m, ds, hs).dom().contains(a),
        handlers_fold(m, ds, hs)[a].1.contains(id),
    decreases hs.len(),
{
    if hs.len() > 0 {
        lemma_handlers_fold_keeps(m, ds, hs.drop_last(), a, id);
    }
}

proof fn lemma_handlers_fold_adds(m: Map<Address, CallFilterValue>, ds: DataSource, hs: Seq<CallHandler>, j: int)
    requires
        ds.source.address is Some,
        0 <= j < hs.len(),
    ensures
        handlers_fold(m, ds, hs).dom().contains(ds.source.address.unwrap()),
        handlers_fold(m, ds, hs)[ds.source.address.unwrap()].1.contains(method_id_of(hs[j].function@)),
    decreases hs.len(),
{
    let a = ds.source.address.unwrap();
    if j < hs.len() - 1 {
        assert(hs.drop_last()[j] == hs[j]);
        lemma_handlers_fold_adds(m, ds, hs.drop_last(), j);
        lemma_handlers_fold_keeps(handlers_fold(m, ds, hs.drop_last()), ds, seq![hs.last()], a, method_id_of(hs[j].function@));
        assert(seq![hs.last()].drop_last() =~= Seq::<CallHandler>::empty());
    }
}

/// Whether some data source with contract `a` has a call handler whose
/// function's method id is `id`.
pub open spec fn method_id_declared(dss: Seq<DataSource>, a: Address, id: Seq<u8>) -> bool {
    exists|i: int, j: int| 0 <= i < dss.len() && (#[trigger] dss[i]).source.address == Some(a)
        && 0 <= j < dss[i].mapping.call_handlers@.len()
        && method_id_of((#[trigger] dss[i].mapping.call_handlers@[j]).function@) == id
}

proof fn lemma_handlers_fold_origin(m: Map<Address, CallFilterValue>, ds: DataSource, hs: Seq<CallHandler>, a: Address, id: Seq<u8>)
    requires
        ds.source.address is Some,
        handlers_fold(m, ds, hs).dom().contains(a),
        handlers_fold(m, ds, hs)[a].1.contains(id),
    ensures
        (m.dom().contains(a) && m[a].1.contains(id)) || (ds.source.address == Some(a)
            && exists|j: int| 0 <= j < hs.len() && method_id_of((#[trigger] hs[j]).function@) == id),
    decreases hs.len(),
{
    if hs.len() > 0 {
        let p = hs.drop_last();
        let m2 = handlers_fold(m, ds, p);
        let last = method_id_of(hs.last().function@);
        if m2.dom().contains(a) && m2[a].1.contains(id) {
            lemma_handlers_fold_origin(m, ds, p, a, id);
            if !(m.dom().contains(a) && m[a].1.contains(id)) {
                let j = choose|j: int| 0 <= j < p.len() && method_id_of((#[trigger] p[j]).function@) == id;
                assert(hs[j] == p[j]);
            }
        } else {
            assert(ds.source.address == Some(a) && id == last);
            assert(method_id_of(hs[hs.len() - 1].function@) == id);
        }
    }
}

/// Every method id that the call filter of a list of data sources holds for a
/// contract is the method id of a call handler of a data source with that
/// contract.
pub proof fn lemma_call_filter_ids_are_declared(dss: Seq<DataSource>, a: Address, id: Seq<u8>)
    requires
        call_map_of(dss).dom().contains(a),
        call_map_of(dss)[a].1.contains(id),
    ensures
        method_id_declared(dss, a, id),
    decreases dss.len(),
{
    let p = dss.drop_last();
    let d = dss.last();
    let m = call_map_of(p);
    if d.source.address is Some {
        lemma_handlers_fold_origin(m, d, d.mapping.call_handlers@, a, id);
    }
    if m.dom().contains(a) && m[a].1.contains(id) {
        lemma_call_filter_ids_are_declared(p, a, id);
        let (i, j) = choose|i: int, j: int| 0 <= i < p.len() && (#[trigger] p[i]).source.address == Some(a)
            && 0 <= j < p[i].mapping.call_handlers@.len()
            && method_id_of((#[trigger] p[i].mapping.call_handlers@[j]).function@) == id;
        assert(dss[i] == p[i]);
    } else {
        let j = choose|j: int| 0 <= j < d.mapping.call_handlers@.len()
            && method_id_of((#[trigger] d.mapping.call_handlers@[j]).function@) == id;
        assert(dss[dss.len() - 1] == d);
    }
}

/// A contract whose entry holds no method ids admits every call to it.
pub proof fn lemma_empty_method_ids_admit_any_call(m: Map<Address, CallFilterValue>, call: EthereumCall)
    requires
        m.dom().contains(call.to),
        m[call.to].1 == Set::<Seq<u8>>::empty(),
    ensures
        call_filter_admits(m, call),
{
}

/// A mapping from contracts to a start block and the method ids of interest;
/// a contract without method ids admits every call to it.
pub struct EthereumCallFilter {
    pub contract_addresses_function_signatures: Vec<CallFilterEntry>,
}

impl View for EthereumCallFilter {
    type V = Map<Address, CallFilterValue>;

    open spec fn view(&self) -> Map<Address, CallFilterValue> {
        entries_map(self.contract_addresses_function_signatures@)
    }
}

impl EthereumCallFilter {
    /// Each contract has one entry.
    pub open spec fn well_formed(&self) -> bool {
        unique_addresses(self.contract_addresses_function_signatures@)
    }

    /// Whether each contract has one entry.
    pub fn is_well_formed(&self) -> (r: bool)
        ensures
            r == self.well_formed(),
    {
        let v = &self.contract_addresses_function_signatures;
        let mut i: usize = 0;
        while i < v.len()
            invariant
                *v == self.contract_addresses_function_signatures,
                i <= v@.len(),
                forall|a: int, b: int| 0 <= a < i && 0 <= b < v@.len() && a != b ==> (#[trigger] v@[a]).address != (#[trigger] v@[b]).address,
            decreases v@.len() - i,
        {
            let mut j: usize = 0;
            while j < v.len()
                invariant
                    *v == self.contract_addresses_function_signatures,
                    i < v@.len(),
                    j <= v@.len(),
                    forall|b: int| 0 <= b < j && b != i ==> v@[i as int].address != (#[trigger] v@[b]).address,
                decreases v@.len() - j,
            {
                if j != i && array_eq(&v[i].address, &v[j].address) {
                    return false;
                }
                j = j + 1;
            }
            i = i + 1;
        }
        true
    }

    /// A filter without contracts.
    pub fn new() -> (r: Self)
        ensures
            r.well_formed(),
            r@ == Map::<Address, CallFilterValue>::empty(),
    {
        EthereumCallFilter { contract_addresses_function_signatures: Vec::new() }
    }

    fn find(&self, address: &Address) -> (r: Option<usize>)
        requires
            self.well_formed(),
        ensures
            match r {
                Some(k) => k < self.contract_addresses_function_signatures@.len()
                    && self.contract_addresses_function_signatures@[k as int].address == *address,
                None => !self@.dom().contains(*address),
            },
    {
        let v = &self.contract_addresses_function_signatures;
        let mut i: usize = 0;
        while i < v.len()
            invariant
                *v == self.contract_addresses_function_signatures,
                i <= v@.len(),
                forall|k: int| 0 <= k < i ==> v@[k].address != *address,
            decreases v@.len() - i,
        {
            if array_eq(&v[i].address, address) {
                return Some(i);
            }
            i = i + 1;
        }
        proof {
            lemma_entries_map_dom(v@, *address);
        }
        None
    }

    proof fn lemma_lookup(&self, k: int)
        requires
            self.well_formed(),
            0 <= k < self.contract_addresses_function_signatures@.len(),
        ensures
            self@.dom().contains(self.contract_addresses_function_signatures@[k].address),
            self@[self.contract_addresses_function_signatures@[k].address]
                == entry_view(self.contract_addresses_function_signatures@[k]),
    {
        lemma_entries_map_lookup(self.contract_addresses_function_signatures@, k);
    }

    /// Replaces the entry at `k` by one of the same contract.
    fn replace(&mut self, k: usize, e: CallFilterEntry)
        requires
            old(self).well_formed(),
            k < old(self).contract_addresses_function_signatures@.len(),
            e.address == old(self).contract_addresses_function_signatures@[k as int].address,
        ensures
            final(self).well_formed(),
            final(self)@ == old(self)@.insert(e.address, entry_view(e)),
    {
        let ghost s = self.contract_addresses_function_signatures@;
        let ghost ev = e;
        self.contract_addresses_function_signatures.remove(k);
        self.contract_addresses_function_signatures.insert(k, e);
        proof {
            assert(self.contract_addresses_function_signatures@ =~= s.update(k as int, ev));
            lemma_entries_map_update(s, k as int, ev);
        }
    }

    /// Adds an entry for a contract that has none.
    fn push_new(&mut self, e: CallFilterEntry)
        requires
            old(self).well_formed(),
            !old(self)@.dom().contains(e.address),
        ensures
            final(self).well_formed(),
            final(self)@ == old(self)@.insert(e.address, entry_view(e)),
    {
        let ghost s = self.contract_addresses_function_signatures@;
        proof {
            lemma_entries_map_dom(s, e.address);
        }
        self.contract_addresses_function_signatures.push(e);
        proof {
            assert(self.contract_addresses_function_signatures@.drop_last() =~= s);
        }
    }

    /// Adds one method id of one contract; a contract seen for the first time
    /// takes the start block `sb`.
    pub fn add_method_id(&mut self, sb: Option<u64>, address: Address, id: MethodId)
        requires
            old(self).well_formed(),
        ensures
            final(self).well_formed(),
            final(self)@ == call_map_add(old(self)@, sb, address, id@),
    {
        match self.find(&address) {
            Some(k) => {
                proof {
                    self.lemma_lookup(k as int);
                }
                let old_sb = self.contract_addresses_function_signatures[k].start_block;
                let mut ids: Vec<MethodId> = Vec::new();
                let src = &self.contract_addresses_function_signatures[k].method_ids;
                let mut i: usize = 0;
                while i < src.len()
                    invariant
                        i <= src@.len(),
                        ids@ == src@.take(i as int),
                    decreases src@.len() - i,
                {
                    ids.push(src[i]);
                    assert(src@.take(i as int + 1) =~= src@.take(i as int).push(src@[i as int]));
                    i = i + 1;
                }
                ids.push(id);
                let ghost src_seq = src@;
                proof {
                    assert(src_seq.take(i as int) =~= src_seq);
                    assert(ids_view(ids@) =~= ids_view(src_seq).insert(id@)) by {
                        assert forall|s: Seq<u8>| ids_view(ids@).contains(s) implies ids_view(src_seq).insert(id@).contains(s) by {
                            let j = choose|j: int| 0 <= j < ids@.len() && #[trigger] ids@[j]@ == s;
                            if j < src_seq.len() {
                                assert(src_seq[j] == ids@[j]);
                            }
                        }
                        assert forall|s: Seq<u8>| ids_view(src_seq).insert(id@).contains(s) implies ids_view(ids@).contains(s) by {
                            if s == id@ {
                                assert(ids@[ids@.len() - 1]@ == s);
                            } else {
                                let j = choose|j: int| 0 <= j < src_seq.len() && #[trigger] src_seq[j]@ == s;
                                assert(ids@[j] == src_seq[j]);
                            }
                        }
                    }
                }
                self.replace(k, CallFilterEntry { address, start_block: old_sb, method_ids: ids });
            },
            None => {
                let mut ids: Vec<MethodId> = Vec::new();
                ids.push(id);
                proof {
                    assert(ids_view(ids@) =~= set![id@]) by {
                        assert(ids@[0]@ == id@);
                    }
                }
                self.push_new(CallFilterEntry { address, start_block: sb, method_ids: ids });
            },
        }
    }

    /// Whether the filter admits the call: its target has an entry, and that
    /// entry has no method ids or holds the first four bytes of the call's input.
    /// Start blocks are not consulted.
    pub fn matches(&self, call: &EthereumCall) -> (r: bool)
        requires
            self.well_formed(),
        ensures
            r == call_filter_admits(self@, *call),
    {
        match self.find(&call.to) {
            None => false,
            Some(k) => {
                proof {
                    self.lemma_lookup(k as int);
                }
                let ids = &self.contract_addresses_function_signatures[k].method_ids;
                if ids.len() == 0 {
                    assert(ids_view(ids@) =~= Set::<Seq<u8>>::empty());
                    return true;
                }
                proof {
                    assert(ids_view(ids@).contains(ids@[0]@));
                }
                if call.input.len() < 4 {
                    return false;
                }
                let prefix = vstd::slice::slice_subrange(call.input.as_slice(), 0, 4);
                ids_contain(ids, prefix)
            },
        }
    }

    /// Builds the filter of a list of data sources: for each data source with a
    /// contract, the method id of each of its call handlers, under the contract.
    pub fn from_data_sources(data_sources: &Vec<DataSource>) -> (r: Self)
        ensures
            r.well_formed(),
            r@ == call_map_of(data_sources@),
    {
        let mut r = EthereumCallFilter::new();
        let mut i: usize = 0;
        while i < data_sources.len()
            invariant
                i <= data_sources@.len(),
                r.well_formed(),
                r@ == call_map_of(data_sources@.take(i as int)),
            decreases data_sources@.len() - i,
        {
            let ds = &data_sources[i];
            proof {
                assert(data_sources@.take(i as int + 1).drop_last() =~= data_sources@.take(i as int));
            }
            match ds.source.address {
                Some(address) => {
                    let sb = start_block(ds);
                    let hs = &ds.mapping.call_handlers;
                    let ghost before = r@;
                    let mut j: usize = 0;
                    while j < hs.len()
                        invariant
                            i < data_sources@.len(),
                            *ds == data_sources@[i as int],
                            *hs == ds.mapping.call_handlers,
                            ds.source.address == Some(address),
                            sb == start_block_of(*ds),
                            j <= hs@.len(),
                            r.well_formed(),
                            r@ == handlers_fold(before, *ds, hs@.take(j as int)),
                        decreases hs@.len() - j,
                    {
                        let id = method_id(hs[j].function.as_str());
                        r.add_method_id(sb, address, id);
                        assert(hs@.take(j as int + 1).drop_last() =~= hs@.take(j as int));
                        j = j + 1;
                    }
                    assert(hs@.take(j as int) =~= hs@);
                },
                None => {},
            }
            i = i + 1;
        }
        assert(data_sources@.take(i as int) =~= data_sources@);
        r
    }

    /// Joins one entry into the filter: its method ids are added to those of its
    /// contract, and its start block replaces the contract's.
    fn merge_entry(&mut self, o: &CallFilterEntry)
        requires
            old(self).well_formed(),
        ensures
            final(self).well_formed(),
            final(self)@ == old(self)@.insert(o.address, (o.start_block,
                if old(self)@.dom().contains(o.address) { old(self)@[o.address].1.union(ids_view(o.method_ids@)) } else { ids_view(o.method_ids@) })),
    {
        match self.find(&o.address) {
            Some(k) => {
                proof {
                    self.lemma_lookup(k as int);
                }
                let mut ids: Vec<MethodId> = Vec::new();
                append_ids(&mut ids, &self.contract_addresses_function_signatures[k].method_ids);
                append_ids(&mut ids, &o.method_ids);
                proof {
                    assert(ids@ =~= self.contract_addresses_function_signatures@[k as int].method_ids@ + o.method_ids@);
                    lemma_ids_view_concat(self.contract_addresses_function_signatures@[k as int].method_ids@, o.method_ids@);
                }
                self.replace(k, CallFilterEntry { address: o.address, start_block: o.start_block, method_ids: ids });
            },
            None => {
                let mut ids: Vec<MethodId> = Vec::new();
                append_ids(&mut ids, &o.method_ids);
                assert(ids@ =~= o.method_ids@);
                self.push_new(CallFilterEntry { address: o.address, start_block: o.start_block, method_ids: ids });
            },
        }
    }

    /// Extends this filter with another one: for a contract in both, the method
    /// ids are united and the other filter's start block is kept.
    pub fn extend(&mut self, other: EthereumCallFilter)
        requires
            old(self).well_formed(),
            other.well_formed(),
        ensures
            final(self).well_formed(),
            final(self)@ == call_map_merge(old(self)@, other@),
    {
        let v = &other.contract_addresses_function_signatures;
        let mut i: usize = 0;
        proof {
            assert(call_map_merge(old(self)@, entries_map(v@.take(0))) =~= old(self)@);
        }
        while i < v.len()
            invariant
                *v == other.contract_addresses_function_signatures,
                unique_addresses(v@),
                i <= v@.len(),
                self.well_formed(),
                self@ == call_map_merge(old(self)@, entries_map(v@.take(i as int))),
            decreases v@.len() - i,
        {
            let ghost m1 = old(self)@;
            let ghost m2 = entries_map(v@.take(i as int));
            let ghost cur = self@;
            self.merge_entry(&v[i]);
            proof {
                let o = v@[i as int];
                let t = v@.take(i as int + 1);
                assert(t.drop_last() =~= v@.take(i as int));
                assert(t.last() == o);
                lemma_entries_map_dom(v@.take(i as int), o.address);
                assert(!m2.dom().contains(o.address));
                assert(self@ =~= call_map_merge(m1, entries_map(t)));
            }
            i = i + 1;
        }
        assert(v@.take(i as int) =~= v@);
    }

    /// The call filter that admits every call to the contracts of a block
    /// filter: each contract gets an entry without method ids, with the start
    /// block of one of its block filter entries.
    pub fn from_block_filter(block_filter: &EthereumBlockFilter) -> (r: Self)
        ensures
            r.well_formed(),
            forall|a: Address| #[trigger] r@.dom().contains(a) <==> exists|sb: Option<u64>| block_filter@.0.contains((sb, a)),
            forall|a: Address| #[trigger] r@.dom().contains(a) ==> block_filter@.0.contains((r@[a].0, a))
                && r@[a].1 == Set::<Seq<u8>>::empty(),
    {
        let v = &block_filter.contract_addresses;
        let mut r = EthereumCallFilter::new();
        let mut i: usize = 0;
        while i < v.len()
            invariant
                *v == block_filter.contract_addresses,
                i <= v@.len(),
                r.well_formed(),
                forall|a: Address| #[trigger] r@.dom().contains(a) <==> exists|sb: Option<u64>| v@.take(i as int).contains((sb, a)),
                forall|a: Address| #[trigger] r@.dom().contains(a) ==> v@.take(i as int).contains((r@[a].0, a))
                    && r@[a].1 == Set::<Seq<u8>>::empty(),
            decreases v@.len() - i,
        {
            let (sb, address) = v[i];
            let ghost before = r@;
            let e = CallFilterEntry { address, start_block: sb, method_ids: Vec::new() };
            assert(ids_view(e.method_ids@) =~= Set::<Seq<u8>>::empty());
            match r.find(&address) {
                Some(k) => {
                    r.replace(k, e);
                },
                None => {
                    r.push_new(e);
                },
            }
            proof {
                let t = v@.take(i as int + 1);
                assert(t =~= v@.take(i as int).push((sb, address)));
                assert(t[i as int] == (sb, address));
                assert forall|a: Address| #[trigger] r@.dom().contains(a) <==> exists|s: Option<u64>| t.contains((s, a)) by {
                    if r@.dom().contains(a) {
                        if a == address {
                            assert(t.contains((sb, a)));
                        } else {
                            assert(before.dom().contains(a));
                            let s = choose|s: Option<u64>| v@.take(i as int).contains((s, a));
                            let k = choose|k: int| 0 <= k < i && v@.take(i as int)[k] == (s, a);
                            assert(t[k] == (s, a));
                            assert(t.contains((s, a)));
                        }
                    }
                    if exists|s: Option<u64>| t.contains((s, a)) {
                        let s = choose|s: Option<u64>| t.contains((s, a));
                        let k = choose|k: int| 0 <= k < i + 1 && t[k] == (s, a);
                        if k < i {
                            assert(v@.take(i as int)[k] == (s, a));
                            assert(v@.take(i as int).contains((s, a)));
                            assert(before.dom().contains(a));
                        }
                    }
                }
                assert forall|a: Address| #[trigger] r@.dom().contains(a) implies t.contains((r@[a].0, a))
                    && r@[a].1 == Set::<Seq<u8>>::empty() by {
                    if a != address {
                        let k = choose|k: int| 0 <= k < i && v@.take(i as int)[k] == (r@[a].0, a);
                        assert(t[k] == (r@[a].0, a));
                    }
                }
            }
            i = i + 1;
        }
        proof {
            assert(v@.take(i as int) =~= v@);
            assert forall|a: Address| #[trigger] r@.dom().contains(a) <==> exists|sb: Option<u64>| block_filter@.0.contains((sb, a)) by {
                if r@.dom().contains(a) {
                    let s = choose|s: Option<u64>| v@.contains((s, a));
                    assert(block_filter@.0.contains((s, a)));
                }
                if exists|sb: Option<u64>| block_filter@.0.contains((sb, a)) {
                    let s = choose|s: Option<u64>| block_filter@.0.contains((s, a));
                    assert(v@.contains((s, a)));
                }
            }
        }
        r
    }

    /// An empty filter is one that never matches.
    pub fn is_empty(&self) -> (r: bool)
        requires
            self.well_formed(),
        ensures
            r == (self@.dom() == Set::<Address>::empty()),
    {
        let r = self.contract_addresses_function_signatures.len() == 0;
        proof {
            if !r {
                self.lemma_lookup(0);
            } else {
                assert(self@.dom() =~= Set::<Address>::empty());
            }
        }
        r
    }
}

} // verus!
