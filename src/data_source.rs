use vstd::prelude::*;

use crate::chain::Address;

verus! {

/// A handler for a contract event, by the event's canonical signature.
pub struct EventHandler {
    pub event: String,
    pub handler: String,
}

/// A handler for calls of a contract function, by the function's canonical signature.
pub struct CallHandler {
    pub function: String,
    pub handler: String,
}

/// Which blocks a block handler runs on.
#[derive(Clone, Copy)]
pub enum BlockHandlerFilter {
    /// Only blocks that hold a call to the data source's contract.
    Call,
}

/// A handler run for blocks; without a filter it runs for every block.
pub struct BlockHandler {
    pub handler: String,
    pub filter: Option<BlockHandlerFilter>,
}

/// Where a data source's contract is and from which block it is indexed.
pub struct Source {
    pub address: Option<Address>,
    /// The name of the contract's ABI among the mapping's ABIs.
    pub abi: String,
    /// The first block to index, as a decimal string.
    pub start_block: Option<String>,
}

/// A declared data source: a contract together with the handlers of its mapping.
pub struct DataSource {
    pub name: String,
    pub source: Source,
    pub mapping: Mapping,
}

/// The handlers and ABIs of a data source.
pub struct Mapping {
    pub abis: Vec<crate::abi::MappingAbi>,
    pub event_handlers: Vec<EventHandler>,
    pub call_handlers: Vec<CallHandler>,
    pub block_handlers: Vec<BlockHandler>,
}

pub open spec fn is_digit(c: char) -> bool {
    '0' <= c && c <= '9'
}

/// The value of a string of decimal digits.
pub open spec fn digits_value(s: Seq<char>) -> int
    decreases s.len(),
{
    if s.len() == 0 {
        0
    } else {
        digits_value(s.drop_last()) * 10 + (s.last() as int - '0' as int)
    }
}

/// The digits of a decimal string: what follows an optional leading `+`.
pub open spec fn unsigned_digits(s: Seq<char>) -> Seq<char> {
    if s.len() > 0 && s[0] == '+' {
        s.drop_first()
    } else {
        s
    }
}

/// A decimal `u64`, as std reads one: an optional `+`, then one or more
/// digits whose value fits.
pub open spec fn parse_u64_spec(s: Seq<char>) -> Option<u64> {
    let d = unsigned_digits(s);
    if d.len() > 0 && (forall|i: int| 0 <= i < d.len() ==> is_digit(#[trigger] d[i]))
        && digits_value(d) <= u64::MAX {
        Some(digits_value(d) as u64)
    } else {
        None
    }
}

/// The start block of a data source: its declared start block where that reads
/// as a number, else none.
pub open spec fn start_block_of(ds: DataSource) -> Option<u64> {
    match ds.source.start_block {
        Some(s) => parse_u64_spec(s@),
        None => None,
    }
}

proof fn lemma_digits_value_prefix(s: Seq<char>, i: int)
    requires
        0 <= i <= s.len(),
        forall|k: int| 0 <= k < s.len() ==> is_digit(#[trigger] s[k]),
    ensures
        0 <= digits_value(s.take(i)) <= digits_value(s),
    decreases s.len(),
{
    if s.len() > 0 {
        let p = s.drop_last();
        assert forall|k: int| 0 <= k < p.len() implies is_digit(#[trigger] p[k]) by {
            assert(p[k] == s[k]);
        }
        if i == s.len() {
            assert(s.take(i) =~= s);
            lemma_digits_value_prefix(p, p.len() as int);
            assert(p.take(p.len() as int) =~= p);
        } else {
            lemma_digits_value_prefix(p, i);
            assert(p.take(i) =~= s.take(i));
            assert(is_digit(s[s.len() - 1]));
        }
    }
}

/// Reads a decimal `u64` as `str::parse` does: an optional `+`, then digits.
pub fn parse_block_number(s: &str) -> (r: Option<u64>)
    ensures
        r == parse_u64_spec(s@),
{
    let n = s.unicode_len();
    let mut start: usize = 0;
    if n > 0 && s.get_char(0) == '+' {
        start = 1;
    }
    let ghost d = unsigned_digits(s@);
    assert(d =~= s@.subrange(start as int, n as int));
    if start >= n {
        return None;
    }
    let mut value: u64 = 0;
    let mut i: usize = start;
    while i < n
        invariant
            n == s@.len(),
            start <= i <= n,
            d == s@.subrange(start as int, n as int),
            d == unsigned_digits(s@),
            value == digits_value(d.take(i - start)),
            forall|k: int| 0 <= k < i - start ==> is_digit(#[trigger] d[k]),
        decreases n - i,
    {
        let c = s.get_char(i);
        assert(d[i - start] == c);
        if !('0' <= c && c <= '9') {
            assert(!is_digit(d[i - start]));
            return None;
        }
        let dv: u64 = (c as u32 - '0' as u32) as u64;
        assert(d.take(i - start + 1).drop_last() =~= d.take(i - start));
        assert(d.take(i - start + 1).last() == c);
        assert(dv == c as int - '0' as int);
        if value > 1844674407370955161 || (value == 1844674407370955161 && dv > 5) {
            proof {
                assert(digits_value(d.take(i - start + 1)) == value * 10 + dv);
                assert(digits_value(d.take(i - start + 1)) > u64::MAX);
                if forall|k: int| 0 <= k < d.len() ==> is_digit(#[trigger] d[k]) {
                    lemma_digits_value_prefix(d, i - start + 1);
                }
            }
            return None;
        }
        value = value * 10 + dv;
        i = i + 1;
    }
    assert(d.take(n - start) =~= d);
    Some(value)
}

/// The start block of a data source, parsed from its declaration.
pub fn start_block(ds: &DataSource) -> (r: Option<u64>)
    ensures
        r == start_block_of(*ds),
{
    match &ds.source.start_block {
        Some(s) => parse_block_number(s.as_str()),
        None => None,
    }
}

} // verus!
