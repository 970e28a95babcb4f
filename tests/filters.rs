use wasm_host::adapter::{EthereumAdapterError, EthereumContractCallError};
use wasm_host::block_filter::EthereumBlockFilter;
use wasm_host::call_filter::{CallFilterEntry, EthereumCallFilter};
use wasm_host::chain::{EthereumBlockPointer, EthereumCall, Log};
use wasm_host::data_source::{
    parse_block_number, BlockHandler, BlockHandlerFilter, CallHandler, DataSource, EventHandler,
    Mapping, Source,
};
use wasm_host::dispatch::union_block_pointers;
use wasm_host::hash::{event_topic, method_id};
use wasm_host::log_filter::EthereumLogFilter;

const TRANSFER: &str = "Transfer(address,address,uint256)";

fn data_source(address: Option<[u8; 20]>, start_block: Option<&str>) -> DataSource {
    DataSource {
        name: "Token".to_string(),
        source: Source {
            address,
            abi: "Token".to_string(),
            start_block: start_block.map(|s| s.to_string()),
        },
        mapping: Mapping {
            abis: vec![],
            event_handlers: vec![EventHandler {
                event: TRANSFER.to_string(),
                handler: "handleTransfer".to_string(),
            }],
            call_handlers: vec![CallHandler {
                function: "set(uint256)".to_string(),
                handler: "handleSet".to_string(),
            }],
            block_handlers: vec![],
        },
    }
}

fn transfer_log(address: [u8; 20]) -> Log {
    Log { address, topics: vec![tiny_keccak::keccak256(TRANSFER.as_bytes())], data: vec![] }
}

fn call_to(to: [u8; 20], input: Vec<u8>) -> EthereumCall {
    EthereumCall { from: [0x11; 20], to, input, output: vec![], block_number: 1, block_hash: [0; 32] }
}

fn sorted<T: Ord + Clone>(v: &[T]) -> Vec<T> {
    let mut v = v.to_vec();
    v.sort();
    v
}

#[test]
fn event_topic_is_keccak_of_signature() {
    let t = event_topic(TRANSFER);
    assert_eq!(t, tiny_keccak::keccak256(TRANSFER.as_bytes()));
    assert_eq!(t[0], 0xdd);
    assert_eq!(t[1], 0xf2);
}

#[test]
fn method_id_is_first_four_digest_bytes() {
    let h = tiny_keccak::keccak256(b"set(uint256)");
    assert_eq!(method_id("set(uint256)"), [h[0], h[1], h[2], h[3]]);
    assert_eq!(method_id("set(uint256)"), [0x60, 0xfe, 0x47, 0xb1]);
}

#[test]
fn start_block_parsing() {
    assert_eq!(parse_block_number("50"), Some(50));
    assert_eq!(parse_block_number("+7"), Some(7));
    assert_eq!(parse_block_number("18446744073709551615"), Some(u64::MAX));
    assert_eq!(parse_block_number("18446744073709551616"), None);
    assert_eq!(parse_block_number(""), None);
    assert_eq!(parse_block_number("+"), None);
    assert_eq!(parse_block_number("12a"), None);
    assert_eq!(parse_block_number("-1"), None);
}

#[test]
fn log_filter_event_match() {
    let f = EthereumLogFilter::from_data_sources(&vec![data_source(Some([0xAA; 20]), Some("50"))]);
    assert!(f.matches(&transfer_log([0xAA; 20]), 100));
    assert!(!f.matches(&transfer_log([0xBB; 20]), 100));
    assert!(!f.matches(&transfer_log([0xAA; 20]), 50));
}

#[test]
fn log_filter_start_block_gating() {
    let f = EthereumLogFilter::from_data_sources(&vec![data_source(Some([0xAA; 20]), Some("200"))]);
    assert!(!f.matches(&transfer_log([0xAA; 20]), 100));
    assert!(!f.matches(&transfer_log([0xAA; 20]), 200));
    assert!(f.matches(&transfer_log([0xAA; 20]), 201));
}

#[test]
fn log_filter_without_topics_never_matches() {
    let f = EthereumLogFilter::from_data_sources(&vec![data_source(None, None)]);
    let log = Log { address: [0xAA; 20], topics: vec![], data: vec![] };
    assert!(!f.matches(&log, 100));
    assert!(f.matches(&transfer_log([0xCC; 20]), 0));
}

#[test]
fn log_filter_unparsable_start_block_is_absent() {
    let f = EthereumLogFilter::from_data_sources(&vec![data_source(Some([0xAA; 20]), Some("soon"))]);
    assert_eq!(f.contract_address_and_event_sig_pairs[0].0, None);
    assert!(f.matches(&transfer_log([0xAA; 20]), 0));
}

#[test]
fn log_filter_from_concat_equals_extend() {
    let a = vec![data_source(Some([0xAA; 20]), Some("5")), data_source(Some([0xBB; 20]), None)];
    let b = vec![data_source(Some([0xAA; 20]), Some("5")), data_source(None, Some("9"))];
    let mut both = vec![];
    both.extend(a.iter().map(|d| data_source(d.source.address, d.source.start_block.as_deref())));
    both.extend(b.iter().map(|d| data_source(d.source.address, d.source.start_block.as_deref())));
    let joined = EthereumLogFilter::from_data_sources(&both);
    let mut extended = EthereumLogFilter::from_data_sources(&a);
    extended.extend(EthereumLogFilter::from_data_sources(&b));
    assert_eq!(
        sorted(&joined.contract_address_and_event_sig_pairs),
        sorted(&extended.contract_address_and_event_sig_pairs)
    );
    assert_eq!(joined.contract_address_and_event_sig_pairs.len(), 3);
}

#[test]
fn log_filter_is_empty_and_activation() {
    assert!(EthereumLogFilter::new().is_empty());
    let mut f = EthereumLogFilter::from_data_sources(&vec![
        data_source(Some([0xAA; 20]), Some("10")),
        data_source(Some([0xBB; 20]), Some("30")),
        data_source(Some([0xCC; 20]), None),
    ]);
    assert!(!f.is_empty());
    let active = f.only_activated_filters(20);
    let kept: Vec<Option<u64>> = sorted(&active.contract_address_and_event_sig_pairs).iter().map(|e| e.0).collect();
    assert_eq!(kept, vec![None, Some(30)]);
    assert_eq!(f.contract_address_and_event_sig_pairs.len(), 3);
    assert!(f.check_bloom(&[0u8; 256]));
}

#[test]
fn call_filter_stores_method_ids() {
    let f = EthereumCallFilter::from_data_sources(&vec![data_source(Some([0xAA; 20]), Some("3"))]);
    let entry = &f.contract_addresses_function_signatures[0];
    assert_eq!(entry.address, [0xAA; 20]);
    assert_eq!(entry.start_block, Some(3));
    let h = tiny_keccak::keccak256(b"set(uint256)");
    assert_eq!(entry.method_ids, vec![[h[0], h[1], h[2], h[3]]]);
    let empty = EthereumCallFilter::from_data_sources(&vec![data_source(None, None)]);
    assert!(empty.is_empty());
}

#[test]
fn call_filter_match_with_method_id() {
    let f = EthereumCallFilter::from_data_sources(&vec![data_source(Some([0xAA; 20]), None)]);
    let mut input = method_id("set(uint256)").to_vec();
    input.extend_from_slice(&[0u8; 32]);
    assert!(f.matches(&call_to([0xAA; 20], input.clone())));
    assert!(!f.matches(&call_to([0xBB; 20], input)));
    assert!(!f.matches(&call_to([0xAA; 20], vec![1, 2, 3, 4, 5])));
    assert!(!f.matches(&call_to([0xAA; 20], vec![0x60, 0xfe])));
}

#[test]
fn call_filter_wildcard_match() {
    let f = EthereumCallFilter {
        contract_addresses_function_signatures: vec![CallFilterEntry {
            address: [0xAA; 20],
            start_block: None,
            method_ids: vec![],
        }],
    };
    assert!(f.matches(&call_to([0xAA; 20], vec![1, 2, 3, 4])));
    assert!(f.matches(&call_to([0xAA; 20], vec![])));
    assert!(!f.matches(&call_to([0xAB; 20], vec![1, 2, 3, 4])));
}

#[test]
fn call_filter_extend_unites_method_ids() {
    let mut f = EthereumCallFilter::new();
    f.add_method_id(Some(1), [0xAA; 20], [1, 1, 1, 1]);
    f.add_method_id(Some(5), [0xAA; 20], [2, 2, 2, 2]);
    let mut g = EthereumCallFilter::new();
    g.add_method_id(Some(9), [0xAA; 20], [3, 3, 3, 3]);
    g.add_method_id(None, [0xBB; 20], [4, 4, 4, 4]);
    f.extend(g);
    let a = &f.contract_addresses_function_signatures[0];
    assert_eq!(a.start_block, Some(9));
    assert_eq!(sorted(&a.method_ids), vec![[1; 4], [2; 4], [3; 4]]);
    assert_eq!(f.contract_addresses_function_signatures.len(), 2);
}

#[test]
fn call_filter_from_block_filter_is_wildcard() {
    let mut b = EthereumBlockFilter::new();
    b.insert((Some(4), [0xAA; 20]));
    let f = EthereumCallFilter::from_block_filter(&b);
    assert_eq!(f.contract_addresses_function_signatures.len(), 1);
    assert_eq!(f.contract_addresses_function_signatures[0].start_block, Some(4));
    assert!(f.matches(&call_to([0xAA; 20], vec![9, 9, 9, 9])));
}

#[test]
fn block_filter_every_block() {
    let mut ds = data_source(Some([0xAA; 20]), Some("2"));
    ds.mapping.block_handlers = vec![BlockHandler { handler: "handleBlock".to_string(), filter: None }];
    let f = EthereumBlockFilter::from_data_sources(&vec![ds]);
    assert!(f.trigger_every_block);
    assert!(f.contract_addresses.is_empty());
}

#[test]
fn block_filter_call_gated() {
    let mut ds = data_source(Some([0xAA; 20]), Some("2"));
    ds.mapping.block_handlers =
        vec![BlockHandler { handler: "handleBlock".to_string(), filter: Some(BlockHandlerFilter::Call) }];
    let mut no_address = data_source(None, None);
    no_address.mapping.block_handlers = vec![BlockHandler { handler: "h".to_string(), filter: None }];
    let mut f = EthereumBlockFilter::from_data_sources(&vec![ds, no_address]);
    assert!(!f.trigger_every_block);
    assert_eq!(f.contract_addresses, vec![(Some(2), [0xAA; 20])]);
    let mut other = EthereumBlockFilter::new();
    other.trigger_every_block = true;
    other.insert((Some(2), [0xAA; 20]));
    f.extend(other);
    assert!(f.trigger_every_block);
    assert_eq!(f.contract_addresses.len(), 1);
}

#[test]
fn block_pointer_union_is_ascending_and_deduplicated() {
    let p = |n: u64| EthereumBlockPointer { hash: [n as u8; 32], number: n };
    let logs = vec![p(7), p(3)];
    let calls = vec![p(5), p(3)];
    let every: Vec<EthereumBlockPointer> = (1..=8).map(p).collect();
    let numbers = |v: Vec<EthereumBlockPointer>| v.iter().map(|b| b.number).collect::<Vec<u64>>();
    assert_eq!(numbers(union_block_pointers(&vec![logs.clone(), calls.clone()])), vec![3, 5, 7]);
    assert_eq!(numbers(union_block_pointers(&vec![logs, calls, every])), vec![1, 2, 3, 4, 5, 6, 7, 8]);
    assert!(union_block_pointers(&vec![]).is_empty());
}

#[test]
fn contract_call_errors_convert() {
    let e: EthereumContractCallError = ethabi::Error::from(ethabi::ErrorKind::InvalidData).into();
    assert!(matches!(e, EthereumContractCallError::ABIError(_)));
    let a: EthereumAdapterError = "boom".to_string().into();
    assert!(matches!(a, EthereumAdapterError::Unknown(ref m) if m == "boom"));
}
