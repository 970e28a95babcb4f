use std::sync::Arc;

use ethabi::Token;
use wasm_host::abi::{name_tokens, AbiParam, EventAbi, EventParamAbi, FunctionAbi, MappingAbi, ParamKind};
use wasm_host::chain::{EthereumBlock, EthereumCall, Log};
use wasm_host::data_source::{BlockHandler, CallHandler, DataSource, EventHandler, Mapping, Source};
use wasm_host::hash::method_id;
use wasm_host::host::{
    decode_call_inputs, decode_call_outputs, mapping_thread_name, named_inputs, named_outputs,
    worker_step, HostError, MappingTrigger, RuntimeHost, RuntimeHostBuilder, RuntimeHostConfig,
    WorkerAction, WorkerEvent, WorkerState,
};

const TRANSFER: &str = "Transfer(address,address,uint256)";

fn transfer_event() -> EventAbi {
    EventAbi {
        name: "Transfer".to_string(),
        inputs: vec![
            EventParamAbi { param: AbiParam::new("from".to_string(), ParamKind::Address), indexed: true },
            EventParamAbi { param: AbiParam::new("to".to_string(), ParamKind::Address), indexed: true },
            EventParamAbi { param: AbiParam::new("value".to_string(), ParamKind::Uint(256)), indexed: false },
        ],
        anonymous: false,
    }
}

fn set_function() -> FunctionAbi {
    FunctionAbi {
        name: "set".to_string(),
        inputs: vec![AbiParam::new("_value".to_string(), ParamKind::Uint(256))],
        outputs: vec![],
    }
}

fn get_function() -> FunctionAbi {
    FunctionAbi {
        name: "get".to_string(),
        inputs: vec![],
        outputs: vec![AbiParam::new("out".to_string(), ParamKind::Uint(256))],
    }
}

fn token_abi() -> MappingAbi {
    MappingAbi { name: "Token".to_string(), functions: vec![set_function(), get_function()], events: vec![transfer_event()] }
}

fn data_source(abi_name: &str) -> DataSource {
    DataSource {
        name: "Token".to_string(),
        source: Source { address: Some([0xAA; 20]), abi: abi_name.to_string(), start_block: Some("50".to_string()) },
        mapping: Mapping {
            abis: vec![MappingAbi { name: "Other".to_string(), functions: vec![], events: vec![] }, token_abi()],
            event_handlers: vec![EventHandler { event: TRANSFER.to_string(), handler: "handleTransfer".to_string() }],
            call_handlers: vec![
                CallHandler { function: "set(uint256)".to_string(), handler: "handleSet".to_string() },
                CallHandler { function: "get()".to_string(), handler: "handleGet".to_string() },
            ],
            block_handlers: vec![BlockHandler { handler: "handleBlock".to_string(), filter: None }],
        },
    }
}

fn host() -> RuntimeHost {
    match RuntimeHost::new(RuntimeHostConfig { subgraph_id: "QmSub".to_string(), data_source: data_source("Token") }) {
        Ok(h) => h,
        Err(_) => panic!("the data source's ABI is declared"),
    }
}

fn word(last: u8) -> Vec<u8> {
    let mut w = vec![0u8; 32];
    w[31] = last;
    w
}

fn address_word(b: u8) -> [u8; 32] {
    let mut w = [0u8; 32];
    for x in w.iter_mut().skip(12) {
        *x = b;
    }
    w
}

fn transfer_log() -> Log {
    Log {
        address: [0xAA; 20],
        topics: vec![tiny_keccak::keccak256(TRANSFER.as_bytes()), address_word(0x01), address_word(0x02)],
        data: word(7),
    }
}

fn call(input: Vec<u8>, output: Vec<u8>) -> EthereumCall {
    EthereumCall { from: [0x11; 20], to: [0xAA; 20], input, output, block_number: 100, block_hash: [0; 32] }
}

fn set_input(value: u64) -> Vec<u8> {
    let mut input = method_id("set(uint256)").to_vec();
    input.extend(ethabi::encode(&[Token::Uint(value.into())]));
    input
}

#[test]
fn signatures_are_canonical() {
    assert_eq!(set_function().signature(), "set(uint256)");
    assert_eq!(get_function().signature(), "get()");
    assert_eq!(transfer_event().signature(), TRANSFER);
    let abi = token_abi();
    assert_eq!(abi.function_with_signature(&"get()".to_string()), Some(1));
    assert_eq!(abi.function_with_signature(&"set(uint8)".to_string()), None);
    assert_eq!(abi.event_with_signature(&TRANSFER.to_string()), Some(0));
    let g = FunctionAbi {
        name: "g".to_string(),
        inputs: vec![
            AbiParam::new("xs".to_string(), ParamKind::Array(Box::new(ParamKind::Bool))),
            AbiParam::new("ys".to_string(), ParamKind::FixedArray(Box::new(ParamKind::String), 2)),
            AbiParam::new("b".to_string(), ParamKind::FixedBytes(32)),
            AbiParam::new("i".to_string(), ParamKind::Int(64)),
        ],
        outputs: vec![],
    };
    assert_eq!(g.signature(), "g(bool[],string[2],bytes32,int64)");
}

#[test]
fn host_takes_the_named_abi() {
    let h = host();
    assert_eq!(h.data_source_contract_abi.name, "Token");
    assert_eq!(h.data_source_name, "Token");
    assert_eq!(h.data_source_block_handler.map(|b| b.handler), Some("handleBlock".to_string()));
}

#[test]
fn host_without_its_abi_fails() {
    let r = RuntimeHost::new(RuntimeHostConfig { subgraph_id: "QmSub".to_string(), data_source: data_source("Missing") });
    match r {
        Err(HostError::AbiNotFound { data_source, abi }) => {
            assert_eq!(data_source, "Token");
            assert_eq!(abi, "Missing");
        }
        _ => panic!("expected a missing ABI"),
    }
}

#[test]
fn builder_builds_hosts() {
    let b = RuntimeHostBuilder::new(Arc::new(1u8), Arc::new(2u16), Arc::new(3u32));
    let c = b.clone();
    assert!(Arc::ptr_eq(&b.store, &c.store));
    assert!(b.build("QmSub".to_string(), data_source("Token")).is_ok());
    assert!(matches!(c.build("QmSub".to_string(), data_source("Nope")), Err(HostError::AbiNotFound { .. })));
}

#[test]
fn event_match_end_to_end() {
    let h = host();
    let log = transfer_log();
    assert!(h.matches_log(&log));
    match h.prepare_log(&log) {
        Ok(MappingTrigger::Log { params, handler }) => {
            assert_eq!(handler.handler, "handleTransfer");
            let names: Vec<&str> = params.iter().map(|p| p.name.as_str()).collect();
            assert_eq!(names, vec!["from", "to", "value"]);
            assert_eq!(params[0].value, Token::Address([0x01; 20].into()));
            assert_eq!(params[2].value, Token::Uint(7u64.into()));
        }
        _ => panic!("expected a log trigger"),
    }
}

#[test]
fn log_from_other_contract_or_event_does_not_match() {
    let h = host();
    let mut other = transfer_log();
    other.address = [0xBB; 20];
    assert!(!h.matches_log(&other));
    let mut unknown = transfer_log();
    unknown.topics[0] = [0x42; 32];
    assert!(!h.matches_log(&unknown));
    assert!(matches!(h.prepare_log(&unknown), Err(HostError::EventHandlerNotFound { .. })));
    let bare = Log { address: [0xAA; 20], topics: vec![], data: vec![] };
    assert!(!h.matches_log(&bare));
    assert!(matches!(h.prepare_log(&bare), Err(HostError::EventWithoutTopics)));
}

#[test]
fn log_with_bad_data_fails_to_parse() {
    let h = host();
    let mut log = transfer_log();
    log.data = vec![1, 2, 3];
    assert!(matches!(h.prepare_log(&log), Err(HostError::MalformedAbiData)));
    let mut missing_topics = transfer_log();
    missing_topics.topics.truncate(1);
    assert!(matches!(h.prepare_log(&missing_topics), Err(HostError::EventParse { .. })));
}

#[test]
fn event_missing_from_abi() {
    let mut h = host();
    h.data_source_contract_abi.events = vec![];
    assert!(h.matches_log(&transfer_log()));
    assert!(matches!(h.prepare_log(&transfer_log()), Err(HostError::EventNotInAbi { .. })));
}

#[test]
fn call_match_with_method_id() {
    let h = host();
    let c = call(set_input(42), vec![]);
    assert!(h.matches_call(&c));
    match h.prepare_call(&c) {
        Ok(MappingTrigger::Call { inputs, outputs, handler }) => {
            assert_eq!(handler.handler, "handleSet");
            assert_eq!(inputs.len(), 1);
            assert_eq!(inputs[0].name, "_value");
            assert_eq!(inputs[0].value, Token::Uint(42u64.into()));
            assert!(outputs.is_empty());
        }
        _ => panic!("expected a call trigger"),
    }
}

#[test]
fn call_with_outputs_is_decoded() {
    let h = host();
    let c = call(method_id("get()").to_vec(), word(9));
    match h.prepare_call(&c) {
        Ok(MappingTrigger::Call { inputs, outputs, .. }) => {
            assert!(inputs.is_empty());
            assert_eq!(outputs[0].name, "out");
            assert_eq!(outputs[0].value, Token::Uint(9u64.into()));
        }
        _ => panic!("expected a call trigger"),
    }
    assert!(matches!(h.prepare_call(&call(method_id("get()").to_vec(), vec![1])), Err(HostError::MalformedAbiData)));
    let mut g = get_function();
    g.outputs = vec![AbiParam::new("s".to_string(), ParamKind::String)];
    assert!(matches!(decode_call_outputs(&g, &invalid_utf8_string()), Err(HostError::OutputDecode { .. })));
}

#[test]
fn call_errors() {
    let h = host();
    assert!(!h.matches_call(&call(vec![0x60, 0xfe, 0x47], vec![])));
    assert!(matches!(h.prepare_call(&call(vec![0x60, 0xfe, 0x47], vec![])), Err(HostError::CallInputTooShort)));
    assert!(!h.matches_call(&call(vec![1, 2, 3, 4], vec![])));
    assert!(matches!(h.prepare_call(&call(vec![1, 2, 3, 4], vec![])), Err(HostError::CallHandlerNotFound { .. })));
    let mut short = method_id("set(uint256)").to_vec();
    short.push(1);
    assert!(matches!(h.prepare_call(&call(short, vec![])), Err(HostError::MalformedAbiData)));
    let f = FunctionAbi { name: "say".to_string(), inputs: vec![AbiParam::new("s".to_string(), ParamKind::String)], outputs: vec![] };
    let mut input = vec![0, 0, 0, 0];
    input.extend(invalid_utf8_string());
    assert!(matches!(decode_call_inputs(&f, &input), Err(HostError::InputDecode { .. })));
    let mut no_fn = host();
    no_fn.data_source_contract_abi.functions = vec![];
    assert!(matches!(no_fn.prepare_call(&call(set_input(1), vec![])), Err(HostError::FunctionNotInAbi { .. })));
}

#[test]
fn short_input_is_rejected_by_decoding() {
    assert!(matches!(decode_call_inputs(&set_function(), &vec![1, 2, 3]), Err(HostError::CallInputTooShort)));
    let ok = decode_call_inputs(&set_function(), &set_input(5));
    assert!(matches!(ok, Ok(ref ps) if ps.len() == 1 && ps[0].value == Token::Uint(5u64.into())));
}

#[test]
fn output_count_mismatch_is_an_error() {
    let f = set_function();
    let r = named_outputs(&f, Ok(vec![Token::Bool(true)]));
    assert!(matches!(r, Err(HostError::OutputCountMismatch)));
    let r = named_inputs(&f, Ok(vec![]));
    assert!(matches!(r, Err(HostError::InputCountMismatch)));
    let r = named_inputs(&f, Ok(vec![Token::Bool(true)]));
    assert!(matches!(r, Ok(ref ps) if ps[0].name == "_value" && ps[0].value == Token::Bool(true)));
    assert!(matches!(decode_call_outputs(&f, &vec![]), Ok(ref ps) if ps.is_empty()));
}

#[test]
fn tokens_are_named_in_order() {
    let params = vec![
        AbiParam::new("a".to_string(), ParamKind::Bool),
        AbiParam::new("b".to_string(), ParamKind::Uint(8)),
    ];
    let named = name_tokens(&params, vec![Token::Bool(false), Token::Uint(3u64.into())]).unwrap();
    assert_eq!(named[0].name, "a");
    assert_eq!(named[1].value, Token::Uint(3u64.into()));
    assert!(name_tokens(&params, vec![Token::Bool(false)]).is_none());
}

#[test]
fn call_round_trip() {
    let f = FunctionAbi {
        name: "move".to_string(),
        inputs: vec![
            AbiParam::new("to".to_string(), ParamKind::Address),
            AbiParam::new("amount".to_string(), ParamKind::Uint(256)),
            AbiParam::new("memo".to_string(), ParamKind::String),
        ],
        outputs: vec![],
    };
    let args = vec![Token::Address([0x05; 20].into()), Token::Uint(1000u64.into()), Token::String("hi".to_string())];
    let mut input = method_id(&f.signature()).to_vec();
    input.extend(ethabi::encode(&args));
    let decoded = match decode_call_inputs(&f, &input) {
        Ok(ps) => ps,
        Err(_) => panic!("the input decodes"),
    };
    let pairs: Vec<(String, Token)> = decoded.into_iter().map(|p| (p.name, p.value)).collect();
    assert_eq!(
        pairs,
        vec![("to".to_string(), args[0].clone()), ("amount".to_string(), args[1].clone()), ("memo".to_string(), args[2].clone())]
    );
}

#[test]
fn block_handler_resolution() {
    let h = host();
    let block = EthereumBlock { number: 100, hash: [1; 32], parent_hash: [0; 32] };
    assert!(h.matches_block(&block, &call(vec![], vec![])));
    assert!(matches!(h.prepare_block(), Ok(MappingTrigger::Block { ref handler }) if handler.handler == "handleBlock"));
    let mut none = host();
    none.data_source_block_handler = None;
    assert!(!none.matches_block(&block, &call(vec![], vec![])));
    assert!(matches!(none.prepare_block(), Err(HostError::BlockHandlerNotFound { .. })));
}

#[test]
fn thread_name() {
    assert_eq!(mapping_thread_name("mapping", &"QmSub".to_string(), &"Token".to_string()), "mapping-QmSub-Token");
}

#[test]
fn worker_cancellation() {
    assert!(matches!(worker_step(&WorkerState::Running, &WorkerEvent::Request), (WorkerState::Running, WorkerAction::Handle)));
    assert!(matches!(worker_step(&WorkerState::Running, &WorkerEvent::Cancel), (WorkerState::Cancelled, WorkerAction::Stop)));
    assert!(matches!(worker_step(&WorkerState::Cancelled, &WorkerEvent::Request), (WorkerState::Cancelled, WorkerAction::Stop)));
    assert!(matches!(worker_step(&WorkerState::Running, &WorkerEvent::GuestPanic), (WorkerState::Poisoned, WorkerAction::Stop)));
    assert!(matches!(worker_step(&WorkerState::Running, &WorkerEvent::ReplyDropped), (WorkerState::Poisoned, WorkerAction::Stop)));
    assert!(matches!(worker_step(&WorkerState::Poisoned, &WorkerEvent::Request), (WorkerState::Poisoned, WorkerAction::Stop)));
}

fn string_pair_function() -> FunctionAbi {
    FunctionAbi {
        name: "names".to_string(),
        inputs: vec![AbiParam::new("pair".to_string(), ParamKind::FixedArray(Box::new(ParamKind::String), 2))],
        outputs: vec![],
    }
}

fn invalid_utf8_string() -> Vec<u8> {
    let mut data = word(0x20);
    data.extend(word(1));
    let mut text = vec![0u8; 32];
    text[0] = 0xff;
    data.extend(text);
    data
}

#[test]
fn fixed_array_of_dynamic_type_decodes() {
    let f = string_pair_function();
    let pair = Token::FixedArray(vec![Token::String("a".to_string()), Token::String("bc".to_string())]);
    let mut input = method_id("names(string[2])").to_vec();
    input.extend(ethabi::encode(&[pair.clone()]));
    assert!(matches!(decode_call_inputs(&f, &input), Ok(ref ps) if ps.len() == 1 && ps[0].name == "pair" && ps[0].value == pair));
    let nested = FunctionAbi {
        name: "n".to_string(),
        inputs: vec![AbiParam::new("xs".to_string(), ParamKind::Array(Box::new(ParamKind::FixedArray(Box::new(ParamKind::String), 2))))],
        outputs: vec![],
    };
    let xs = Token::Array(vec![pair.clone(), pair]);
    let mut input = vec![0, 0, 0, 0];
    input.extend(ethabi::encode(&[xs.clone()]));
    assert!(matches!(decode_call_inputs(&nested, &input), Ok(ref ps) if ps[0].value == xs));
    let fixed_words = FunctionAbi {
        name: "w".to_string(),
        inputs: vec![AbiParam::new("xs".to_string(), ParamKind::FixedArray(Box::new(ParamKind::Uint(8)), 2))],
        outputs: vec![],
    };
    let mut input = vec![0, 0, 0, 0];
    input.extend(word(1));
    input.extend(word(2));
    assert!(matches!(decode_call_inputs(&fixed_words, &input), Ok(ref ps) if ps.len() == 1));
}

#[test]
fn offsets_outside_the_data_are_rejected() {
    let f = string_pair_function();
    let mut input = method_id("names(string[2])").to_vec();
    let mut w = vec![0u8; 32];
    w[30] = 0x20;
    input.extend(w);
    assert!(matches!(decode_call_inputs(&f, &input), Err(HostError::MalformedAbiData)));
    let mut out_fn = get_function();
    out_fn.outputs = vec![AbiParam::new("pair".to_string(), ParamKind::FixedArray(Box::new(ParamKind::Bytes), 2))];
    assert!(matches!(decode_call_outputs(&out_fn, &vec![]), Err(HostError::MalformedAbiData)));
    let mut high = vec![0, 0, 0, 0];
    let mut w = vec![0u8; 32];
    w[0] = 1;
    high.extend(w);
    assert!(matches!(decode_call_inputs(&f, &high), Err(HostError::MalformedAbiData)));
}

#[test]
fn event_with_fixed_array_of_strings() {
    let mut h = host();
    h.data_source_contract_abi.events[0].inputs[2].param.kind = ParamKind::FixedArray(Box::new(ParamKind::String), 2);
    h.data_source_event_handlers[0].event = "Transfer(address,address,string[2])".to_string();
    let mut log = transfer_log();
    log.topics[0] = tiny_keccak::keccak256(b"Transfer(address,address,string[2])");
    assert!(h.matches_log(&log));
    let pair = Token::FixedArray(vec![Token::String("x".to_string()), Token::String("y".to_string())]);
    log.data = ethabi::encode(&[pair.clone()]);
    assert!(matches!(h.prepare_log(&log), Ok(MappingTrigger::Log { ref params, .. }) if params[2].value == pair));
    let mut w = vec![0u8; 32];
    w[30] = 0x20;
    log.data = w;
    assert!(matches!(h.prepare_log(&log), Err(HostError::MalformedAbiData)));
}

#[test]
fn first_matching_handler_is_used() {
    let mut h = host();
    h.data_source_call_handlers.insert(0, CallHandler { function: "set(uint256)".to_string(), handler: "handleSetFirst".to_string() });
    h.data_source_event_handlers.push(EventHandler { event: TRANSFER.to_string(), handler: "handleTransferLater".to_string() });
    assert!(matches!(h.prepare_call(&call(set_input(3), vec![])), Ok(MappingTrigger::Call { ref handler, .. }) if handler.handler == "handleSetFirst"));
    assert!(matches!(h.prepare_log(&transfer_log()), Ok(MappingTrigger::Log { ref handler, .. }) if handler.handler == "handleTransfer"));
}
