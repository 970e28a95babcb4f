use vstd::prelude::*;
use vstd::string::StringExecFns;

use std::sync::Arc;

use crate::abi::{
    decode_params, decoded_of, event_signature, first_event, function_signature,
    first_function, has_event, has_function, kinds_of, log_params_view, name_tokens,
    parse_event_log, parsed_log, EventAbi, FunctionAbi, LogParam, MappingAbi,
};
use crate::bytes::{array_eq, bytes_eq};
use crate::encoding::{encoding_in_range, event_encoding_in_range, event_encoding_ok, params_encoding_in_range};
use crate::chain::{EthereumBlock, EthereumCall, Log};
use crate::data_source::{BlockHandler, CallHandler, DataSource, EventHandler, Source};
use crate::hash::{event_topic, method_id, method_id_of, topic_of};

verus! {

/// Why a trigger could not be prepared for, or delivered to, the mapping.
pub enum HostError {
    /// The data source names an ABI that its mapping does not hold.
    AbiNotFound { data_source: String, abi: String },
    /// A log without topics has no event signature.
    EventWithoutTopics,
    /// No event handler of the data source is declared for the log's event.
    EventHandlerNotFound { data_source: String },
    /// A call's input is shorter than the 4 bytes of a method id.
    CallInputTooShort,
    /// No call handler of the data source is declared for the called function.
    CallHandlerNotFound { data_source: String },
    /// The data source declares no block handler.
    BlockHandlerNotFound { data_source: String },
    /// The handler's event signature is not in the contract's ABI.
    EventNotInAbi { signature: String, contract: String, data_source: String },
    /// The handler's function signature is not in the contract's ABI.
    FunctionNotInAbi { signature: String, contract: String, data_source: String },
    /// The log's parameters could not be decoded.
    EventParse { signature: String, error: ethabi::Error },
    /// The data is not whole words, or an offset or length that decoding it
    /// reads falls outside it.
    MalformedAbiData,
    /// The call's input could not be decoded.
    InputDecode { error: ethabi::Error },
    /// The call's input decoded to another number of arguments than declared.
    InputCountMismatch,
    /// The call's output could not be decoded.
    OutputDecode { error: ethabi::Error },
    /// The call's output decoded to another number of values than declared.
    OutputCountMismatch,
    /// The mapping stopped before it took the trigger.
    TriggerNotDelivered,
    /// The mapping stopped before it answered.
    ResultNotDelivered,
}

impl Clone for EventHandler {
    fn clone(&self) -> (r: Self)
        ensures
            r == *self,
    {
        EventHandler { event: self.event.clone(), handler: self.handler.clone() }
    }
}

impl Clone for CallHandler {
    fn clone(&self) -> (r: Self)
        ensures
            r == *self,
    {
        CallHandler { function: self.function.clone(), handler: self.handler.clone() }
    }
}

/// Whether `ps` pairs the name of each parameter with the token decoded for it.
pub open spec fn named_values_ok(params: Seq<crate::abi::AbiParam>, tokens: Seq<ethabi::Token>, ps: Seq<LogParam>) -> bool {
    &&& ps.len() == params.len()
    &&& tokens.len() == params.len()
    &&& forall|i: int| 0 <= i < ps.len() ==> (#[trigger] ps[i]).name@ == params[i].name@ && ps[i].value == tokens[i]
}

/// Names the tokens that a call's input decoded to after the inputs of the
/// function; fails when decoding failed or the count differs from the
/// function's inputs.
pub fn named_inputs(function: &FunctionAbi, decoded: Result<Vec<ethabi::Token>, ethabi::Error>) -> (r: Result<Vec<LogParam>, HostError>)
    ensures
        match decoded {
            Err(e) => r == Err::<Vec<LogParam>, HostError>(HostError::InputDecode { error: e }),
            Ok(tokens) => if tokens@.len() != function.inputs@.len() {
                r is Err && r->Err_0 is InputCountMismatch
            } else {
                r matches Ok(ps) && named_values_ok(function.inputs@, tokens@, ps@)
            },
        },
{
    match decoded {
        Err(error) => Err(HostError::InputDecode { error }),
        Ok(tokens) => match name_tokens(&function.inputs, tokens) {
            Some(ps) => Ok(ps),
            None => Err(HostError::InputCountMismatch),
        },
    }
}

/// Names the tokens that a call's output decoded to after the outputs of the
/// function; fails when decoding failed or the count differs from the
/// function's outputs.
pub fn named_outputs(function: &FunctionAbi, decoded: Result<Vec<ethabi::Token>, ethabi::Error>) -> (r: Result<Vec<LogParam>, HostError>)
    ensures
        match decoded {
            Err(e) => r == Err::<Vec<LogParam>, HostError>(HostError::OutputDecode { error: e }),
            Ok(tokens) => if tokens@.len() != function.outputs@.len() {
                r is Err && r->Err_0 is OutputCountMismatch
            } else {
                r matches Ok(ps) && named_values_ok(function.outputs@, tokens@, ps@)
            },
        },
{
    match decoded {
        Err(error) => Err(HostError::OutputDecode { error }),
        Ok(tokens) => match name_tokens(&function.outputs, tokens) {
            Some(ps) => Ok(ps),
            None => Err(HostError::OutputCountMismatch),
        },
    }
}

/// What a call's input decodes to after its 4-byte method id, against the
/// function's inputs.
pub open spec fn inputs_decoded(function: FunctionAbi, input: Seq<u8>) -> Option<Seq<ethabi::Token>> {
    decoded_of(kinds_of(function.inputs@), input.subrange(4, input.len() as int))
}

/// What a call's output decodes to against the function's outputs.
pub open spec fn outputs_decoded(function: FunctionAbi, output: Seq<u8>) -> Option<Seq<ethabi::Token>> {
    decoded_of(kinds_of(function.outputs@), output)
}

/// The encoded arguments of a call: its input after the 4-byte method id.
pub open spec fn call_args(input: Seq<u8>) -> Seq<u8> {
    input.subrange(4, input.len() as int)
}

/// Decodes a call's input after its 4-byte method id against the function's
/// inputs. An input shorter than 4 bytes is rejected, and so are arguments
/// whose offsets or lengths fall outside them.
pub fn decode_call_inputs(function: &FunctionAbi, input: &Vec<u8>) -> (r: Result<Vec<LogParam>, HostError>)
    ensures
        input@.len() < 4 ==> r is Err && r->Err_0 is CallInputTooShort,
        input@.len() >= 4 && !encoding_in_range(function.inputs@, call_args(input@))
            ==> r is Err && r->Err_0 is MalformedAbiData,
        input@.len() >= 4 && encoding_in_range(function.inputs@, call_args(input@))
            ==> (r is Ok <==> inputs_decoded(*function, input@) is Some),
        input@.len() >= 4 && encoding_in_range(function.inputs@, call_args(input@))
            && inputs_decoded(*function, input@) is None ==> r is Err && r->Err_0 is InputDecode,
        r matches Ok(ps) ==> (inputs_decoded(*function, input@) matches Some(ts)
            && named_values_ok(function.inputs@, ts, ps@)),
        r matches Err(e) ==> e is CallInputTooShort || e is MalformedAbiData || e is InputDecode,
{
    if input.len() < 4 {
        return Err(HostError::CallInputTooShort);
    }
    let args = vstd::slice::slice_subrange(input.as_slice(), 4, input.len());
    if !params_encoding_in_range(&function.inputs, args) {
        return Err(HostError::MalformedAbiData);
    }
    named_inputs(function, decode_params(&function.inputs, args))
}

/// Decodes a call's output against the function's outputs; an output whose
/// offsets or lengths fall outside it is rejected.
pub fn decode_call_outputs(function: &FunctionAbi, output: &Vec<u8>) -> (r: Result<Vec<LogParam>, HostError>)
    ensures
        !encoding_in_range(function.outputs@, output@) ==> r is Err && r->Err_0 is MalformedAbiData,
        encoding_in_range(function.outputs@, output@) ==> (r is Ok <==> outputs_decoded(*function, output@) is Some),
        encoding_in_range(function.outputs@, output@) && outputs_decoded(*function, output@) is None
            ==> r is Err && r->Err_0 is OutputDecode,
        r matches Ok(ps) ==> (outputs_decoded(*function, output@) matches Some(ts)
            && named_values_ok(function.outputs@, ts, ps@)),
        r matches Err(e) ==> e is MalformedAbiData || e is OutputDecode,
{
    if !params_encoding_in_range(&function.outputs, output.as_slice()) {
        return Err(HostError::MalformedAbiData);
    }
    named_outputs(function, decode_params(&function.outputs, output.as_slice()))
}

impl Clone for BlockHandler {
    fn clone(&self) -> (r: Self)
        ensures
            r == *self,
    {
        BlockHandler { handler: self.handler.clone(), filter: self.filter }
    }
}

/// The name of the thread that runs the mapping of a data source:
/// `{prefix}-{subgraph}-{data source}`.
pub fn mapping_thread_name(prefix: &str, subgraph_id: &String, data_source_name: &String) -> (r: String)
    ensures
        r@ == prefix@ + seq!['-'] + subgraph_id@ + seq!['-'] + data_source_name@,
{
    proof {
        reveal_strlit("-");
    }
    let mut s = String::from_str(prefix);
    s.append("-");
    s.append(subgraph_id.as_str());
    s.append("-");
    s.append(data_source_name.as_str());
    s
}

/// Where a mapping worker stands: taking requests, stopped on cancellation,
/// or stopped on a failure, after which nothing reaches it.
pub enum WorkerState {
    Running,
    Cancelled,
    Poisoned,
}

/// What a mapping worker observes next.
pub enum WorkerEvent {
    /// A trigger request arrived.
    Request,
    /// The host that owns the worker went away.
    Cancel,
    /// The requester no longer waits for the result just computed.
    ReplyDropped,
    /// The guest code failed.
    GuestPanic,
}

/// What a mapping worker does next.
pub enum WorkerAction {
    /// Run the requested handler and send back its result.
    Handle,
    /// Leave the loop and release the guest.
    Stop,
}

/// The decision of a mapping worker on an event: a running worker handles
/// requests and stays running; cancellation stops it as cancelled; a dropped
/// reply or a failing guest stops it as poisoned; a stopped worker stays
/// stopped.
pub fn worker_step(state: &WorkerState, event: &WorkerEvent) -> (r: (WorkerState, WorkerAction))
    ensures
        match (*state, *event) {
            (WorkerState::Running, WorkerEvent::Request) => r.0 is Running && r.1 is Handle,
            (WorkerState::Running, WorkerEvent::Cancel) => r.0 is Cancelled && r.1 is Stop,
            (WorkerState::Running, _) => r.0 is Poisoned && r.1 is Stop,
            (WorkerState::Cancelled, _) => r.0 is Cancelled && r.1 is Stop,
            (WorkerState::Poisoned, _) => r.0 is Poisoned && r.1 is Stop,
        },
{
    match state {
        WorkerState::Running => match event {
            WorkerEvent::Request => (WorkerState::Running, WorkerAction::Handle),
            WorkerEvent::Cancel => (WorkerState::Cancelled, WorkerAction::Stop),
            WorkerEvent::ReplyDropped => (WorkerState::Poisoned, WorkerAction::Stop),
            WorkerEvent::GuestPanic => (WorkerState::Poisoned, WorkerAction::Stop),
        },
        WorkerState::Cancelled => (WorkerState::Cancelled, WorkerAction::Stop),
        WorkerState::Poisoned => (WorkerState::Poisoned, WorkerAction::Stop),
    }
}

/// What the mapping is asked to handle, with the handler that handles it and
/// the decoded parameters.
pub enum MappingTrigger {
    Log { params: Vec<LogParam>, handler: EventHandler },
    Call { inputs: Vec<LogParam>, outputs: Vec<LogParam>, handler: CallHandler },
    Block { handler: BlockHandler },
}

/// Whether one of the event handlers is declared for the event with this topic.
pub open spec fn declares_topic(hs: Seq<EventHandler>, topic: Seq<u8>) -> bool {
    exists|j: int| 0 <= j < hs.len() && topic_of((#[trigger] hs[j]).event@) == topic
}

/// Whether one of the call handlers is declared for the function with this method id.
pub open spec fn declares_method_id(hs: Seq<CallHandler>, id: Seq<u8>) -> bool {
    exists|j: int| 0 <= j < hs.len() && method_id_of((#[trigger] hs[j]).function@) == id
}

/// The index of the first event handler declared for the event with this topic.
#[verifier::opaque]
pub open spec fn first_topic_handler(hs: Seq<EventHandler>, topic: Seq<u8>) -> int {
    choose|j: int| 0 <= j < hs.len() && topic_of(hs[j].event@) == topic
        && forall|k: int| 0 <= k < j ==> topic_of((#[trigger] hs[k]).event@) != topic
}

/// The index of the first call handler declared for the function with this method id.
#[verifier::opaque]
pub open spec fn first_method_handler(hs: Seq<CallHandler>, id: Seq<u8>) -> int {
    choose|j: int| 0 <= j < hs.len() && method_id_of(hs[j].function@) == id
        && forall|k: int| 0 <= k < j ==> method_id_of((#[trigger] hs[k]).function@) != id
}

/// A data source together with the subgraph it belongs to.
pub struct RuntimeHostConfig {
    pub subgraph_id: String,
    pub data_source: DataSource,
}

/// Relies on `Arc::clone`: another pointer to the same value.
#[verifier::external_body]
fn share<T>(a: &Arc<T>) -> (r: Arc<T>)
    ensures
        r == *a,
{
    Arc::clone(a)
}

/// What hosts of a subgraph share: the chain adapter, the link resolver and the store.
pub struct RuntimeHostBuilder<T, L, S> {
    pub ethereum_adapter: Arc<T>,
    pub link_resolver: Arc<L>,
    pub store: Arc<S>,
}

impl<T, L, S> Clone for RuntimeHostBuilder<T, L, S> {
    fn clone(&self) -> (r: Self)
        ensures
            r == *self,
    {
        RuntimeHostBuilder {
            ethereum_adapter: share(&self.ethereum_adapter),
            link_resolver: share(&self.link_resolver),
            store: share(&self.store),
        }
    }
}

impl<T, L, S> RuntimeHostBuilder<T, L, S> {
    pub fn new(ethereum_adapter: Arc<T>, link_resolver: Arc<L>, store: Arc<S>) -> (r: Self)
        ensures
            r.ethereum_adapter == ethereum_adapter,
            r.link_resolver == link_resolver,
            r.store == store,
    {
        RuntimeHostBuilder { ethereum_adapter, link_resolver, store }
    }

    /// The host of one data source of a subgraph.
    pub fn build(&self, subgraph_id: String, data_source: DataSource) -> (r: Result<RuntimeHost, HostError>)
        ensures
            r == RuntimeHost::spec_new(RuntimeHostConfig { subgraph_id, data_source }),
    {
        RuntimeHost::new(RuntimeHostConfig { subgraph_id, data_source })
    }
}

/// Whether the mapping of a data source holds an ABI of the given name.
pub open spec fn has_abi(abis: Seq<MappingAbi>, name: Seq<char>) -> bool {
    exists|k: int| 0 <= k < abis.len() && (#[trigger] abis[k]).name@ == name
}

/// The index of the first ABI of the given name.
pub open spec fn first_abi(abis: Seq<MappingAbi>, name: Seq<char>) -> int
    recommends
        has_abi(abis, name),
{
    choose|k: int| 0 <= k < abis.len() && abis[k].name@ == name
        && forall|j: int| 0 <= j < k ==> (#[trigger] abis[j]).name@ != name
}

fn abi_index(abis: &Vec<MappingAbi>, name: &String) -> (r: Option<usize>)
    ensures
        match r {
            Some(k) => k < abis@.len() && abis@[k as int].name@ == name@
                && forall|j: int| 0 <= j < k ==> (#[trigger] abis@[j]).name@ != name@,
            None => !has_abi(abis@, name@),
        },
{
    let mut k: usize = 0;
    while k < abis.len()
        invariant
            k <= abis@.len(),
            forall|j: int| 0 <= j < k ==> (#[trigger] abis@[j]).name@ != name@,
        decreases abis@.len() - k,
    {
        if abis[k].name == *name {
            return Some(k);
        }
        k = k + 1;
    }
    None
}

/// The host of one data source: its contract, the ABI of that contract and its
/// handlers, from which it decides which triggers concern it and how they
/// are handed to the mapping.
pub struct RuntimeHost {
    pub data_source_name: String,
    pub data_source_contract: Source,
    pub data_source_contract_abi: MappingAbi,
    pub data_source_event_handlers: Vec<EventHandler>,
    pub data_source_call_handlers: Vec<CallHandler>,
    pub data_source_block_handler: Option<BlockHandler>,
}

impl RuntimeHost {
    /// The host of a data source, or an error when its mapping holds no ABI
    /// under the name its contract declares.
    pub open spec fn spec_new(config: RuntimeHostConfig) -> Result<RuntimeHost, HostError> {
        let ds = config.data_source;
        let abis = ds.mapping.abis@;
        if has_abi(abis, ds.source.abi@) {
            let bs = ds.mapping.block_handlers@;
            Ok(RuntimeHost {
                data_source_name: ds.name,
                data_source_contract: ds.source,
                data_source_contract_abi: abis[first_abi(abis, ds.source.abi@)],
                data_source_event_handlers: ds.mapping.event_handlers,
                data_source_call_handlers: ds.mapping.call_handlers,
                data_source_block_handler: if bs.len() > 0 { Some(bs[0]) } else { None },
            })
        } else {
            Err(HostError::AbiNotFound { data_source: ds.name, abi: ds.source.abi })
        }
    }

    /// The host of a data source: its contract's ABI is the first of its
    /// mapping's ABIs with the declared name, and its block handler the first
    /// declared one. Fails when no ABI has that name.
    pub fn new(config: RuntimeHostConfig) -> (r: Result<Self, HostError>)
        ensures
            r == Self::spec_new(config),
    {
        let ghost cfg = config;
        let RuntimeHostConfig { subgraph_id: _, data_source } = config;
        let DataSource { name, source, mapping } = data_source;
        let mut abis = mapping.abis;
        let k = match abi_index(&abis, &source.abi) {
            Some(k) => k,
            None => {
                return Err(HostError::AbiNotFound { data_source: name, abi: source.abi });
            },
        };
        let abi = abis.remove(k);
        let mut bs = mapping.block_handlers;
        let block_handler = if bs.len() > 0 { Some(bs.remove(0)) } else { None };
        let ghost abis0 = cfg.data_source.mapping.abis@;
        proof {
            assert(has_abi(abis0, source.abi@));
            let c = first_abi(abis0, source.abi@);
            if c < k {
                assert(abis0[c].name@ != source.abi@);
            }
            if k < c {
                assert(abis0[k as int].name@ != source.abi@);
            }
        }
        Ok(RuntimeHost {
            data_source_name: name,
            data_source_contract: source,
            data_source_contract_abi: abi,
            data_source_event_handlers: mapping.event_handlers,
            data_source_call_handlers: mapping.call_handlers,
            data_source_block_handler: block_handler,
        })
    }

    /// Whether the log is one this host handles: it comes from the data
    /// source's contract and its first topic is that of a declared event.
    pub open spec fn spec_matches_log(&self, log: Log) -> bool {
        &&& self.data_source_contract.address == Some(log.address)
        &&& log.topics@.len() > 0
        &&& declares_topic(self.data_source_event_handlers@, log.topics@[0]@)
    }

    /// Whether the call is one this host handles: it goes to the data
    /// source's contract and starts with the method id of a declared function.
    pub open spec fn spec_matches_call(&self, call: EthereumCall) -> bool {
        &&& self.data_source_contract.address == Some(call.to)
        &&& call.input@.len() >= 4
        &&& declares_method_id(self.data_source_call_handlers@, call.input@.subrange(0, 4))
    }

    /// Whether every declared event handler's signature is an event of the ABI.
    pub open spec fn events_in_abi(&self) -> bool {
        forall|j: int| 0 <= j < self.data_source_event_handlers@.len() ==> exists|k: int|
            0 <= k < self.data_source_contract_abi.events@.len()
            && event_signature(self.data_source_contract_abi.events@[k]) == (#[trigger] self.data_source_event_handlers@[j]).event@
    }

    /// Whether every declared call handler's signature is a function of the ABI.
    pub open spec fn functions_in_abi(&self) -> bool {
        forall|j: int| 0 <= j < self.data_source_call_handlers@.len() ==> exists|k: int|
            0 <= k < self.data_source_contract_abi.functions@.len()
            && function_signature(self.data_source_contract_abi.functions@[k]) == (#[trigger] self.data_source_call_handlers@[j]).function@
    }

    fn matches_address(&self, address: &crate::chain::Address) -> (r: bool)
        ensures
            r == (self.data_source_contract.address == Some(*address)),
    {
        match &self.data_source_contract.address {
            Some(a) => array_eq(a, address),
            None => false,
        }
    }

    /// The index of the first event handler whose event has the topic.
    fn event_handler_index(&self, topic: &crate::chain::H256) -> (r: Option<usize>)
        ensures
            match r {
                Some(j) => j < self.data_source_event_handlers@.len()
                    && topic_of(self.data_source_event_handlers@[j as int].event@) == topic@
                    && forall|k: int| 0 <= k < j ==> topic_of((#[trigger] self.data_source_event_handlers@[k]).event@) != topic@,
                None => !declares_topic(self.data_source_event_handlers@, topic@),
            },
    {
        let hs = &self.data_source_event_handlers;
        let mut j: usize = 0;
        while j < hs.len()
            invariant
                *hs == self.data_source_event_handlers,
                j <= hs@.len(),
                forall|k: int| 0 <= k < j ==> topic_of((#[trigger] hs@[k]).event@) != topic@,
            decreases hs@.len() - j,
        {
            let t = event_topic(hs[j].event.as_str());
            if array_eq(&t, topic) {
                return Some(j);
            }
            proof {
                if topic_of(hs@[j as int].event@) == topic@ {
                    assert(t =~= *topic);
                }
            }
            j = j + 1;
        }
        None
    }

    /// The index of the first call handler whose function has the method id.
    fn call_handler_index(&self, id: &[u8]) -> (r: Option<usize>)
        ensures
            match r {
                Some(j) => j < self.data_source_call_handlers@.len()
                    && method_id_of(self.data_source_call_handlers@[j as int].function@) == id@
                    && forall|k: int| 0 <= k < j ==> method_id_of((#[trigger] self.data_source_call_handlers@[k]).function@) != id@,
                None => !declares_method_id(self.data_source_call_handlers@, id@),
            },
    {
        let hs = &self.data_source_call_handlers;
        let mut j: usize = 0;
        while j < hs.len()
            invariant
                *hs == self.data_source_call_handlers,
                j <= hs@.len(),
                forall|k: int| 0 <= k < j ==> method_id_of((#[trigger] hs@[k]).function@) != id@,
            decreases hs@.len() - j,
        {
            let m = method_id(hs[j].function.as_str());
            if bytes_eq(m.as_slice(), id) {
                return Some(j);
            }
            j = j + 1;
        }
        None
    }

    /// Whether the log comes from the data source's contract and its first
    /// topic is the topic of a declared event.
    pub fn matches_log(&self, log: &Log) -> (r: bool)
        ensures
            r == self.spec_matches_log(*log),
    {
        if !self.matches_address(&log.address) || log.topics.len() == 0 {
            return false;
        }
        self.event_handler_index(&log.topics[0]).is_some()
    }

    /// Whether the call goes to the data source's contract and its input starts
    /// with the method id of a declared function.
    pub fn matches_call(&self, call: &EthereumCall) -> (r: bool)
        ensures
            r == self.spec_matches_call(*call),
    {
        if !self.matches_address(&call.to) || call.input.len() < 4 {
            return false;
        }
        let prefix = vstd::slice::slice_subrange(call.input.as_slice(), 0, 4);
        self.call_handler_index(prefix).is_some()
    }

    /// Whether a block handler is declared and the call goes to the data
    /// source's contract.
    pub fn matches_block(&self, _block: &EthereumBlock, call: &EthereumCall) -> (r: bool)
        ensures
            r == (self.data_source_block_handler is Some && self.data_source_contract.address == Some(call.to)),
    {
        self.data_source_block_handler.is_some() && self.matches_address(&call.to)
    }

    /// The first event handler declared for the event of the log.
    pub open spec fn log_handler(&self, log: Log) -> EventHandler {
        self.data_source_event_handlers@[first_topic_handler(self.data_source_event_handlers@, log.topics@[0]@)]
    }

    /// The first call handler declared for the function of the call.
    pub open spec fn call_handler(&self, call: EthereumCall) -> CallHandler {
        self.data_source_call_handlers@[first_method_handler(self.data_source_call_handlers@, call.input@.subrange(0, 4))]
    }

    /// The first event of the ABI with the signature.
    pub open spec fn abi_event(&self, signature: Seq<char>) -> EventAbi {
        self.data_source_contract_abi.events@[first_event(self.data_source_contract_abi.events@, signature)]
    }

    /// The first function of the ABI with the signature.
    pub open spec fn abi_function(&self, signature: Seq<char>) -> FunctionAbi {
        self.data_source_contract_abi.functions@[first_function(self.data_source_contract_abi.functions@, signature)]
    }

    /// The first event handler declared for the log's event.
    pub fn handler_for_log(&self, log: &Log) -> (r: Result<EventHandler, HostError>)
        ensures
            log.topics@.len() == 0 ==> r is Err && r->Err_0 is EventWithoutTopics,
            log.topics@.len() > 0 && !declares_topic(self.data_source_event_handlers@, log.topics@[0]@)
                ==> r == Err::<EventHandler, HostError>(HostError::EventHandlerNotFound { data_source: self.data_source_name }),
            log.topics@.len() > 0 && declares_topic(self.data_source_event_handlers@, log.topics@[0]@)
                ==> r == Ok::<EventHandler, HostError>(self.log_handler(*log))
                    && 0 <= first_topic_handler(self.data_source_event_handlers@, log.topics@[0]@) < self.data_source_event_handlers@.len(),
    {
        if log.topics.len() == 0 {
            return Err(HostError::EventWithoutTopics);
        }
        match self.event_handler_index(&log.topics[0]) {
            Some(j) => {
                proof {
                    let hs = self.data_source_event_handlers@;
                    let t = log.topics@[0]@;
                    assert(topic_of(hs[j as int].event@) == t);
                    reveal(first_topic_handler);
                    let c = first_topic_handler(hs, t);
                    if c < j {
                        assert(topic_of(hs[c].event@) != t);
                    }
                    if c > j {
                        assert(topic_of(hs[j as int].event@) != t);
                    }
                }
                Ok(self.data_source_event_handlers[j].clone())
            },
            None => Err(HostError::EventHandlerNotFound { data_source: self.data_source_name.clone() }),
        }
    }

    /// The first call handler declared for the called function.
    pub fn handler_for_call(&self, call: &EthereumCall) -> (r: Result<CallHandler, HostError>)
        ensures
            call.input@.len() < 4 ==> r is Err && r->Err_0 is CallInputTooShort,
            call.input@.len() >= 4 && !declares_method_id(self.data_source_call_handlers@, call.input@.subrange(0, 4))
                ==> r == Err::<CallHandler, HostError>(HostError::CallHandlerNotFound { data_source: self.data_source_name }),
            call.input@.len() >= 4 && declares_method_id(self.data_source_call_handlers@, call.input@.subrange(0, 4))
                ==> r == Ok::<CallHandler, HostError>(self.call_handler(*call))
                    && 0 <= first_method_handler(self.data_source_call_handlers@, call.input@.subrange(0, 4)) < self.data_source_call_handlers@.len(),
    {
        if call.input.len() < 4 {
            return Err(HostError::CallInputTooShort);
        }
        let prefix = vstd::slice::slice_subrange(call.input.as_slice(), 0, 4);
        match self.call_handler_index(prefix) {
            Some(j) => {
                proof {
                    let hs = self.data_source_call_handlers@;
                    let id = call.input@.subrange(0, 4);
                    assert(method_id_of(hs[j as int].function@) == id);
                    reveal(first_method_handler);
                    let c = first_method_handler(hs, id);
                    if c < j {
                        assert(method_id_of(hs[c].function@) != id);
                    }
                    if c > j {
                        assert(method_id_of(hs[j as int].function@) != id);
                    }
                }
                Ok(self.data_source_call_handlers[j].clone())
            },
            None => Err(HostError::CallHandlerNotFound { data_source: self.data_source_name.clone() }),
        }
    }

    /// Prepares the trigger for a log: the first event handler declared for its
    /// event, and the log parsed against the first event of the ABI with that
    /// handler's signature.
    #[verifier::rlimit(40)]
    #[verifier::spinoff_prover]
    pub fn prepare_log(&self, log: &Log) -> (r: Result<MappingTrigger, HostError>)
        ensures
            log.topics@.len() == 0 ==> r is Err && r->Err_0 is EventWithoutTopics,
            log.topics@.len() > 0 && !declares_topic(self.data_source_event_handlers@, log.topics@[0]@)
                ==> r == Err::<MappingTrigger, HostError>(HostError::EventHandlerNotFound { data_source: self.data_source_name }),
            log.topics@.len() > 0 && declares_topic(self.data_source_event_handlers@, log.topics@[0]@)
                && !has_event(self.data_source_contract_abi.events@, self.log_handler(*log).event@)
                ==> r == Err::<MappingTrigger, HostError>(HostError::EventNotInAbi {
                    signature: self.log_handler(*log).event,
                    contract: self.data_source_contract_abi.name,
                    data_source: self.data_source_name,
                }),
            log.topics@.len() > 0 && declares_topic(self.data_source_event_handlers@, log.topics@[0]@)
                && has_event(self.data_source_contract_abi.events@, self.log_handler(*log).event@)
                && !event_encoding_in_range(self.abi_event(self.log_handler(*log).event@).inputs@, log.data@)
                ==> r is Err && r->Err_0 is MalformedAbiData,
            log.topics@.len() > 0 && declares_topic(self.data_source_event_handlers@, log.topics@[0]@)
                && has_event(self.data_source_contract_abi.events@, self.log_handler(*log).event@)
                && event_encoding_in_range(self.abi_event(self.log_handler(*log).event@).inputs@, log.data@)
                ==> (r is Ok <==> parsed_log(self.abi_event(self.log_handler(*log).event@), log.topics@, log.data@) is Some),
            log.topics@.len() > 0 && declares_topic(self.data_source_event_handlers@, log.topics@[0]@)
                && has_event(self.data_source_contract_abi.events@, self.log_handler(*log).event@)
                && event_encoding_in_range(self.abi_event(self.log_handler(*log).event@).inputs@, log.data@)
                && parsed_log(self.abi_event(self.log_handler(*log).event@), log.topics@, log.data@) is None
                ==> r is Err && r->Err_0 is EventParse,
            self.spec_matches_log(*log) ==> !(r is Err && r->Err_0 is EventHandlerNotFound),
            self.spec_matches_log(*log) && self.events_in_abi() ==> !(r is Err && r->Err_0 is EventNotInAbi),
            r matches Err(e) ==> e is EventWithoutTopics || e is EventHandlerNotFound || e is EventNotInAbi
                || e is MalformedAbiData || e is EventParse,
            r is Ok ==> r->Ok_0 is Log,
            r matches Ok(MappingTrigger::Log { params, handler }) ==> log.topics@.len() > 0
                && declares_topic(self.data_source_event_handlers@, log.topics@[0]@)
                && handler == self.log_handler(*log)
                && has_event(self.data_source_contract_abi.events@, handler.event@)
                && parsed_log(self.abi_event(handler.event@), log.topics@, log.data@) == Some(log_params_view(params@)),
    {
        let handler = match self.handler_for_log(log) {
            Ok(h) => h,
            Err(e) => {
                return Err(e);
            },
        };
        let abi = &self.data_source_contract_abi;
        let k = match abi.event_with_signature(&handler.event) {
            Some(k) => k,
            None => {
                proof {
                    if self.spec_matches_log(*log) && self.events_in_abi() {
                        let j = first_topic_handler(self.data_source_event_handlers@, log.topics@[0]@);
                        assert(exists|k: int| 0 <= k < abi.events@.len()
                            && event_signature(abi.events@[k]) == (#[trigger] self.data_source_event_handlers@[j]).event@);
                    }
                }
                return Err(HostError::EventNotInAbi {
                    signature: handler.event.clone(),
                    contract: abi.name.clone(),
                    data_source: self.data_source_name.clone(),
                });
            },
        };
        let event = &abi.events[k];
        assert(handler == self.log_handler(*log));
        assert(*event == self.abi_event(handler.event@));
        if !event_encoding_ok(&event.inputs, log.data.as_slice()) {
            return Err(HostError::MalformedAbiData);
        }
        match parse_event_log(event, &log.topics, &log.data) {
            Ok(params) => Ok(MappingTrigger::Log { params, handler }),
            Err(error) => Err(HostError::EventParse { signature: handler.event.clone(), error }),
        }
    }

    /// Whether the call has a handler whose function is in the ABI.
    pub open spec fn call_resolves(&self, call: EthereumCall) -> bool {
        &&& call.input@.len() >= 4
        &&& declares_method_id(self.data_source_call_handlers@, call.input@.subrange(0, 4))
        &&& has_function(self.data_source_contract_abi.functions@, self.call_handler(call).function@)
    }

    /// The function of the ABI that the call's handler names.
    pub open spec fn call_function(&self, call: EthereumCall) -> FunctionAbi {
        self.abi_function(self.call_handler(call).function@)
    }

    /// Whether the call's input and output decode against the function.
    pub open spec fn call_decodes(function: FunctionAbi, call: EthereumCall) -> bool {
        &&& encoding_in_range(function.inputs@, call_args(call.input@))
        &&& encoding_in_range(function.outputs@, call.output@)
        &&& inputs_decoded(function, call.input@) is Some
        &&& outputs_decoded(function, call.output@) is Some
    }

    /// Prepares the trigger for a call: the first call handler declared for the
    /// called function, and the call's input and output decoded against the
    /// first function of the ABI with that handler's signature.
    #[verifier::rlimit(40)]
    #[verifier::spinoff_prover]
    pub fn prepare_call(&self, call: &EthereumCall) -> (r: Result<MappingTrigger, HostError>)
        ensures
            call.input@.len() < 4 ==> r is Err && r->Err_0 is CallInputTooShort,
            call.input@.len() >= 4 && !declares_method_id(self.data_source_call_handlers@, call.input@.subrange(0, 4))
                ==> r == Err::<MappingTrigger, HostError>(HostError::CallHandlerNotFound { data_source: self.data_source_name }),
            call.input@.len() >= 4 && declares_method_id(self.data_source_call_handlers@, call.input@.subrange(0, 4))
                && !has_function(self.data_source_contract_abi.functions@, self.call_handler(*call).function@)
                ==> r == Err::<MappingTrigger, HostError>(HostError::FunctionNotInAbi {
                    signature: self.call_handler(*call).function,
                    contract: self.data_source_contract_abi.name,
                    data_source: self.data_source_name,
                }),
            call.input@.len() >= 4 && declares_method_id(self.data_source_call_handlers@, call.input@.subrange(0, 4))
                && has_function(self.data_source_contract_abi.functions@, self.call_handler(*call).function@)
                ==> (r is Ok <==> Self::call_decodes(self.abi_function(self.call_handler(*call).function@), *call)),
            self.call_resolves(*call) && !encoding_in_range(self.call_function(*call).inputs@, call_args(call.input@))
                ==> r is Err && r->Err_0 is MalformedAbiData,
            self.call_resolves(*call) && encoding_in_range(self.call_function(*call).inputs@, call_args(call.input@))
                && inputs_decoded(self.call_function(*call), call.input@) is None
                ==> r is Err && r->Err_0 is InputDecode,
            self.call_resolves(*call) && inputs_decoded(self.call_function(*call), call.input@) is Some
                && encoding_in_range(self.call_function(*call).inputs@, call_args(call.input@))
                && !encoding_in_range(self.call_function(*call).outputs@, call.output@)
                ==> r is Err && r->Err_0 is MalformedAbiData,
            self.call_resolves(*call) && inputs_decoded(self.call_function(*call), call.input@) is Some
                && encoding_in_range(self.call_function(*call).inputs@, call_args(call.input@))
                && encoding_in_range(self.call_function(*call).outputs@, call.output@)
                && outputs_decoded(self.call_function(*call), call.output@) is None
                ==> r is Err && r->Err_0 is OutputDecode,
            self.spec_matches_call(*call) ==> !(r is Err && r->Err_0 is CallHandlerNotFound),
            self.spec_matches_call(*call) && self.functions_in_abi() ==> !(r is Err && r->Err_0 is FunctionNotInAbi),
            r matches Err(e) ==> e is CallInputTooShort || e is CallHandlerNotFound || e is FunctionNotInAbi
                || e is MalformedAbiData || e is InputDecode || e is OutputDecode,
            r is Ok ==> r->Ok_0 is Call,
            r matches Ok(MappingTrigger::Call { inputs, outputs, handler }) ==> call.input@.len() >= 4
                && declares_method_id(self.data_source_call_handlers@, call.input@.subrange(0, 4))
                && handler == self.call_handler(*call)
                && has_function(self.data_source_contract_abi.functions@, handler.function@)
                && (inputs_decoded(self.abi_function(handler.function@), call.input@) matches Some(ts)
                    && named_values_ok(self.abi_function(handler.function@).inputs@, ts, inputs@))
                && (outputs_decoded(self.abi_function(handler.function@), call.output@) matches Some(us)
                    && named_values_ok(self.abi_function(handler.function@).outputs@, us, outputs@)),
    {
        let handler = match self.handler_for_call(call) {
            Ok(h) => h,
            Err(e) => {
                return Err(e);
            },
        };
        let abi = &self.data_source_contract_abi;
        let k = match abi.function_with_signature(&handler.function) {
            Some(k) => k,
            None => {
                proof {
                    if self.spec_matches_call(*call) && self.functions_in_abi() {
                        let j = first_method_handler(self.data_source_call_handlers@, call.input@.subrange(0, 4));
                        assert(exists|k: int| 0 <= k < abi.functions@.len()
                            && function_signature(abi.functions@[k]) == (#[trigger] self.data_source_call_handlers@[j]).function@);
                    }
                }
                return Err(HostError::FunctionNotInAbi {
                    signature: handler.function.clone(),
                    contract: abi.name.clone(),
                    data_source: self.data_source_name.clone(),
                });
            },
        };
        let function = &abi.functions[k];
        assert(handler == self.call_handler(*call));
        assert(*function == self.abi_function(handler.function@));
        let inputs = match decode_call_inputs(function, &call.input) {
            Ok(ps) => ps,
            Err(e) => {
                return Err(e);
            },
        };
        let outputs = match decode_call_outputs(function, &call.output) {
            Ok(ps) => ps,
            Err(e) => {
                return Err(e);
            },
        };
        Ok(MappingTrigger::Call { inputs, outputs, handler })
    }

    /// The data source's block handler.
    pub fn handler_for_block(&self) -> (r: Result<BlockHandler, HostError>)
        ensures
            match self.data_source_block_handler {
                Some(h) => r == Ok::<BlockHandler, HostError>(h),
                None => r == Err::<BlockHandler, HostError>(HostError::BlockHandlerNotFound { data_source: self.data_source_name }),
            },
    {
        match &self.data_source_block_handler {
            Some(h) => Ok(h.clone()),
            None => Err(HostError::BlockHandlerNotFound { data_source: self.data_source_name.clone() }),
        }
    }

    /// Prepares the trigger for a block: the data source's block handler.
    pub fn prepare_block(&self) -> (r: Result<MappingTrigger, HostError>)
        ensures
            match self.data_source_block_handler {
                Some(h) => r == Ok::<MappingTrigger, HostError>(MappingTrigger::Block { handler: h }),
                None => r == Err::<MappingTrigger, HostError>(HostError::BlockHandlerNotFound { data_source: self.data_source_name }),
            },
    {
        match self.handler_for_block() {
            Ok(handler) => Ok(MappingTrigger::Block { handler }),
            Err(e) => Err(e),
        }
    }
}

} // verus!
