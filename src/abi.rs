use vstd::prelude::*;
use vstd::string::StringExecFns;

use crate::chain::H256;
use crate::encoding::{encoding_in_range, event_encoding_in_range};

verus! {

#[verifier::external_type_specification]
#[verifier::external_body]
pub struct ExParamType(ethabi::ParamType);

#[verifier::external_type_specification]
#[verifier::external_body]
pub struct ExToken(ethabi::Token);

#[verifier::external_type_specification]
#[verifier::external_body]
pub struct ExAbiError(ethabi::Error);

/// An ABI type.
#[derive(Debug)]
pub enum ParamKind {
    Address,
    Bytes,
    Int(usize),
    Uint(usize),
    Bool,
    String,
    /// An array of any length.
    Array(Box<ParamKind>),
    /// A byte string of fixed length.
    FixedBytes(usize),
    /// An array of fixed length.
    FixedArray(Box<ParamKind>, usize),
}

/// Whether values of the type are encoded behind an offset.
pub open spec fn is_dynamic(k: ParamKind) -> bool
    decreases k,
{
    match k {
        ParamKind::Bytes | ParamKind::String | ParamKind::Array(_) => true,
        ParamKind::FixedArray(t, _) => is_dynamic(*t),
        _ => false,
    }
}

/// Whether values of the type are encoded behind an offset.
pub fn kind_is_dynamic(k: &ParamKind) -> (r: bool)
    ensures
        r == is_dynamic(*k),
    decreases *k,
{
    match k {
        ParamKind::Bytes | ParamKind::String | ParamKind::Array(_) => true,
        ParamKind::FixedArray(t, _) => kind_is_dynamic(t),
        _ => false,
    }
}

/// A parameter of a function or event: its name and its ABI type.
pub struct AbiParam {
    pub name: String,
    pub kind: ParamKind,
}

/// A parameter of an event, which is either indexed (carried in a topic) or not
/// (carried in the log's data).
pub struct EventParamAbi {
    pub param: AbiParam,
    pub indexed: bool,
}

/// A contract function: its name, inputs and outputs.
pub struct FunctionAbi {
    pub name: String,
    pub inputs: Vec<AbiParam>,
    pub outputs: Vec<AbiParam>,
}

/// A contract event.
pub struct EventAbi {
    pub name: String,
    pub inputs: Vec<EventParamAbi>,
    pub anonymous: bool,
}

/// A contract's ABI under the name that data sources refer to it by.
pub struct MappingAbi {
    pub name: String,
    pub functions: Vec<FunctionAbi>,
    pub events: Vec<EventAbi>,
}

/// A decoded parameter: its declared name and its value.
pub struct LogParam {
    pub name: String,
    pub value: ethabi::Token,
}

/// The character of a decimal digit.
pub open spec fn digit_char(d: nat) -> char {
    seq!['0', '1', '2', '3', '4', '5', '6', '7', '8', '9'][d as int]
}

/// The decimal digits of a number, without leading zeros.
pub open spec fn decimal(n: nat) -> Seq<char>
    decreases n,
{
    if n < 10 {
        seq![digit_char(n)]
    } else {
        decimal(n / 10) + seq![digit_char(n % 10)]
    }
}

/// The canonical name of an ABI type, as it stands in signatures: "address",
/// "bytes", "bytes32", "int64", "uint256", "bool", "string", "t[]", "t[2]".
pub open spec fn type_name_of(kind: ParamKind) -> Seq<char>
    decreases kind,
{
    match kind {
        ParamKind::Address => "address"@,
        ParamKind::Bytes => "bytes"@,
        ParamKind::FixedBytes(n) => "bytes"@ + decimal(n as nat),
        ParamKind::Int(n) => "int"@ + decimal(n as nat),
        ParamKind::Uint(n) => "uint"@ + decimal(n as nat),
        ParamKind::Bool => "bool"@,
        ParamKind::String => "string"@,
        ParamKind::FixedArray(t, n) => type_name_of(*t) + seq!['['] + decimal(n as nat) + seq![']'],
        ParamKind::Array(t) => type_name_of(*t) + seq!['[', ']'],
    }
}

/// What decoding `data` against a list of types gives: the tokens, or none
/// when the data does not decode.
pub uninterp spec fn decoded_of(kinds: Seq<ParamKind>, data: Seq<u8>) -> Option<Seq<ethabi::Token>>;

/// What parsing a log against an event (name, inputs as name, type and
/// whether indexed, anonymity) gives: the named values, or none when the log
/// does not parse.
pub uninterp spec fn parsed_log_of(
    name: Seq<char>,
    inputs: Seq<(Seq<char>, ParamKind, bool)>,
    anonymous: bool,
    topics: Seq<[u8; 32]>,
    data: Seq<u8>,
) -> Option<Seq<(Seq<char>, ethabi::Token)>>;

pub open spec fn kinds_of(ps: Seq<AbiParam>) -> Seq<ParamKind> {
    ps.map_values(|p: AbiParam| p.kind)
}

pub open spec fn event_inputs_view(ps: Seq<EventParamAbi>) -> Seq<(Seq<char>, ParamKind, bool)> {
    ps.map_values(|p: EventParamAbi| (p.param.name@, p.param.kind, p.indexed))
}

pub open spec fn log_params_view(ps: Seq<LogParam>) -> Seq<(Seq<char>, ethabi::Token)> {
    ps.map_values(|p: LogParam| (p.name@, p.value))
}

/// What parsing the log gives for this event.
pub open spec fn parsed_log(event: EventAbi, topics: Seq<[u8; 32]>, data: Seq<u8>) -> Option<Seq<(Seq<char>, ethabi::Token)>> {
    parsed_log_of(event.name@, event_inputs_view(event.inputs@), event.anonymous, topics, data)
}

/// Builds ethabi's type of the same shape.
#[verifier::external_body]
fn ethabi_type(kind: &ParamKind) -> ethabi::ParamType {
    match kind {
        ParamKind::Address => ethabi::ParamType::Address,
        ParamKind::Bytes => ethabi::ParamType::Bytes,
        ParamKind::Int(n) => ethabi::ParamType::Int(*n),
        ParamKind::Uint(n) => ethabi::ParamType::Uint(*n),
        ParamKind::Bool => ethabi::ParamType::Bool,
        ParamKind::String => ethabi::ParamType::String,
        ParamKind::Array(t) => ethabi::ParamType::Array(Box::new(ethabi_type(t))),
        ParamKind::FixedBytes(n) => ethabi::ParamType::FixedBytes(*n),
        ParamKind::FixedArray(t, n) => ethabi::ParamType::FixedArray(Box::new(ethabi_type(t)), *n),
    }
}

/// Relies on `ethabi::param_type::Writer::write`: the canonical name of an ABI
/// type, one fixed word or format per kind of type.
#[verifier::external_body]
fn abi_type_name(kind: &ParamKind) -> (r: String)
    ensures
        r@ == type_name_of(*kind),
{
    ethabi::param_type::Writer::write(&ethabi_type(kind))
}

/// Relies on `ethabi::decode`, which depends on its arguments alone and on
/// success gives one token for each type. For a fixed-size array of a dynamic
/// element type it slices at an offset read from the data without a check, so
/// the data's offsets must lie inside it.
#[verifier::external_body]
pub(crate) fn decode_params(params: &Vec<AbiParam>, data: &[u8]) -> (r: Result<Vec<ethabi::Token>, ethabi::Error>)
    requires
        encoding_in_range(params@, data@),
    ensures
        r is Ok <==> decoded_of(kinds_of(params@), data@) is Some,
        r matches Ok(tokens) ==> decoded_of(kinds_of(params@), data@) == Some(tokens@)
            && tokens@.len() == params@.len(),
{
    let types: Vec<ethabi::ParamType> = params.iter().map(|p| ethabi_type(&p.kind)).collect();
    ethabi::decode(&types, data)
}

/// Relies on `ethabi::Event::parse_log`, which depends on its arguments alone
/// and on success gives one parameter for each input of the event, in the
/// order and under the names of the inputs. It decodes the log's data with
/// `ethabi::decode`, so the offsets there must lie inside the data; indexed
/// inputs are decoded from the topics as words or fixed byte strings, whose
/// lengths are rounded up to words.
#[verifier::external_body]
pub(crate) fn parse_event_log(event: &EventAbi, topics: &Vec<H256>, data: &Vec<u8>) -> (r: Result<Vec<LogParam>, ethabi::Error>)
    requires
        event_encoding_in_range(event.inputs@, data@),
    ensures
        r is Ok <==> parsed_log_of(event.name@, event_inputs_view(event.inputs@), event.anonymous, topics@, data@) is Some,
        r matches Ok(ps) ==> parsed_log_of(event.name@, event_inputs_view(event.inputs@), event.anonymous, topics@, data@)
                == Some(log_params_view(ps@))
            && ps@.len() == event.inputs@.len()
            && forall|i: int| 0 <= i < ps@.len() ==> (#[trigger] ps@[i]).name@ == event.inputs@[i].param.name@,
{
    let ev = ethabi::Event {
        name: event.name.clone(),
        inputs: event.inputs.iter().map(|p| ethabi::EventParam { name: p.param.name.clone(), kind: ethabi_type(&p.param.kind), indexed: p.indexed }).collect(),
        anonymous: event.anonymous,
    };
    let raw = ethabi::RawLog { topics: topics.iter().map(|t| ethabi::Hash::from(*t)).collect(), data: data.clone() };
    ev.parse_log(raw).map(|log| log.params.into_iter().map(|p| LogParam { name: p.name, value: p.value }).collect())
}

impl AbiParam {
    /// A parameter of the given name and type.
    pub fn new(name: String, kind: ParamKind) -> (r: Self)
        ensures
            r.name == name,
            r.kind == kind,
    {
        AbiParam { name, kind }
    }
}

/// Type names separated by commas.
pub open spec fn type_list(ts: Seq<Seq<char>>) -> Seq<char>
    decreases ts.len(),
{
    if ts.len() == 0 {
        Seq::empty()
    } else if ts.len() == 1 {
        ts[0]
    } else {
        type_list(ts.drop_last()) + seq![','] + ts.last()
    }
}

/// A canonical signature: the name, then the type names in parentheses.
pub open spec fn signature_of(name: Seq<char>, ts: Seq<Seq<char>>) -> Seq<char> {
    name + seq!['('] + type_list(ts) + seq![')']
}

pub open spec fn param_types(ps: Seq<AbiParam>) -> Seq<Seq<char>> {
    ps.map_values(|p: AbiParam| type_name_of(p.kind))
}

pub open spec fn event_param_types(ps: Seq<EventParamAbi>) -> Seq<Seq<char>> {
    ps.map_values(|p: EventParamAbi| type_name_of(p.param.kind))
}

pub open spec fn function_signature(f: FunctionAbi) -> Seq<char> {
    signature_of(f.name@, param_types(f.inputs@))
}

pub open spec fn event_signature(e: EventAbi) -> Seq<char> {
    signature_of(e.name@, event_param_types(e.inputs@))
}

fn build_signature(name: &String, ts: &Vec<String>) -> (r: String)
    ensures
        r@ == signature_of(name@, ts@.map_values(|t: String| t@)),
{
    let ghost tv = ts@.map_values(|t: String| t@);
    let mut s = String::new();
    s.append(name.as_str());
    proof {
        reveal_strlit("(");
        reveal_strlit(",");
        reveal_strlit(")");
    }
    s.append("(");
    let mut i: usize = 0;
    while i < ts.len()
        invariant
            i <= ts@.len(),
            tv == ts@.map_values(|t: String| t@),
            s@ == name@ + seq!['('] + type_list(tv.take(i as int)),
        decreases ts@.len() - i,
    {
        let ghost prev = s@;
        if i > 0 {
            s.append(",");
        }
        s.append(ts[i].as_str());
        proof {
            reveal_strlit(",");
            let t = tv.take(i as int + 1);
            assert(t.drop_last() =~= tv.take(i as int));
            assert(t.last() == ts@[i as int]@);
            if i == 0 {
                assert(type_list(tv.take(0)) =~= Seq::<char>::empty());
                assert(t[0] == t.last());
                assert(s@ =~= name@ + seq!['('] + type_list(t));
            } else {
                assert(type_list(t) == type_list(tv.take(i as int)) + seq![','] + t.last());
                assert(s@ =~= name@ + seq!['('] + type_list(t));
            }
        }
        i = i + 1;
    }
    s.append(")");
    assert(tv.take(i as int) =~= tv);
    s
}

impl FunctionAbi {
    /// The function's canonical signature, "name(type,...)".
    pub fn signature(&self) -> (r: String)
        ensures
            r@ == function_signature(*self),
    {
        let mut ts: Vec<String> = Vec::new();
        let mut i: usize = 0;
        while i < self.inputs.len()
            invariant
                i <= self.inputs@.len(),
                ts@.len() == i,
                forall|k: int| 0 <= k < i ==> (#[trigger] ts@[k])@ == type_name_of(self.inputs@[k].kind),
            decreases self.inputs@.len() - i,
        {
            ts.push(abi_type_name(&self.inputs[i].kind));
            i = i + 1;
        }
        assert(ts@.map_values(|t: String| t@) =~= param_types(self.inputs@));
        build_signature(&self.name, &ts)
    }
}

impl EventAbi {
    /// The event's canonical signature, "name(type,...)".
    pub fn signature(&self) -> (r: String)
        ensures
            r@ == event_signature(*self),
    {
        let mut ts: Vec<String> = Vec::new();
        let mut i: usize = 0;
        while i < self.inputs.len()
            invariant
                i <= self.inputs@.len(),
                ts@.len() == i,
                forall|k: int| 0 <= k < i ==> (#[trigger] ts@[k])@ == type_name_of(self.inputs@[k].param.kind),
            decreases self.inputs@.len() - i,
        {
            ts.push(abi_type_name(&self.inputs[i].param.kind));
            i = i + 1;
        }
        assert(ts@.map_values(|t: String| t@) =~= event_param_types(self.inputs@));
        build_signature(&self.name, &ts)
    }
}

/// Whether some function of the list has the signature.
pub open spec fn has_function(fs: Seq<FunctionAbi>, signature: Seq<char>) -> bool {
    exists|k: int| 0 <= k < fs.len() && function_signature(#[trigger] fs[k]) == signature
}

/// The index of the first function of the list with the signature.
#[verifier::opaque]
pub open spec fn first_function(fs: Seq<FunctionAbi>, signature: Seq<char>) -> int {
    choose|k: int| 0 <= k < fs.len() && function_signature(fs[k]) == signature
        && forall|j: int| 0 <= j < k ==> function_signature(#[trigger] fs[j]) != signature
}

/// Whether some event of the list has the signature.
pub open spec fn has_event(es: Seq<EventAbi>, signature: Seq<char>) -> bool {
    exists|k: int| 0 <= k < es.len() && event_signature(#[trigger] es[k]) == signature
}

/// The index of the first event of the list with the signature.
#[verifier::opaque]
pub open spec fn first_event(es: Seq<EventAbi>, signature: Seq<char>) -> int {
    choose|k: int| 0 <= k < es.len() && event_signature(es[k]) == signature
        && forall|j: int| 0 <= j < k ==> event_signature(#[trigger] es[j]) != signature
}

impl MappingAbi {
    /// The index of the first function whose canonical signature is `signature`.
    pub fn function_with_signature(&self, signature: &String) -> (r: Option<usize>)
        ensures
            match r {
                Some(k) => has_function(self.functions@, signature@)
                    && k as int == first_function(self.functions@, signature@)
                    && k < self.functions@.len(),
                None => !has_function(self.functions@, signature@),
            },
    {
        let mut i: usize = 0;
        while i < self.functions.len()
            invariant
                i <= self.functions@.len(),
                forall|j: int| 0 <= j < i ==> function_signature(#[trigger] self.functions@[j]) != signature@,
            decreases self.functions@.len() - i,
        {
            let s = self.functions[i].signature();
            if s == *signature {
                proof {
                    let fs = self.functions@;
                    assert(function_signature(fs[i as int]) == signature@);
                    reveal(first_function);
                    let c = first_function(fs, signature@);
                    if c < i {
                        assert(function_signature(fs[c]) != signature@);
                    }
                    if c > i {
                        assert(function_signature(fs[i as int]) != signature@);
                    }
                }
                return Some(i);
            }
            i = i + 1;
        }
        None
    }

    /// The index of the first event whose canonical signature is `signature`.
    pub fn event_with_signature(&self, signature: &String) -> (r: Option<usize>)
        ensures
            match r {
                Some(k) => has_event(self.events@, signature@)
                    && k as int == first_event(self.events@, signature@)
                    && k < self.events@.len(),
                None => !has_event(self.events@, signature@),
            },
    {
        let mut i: usize = 0;
        while i < self.events.len()
            invariant
                i <= self.events@.len(),
                forall|j: int| 0 <= j < i ==> event_signature(#[trigger] self.events@[j]) != signature@,
            decreases self.events@.len() - i,
        {
            let s = self.events[i].signature();
            if s == *signature {
                proof {
                    let es = self.events@;
                    assert(event_signature(es[i as int]) == signature@);
                    reveal(first_event);
                    let c = first_event(es, signature@);
                    if c < i {
                        assert(event_signature(es[c]) != signature@);
                    }
                    if c > i {
                        assert(event_signature(es[i as int]) != signature@);
                    }
                }
                return Some(i);
            }
            i = i + 1;
        }
        None
    }
}

/// Pairs decoded tokens with the names of the parameters they were decoded
/// for; none when their counts differ.
pub fn name_tokens(params: &Vec<AbiParam>, tokens: Vec<ethabi::Token>) -> (r: Option<Vec<LogParam>>)
    ensures
        r is None <==> tokens@.len() != params@.len(),
        r matches Some(ps) ==> ps@.len() == params@.len()
            && forall|i: int| 0 <= i < ps@.len() ==> (#[trigger] ps@[i]).name@ == params@[i].name@
                && ps@[i].value == tokens@[i],
{
    if tokens.len() != params.len() {
        return None;
    }
    let ghost all = tokens@;
    let mut rest = tokens;
    let mut out: Vec<LogParam> = Vec::new();
    let mut i: usize = 0;
    while i < params.len()
        invariant
            all.len() == params@.len(),
            i <= params@.len(),
            rest@ == all.subrange(i as int, all.len() as int),
            out@.len() == i,
            forall|k: int| 0 <= k < i ==> (#[trigger] out@[k]).name@ == params@[k].name@ && out@[k].value == all[k],
        decreases params@.len() - i,
    {
        let value = rest.remove(0);
        out.push(LogParam { name: params[i].name.clone(), value });
        assert(rest@ =~= all.subrange(i as int + 1, all.len() as int));
        i = i + 1;
    }
    Some(out)
}

} // verus!
