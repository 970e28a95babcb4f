use vstd::prelude::*;

use std::collections::{HashMap, HashSet};

use crate::abi::FunctionAbi;
use crate::block_filter::EthereumBlockFilter;
use crate::call_filter::EthereumCallFilter;
use crate::log_filter::EthereumLogFilter;
use crate::chain::{Address, EthereumBlockPointer, H256};

verus! {

#[verifier::external_type_specification]
#[verifier::external_body]
pub struct ExWeb3Error(web3::Error);

/// The filters of a subgraph, each under the name of its data source, so that
/// they can be applied selectively.
pub struct EthereumFilters {
    pub log_filters: HashMap<String, EthereumLogFilter>,
    pub call_filter: HashMap<String, EthereumCallFilter>,
    pub block_filters: HashMap<String, EthereumBlockFilter>,
}

/// The start blocks at which data sources become active.
pub struct Checkpoints {
    pub blocks: HashSet<Option<u64>>,
}

/// A collection of attributes that (kind of) uniquely identify an Ethereum blockchain.
pub struct EthereumNetworkIdentifier {
    pub net_version: String,
    pub genesis_block_hash: H256,
}

/// A request for the state of a contract at a specific block hash and address.
pub struct EthereumContractStateRequest {
    pub address: Address,
    pub block_hash: H256,
}

/// An error that can occur when trying to obtain the state of a contract.
pub enum EthereumContractStateError {
    Failed,
}

/// Representation of an Ethereum contract state.
pub struct EthereumContractState {
    pub address: Address,
    pub block_hash: H256,
    pub data: Vec<u8>,
}

/// A call of a contract function at a given block.
pub struct EthereumContractCall {
    pub address: Address,
    pub block_ptr: EthereumBlockPointer,
    pub function: FunctionAbi,
    pub args: Vec<ethabi::Token>,
}

/// Why a contract call failed. A revert keeps its reason, and a timeout is
/// told apart from it, so that timeouts can be retried and reverts not.
pub enum EthereumContractCallError {
    /// The ABI could not encode the call or decode its result.
    ABIError(ethabi::Error),
    /// A token is not of the expected type.
    TypeError(ethabi::Token, ethabi::ParamType),
    /// The node could not be reached or answered with an error.
    Web3Error(web3::Error),
    /// The call reverted, with this reason.
    Revert(String),
    /// The node took too long to perform the call.
    Timeout,
}

impl From<ethabi::Error> for EthereumContractCallError {
    fn from(e: ethabi::Error) -> (r: Self)
        ensures
            r == EthereumContractCallError::ABIError(e),
    {
        EthereumContractCallError::ABIError(e)
    }
}

impl vstd::std_specs::convert::FromSpecImpl<ethabi::Error> for EthereumContractCallError {
    open spec fn obeys_from_spec() -> bool {
        true
    }

    open spec fn from_spec(e: ethabi::Error) -> Self {
        EthereumContractCallError::ABIError(e)
    }
}

/// Why the chain adapter failed.
pub enum EthereumAdapterError {
    /// The node does not know the block of this hash, probably because it
    /// disappeared in a chain reorganisation.
    BlockUnavailable(H256),
    /// An unexpected error, with its message.
    Unknown(String),
}

impl From<String> for EthereumAdapterError {
    fn from(message: String) -> (r: Self)
        ensures
            r == EthereumAdapterError::Unknown(message),
    {
        EthereumAdapterError::Unknown(message)
    }
}

impl vstd::std_specs::convert::FromSpecImpl<String> for EthereumAdapterError {
    open spec fn obeys_from_spec() -> bool {
        true
    }

    open spec fn from_spec(message: String) -> Self {
        EthereumAdapterError::Unknown(message)
    }
}

} // verus!
