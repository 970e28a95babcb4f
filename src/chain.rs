use vstd::prelude::*;

verus! {

/// A 20-byte contract or account address.
pub type Address = [u8; 20];

/// A 32-byte hash: block hashes, log topics.
pub type H256 = [u8; 32];

/// A 4-byte function method id.
pub type MethodId = [u8; 4];

/// An event log emitted by a contract.
pub struct Log {
    pub address: Address,
    /// The first topic is the event signature hash, unless the event is anonymous.
    pub topics: Vec<H256>,
    pub data: Vec<u8>,
}

/// A message call made during a transaction.
pub struct EthereumCall {
    pub from: Address,
    pub to: Address,
    /// The method id in the first four bytes, then the encoded arguments.
    pub input: Vec<u8>,
    /// The encoded return values.
    pub output: Vec<u8>,
    pub block_number: u64,
    pub block_hash: H256,
}

/// A block, by number and hash.
#[derive(Clone, Copy)]
pub struct EthereumBlockPointer {
    pub hash: H256,
    pub number: u64,
}

/// The parts of a block that the mapping context carries.
pub struct EthereumBlock {
    pub number: u64,
    pub hash: H256,
    pub parent_hash: H256,
}

} // verus!
