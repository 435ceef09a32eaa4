use vstd::prelude::*;

use crate::block::{BlockContent, BlockHeader};

verus! {

/// The kind of item an inventory names.
#[derive(Clone, Copy, Debug, PartialEq, Eq, Structural)]
pub enum InvDataType {
    Transaction,
    Block,
}

/// An inventory: the hashes of items of one kind.
#[derive(Clone, Debug)]
pub struct Inv {
    pub data_type: InvDataType,
    pub hashes: Vec<[u8; 32]>,
}

/// A request for the block hashes after a locator.
#[derive(Clone, Debug)]
pub struct GetBlocks {
    pub version: u32,
    pub block_locator_object: Vec<[u8; 32]>,
}

/// A request for the items with the given hashes.
#[derive(Clone, Debug)]
pub struct GetData {
    pub version: u32,
    pub data_type: InvDataType,
    pub hashes: Vec<[u8; 32]>,
}

/// A request for the headers after a locator.
#[derive(Clone, Debug)]
pub struct GetHeaders {
    pub version: u32,
    pub block_locator_object: Vec<[u8; 32]>,
}

/// The lightweight status of a node.
#[derive(Clone, Copy, Debug)]
pub struct BlockchainInfo {
    pub version: u32,
    pub height: usize,
    pub best_block: [u8; 32],
    pub mempool_size: usize,
}

/// A list of headers.
#[derive(Clone, Debug)]
pub struct Headers {
    pub headers: Vec<BlockHeader>,
}

/// The bodies of requested blocks; a hash that is not known gives `None`.
#[derive(Clone, Debug)]
pub struct BlocksData {
    pub version: u32,
    pub blocks_data: Vec<Option<BlockContent>>,
}

/// A node's peers, as URLs.
#[derive(Clone, Debug)]
pub struct SendPeers {
    pub peers: Vec<String>,
}

/// The scheme a peer is reached by.
#[derive(Clone, Copy, Debug, PartialEq, Eq, Structural)]
pub enum HttpScheme {
    HTTP,
    HTTPS,
}

/// A request to become a peer of the callee.
#[derive(Clone, Copy, Debug)]
pub struct PairUp {
    pub version: u32,
    pub method: HttpScheme,
    pub port: u16,
}

/// A request to stop being a peer of the callee.
#[derive(Clone, Copy, Debug)]
pub struct Unpair {
    pub version: u32,
    pub method: HttpScheme,
    pub port: u16,
}

/// A message body used to try the transport.
#[derive(Clone, Debug)]
pub struct TestBody {
    pub test: String,
}

} // verus!
