use vstd::prelude::*;

verus! {

/// The name of the coin.
pub const COIN_NAME: &'static str = "TENSOR";

/// The abbreviation that starts the human form of an address.
pub const COIN_NAME_ABBREVIATION: &'static str = "TNS";

/// Parameters of the network layer, fixed for the lifetime of a chain.
#[derive(Clone, Copy, Debug)]
pub struct NetworkParameters {
    /// The largest block body, in bytes.
    pub max_block_body_size: usize,
    /// The largest transaction, in bytes.
    pub max_tx_size: usize,
}

/// Technical parameters; none are fixed yet.
#[derive(Clone, Copy, Debug)]
pub struct TechnicalParameters {}

/// Economic parameters, fixed for the lifetime of a chain.
#[derive(Clone, Copy, Debug)]
pub struct EconomicParameters {
    /// The least fee a transaction pays per byte of its size.
    pub fee_per_tx_byte: u32,
    /// The coins a forged block mints on top of the fees it collects.
    pub block_reward: u64,
}

/// All parameters of a chain.
#[derive(Clone, Copy, Debug)]
pub struct Parameters {
    pub network_parameters: NetworkParameters,
    pub technical_parameters: TechnicalParameters,
    pub economic_parameters: EconomicParameters,
}

impl Default for NetworkParameters {
    fn default() -> (r: Self)
        ensures
            r.max_block_body_size == 65536,
            r.max_tx_size == 1024,
    {
        NetworkParameters { max_block_body_size: 65536, max_tx_size: 1024 }
    }
}

impl Default for TechnicalParameters {
    fn default() -> (r: Self) {
        TechnicalParameters {  }
    }
}

impl Default for EconomicParameters {
    fn default() -> (r: Self)
        ensures
            r.fee_per_tx_byte == 10,
            r.block_reward == 0,
    {
        EconomicParameters { fee_per_tx_byte: 10, block_reward: 0 }
    }
}

impl Default for Parameters {
    fn default() -> (r: Self)
        ensures
            r.network_parameters.max_block_body_size == 65536,
            r.network_parameters.max_tx_size == 1024,
            r.economic_parameters.fee_per_tx_byte == 10,
            r.economic_parameters.block_reward == 0,
    {
        Parameters {
            network_parameters: NetworkParameters::default(),
            technical_parameters: TechnicalParameters::default(),
            economic_parameters: EconomicParameters::default(),
        }
    }
}

} // verus!
