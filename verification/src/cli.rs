//! Command line parameters for the test case generator, as plain data.

use vstd::prelude::*;

verus! {

/// Arguments of the test case generator for the address endpoints.
#[derive(Clone, Debug)]
pub struct AppArgs {
    pub endpoint: AddressEndpoint,
}

/// Which endpoint a test case is generated for.
#[derive(Clone, Debug)]
pub enum AddressEndpoint {
    /// Gets all appearances for all addresses in a single block.
    GetAddressesInBlock { block: u32, chunk_file: String },
    /// Gets all appearances for one address across multiple blocks.
    GetAppearances {
        address: String,
        range: RangeParam,
        start_block: Option<u32>,
        end_block: Option<u32>,
        file: String,
    },
}

/// Block range kind to use for a test vector.
#[derive(Clone, Copy, Debug, PartialEq, Eq, Structural)]
pub enum RangeParam {
    All,
    Single,
    Custom,
}

} // verus!
