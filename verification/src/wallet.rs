use vstd::prelude::*;

verus! {

/// The node wallet as shown to the front-end.
#[derive(Debug, Clone)]
pub struct WalletInfo {
    pub address: String,
    pub network: String,
}

} // verus!
