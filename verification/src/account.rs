use vstd::prelude::*;

verus! {

/// A simple wallet record: an address together with a balance.
///
/// This record is not consulted by the authorization logic; it only describes
/// the shape of a plain token-bearing account.
pub struct Account {
    pub wallet_address: [u8; 32],
    pub balance: u64,
}

} // verus!
