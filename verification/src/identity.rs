//! Identities of the parties that take part in payments and refunds.

use vstd::prelude::*;

verus! {

/// What kind of principal an identity names.
#[derive(Clone, Copy, Debug, PartialEq, Eq, Structural)]
pub enum IdentityKind {
    /// A key-holding account.
    Account,
    /// A deployed contract, such as a token.
    Contract,
}

/// A principal of the ledger: its kind and its 256-bit identifier, kept as
/// two 128-bit halves. Two identities are the same principal exactly when
/// all three fields agree.
#[derive(Clone, Copy, Debug, PartialEq, Eq, Structural)]
pub struct Identity {
    pub kind: IdentityKind,
    pub hi: u128,
    pub lo: u128,
}

impl Identity {
    /// The account with the given identifier.
    pub fn account(hi: u128, lo: u128) -> (id: Identity)
        ensures
            id == (Identity { kind: IdentityKind::Account, hi, lo }),
    {
        Identity { kind: IdentityKind::Account, hi, lo }
    }

    /// The contract with the given identifier.
    pub fn contract(hi: u128, lo: u128) -> (id: Identity)
        ensures
            id == (Identity { kind: IdentityKind::Contract, hi, lo }),
    {
        Identity { kind: IdentityKind::Contract, hi, lo }
    }
}

} // verus!
