use vstd::prelude::*;

verus! {

/// An account identifier: the address of a user, of a contract, or of a token
/// contract on the hosting chain, modelled as a plain 128-bit value.
///
/// `AccountId(0)` plays the role of the reserved zero address: the token
/// ledger refuses it as a sender, receiver, approver or spender.
#[derive(Clone, Copy, Debug, PartialEq, Eq, Structural)]
pub struct AccountId(pub u128);

} // verus!
