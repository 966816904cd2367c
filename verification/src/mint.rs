use vstd::prelude::*;

use crate::lender::fee_of;

verus! {

/// The fee configuration of a flash-mint lender: a lender that would issue
/// the borrowed tokens itself instead of drawing on a pooled balance. Only
/// the fee side is modelled; the charge formula is the same flat
/// basis-point rate the pooled lender uses.
pub struct Mint {
    /// The fee rate in basis points (1 = 0.01%).
    pub fee: u128,
}

impl Mint {
    /// A flash-mint fee configuration charging `_fee` basis points.
    pub fn new(_fee: u128) -> (r: Self)
        ensures
            r.fee == _fee,
    {
        Mint { fee: _fee }
    }

    /// The raw fee formula, with no overflow check.
    pub fn _flash_fee(&self, fee: u128, amount: u128) -> (r: u128)
        requires
            amount * fee <= u128::MAX,
        ensures
            r as int == fee_of(fee, amount),
    {
        amount * fee / 10000
    }
}

} // verus!
