//! An ERC-3156 style flash-loan protocol: a lender holds pooled balances of
//! registered fungible tokens and, within one call, lends an amount to a
//! receiver, invokes the mandatory borrower callback, and pulls back principal
//! plus fee. Every failure leaves every balance and allowance exactly as it
//! was; the compensating refund that guarantees this is part of the lender.

pub mod account;
pub mod borrower;
pub mod erc20;
pub mod ierc3156;
pub mod lender;
pub mod mint;
