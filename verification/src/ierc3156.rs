use vstd::prelude::*;

use crate::account::AccountId;

verus! {

/// Errors a flash borrower reports from its callback, or surfaces to its own
/// caller when it initiates a loan. Lender and ledger errors are passed
/// through wrapped, never swallowed.
#[derive(Clone, Copy, Debug, PartialEq, Eq)]
pub enum Error {
    /// The callback was invoked by someone other than the trusted lender.
    UntrustedLender,
    /// The loan was initiated by someone other than the borrower itself.
    UntrustedLoanInitiator,
    /// The action payload handed to the callback does not decode.
    ScaleDecodingErr,
    /// An error the lender reported, passed through unchanged.
    ERC3156LenderError(crate::lender::Error),
    /// An error the token ledger reported, passed through unchanged.
    ERC20Error(crate::erc20::Error),
}

/// The Keccak-256 digest of `input`. Named, not spelled out: nothing but the
/// hash function itself states what the digest is; the contracts only rely on
/// it being a function of the input bytes alone.
pub uninterp spec fn keccak256_of(input: Seq<u8>) -> Seq<u8>;

/// The byte string `"ERC3156FlashBorrower.onFlashLoan"`, whose Keccak-256
/// digest is the marker a conforming callback returns to signal success.
pub open spec fn marker_preimage() -> Seq<u8> {
    seq![
        0x45u8, 0x52, 0x43, 0x33, 0x31, 0x35, 0x36, 0x46, 0x6c, 0x61, 0x73, 0x68, 0x42, 0x6f,
        0x72, 0x72, 0x6f, 0x77, 0x65, 0x72, 0x2e, 0x6f, 0x6e, 0x46, 0x6c, 0x61, 0x73, 0x68,
        0x4c, 0x6f, 0x61, 0x6e,
    ]
}

/// The fixed 32-byte marker a conforming callback returns to signal success.
pub open spec fn success_marker() -> Seq<u8> {
    keccak256_of(marker_preimage())
}

/// Relies on `sha3::Keccak256` (through `sha3::Digest::digest`): the
/// Keccak-256 digest of the fixed tag `"ERC3156FlashBorrower.onFlashLoan"`,
/// a 32-byte value that depends on nothing but those input bytes.
#[verifier::external_body]
pub(crate) fn callback_success() -> (r: [u8; 32])
    ensures
        r@ == keccak256_of(marker_preimage()),
{
    let digest = <sha3::Keccak256 as sha3::Digest>::digest(b"ERC3156FlashBorrower.onFlashLoan");
    let mut out = [0u8; 32];
    out.copy_from_slice(digest.as_slice());
    out
}

/// Byte-for-byte comparison of two 32-byte markers.
pub(crate) fn bytes32_eq(a: &[u8; 32], b: &[u8; 32]) -> (r: bool)
    ensures
        r == (a@ == b@),
{
    let mut i: usize = 0;
    while i < 32
        invariant
            i <= 32,
            forall|k: int| 0 <= k < i ==> a@[k] == b@[k],
        decreases 32 - i,
    {
        if a[i] != b[i] {
            proof {
                assert(a@[i as int] != b@[i as int]);
            }
            return false;
        }
        i = i + 1;
    }
    proof {
        assert(a@ =~= b@);
    }
    true
}

/// The flash-loan callback a receiver exposes to the lender.
///
/// The lender pushes the principal first and only then invokes this; the
/// callback must return the fixed success marker, or an error, and the lender
/// treats anything else as a refusal. `this` is the callee's own account and
/// `caller` the account invoking it — values the hosting chain's environment
/// would supply, handed in here as plain arguments.
pub trait IERC3156FlashBorrower {
    fn on_flash_loan(
        &mut self,
        this: AccountId,
        caller: AccountId,
        initiator: AccountId,
        token: AccountId,
        amount: u128,
        fee: u128,
        data: Vec<u8>,
    ) -> Result<[u8; 32], Error>;
}

} // verus!
