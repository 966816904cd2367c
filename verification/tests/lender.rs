use flash_loan::account::AccountId;
use flash_loan::borrower::{Action, FlashBorrower};
use flash_loan::erc20::TokenLedger;
use flash_loan::ierc3156::{Error as BorrowerError, IERC3156FlashBorrower};
use flash_loan::lender::{Error, FlashLender};

const TOK: AccountId = AccountId(7);
const LENDER: AccountId = AccountId(1);
const BORROWER: AccountId = AccountId(2);

/// A lender supporting TOK at 1% (100 basis points), holding 1000 TOK, and a
/// borrower holding 100 TOK.
fn world() -> (FlashLender, TokenLedger, FlashBorrower) {
    let lender = FlashLender::new(vec![TOK], 100);
    let mut ledger = TokenLedger::new();
    ledger.mint(TOK, LENDER, 1000);
    ledger.mint(TOK, BORROWER, 100);
    let borrower = FlashBorrower::new(LENDER);
    (lender, ledger, borrower)
}

/// A borrower that accepts every callback but answers with the wrong marker.
struct WrongMarkerBorrower;

impl IERC3156FlashBorrower for WrongMarkerBorrower {
    fn on_flash_loan(
        &mut self,
        _this: AccountId,
        _caller: AccountId,
        _initiator: AccountId,
        _token: AccountId,
        _amount: u128,
        _fee: u128,
        _data: Vec<u8>,
    ) -> Result<[u8; 32], BorrowerError> {
        Ok([0u8; 32])
    }
}

#[test]
fn flash_fee_charges_basis_points() {
    let (lender, _, _) = world();
    assert_eq!(lender.flash_fee(TOK, 500), Ok(5));
    assert_eq!(lender.flash_fee(TOK, 10000), Ok(100));
    // integer floor: 99 * 100 / 10000 == 0
    assert_eq!(lender.flash_fee(TOK, 99), Ok(0));
    assert_eq!(lender.flash_fee(TOK, 0), Ok(0));
}

#[test]
fn flash_fee_rejects_unregistered_token() {
    let (lender, _, _) = world();
    assert_eq!(lender.flash_fee(AccountId(9), 500), Err(Error::UnsupportedCurrency));
}

#[test]
fn flash_fee_rejects_overflowing_product() {
    let (lender, _, _) = world();
    assert_eq!(lender.flash_fee(TOK, u128::MAX), Err(Error::ArithmeticOverflow));
    // a zero rate never overflows
    let free = FlashLender::new(vec![TOK], 0);
    assert_eq!(free.flash_fee(TOK, u128::MAX), Ok(0));
}

#[test]
fn happy_path_flash_loan() {
    let (lender, mut ledger, mut borrower) = world();
    let ok = ledger.approve(TOK, BORROWER, LENDER, 505);
    assert_eq!(ok, Ok(true));
    let data = borrower.encode_action(Action::Normal);
    let r = lender.flash_loan(&mut ledger, &mut borrower, LENDER, BORROWER, BORROWER, TOK, 500, data);
    assert_eq!(r, Ok(true));
    assert_eq!(ledger.balance_of(TOK, LENDER), 1005);
    assert_eq!(ledger.balance_of(TOK, BORROWER), 95);
    assert_eq!(ledger.allowance(TOK, BORROWER, LENDER), 0);
}

#[test]
fn unsupported_token_fails_without_transfers() {
    let (lender, mut ledger, mut borrower) = world();
    let data = borrower.encode_action(Action::Normal);
    let r = lender.flash_loan(&mut ledger, &mut borrower, LENDER, BORROWER, BORROWER, AccountId(9), 500, data);
    assert_eq!(r, Err(Error::UnsupportedCurrency));
    assert_eq!(ledger.balance_of(AccountId(9), LENDER), 0);
    assert_eq!(ledger.balance_of(TOK, LENDER), 1000);
    assert_eq!(ledger.balance_of(TOK, BORROWER), 100);
}

#[test]
fn wrong_marker_fails_callback_and_rolls_back() {
    let (lender, mut ledger, _) = world();
    let ok = ledger.approve(TOK, BORROWER, LENDER, 505);
    assert_eq!(ok, Ok(true));
    let mut wrong = WrongMarkerBorrower;
    let r = lender.flash_loan(&mut ledger, &mut wrong, LENDER, BORROWER, BORROWER, TOK, 500, vec![0]);
    assert_eq!(r, Err(Error::CallbackFailed));
    assert_eq!(ledger.balance_of(TOK, LENDER), 1000);
    assert_eq!(ledger.balance_of(TOK, BORROWER), 100);
    assert_eq!(ledger.allowance(TOK, BORROWER, LENDER), 505);
}

#[test]
fn failing_callback_rolls_back() {
    let (lender, mut ledger, mut borrower) = world();
    let ok = ledger.approve(TOK, BORROWER, LENDER, 505);
    assert_eq!(ok, Ok(true));
    // an action payload the borrower cannot decode makes its callback fail
    let r = lender.flash_loan(&mut ledger, &mut borrower, LENDER, BORROWER, BORROWER, TOK, 500, vec![9]);
    assert_eq!(r, Err(Error::CallbackFailed));
    assert_eq!(ledger.balance_of(TOK, LENDER), 1000);
    assert_eq!(ledger.balance_of(TOK, BORROWER), 100);
}

#[test]
fn insufficient_approval_fails_repay_and_rolls_back() {
    let (lender, mut ledger, mut borrower) = world();
    let ok = ledger.approve(TOK, BORROWER, LENDER, 504);
    assert_eq!(ok, Ok(true));
    let data = borrower.encode_action(Action::Normal);
    let r = lender.flash_loan(&mut ledger, &mut borrower, LENDER, BORROWER, BORROWER, TOK, 500, data);
    assert_eq!(r, Err(Error::RepayFailed));
    assert_eq!(ledger.balance_of(TOK, LENDER), 1000);
    assert_eq!(ledger.balance_of(TOK, BORROWER), 100);
    assert_eq!(ledger.allowance(TOK, BORROWER, LENDER), 504);
}

#[test]
fn empty_pool_fails_transfer() {
    let lender = FlashLender::new(vec![TOK], 100);
    let mut ledger = TokenLedger::new();
    ledger.mint(TOK, BORROWER, 100);
    let mut borrower = FlashBorrower::new(LENDER);
    let r = lender.flash_loan(&mut ledger, &mut borrower, LENDER, BORROWER, BORROWER, TOK, 500, vec![0]);
    assert_eq!(r, Err(Error::TransferFailed));
    assert_eq!(ledger.balance_of(TOK, LENDER), 0);
    assert_eq!(ledger.balance_of(TOK, BORROWER), 100);
}

#[test]
fn max_flash_loan_reports_pool_or_zero() {
    let (lender, ledger, _) = world();
    assert_eq!(lender.max_flash_loan(&ledger, LENDER, TOK), 1000);
    assert_eq!(lender.max_flash_loan(&ledger, LENDER, AccountId(9)), 0);
}

#[test]
fn repeated_happy_path_is_identical() {
    let mut fees = Vec::new();
    let mut finals = Vec::new();
    for _ in 0..2 {
        let (lender, mut ledger, mut borrower) = world();
        ledger.approve(TOK, BORROWER, LENDER, 505).unwrap();
        fees.push(lender.flash_fee(TOK, 500));
        let data = borrower.encode_action(Action::Normal);
        let r = lender.flash_loan(&mut ledger, &mut borrower, LENDER, BORROWER, BORROWER, TOK, 500, data);
        assert_eq!(r, Ok(true));
        finals.push((ledger.balance_of(TOK, LENDER), ledger.balance_of(TOK, BORROWER)));
    }
    assert_eq!(fees[0], fees[1]);
    assert_eq!(finals[0], finals[1]);
    assert_eq!(finals[0], (1005, 95));
}

#[test]
fn callback_returns_keccak_of_fixed_tag() {
    let mut borrower = FlashBorrower::new(LENDER);
    let r = borrower.on_flash_loan(BORROWER, LENDER, BORROWER, TOK, 500, 5, vec![0]);
    let digest = <sha3::Keccak256 as sha3::Digest>::digest(b"ERC3156FlashBorrower.onFlashLoan");
    let mut expected = [0u8; 32];
    expected.copy_from_slice(digest.as_slice());
    assert_eq!(r, Ok(expected));
}
