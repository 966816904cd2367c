use flash_loan::account::AccountId;
use flash_loan::borrower::{Action, FlashBorrower};
use flash_loan::erc20::TokenLedger;
use flash_loan::ierc3156::{Error, IERC3156FlashBorrower};
use flash_loan::lender::{Error as LenderError, FlashLender};

const TOK: AccountId = AccountId(7);
const LENDER: AccountId = AccountId(1);
const SELF_ACCT: AccountId = AccountId(2);

#[test]
fn untrusted_lender_rejected() {
    let mut b = FlashBorrower::new(LENDER);
    // a valid payload does not help an untrusted caller
    let r = b.on_flash_loan(SELF_ACCT, AccountId(3), SELF_ACCT, TOK, 500, 5, vec![0]);
    assert_eq!(r, Err(Error::UntrustedLender));
    let r = b.on_flash_loan(SELF_ACCT, AccountId(3), SELF_ACCT, TOK, 500, 5, vec![99]);
    assert_eq!(r, Err(Error::UntrustedLender));
}

#[test]
fn untrusted_initiator_rejected() {
    let mut b = FlashBorrower::new(LENDER);
    let r = b.on_flash_loan(SELF_ACCT, LENDER, AccountId(5), TOK, 500, 5, vec![0]);
    assert_eq!(r, Err(Error::UntrustedLoanInitiator));
}

#[test]
fn undecodable_payload_rejected() {
    let mut b = FlashBorrower::new(LENDER);
    let r = b.on_flash_loan(SELF_ACCT, LENDER, SELF_ACCT, TOK, 500, 5, vec![]);
    assert_eq!(r, Err(Error::ScaleDecodingErr));
    let r = b.on_flash_loan(SELF_ACCT, LENDER, SELF_ACCT, TOK, 500, 5, vec![2]);
    assert_eq!(r, Err(Error::ScaleDecodingErr));
}

#[test]
fn action_codec_round_trip() {
    let b = FlashBorrower::new(LENDER);
    assert_eq!(b.encode_action(Action::Normal), vec![0]);
    assert_eq!(b.encode_action(Action::Other), vec![1]);
    assert_eq!(b.decode_action(vec![0]), Ok(Action::Normal));
    assert_eq!(b.decode_action(vec![1]), Ok(Action::Other));
    // trailing bytes are tolerated, as a SCALE decoder would
    assert_eq!(b.decode_action(vec![1, 99]), Ok(Action::Other));
    assert_eq!(b.decode_action(vec![2]), Err(Error::ScaleDecodingErr));
    assert_eq!(b.decode_action(vec![]), Err(Error::ScaleDecodingErr));
}

#[test]
fn flash_borrow_happy_path() {
    let lender = FlashLender::new(vec![TOK], 100);
    let mut ledger = TokenLedger::new();
    ledger.mint(TOK, LENDER, 1000);
    ledger.mint(TOK, SELF_ACCT, 100);
    let mut b = FlashBorrower::new(LENDER);
    let r = b.flash_borrow(&mut ledger, &lender, SELF_ACCT, TOK, 500);
    assert_eq!(r, Ok(()));
    assert_eq!(ledger.balance_of(TOK, LENDER), 1005);
    assert_eq!(ledger.balance_of(TOK, SELF_ACCT), 95);
    // the raised allowance was consumed exactly
    assert_eq!(ledger.allowance(TOK, SELF_ACCT, LENDER), 0);
}

#[test]
fn flash_borrow_surfaces_unsupported_currency() {
    let lender = FlashLender::new(vec![TOK], 100);
    let mut ledger = TokenLedger::new();
    ledger.mint(TOK, LENDER, 1000);
    let mut b = FlashBorrower::new(LENDER);
    let r = b.flash_borrow(&mut ledger, &lender, SELF_ACCT, AccountId(9), 500);
    assert_eq!(r, Err(Error::ERC3156LenderError(LenderError::UnsupportedCurrency)));
    assert_eq!(ledger.balance_of(TOK, LENDER), 1000);
}

#[test]
fn flash_borrow_without_fee_funds_rolls_back() {
    let lender = FlashLender::new(vec![TOK], 100);
    let mut ledger = TokenLedger::new();
    ledger.mint(TOK, LENDER, 1000);
    // the borrower holds nothing, so it cannot cover the 5-token fee
    let mut b = FlashBorrower::new(LENDER);
    let r = b.flash_borrow(&mut ledger, &lender, SELF_ACCT, TOK, 500);
    assert_eq!(r, Err(Error::ERC3156LenderError(LenderError::RepayFailed)));
    assert_eq!(ledger.balance_of(TOK, LENDER), 1000);
    assert_eq!(ledger.balance_of(TOK, SELF_ACCT), 0);
    assert_eq!(ledger.allowance(TOK, SELF_ACCT, LENDER), 0);
}

#[test]
fn flash_borrow_from_zero_address_surfaces_ledger_error() {
    let lender = FlashLender::new(vec![TOK], 100);
    let mut ledger = TokenLedger::new();
    ledger.mint(TOK, LENDER, 1000);
    let mut b = FlashBorrower::new(LENDER);
    let r = b.flash_borrow(&mut ledger, &lender, AccountId(0), TOK, 500);
    assert_eq!(
        r,
        Err(Error::ERC20Error(flash_loan::erc20::Error::InvalidApprover { approver: AccountId(0) }))
    );
    assert_eq!(ledger.balance_of(TOK, LENDER), 1000);
}

#[test]
fn flash_borrow_surfaces_overflowing_fee() {
    let lender = FlashLender::new(vec![TOK], 100);
    let mut ledger = TokenLedger::new();
    ledger.mint(TOK, LENDER, 1000);
    let mut b = FlashBorrower::new(LENDER);
    let r = b.flash_borrow(&mut ledger, &lender, SELF_ACCT, TOK, u128::MAX);
    assert_eq!(r, Err(Error::ERC3156LenderError(LenderError::ArithmeticOverflow)));
    assert_eq!(ledger.balance_of(TOK, LENDER), 1000);
}

#[test]
fn flash_borrow_records_action() {
    let lender = FlashLender::new(vec![TOK], 100);
    let mut ledger = TokenLedger::new();
    ledger.mint(TOK, LENDER, 1000);
    ledger.mint(TOK, SELF_ACCT, 100);
    let mut b = FlashBorrower::new(LENDER);
    let r = b.flash_borrow(&mut ledger, &lender, SELF_ACCT, TOK, 500);
    assert_eq!(r, Ok(()));
    // the callback ran and performed the encoded action
    assert_eq!(b.last_action_performed(), Action::Normal);
}
