use flash_loan::account::AccountId;
use flash_loan::lender::FlashLender;
use flash_loan::mint::Mint;

#[test]
fn mint_happy_path_testing() {
    // the default flash-mint rate of the drafts: 5 basis points (0.05%)
    let m = Mint::new(5);
    assert_eq!(m.fee, 5);
    assert_eq!(m._flash_fee(m.fee, 10000), 5);
    assert_eq!(m._flash_fee(m.fee, 500), 0);
}

#[test]
fn mint_errors_testing() {
    // edge rates and amounts that must not charge anything
    let m = Mint::new(0);
    assert_eq!(m._flash_fee(m.fee, u128::MAX), 0);
    let m = Mint::new(5);
    assert_eq!(m._flash_fee(m.fee, 0), 0);
}

#[test]
fn mint_fee_matches_lender_fee() {
    let m = Mint::new(100);
    let lender = FlashLender::new(vec![AccountId(7)], 100);
    assert_eq!(m._flash_fee(100, 12345), lender._flash_fee(100, 12345));
}
