use vstd::prelude::*;

use crate::account::AccountId;
use crate::erc20::{same_allowances, same_balances, transfer_ok, TokenLedger};
use crate::ierc3156::{success_marker, Error, IERC3156FlashBorrower};
use crate::lender::{fee_of, pushed_bal, settled_bal, FlashLender};

verus! {

/// What a borrower does with the funds while it holds them. A closed set:
/// the dispatch on it is the seam where real strategy logic would go.
#[derive(Clone, Copy, Debug, PartialEq, Eq, Structural)]
pub enum Action {
    /// The ordinary case: run the (here mocked) arbitrage strategy.
    Normal,
    /// Any other behaviour.
    Other,
}

/// The single-byte tag encoding of an action, in the style of a SCALE enum.
pub open spec fn encoded_action(action: Action) -> Seq<u8> {
    match action {
        Action::Normal => seq![0u8],
        Action::Other => seq![1u8],
    }
}

/// What an action payload decodes to: the leading tag byte picks the
/// variant; bytes after it are tolerated, as a SCALE decoder would.
pub open spec fn decoded_action(data: Seq<u8>) -> Option<Action> {
    if data.len() >= 1 && data[0] == 0 {
        Some(Action::Normal)
    } else if data.len() >= 1 && data[0] == 1 {
        Some(Action::Other)
    } else {
        None
    }
}

/// The arithmetic `flash_borrow` must validate before it asks for the loan:
/// the fee, the repayment `amount + fee`, and the allowance raised by the
/// repayment must all fit the amount type.
pub open spec fn flash_borrow_overflows(
    l: TokenLedger,
    b: FlashBorrower,
    rate: u128,
    this: AccountId,
    token: AccountId,
    amount: u128,
) -> bool {
    amount * rate > u128::MAX || amount + fee_of(rate, amount) > u128::MAX || l.alw(
        token,
        this,
        b.trusted_lender(),
    ) + amount + fee_of(rate, amount) > u128::MAX
}

/// The reference flash borrower: trusts exactly one lender, and records the
/// action it last performed.
pub struct FlashBorrower {
    /// The only lender whose callbacks are honoured.
    lender: AccountId,
    /// The action last performed by a callback.
    action: Action,
}

impl FlashBorrower {
    /// The only lender whose callbacks this borrower honours.
    pub closed spec fn trusted_lender(self) -> AccountId {
        self.lender
    }

    /// The action last performed by a callback.
    pub closed spec fn last_action(self) -> Action {
        self.action
    }

    /// The action last performed by a callback.
    pub fn last_action_performed(&self) -> (r: Action)
        ensures
            r == self.last_action(),
    {
        self.action
    }

    /// A borrower trusting `lender`, with nothing performed yet.
    pub fn new(lender: AccountId) -> (r: Self)
        ensures
            r.trusted_lender() == lender,
            r.last_action() == Action::Normal,
    {
        FlashBorrower { lender, action: Action::Normal }
    }

    /// Decodes the data into an action.
    pub fn decode_action(&self, data: Vec<u8>) -> (r: Result<Action, Error>)
        ensures
            match decoded_action(data@) {
                Some(a) => r == Ok::<Action, Error>(a),
                None => r == Err::<Action, Error>(Error::ScaleDecodingErr),
            },
    {
        if data.len() == 0 {
            return Err(Error::ScaleDecodingErr);
        }
        let tag = data[0];
        if tag == 0 {
            Ok(Action::Normal)
        } else if tag == 1 {
            Ok(Action::Other)
        } else {
            Err(Error::ScaleDecodingErr)
        }
    }

    /// Initiates a flash loan of `amount` of `token` from the trusted
    /// lender, with this borrower itself as the receiver: raises the
    /// lender's allowance by the repayment, then requests the loan. `this`
    /// is the borrower's own account, and `lender` must be the lender
    /// standing at the trusted address.
    ///
    /// Lender and ledger failures are surfaced wrapped, never swallowed, and
    /// leave every balance and allowance as it was — the raised allowance is
    /// taken back. On success the loan has settled: the borrower has paid
    /// exactly the fee, and the allowance stands where it started.
    pub fn flash_borrow(
        &mut self,
        ledger: &mut TokenLedger,
        lender: &FlashLender,
        this: AccountId,
        token: AccountId,
        amount: u128,
    ) -> (r: Result<(), Error>)
        requires
            old(ledger).wf(),
        ensures
            final(ledger).wf(),
            r == Err::<(), Error>(Error::ERC3156LenderError(crate::lender::Error::UnsupportedCurrency))
                <==> !lender.supported(token),
            r == Err::<(), Error>(Error::ERC3156LenderError(crate::lender::Error::ArithmeticOverflow))
                <==> lender.supported(token) && flash_borrow_overflows(
                *old(ledger),
                *old(self),
                lender.fee_rate(),
                this,
                token,
                amount,
            ),
            r == Err::<(), Error>(Error::ERC20Error(crate::erc20::invalid_approver(this))) <==> lender.supported(
                token,
            ) && !flash_borrow_overflows(*old(ledger), *old(self), lender.fee_rate(), this, token, amount)
                && this == AccountId(0),
            r == Err::<(), Error>(Error::ERC20Error(crate::erc20::invalid_spender(old(self).trusted_lender())))
                <==> lender.supported(token) && !flash_borrow_overflows(
                *old(ledger),
                *old(self),
                lender.fee_rate(),
                this,
                token,
                amount,
            ) && this != AccountId(0) && old(self).trusted_lender() == AccountId(0),
            r == Err::<(), Error>(Error::ERC3156LenderError(crate::lender::Error::TransferFailed)) <==> lender.supported(
                token,
            ) && !flash_borrow_overflows(*old(ledger), *old(self), lender.fee_rate(), this, token, amount)
                && this != AccountId(0) && old(self).trusted_lender() != AccountId(0) && !transfer_ok(
                *old(ledger),
                token,
                old(self).trusted_lender(),
                this,
                amount,
            ),
            r == Err::<(), Error>(Error::ERC3156LenderError(crate::lender::Error::RepayFailed)) ==> (
            pushed_bal(*old(ledger), old(self).trusted_lender(), this, token, amount, this) < amount
                + fee_of(lender.fee_rate(), amount) || (this != old(self).trusted_lender()
                && pushed_bal(
                *old(ledger),
                old(self).trusted_lender(),
                this,
                token,
                amount,
                old(self).trusted_lender(),
            ) + amount + fee_of(lender.fee_rate(), amount) > u128::MAX)),
            r is Err ==> same_balances(*final(ledger), *old(ledger)) && same_allowances(
                *final(ledger),
                *old(ledger),
            ),
            r is Ok ==> r == Ok::<(), Error>(()),
            r is Ok ==> forall|t: AccountId, o: AccountId| #[trigger] final(ledger).bal(t, o) as int
                == settled_bal(
                *old(ledger),
                old(self).trusted_lender(),
                this,
                token,
                lender.fee_rate(),
                amount,
                t,
                o,
            ),
            r is Ok ==> same_allowances(*final(ledger), *old(ledger)),
    {
        let trusted = self.lender;
        let current = ledger.allowance(token, this, trusted);
        let fee = match lender.flash_fee(token, amount) {
            Ok(f) => f,
            Err(e) => {
                return Err(Error::ERC3156LenderError(e));
            },
        };
        if amount > u128::MAX - fee {
            return Err(Error::ERC3156LenderError(crate::lender::Error::ArithmeticOverflow));
        }
        let repayment = amount + fee;
        if current > u128::MAX - repayment {
            return Err(Error::ERC3156LenderError(crate::lender::Error::ArithmeticOverflow));
        }
        match ledger.approve(token, this, trusted, current + repayment) {
            Ok(_) => {},
            Err(e) => {
                return Err(Error::ERC20Error(e));
            },
        }
        let ghost l0 = *old(ledger);
        let ghost l1 = *ledger;
        let data = self.encode_action(Action::Normal);
        let outcome = lender.flash_loan(ledger, self, trusted, this, this, token, amount, data);
        match outcome {
            Ok(_) => {
                proof {
                    assert forall|t: AccountId, o: AccountId, s: AccountId| #[trigger] ledger.alw(
                        t,
                        o,
                        s,
                    ) == l0.alw(t, o, s) by {
                        assert(l1.alw(t, o, s) as int == l0.alw(t, o, s) + (if t == token && o
                            == this && s == trusted {
                            repayment as int
                        } else {
                            0
                        }));
                    }
                    assert forall|t: AccountId, o: AccountId| #[trigger] ledger.bal(t, o) as int
                        == settled_bal(l0, trusted, this, token, lender.fee_rate(), amount, t, o) by {
                        assert(l1.bal(t, o) == l0.bal(t, o));
                    }
                }
                Ok(())
            },
            Err(e) => {
                let restored = ledger.approve(token, this, trusted, current);
                proof {
                    assert(restored is Ok);
                    assert forall|t: AccountId, o: AccountId, s: AccountId| #[trigger] ledger.alw(
                        t,
                        o,
                        s,
                    ) == l0.alw(t, o, s) by {
                        assert(l1.alw(t, o, s) as int == l0.alw(t, o, s) + (if t == token && o
                            == this && s == trusted {
                            repayment as int
                        } else {
                            0
                        }));
                    }
                    assert forall|t: AccountId, o: AccountId| #[trigger] ledger.bal(t, o) == l0.bal(
                        t,
                        o,
                    ) by {
                        assert(l1.bal(t, o) == l0.bal(t, o));
                    }
                }
                Err(Error::ERC3156LenderError(e))
            },
        }
    }

    /// Encodes an action into data.
    pub fn encode_action(&self, action: Action) -> (r: Vec<u8>)
        ensures
            r@ == encoded_action(action),
            decoded_action(r@) == Some(action),
    {
        let mut v: Vec<u8> = Vec::new();
        match action {
            Action::Normal => v.push(0u8),
            Action::Other => v.push(1u8),
        }
        proof {
            assert(v@ =~= encoded_action(action));
        }
        v
    }
}

impl IERC3156FlashBorrower for FlashBorrower {
    /// The flash-loan callback. Authenticates before anything else: the
    /// caller must be the trusted lender and the initiator this borrower
    /// itself; then the action payload is decoded, the action performed and
    /// recorded, and the fixed success marker returned.
    fn on_flash_loan(
        &mut self,
        this: AccountId,
        caller: AccountId,
        initiator: AccountId,
        token: AccountId,
        amount: u128,
        fee: u128,
        data: Vec<u8>,
    ) -> (r: Result<[u8; 32], Error>)
        ensures
            r == Err::<[u8; 32], Error>(Error::UntrustedLender) <==> caller != old(
                self,
            ).trusted_lender(),
            r == Err::<[u8; 32], Error>(Error::UntrustedLoanInitiator) <==> caller == old(
                self,
            ).trusted_lender() && initiator != this,
            r == Err::<[u8; 32], Error>(Error::ScaleDecodingErr) <==> caller == old(
                self,
            ).trusted_lender() && initiator == this && decoded_action(data@) is None,
            r is Ok <==> caller == old(self).trusted_lender() && initiator == this
                && decoded_action(data@) is Some,
            r is Ok ==> (r matches Ok(m) && m@ == success_marker()) && decoded_action(data@)
                == Some(final(self).last_action()),
            r is Err ==> *final(self) == *old(self),
            final(self).trusted_lender() == old(self).trusted_lender(),
    {
        if caller != self.lender {
            return Err(Error::UntrustedLender);
        }
        if initiator != this {
            return Err(Error::UntrustedLoanInitiator);
        }
        let decoded = match self.decode_action(data) {
            Ok(a) => a,
            Err(e) => {
                return Err(e);
            },
        };
        match decoded {
            Action::Normal => {
                // a real arbitrage strategy would run here
                self.action = Action::Normal;
            },
            Action::Other => {
                // any other behaviour would run here
                self.action = Action::Other;
            },
        }
        Ok(crate::ierc3156::callback_success())
    }
}

} // verus!
