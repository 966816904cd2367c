use vstd::prelude::*;

use crate::account::AccountId;
use crate::erc20::{same_allowances, same_balances, transfer_ok, TokenLedger};
use crate::ierc3156::{bytes32_eq, callback_success, IERC3156FlashBorrower};
use vstd::arithmetic::div_mod::{lemma_fundamental_div_mod, lemma_mod_division_less_than_divisor};
use vstd::arithmetic::mul::{lemma_mul_inequality, lemma_mul_is_commutative, lemma_mul_is_distributive_add_other_way};

verus! {

/// Errors of the flash lender, one per rejected step of the loan.
#[derive(Clone, Copy, Debug, PartialEq, Eq)]
pub enum Error {
    /// The requested token is not in the lender's registry.
    UnsupportedCurrency,
    /// Pushing the principal to the receiver failed.
    TransferFailed,
    /// The borrower's callback failed or returned the wrong marker.
    CallbackFailed,
    /// Pulling principal plus fee back from the receiver failed.
    RepayFailed,
    /// The fee or the repayment does not fit the amount type.
    ArithmeticOverflow,
}

/// The fee charged on a loan of `amount` at `rate` basis points: one unit of
/// rate is 0.01 percent, and the division rounds down.
pub open spec fn fee_of(rate: u128, amount: u128) -> int {
    (amount * rate) / 10000
}

/// The fee or the repayment `amount + fee` does not fit in the amount type.
pub open spec fn loan_overflows(rate: u128, amount: u128) -> bool {
    amount * rate > u128::MAX || amount + fee_of(rate, amount) > u128::MAX
}

/// The balance of `who` in `token` once the principal has been pushed from
/// the lender `this` to `receiver`, relative to the pre-loan ledger `l`.
pub open spec fn pushed_bal(
    l: TokenLedger,
    this: AccountId,
    receiver: AccountId,
    token: AccountId,
    amount: u128,
    who: AccountId,
) -> int {
    l.bal(token, who) - (if who == this {
        amount as int
    } else {
        0
    }) + (if who == receiver {
        amount as int
    } else {
        0
    })
}

/// Whether pulling `amount + fee` back from the receiver succeeds, judged on
/// the pre-loan ledger `l`: the receiver must have approved at least the
/// repayment to the lender, and must hold it once the principal has arrived.
pub open spec fn repay_ok(
    l: TokenLedger,
    this: AccountId,
    receiver: AccountId,
    token: AccountId,
    rate: u128,
    amount: u128,
) -> bool {
    l.alw(token, receiver, this) >= amount + fee_of(rate, amount)
        && pushed_bal(l, this, receiver, token, amount, receiver) >= amount + fee_of(rate, amount)
        && (receiver == this || pushed_bal(l, this, receiver, token, amount, this) + amount + fee_of(
        rate,
        amount,
    ) <= u128::MAX)
}

/// The balance of `o` in `t` once a loan of `amount` from `this` to
/// `receiver` has settled: the lender has gained exactly the fee, the
/// receiver has paid exactly the fee, and nothing else moved.
pub open spec fn settled_bal(
    l: TokenLedger,
    this: AccountId,
    receiver: AccountId,
    token: AccountId,
    rate: u128,
    amount: u128,
    t: AccountId,
    o: AccountId,
) -> int {
    l.bal(t, o) + (if t == token && o == this {
        fee_of(rate, amount)
    } else {
        0
    }) - (if t == token && o == receiver {
        fee_of(rate, amount)
    } else {
        0
    })
}

proof fn lemma_mul_overflow_check(rate: u128, amount: u128)
    requires
        rate != 0,
    ensures
        (amount > u128::MAX / rate) <==> (amount * rate > u128::MAX),
{
    let q = u128::MAX as int / rate as int;
    let m = u128::MAX as int % rate as int;
    lemma_fundamental_div_mod(u128::MAX as int, rate as int);
    lemma_mod_division_less_than_divisor(u128::MAX as int, rate as int);
    assert(u128::MAX as int == rate as int * q + m);
    assert(0 <= m < rate as int);
    if amount <= q {
        lemma_mul_inequality(amount as int, q, rate as int);
        lemma_mul_is_commutative(q, rate as int);
        assert(amount as int * rate as int <= u128::MAX as int - m);
    } else {
        lemma_mul_inequality(q + 1, amount as int, rate as int);
        lemma_mul_is_distributive_add_other_way(rate as int, q, 1);
        lemma_mul_is_commutative(q, rate as int);
        assert((q + 1) * rate as int == q * rate as int + rate as int);
        assert(amount as int * rate as int >= u128::MAX as int - m + rate as int);
    }
}

/// The flash lender: a registry of supported tokens and a flat basis-point
/// fee rate, both fixed at construction, and the three-step loan around them.
pub struct FlashLender {
    supported_tokens: Vec<AccountId>,
    fee: u128,  // 1 = 0.01%
}

impl FlashLender {
    /// Whether `token` was registered at construction.
    pub closed spec fn supported(self, token: AccountId) -> bool {
        self.supported_tokens@.contains(token)
    }

    /// The fee rate in basis points (1 = 0.01%).
    pub closed spec fn fee_rate(self) -> u128 {
        self.fee
    }

    /// A lender supporting exactly the listed tokens, at `fee` basis points.
    /// The registry is immutable from here on.
    pub fn new(_supported_tokens: Vec<AccountId>, fee: u128) -> (r: Self)
        ensures
            r.fee_rate() == fee,
            forall|t: AccountId| #[trigger] r.supported(t) <==> _supported_tokens@.contains(t),
    {
        FlashLender { supported_tokens: _supported_tokens, fee }
    }

    /// Whether `token` was registered at construction.
    pub fn is_supported(&self, token: AccountId) -> (r: bool)
        ensures
            r == self.supported(token),
    {
        let n = self.supported_tokens.len();
        let mut i: usize = 0;
        while i < n
            invariant
                i <= n,
                n == self.supported_tokens@.len(),
                forall|k: int| 0 <= k < i ==> self.supported_tokens@[k] != token,
            decreases n - i,
        {
            if self.supported_tokens[i] == token {
                proof {
                    assert(self.supported_tokens@.contains(token));
                }
                return true;
            }
            i = i + 1;
        }
        proof {
            assert(!self.supported_tokens@.contains(token));
        }
        false
    }

    /// The raw fee formula, with no support or overflow check.
    pub fn _flash_fee(&self, fee: u128, amount: u128) -> (r: u128)
        requires
            amount * fee <= u128::MAX,
        ensures
            r as int == fee_of(fee, amount),
    {
        amount * fee / 10000
    }

    /// The fee charged for a loan of `amount` of `token`: exactly
    /// `amount * rate / 10000`, rounded down. Fails with
    /// `UnsupportedCurrency` on an unregistered token and with
    /// `ArithmeticOverflow` when the product does not fit.
    pub fn flash_fee(&self, token: AccountId, amount: u128) -> (r: Result<u128, Error>)
        ensures
            !self.supported(token) ==> r == Err::<u128, Error>(Error::UnsupportedCurrency),
            self.supported(token) && amount * self.fee_rate() > u128::MAX ==> r == Err::<u128, Error>(
                Error::ArithmeticOverflow,
            ),
            self.supported(token) && amount * self.fee_rate() <= u128::MAX ==> r == Ok::<u128, Error>(
                fee_of(self.fee_rate(), amount) as u128,
            ),
    {
        if !self.is_supported(token) {
            return Err(Error::UnsupportedCurrency);
        }
        if self.fee != 0 && amount > u128::MAX / self.fee {
            proof {
                lemma_mul_overflow_check(self.fee, amount);
            }
            return Err(Error::ArithmeticOverflow);
        }
        proof {
            if self.fee != 0 {
                lemma_mul_overflow_check(self.fee, amount);
            }
        }
        Ok(self._flash_fee(self.fee, amount))
    }

    /// The amount of `token` available to be lent: the lender's own balance
    /// for a registered token, zero for anything else.
    pub fn max_flash_loan(&self, ledger: &TokenLedger, this: AccountId, token: AccountId) -> (r: u128)
        requires
            ledger.wf(),
        ensures
            r == if self.supported(token) {
                ledger.bal(token, this)
            } else {
                0u128
            },
    {
        if self.is_supported(token) {
            ledger.balance_of(token, this)
        } else {
            0
        }
    }

    /// Lends `amount` of `token` to `receiver`, invokes the borrower's
    /// callback, and pulls `amount + fee` back — in that order, each step a
    /// hard gate. `this` is the lender's own account and `caller` the account
    /// that initiated the call; both would come from the chain environment.
    ///
    /// On success exactly the fee has moved from the receiver to the lender
    /// and the repayment allowance is consumed. On any failure every balance
    /// and every allowance is as it was: the order push–callback–pull is what
    /// makes the loan "flash", and a compensating refund of the principal
    /// stands in for the all-or-nothing call semantics of a hosting chain.
    pub fn flash_loan<B: IERC3156FlashBorrower>(
        &self,
        ledger: &mut TokenLedger,
        borrower: &mut B,
        this: AccountId,
        caller: AccountId,
        receiver: AccountId,
        token: AccountId,
        amount: u128,
        data: Vec<u8>,
    ) -> (r: Result<bool, Error>)
        requires
            old(ledger).wf(),
        ensures
            final(ledger).wf(),
            r == Err::<bool, Error>(Error::UnsupportedCurrency) <==> !self.supported(token),
            r == Err::<bool, Error>(Error::ArithmeticOverflow) <==> self.supported(token)
                && loan_overflows(self.fee_rate(), amount),
            r == Err::<bool, Error>(Error::TransferFailed) <==> self.supported(token)
                && !loan_overflows(self.fee_rate(), amount) && !transfer_ok(
                *old(ledger),
                token,
                this,
                receiver,
                amount,
            ),
            r == Err::<bool, Error>(Error::CallbackFailed) ==> self.supported(token)
                && !loan_overflows(self.fee_rate(), amount) && transfer_ok(
                *old(ledger),
                token,
                this,
                receiver,
                amount,
            ),
            r == Err::<bool, Error>(Error::RepayFailed) ==> self.supported(token)
                && !loan_overflows(self.fee_rate(), amount) && transfer_ok(
                *old(ledger),
                token,
                this,
                receiver,
                amount,
            ) && !repay_ok(*old(ledger), this, receiver, token, self.fee_rate(), amount),
            // repayment is owed whenever everything the lender controls holds;
            // only the borrower's own verdict can then still refuse the loan
            self.supported(token) && !loan_overflows(self.fee_rate(), amount) && transfer_ok(
                *old(ledger),
                token,
                this,
                receiver,
                amount,
            ) && repay_ok(*old(ledger), this, receiver, token, self.fee_rate(), amount) ==> r
                == Ok::<bool, Error>(true) || r == Err::<bool, Error>(Error::CallbackFailed),
            r is Ok ==> r == Ok::<bool, Error>(true) && self.supported(token) && !loan_overflows(
                self.fee_rate(),
                amount,
            ) && transfer_ok(*old(ledger), token, this, receiver, amount) && repay_ok(
                *old(ledger),
                this,
                receiver,
                token,
                self.fee_rate(),
                amount,
            ),
            r is Err ==> same_balances(*final(ledger), *old(ledger)) && same_allowances(
                *final(ledger),
                *old(ledger),
            ),
            r is Ok ==> forall|t: AccountId, o: AccountId| #[trigger] final(ledger).bal(t, o) as int
                == settled_bal(*old(ledger), this, receiver, token, self.fee_rate(), amount, t, o),
            r is Ok ==> forall|t: AccountId, o: AccountId, s: AccountId|
                #[trigger] final(ledger).alw(t, o, s) as int == old(ledger).alw(t, o, s) - (if t
                == token && o == receiver && s == this {
                amount + fee_of(self.fee_rate(), amount)
            } else {
                0
            }),
            !self.supported(token) || loan_overflows(self.fee_rate(), amount) || !transfer_ok(
                *old(ledger),
                token,
                this,
                receiver,
                amount,
            ) ==> *final(borrower) == *old(borrower),
    {
        if !self.is_supported(token) {
            return Err(Error::UnsupportedCurrency);
        }
        // every piece of arithmetic is validated before anything moves
        if self.fee != 0 && amount > u128::MAX / self.fee {
            proof {
                lemma_mul_overflow_check(self.fee, amount);
            }
            return Err(Error::ArithmeticOverflow);
        }
        proof {
            if self.fee != 0 {
                lemma_mul_overflow_check(self.fee, amount);
            }
        }
        let fee = self._flash_fee(self.fee, amount);
        if amount > u128::MAX - fee {
            return Err(Error::ArithmeticOverflow);
        }
        let repayment = amount + fee;
        match ledger.transfer(token, this, receiver, amount) {
            Err(_) => {
                return Err(Error::TransferFailed);
            },
            Ok(_) => {},
        }
        let ghost l0 = *old(ledger);
        let ghost l1 = *ledger;
        // the callback's own account is the receiver; its caller is this
        // lender; the initiator is whoever called the lender
        let outcome = borrower.on_flash_loan(receiver, this, caller, token, amount, fee, data);
        let accepted = match &outcome {
            Ok(m) => {
                let magic = callback_success();
                bytes32_eq(m, &magic)
            },
            Err(_) => false,
        };
        if !accepted {
            let refund = ledger.transfer(token, receiver, this, amount);
            proof {
                assert(refund is Ok);
                assert forall|t: AccountId, o: AccountId| #[trigger] ledger.bal(t, o) == l0.bal(
                    t,
                    o,
                ) by {
                    assert(l1.bal(t, o) as int == l0.bal(t, o) - (if t == token && o == this {
                        amount as int
                    } else {
                        0
                    }) + (if t == token && o == receiver {
                        amount as int
                    } else {
                        0
                    }));
                }
                assert(same_allowances(*ledger, l0));
            }
            return Err(Error::CallbackFailed);
        }
        match ledger.transfer_from(token, this, receiver, this, repayment) {
            Err(_) => {
                let refund = ledger.transfer(token, receiver, this, amount);
                proof {
                    assert(refund is Ok);
                    assert forall|t: AccountId, o: AccountId| #[trigger] ledger.bal(t, o) == l0.bal(
                        t,
                        o,
                    ) by {
                        assert(l1.bal(t, o) as int == l0.bal(t, o) - (if t == token && o == this {
                            amount as int
                        } else {
                            0
                        }) + (if t == token && o == receiver {
                            amount as int
                        } else {
                            0
                        }));
                    }
                    assert(same_allowances(*ledger, l0));
                }
                return Err(Error::RepayFailed);
            },
            Ok(_) => {},
        }
        proof {
            assert forall|t: AccountId, o: AccountId| #[trigger] ledger.bal(t, o) as int
                == settled_bal(l0, this, receiver, token, self.fee_rate(), amount, t, o) by {
                assert(l1.bal(t, o) as int == l0.bal(t, o) - (if t == token && o == this {
                    amount as int
                } else {
                    0
                }) + (if t == token && o == receiver {
                    amount as int
                } else {
                    0
                }));
            }
            assert forall|t: AccountId, o: AccountId, s: AccountId| #[trigger] ledger.alw(t, o, s)
                as int == l0.alw(t, o, s) - (if t == token && o == receiver && s == this {
                amount + fee_of(self.fee_rate(), amount)
            } else {
                0
            }) by {
                assert(l1.alw(t, o, s) == l0.alw(t, o, s));
            }
        }
        Ok(true)
    }
}

/// Two successful loans that start from ledgers with the same balances, with
/// the same parties, token, rate and amount, settle to the same balances —
/// and the settlement moves exactly the fee: the lender's balance of the
/// loaned token grows by it, the receiver's shrinks by it, and every other
/// balance is untouched.
pub proof fn lemma_loan_settlement(
    l1: TokenLedger,
    l2: TokenLedger,
    this: AccountId,
    receiver: AccountId,
    token: AccountId,
    rate: u128,
    amount: u128,
)
    requires
        same_balances(l1, l2),
    ensures
        forall|t: AccountId, o: AccountId| #[trigger] settled_bal(
            l1,
            this,
            receiver,
            token,
            rate,
            amount,
            t,
            o,
        ) == settled_bal(l2, this, receiver, token, rate, amount, t, o),
        this != receiver ==> settled_bal(l1, this, receiver, token, rate, amount, token, this)
            == l1.bal(token, this) + fee_of(rate, amount),
        this != receiver ==> settled_bal(l1, this, receiver, token, rate, amount, token, receiver)
            == l1.bal(token, receiver) - fee_of(rate, amount),
        forall|t: AccountId, o: AccountId|
            t != token || (o != this && o != receiver) || this == receiver ==> #[trigger] settled_bal(
                l1,
                this,
                receiver,
                token,
                rate,
                amount,
                t,
                o,
            ) == l1.bal(t, o),
{
    assert forall|t: AccountId, o: AccountId| #[trigger] settled_bal(
        l1,
        this,
        receiver,
        token,
        rate,
        amount,
        t,
        o,
    ) == settled_bal(l2, this, receiver, token, rate, amount, t, o) by {
        assert(l1.bal(t, o) == l2.bal(t, o));
    }
}

} // verus!
