use vstd::prelude::*;

use crate::account::AccountId;

verus! {

/// Errors of the fungible-token ledger, in the style of the ERC-20 error
/// taxonomy. The flash lender maps these to its own error kinds; the borrower
/// surfaces them wrapped, never swallowed.
#[derive(Clone, Copy, Debug, PartialEq, Eq)]
pub enum Error {
    /// The sender's balance of the token is below the amount moved.
    InsufficientBalance { sender: AccountId, balance: u128, needed: u128 },
    /// The sender is the reserved zero address.
    InvalidSender { sender: AccountId },
    /// The receiver is the reserved zero address, or crediting it would
    /// overflow its balance.
    InvalidReceiver { receiver: AccountId },
    /// The spender's allowance from the owner is below the amount moved.
    InsufficientAllowance { spender: AccountId, allowance: u128, needed: u128 },
    /// The approving owner is the reserved zero address.
    InvalidApprover { approver: AccountId },
    /// The approved spender is the reserved zero address.
    InvalidSpender { spender: AccountId },
}

pub open spec fn insufficient_balance(sender: AccountId, balance: u128, needed: u128) -> Error {
    Error::InsufficientBalance { sender, balance, needed }
}

pub open spec fn invalid_sender(sender: AccountId) -> Error {
    Error::InvalidSender { sender }
}

pub open spec fn invalid_receiver(receiver: AccountId) -> Error {
    Error::InvalidReceiver { receiver }
}

pub open spec fn insufficient_allowance(spender: AccountId, allowance: u128, needed: u128) -> Error {
    Error::InsufficientAllowance { spender, allowance, needed }
}

pub open spec fn invalid_approver(approver: AccountId) -> Error {
    Error::InvalidApprover { approver }
}

pub open spec fn invalid_spender(spender: AccountId) -> Error {
    Error::InvalidSpender { spender }
}

struct BalanceEntry {
    token: AccountId,
    owner: AccountId,
    amount: u128,
}

struct AllowanceEntry {
    token: AccountId,
    owner: AccountId,
    spender: AccountId,
    amount: u128,
}

spec fn same_bal_key(a: BalanceEntry, b: BalanceEntry) -> bool {
    a.token == b.token && a.owner == b.owner
}

spec fn bal_key_is(e: BalanceEntry, token: AccountId, owner: AccountId) -> bool {
    e.token == token && e.owner == owner
}

spec fn bal_distinct(s: Seq<BalanceEntry>) -> bool {
    forall|i: int, j: int| 0 <= i < j < s.len() ==> !(#[trigger] same_bal_key(s[i], s[j]))
}

spec fn bal_in(s: Seq<BalanceEntry>, token: AccountId, owner: AccountId) -> u128
    decreases s.len(),
{
    if s.len() == 0 {
        0u128
    } else if bal_key_is(s[0], token, owner) {
        s[0].amount
    } else {
        bal_in(s.drop_first(), token, owner)
    }
}

spec fn same_alw_key(a: AllowanceEntry, b: AllowanceEntry) -> bool {
    a.token == b.token && a.owner == b.owner && a.spender == b.spender
}

spec fn alw_key_is(e: AllowanceEntry, token: AccountId, owner: AccountId, spender: AccountId) -> bool {
    e.token == token && e.owner == owner && e.spender == spender
}

spec fn alw_distinct(s: Seq<AllowanceEntry>) -> bool {
    forall|i: int, j: int| 0 <= i < j < s.len() ==> !(#[trigger] same_alw_key(s[i], s[j]))
}

spec fn alw_in(s: Seq<AllowanceEntry>, token: AccountId, owner: AccountId, spender: AccountId) -> u128
    decreases s.len(),
{
    if s.len() == 0 {
        0u128
    } else if alw_key_is(s[0], token, owner, spender) {
        s[0].amount
    } else {
        alw_in(s.drop_first(), token, owner, spender)
    }
}

proof fn lemma_bal_distinct_drop(s: Seq<BalanceEntry>)
    requires
        bal_distinct(s),
        s.len() > 0,
    ensures
        bal_distinct(s.drop_first()),
{
    assert forall|i: int, j: int| 0 <= i < j < s.drop_first().len() implies !same_bal_key(
        s.drop_first()[i],
        s.drop_first()[j],
    ) by {
        assert(s.drop_first()[i] == s[i + 1]);
        assert(s.drop_first()[j] == s[j + 1]);
        assert(!same_bal_key(s[i + 1], s[j + 1]));
    }
}

proof fn lemma_bal_found(s: Seq<BalanceEntry>, token: AccountId, owner: AccountId, i: int)
    requires
        bal_distinct(s),
        0 <= i < s.len(),
        bal_key_is(s[i], token, owner),
    ensures
        bal_in(s, token, owner) == s[i].amount,
    decreases s.len(),
{
    if i == 0 {
    } else {
        assert(!same_bal_key(s[0], s[i]));
        lemma_bal_distinct_drop(s);
        lemma_bal_found(s.drop_first(), token, owner, i - 1);
        assert(s.drop_first()[i - 1] == s[i]);
    }
}

proof fn lemma_bal_absent(s: Seq<BalanceEntry>, token: AccountId, owner: AccountId)
    requires
        forall|k: int| 0 <= k < s.len() ==> !bal_key_is(#[trigger] s[k], token, owner),
    ensures
        bal_in(s, token, owner) == 0,
    decreases s.len(),
{
    if s.len() > 0 {
        assert forall|k: int| 0 <= k < s.drop_first().len() implies !bal_key_is(
            #[trigger] s.drop_first()[k],
            token,
            owner,
        ) by {
            assert(s.drop_first()[k] == s[k + 1]);
        }
        lemma_bal_absent(s.drop_first(), token, owner);
    }
}

proof fn lemma_bal_update(s: Seq<BalanceEntry>, i: int, e: BalanceEntry, token: AccountId, owner: AccountId)
    requires
        bal_distinct(s),
        0 <= i < s.len(),
        same_bal_key(s[i], e),
    ensures
        bal_in(s.update(i, e), token, owner) == if bal_key_is(e, token, owner) {
            e.amount
        } else {
            bal_in(s, token, owner)
        },
    decreases s.len(),
{
    let su = s.update(i, e);
    assert(su.len() == s.len());
    if i == 0 {
        assert(su[0] == e);
        if !bal_key_is(e, token, owner) {
            assert(su.drop_first() =~= s.drop_first());
        }
    } else {
        assert(su[0] == s[0]);
        assert(!same_bal_key(s[0], s[i]));
        if bal_key_is(s[0], token, owner) {
            assert(!bal_key_is(e, token, owner));
        } else {
            lemma_bal_distinct_drop(s);
            assert(su.drop_first() =~= s.drop_first().update(i - 1, e));
            assert(s.drop_first()[i - 1] == s[i]);
            lemma_bal_update(s.drop_first(), i - 1, e, token, owner);
        }
    }
}

proof fn lemma_bal_distinct_update(s: Seq<BalanceEntry>, i: int, e: BalanceEntry)
    requires
        bal_distinct(s),
        0 <= i < s.len(),
        same_bal_key(s[i], e),
    ensures
        bal_distinct(s.update(i, e)),
{
    let su = s.update(i, e);
    assert forall|a: int, b: int| 0 <= a < b < su.len() implies !same_bal_key(su[a], su[b]) by {
        assert(!same_bal_key(s[a], s[b]));
    }
}

proof fn lemma_bal_push(s: Seq<BalanceEntry>, e: BalanceEntry, token: AccountId, owner: AccountId)
    requires
        forall|k: int| 0 <= k < s.len() ==> !same_bal_key(#[trigger] s[k], e),
    ensures
        bal_in(s.push(e), token, owner) == if bal_key_is(e, token, owner) {
            e.amount
        } else {
            bal_in(s, token, owner)
        },
    decreases s.len(),
{
    let sp = s.push(e);
    if s.len() == 0 {
        assert(sp[0] == e);
        if !bal_key_is(e, token, owner) {
            assert(sp.drop_first() =~= Seq::<BalanceEntry>::empty());
            assert(bal_in(sp.drop_first(), token, owner) == 0);
            assert(bal_in(sp, token, owner) == 0);
            assert(bal_in(s, token, owner) == 0);
        } else {
            assert(bal_in(sp, token, owner) == e.amount);
        }
    } else {
        assert(sp[0] == s[0]);
        if bal_key_is(s[0], token, owner) {
            assert(!same_bal_key(s[0], e));
            assert(!bal_key_is(e, token, owner));
            assert(bal_in(sp, token, owner) == s[0].amount);
            assert(bal_in(s, token, owner) == s[0].amount);
        } else {
            assert forall|k: int| 0 <= k < s.drop_first().len() implies !same_bal_key(
                #[trigger] s.drop_first()[k],
                e,
            ) by {
                assert(s.drop_first()[k] == s[k + 1]);
            }
            lemma_bal_push(s.drop_first(), e, token, owner);
            assert(sp.drop_first() =~= s.drop_first().push(e));
        }
    }
}

proof fn lemma_bal_distinct_push(s: Seq<BalanceEntry>, e: BalanceEntry)
    requires
        bal_distinct(s),
        forall|k: int| 0 <= k < s.len() ==> !same_bal_key(#[trigger] s[k], e),
    ensures
        bal_distinct(s.push(e)),
{
    let sp = s.push(e);
    assert forall|a: int, b: int| 0 <= a < b < sp.len() implies !same_bal_key(sp[a], sp[b]) by {
        if b < s.len() {
            assert(!same_bal_key(s[a], s[b]));
        } else {
            assert(!same_bal_key(s[a], e));
        }
    }
}

proof fn lemma_alw_distinct_drop(s: Seq<AllowanceEntry>)
    requires
        alw_distinct(s),
        s.len() > 0,
    ensures
        alw_distinct(s.drop_first()),
{
    assert forall|i: int, j: int| 0 <= i < j < s.drop_first().len() implies !same_alw_key(
        s.drop_first()[i],
        s.drop_first()[j],
    ) by {
        assert(s.drop_first()[i] == s[i + 1]);
        assert(s.drop_first()[j] == s[j + 1]);
        assert(!same_alw_key(s[i + 1], s[j + 1]));
    }
}

proof fn lemma_alw_found(s: Seq<AllowanceEntry>, token: AccountId, owner: AccountId, spender: AccountId, i: int)
    requires
        alw_distinct(s),
        0 <= i < s.len(),
        alw_key_is(s[i], token, owner, spender),
    ensures
        alw_in(s, token, owner, spender) == s[i].amount,
    decreases s.len(),
{
    if i == 0 {
    } else {
        assert(!same_alw_key(s[0], s[i]));
        lemma_alw_distinct_drop(s);
        lemma_alw_found(s.drop_first(), token, owner, spender, i - 1);
        assert(s.drop_first()[i - 1] == s[i]);
    }
}

proof fn lemma_alw_absent(s: Seq<AllowanceEntry>, token: AccountId, owner: AccountId, spender: AccountId)
    requires
        forall|k: int| 0 <= k < s.len() ==> !alw_key_is(#[trigger] s[k], token, owner, spender),
    ensures
        alw_in(s, token, owner, spender) == 0,
    decreases s.len(),
{
    if s.len() > 0 {
        assert forall|k: int| 0 <= k < s.drop_first().len() implies !alw_key_is(
            #[trigger] s.drop_first()[k],
            token,
            owner,
            spender,
        ) by {
            assert(s.drop_first()[k] == s[k + 1]);
        }
        lemma_alw_absent(s.drop_first(), token, owner, spender);
    }
}

proof fn lemma_alw_update(
    s: Seq<AllowanceEntry>,
    i: int,
    e: AllowanceEntry,
    token: AccountId,
    owner: AccountId,
    spender: AccountId,
)
    requires
        alw_distinct(s),
        0 <= i < s.len(),
        same_alw_key(s[i], e),
    ensures
        alw_in(s.update(i, e), token, owner, spender) == if alw_key_is(e, token, owner, spender) {
            e.amount
        } else {
            alw_in(s, token, owner, spender)
        },
    decreases s.len(),
{
    let su = s.update(i, e);
    assert(su.len() == s.len());
    if i == 0 {
        assert(su[0] == e);
        if !alw_key_is(e, token, owner, spender) {
            assert(su.drop_first() =~= s.drop_first());
        }
    } else {
        assert(su[0] == s[0]);
        assert(!same_alw_key(s[0], s[i]));
        if alw_key_is(s[0], token, owner, spender) {
            assert(!alw_key_is(e, token, owner, spender));
        } else {
            lemma_alw_distinct_drop(s);
            assert(su.drop_first() =~= s.drop_first().update(i - 1, e));
            assert(s.drop_first()[i - 1] == s[i]);
            lemma_alw_update(s.drop_first(), i - 1, e, token, owner, spender);
        }
    }
}

proof fn lemma_alw_distinct_update(s: Seq<AllowanceEntry>, i: int, e: AllowanceEntry)
    requires
        alw_distinct(s),
        0 <= i < s.len(),
        same_alw_key(s[i], e),
    ensures
        alw_distinct(s.update(i, e)),
{
    let su = s.update(i, e);
    assert forall|a: int, b: int| 0 <= a < b < su.len() implies !same_alw_key(su[a], su[b]) by {
        assert(!same_alw_key(s[a], s[b]));
    }
}

proof fn lemma_alw_push(
    s: Seq<AllowanceEntry>,
    e: AllowanceEntry,
    token: AccountId,
    owner: AccountId,
    spender: AccountId,
)
    requires
        forall|k: int| 0 <= k < s.len() ==> !same_alw_key(#[trigger] s[k], e),
    ensures
        alw_in(s.push(e), token, owner, spender) == if alw_key_is(e, token, owner, spender) {
            e.amount
        } else {
            alw_in(s, token, owner, spender)
        },
    decreases s.len(),
{
    let sp = s.push(e);
    if s.len() == 0 {
        assert(sp[0] == e);
        if !alw_key_is(e, token, owner, spender) {
            assert(sp.drop_first() =~= Seq::<AllowanceEntry>::empty());
            assert(alw_in(sp.drop_first(), token, owner, spender) == 0);
            assert(alw_in(sp, token, owner, spender) == 0);
            assert(alw_in(s, token, owner, spender) == 0);
        } else {
            assert(alw_in(sp, token, owner, spender) == e.amount);
        }
    } else {
        assert(sp[0] == s[0]);
        if alw_key_is(s[0], token, owner, spender) {
            assert(!same_alw_key(s[0], e));
            assert(!alw_key_is(e, token, owner, spender));
            assert(alw_in(sp, token, owner, spender) == s[0].amount);
            assert(alw_in(s, token, owner, spender) == s[0].amount);
        } else {
            assert forall|k: int| 0 <= k < s.drop_first().len() implies !same_alw_key(
                #[trigger] s.drop_first()[k],
                e,
            ) by {
                assert(s.drop_first()[k] == s[k + 1]);
            }
            lemma_alw_push(s.drop_first(), e, token, owner, spender);
            assert(sp.drop_first() =~= s.drop_first().push(e));
        }
    }
}

proof fn lemma_alw_distinct_push(s: Seq<AllowanceEntry>, e: AllowanceEntry)
    requires
        alw_distinct(s),
        forall|k: int| 0 <= k < s.len() ==> !same_alw_key(#[trigger] s[k], e),
    ensures
        alw_distinct(s.push(e)),
{
    let sp = s.push(e);
    assert forall|a: int, b: int| 0 <= a < b < sp.len() implies !same_alw_key(sp[a], sp[b]) by {
        if b < s.len() {
            assert(!same_alw_key(s[a], s[b]));
        } else {
            assert(!same_alw_key(s[a], e));
        }
    }
}

/// The ledger of every fungible token the protocol touches: who holds how much
/// of which token, and who may spend how much on whose behalf. One value of
/// this type stands for the balance and allowance books of all token
/// contracts, keyed by the token's account identifier.
pub struct TokenLedger {
    balances: Vec<BalanceEntry>,
    allowances: Vec<AllowanceEntry>,
}

/// Both ledgers hold the same balance, for every token and owner alike.
pub open spec fn same_balances(a: TokenLedger, b: TokenLedger) -> bool {
    forall|t: AccountId, o: AccountId| #[trigger] a.bal(t, o) == b.bal(t, o)
}

/// Both ledgers grant the same allowances, for every token, owner and spender.
pub open spec fn same_allowances(a: TokenLedger, b: TokenLedger) -> bool {
    forall|t: AccountId, o: AccountId, s: AccountId| #[trigger] a.alw(t, o, s) == b.alw(t, o, s)
}

/// The amount a `transfer` of `value` from `from` to `to` can move: the sender
/// and receiver are real addresses, the sender holds enough, and crediting the
/// receiver does not overflow its balance.
pub open spec fn transfer_ok(l: TokenLedger, token: AccountId, from: AccountId, to: AccountId, value: u128) -> bool {
    from != AccountId(0) && to != AccountId(0) && l.bal(token, from) >= value && (from == to
        || l.bal(token, to) <= u128::MAX - value)
}

impl TokenLedger {
    /// Every balance and every allowance has exactly one book entry.
    pub closed spec fn wf(self) -> bool {
        bal_distinct(self.balances@) && alw_distinct(self.allowances@)
    }

    /// The balance of `owner` in the token `token`; zero when no entry exists.
    pub closed spec fn bal(self, token: AccountId, owner: AccountId) -> u128 {
        bal_in(self.balances@, token, owner)
    }

    /// What `spender` may still move out of `owner`'s balance of `token`.
    pub closed spec fn alw(self, token: AccountId, owner: AccountId, spender: AccountId) -> u128 {
        alw_in(self.allowances@, token, owner, spender)
    }

    /// An empty ledger: every balance and every allowance is zero.
    pub fn new() -> (r: TokenLedger)
        ensures
            r.wf(),
            forall|t: AccountId, o: AccountId| #[trigger] r.bal(t, o) == 0,
            forall|t: AccountId, o: AccountId, s: AccountId| #[trigger] r.alw(t, o, s) == 0,
    {
        let r = TokenLedger { balances: Vec::new(), allowances: Vec::new() };
        proof {
            assert(r.balances@.len() == 0);
            assert(r.allowances@.len() == 0);
        }
        r
    }

    fn find_balance(&self, token: AccountId, owner: AccountId) -> (r: Option<usize>)
        ensures
            match r {
                Some(i) => i < self.balances@.len() && bal_key_is(self.balances@[i as int], token, owner),
                None => forall|k: int|
                    0 <= k < self.balances@.len() ==> !bal_key_is(#[trigger] self.balances@[k], token, owner),
            },
    {
        let n = self.balances.len();
        let mut i: usize = 0;
        while i < n
            invariant
                i <= n,
                n == self.balances@.len(),
                forall|k: int| 0 <= k < i ==> !bal_key_is(#[trigger] self.balances@[k], token, owner),
            decreases n - i,
        {
            let e = &self.balances[i];
            if e.token == token && e.owner == owner {
                return Some(i);
            }
            i = i + 1;
        }
        None
    }

    fn find_allowance(&self, token: AccountId, owner: AccountId, spender: AccountId) -> (r: Option<usize>)
        ensures
            match r {
                Some(i) => i < self.allowances@.len() && alw_key_is(
                    self.allowances@[i as int],
                    token,
                    owner,
                    spender,
                ),
                None => forall|k: int|
                    0 <= k < self.allowances@.len() ==> !alw_key_is(
                        #[trigger] self.allowances@[k],
                        token,
                        owner,
                        spender,
                    ),
            },
    {
        let n = self.allowances.len();
        let mut i: usize = 0;
        while i < n
            invariant
                i <= n,
                n == self.allowances@.len(),
                forall|k: int|
                    0 <= k < i ==> !alw_key_is(#[trigger] self.allowances@[k], token, owner, spender),
            decreases n - i,
        {
            let e = &self.allowances[i];
            if e.token == token && e.owner == owner && e.spender == spender {
                return Some(i);
            }
            i = i + 1;
        }
        None
    }

    /// The balance of `account` in the token `token`.
    pub fn balance_of(&self, token: AccountId, account: AccountId) -> (r: u128)
        requires
            self.wf(),
        ensures
            r == self.bal(token, account),
    {
        match self.find_balance(token, account) {
            Some(i) => {
                proof {
                    lemma_bal_found(self.balances@, token, account, i as int);
                }
                self.balances[i].amount
            },
            None => {
                proof {
                    lemma_bal_absent(self.balances@, token, account);
                }
                0
            },
        }
    }

    /// What `spender` may still move out of `owner`'s balance of `token`.
    pub fn allowance(&self, token: AccountId, owner: AccountId, spender: AccountId) -> (r: u128)
        requires
            self.wf(),
        ensures
            r == self.alw(token, owner, spender),
    {
        match self.find_allowance(token, owner, spender) {
            Some(i) => {
                proof {
                    lemma_alw_found(self.allowances@, token, owner, spender, i as int);
                }
                self.allowances[i].amount
            },
            None => {
                proof {
                    lemma_alw_absent(self.allowances@, token, owner, spender);
                }
                0
            },
        }
    }

    fn set_balance(&mut self, token: AccountId, owner: AccountId, amount: u128)
        requires
            old(self).wf(),
        ensures
            final(self).wf(),
            forall|t: AccountId, o: AccountId| #[trigger] final(self).bal(t, o) == if t == token && o == owner {
                amount
            } else {
                old(self).bal(t, o)
            },
            same_allowances(*final(self), *old(self)),
    {
        let e = BalanceEntry { token, owner, amount };
        match self.find_balance(token, owner) {
            Some(i) => {
                proof {
                    lemma_bal_distinct_update(self.balances@, i as int, e);
                }
                let ghost s0 = self.balances@;
                self.balances.set(i, e);
                proof {
                    assert forall|t: AccountId, o: AccountId| #[trigger] self.bal(t, o) == if t == token && o
                        == owner {
                        amount
                    } else {
                        old(self).bal(t, o)
                    } by {
                        lemma_bal_update(s0, i as int, e, t, o);
                    }
                }
            },
            None => {
                proof {
                    lemma_bal_distinct_push(self.balances@, e);
                }
                let ghost s0 = self.balances@;
                self.balances.push(e);
                proof {
                    assert forall|t: AccountId, o: AccountId| #[trigger] self.bal(t, o) == if t == token && o
                        == owner {
                        amount
                    } else {
                        old(self).bal(t, o)
                    } by {
                        lemma_bal_push(s0, e, t, o);
                    }
                }
            },
        }
    }

    fn set_allowance(&mut self, token: AccountId, owner: AccountId, spender: AccountId, amount: u128)
        requires
            old(self).wf(),
        ensures
            final(self).wf(),
            forall|t: AccountId, o: AccountId, s: AccountId| #[trigger] final(self).alw(t, o, s) == if t
                == token && o == owner && s == spender {
                amount
            } else {
                old(self).alw(t, o, s)
            },
            same_balances(*final(self), *old(self)),
    {
        let e = AllowanceEntry { token, owner, spender, amount };
        match self.find_allowance(token, owner, spender) {
            Some(i) => {
                proof {
                    lemma_alw_distinct_update(self.allowances@, i as int, e);
                }
                let ghost s0 = self.allowances@;
                self.allowances.set(i, e);
                proof {
                    assert forall|t: AccountId, o: AccountId, s: AccountId| #[trigger] self.alw(t, o, s)
                        == if t == token && o == owner && s == spender {
                        amount
                    } else {
                        old(self).alw(t, o, s)
                    } by {
                        lemma_alw_update(s0, i as int, e, t, o, s);
                    }
                }
            },
            None => {
                proof {
                    lemma_alw_distinct_push(self.allowances@, e);
                }
                let ghost s0 = self.allowances@;
                self.allowances.push(e);
                proof {
                    assert forall|t: AccountId, o: AccountId, s: AccountId| #[trigger] self.alw(t, o, s)
                        == if t == token && o == owner && s == spender {
                        amount
                    } else {
                        old(self).alw(t, o, s)
                    } by {
                        lemma_alw_push(s0, e, t, o, s);
                    }
                }
            },
        }
    }

    /// Credits `value` of `token` to `account`, as the token's issuer would.
    /// Construction-time setup only: the flash-loan protocol itself never
    /// creates balances.
    pub fn mint(&mut self, token: AccountId, account: AccountId, value: u128)
        requires
            old(self).wf(),
            old(self).bal(token, account) + value <= u128::MAX,
        ensures
            final(self).wf(),
            forall|t: AccountId, o: AccountId| #[trigger] final(self).bal(t, o) == if t == token && o
                == account {
                (old(self).bal(token, account) + value) as u128
            } else {
                old(self).bal(t, o)
            },
            same_allowances(*final(self), *old(self)),
    {
        let b = self.balance_of(token, account);
        self.set_balance(token, account, b + value);
    }

    /// Moves `value` of `token` from `from` to `to`. Exactly the sender's and
    /// the receiver's balances of that token change; no allowance changes; on
    /// any error nothing changes.
    pub fn transfer(&mut self, token: AccountId, from: AccountId, to: AccountId, value: u128) -> (r: Result<
        bool,
        Error,
    >)
        requires
            old(self).wf(),
        ensures
            final(self).wf(),
            r is Ok <==> transfer_ok(*old(self), token, from, to, value),
            r is Ok ==> r == Ok::<bool, Error>(true),
            from == AccountId(0) ==> r == Err::<bool, Error>(invalid_sender(from)),
            from != AccountId(0) && to == AccountId(0) ==> r == Err::<bool, Error>(invalid_receiver(to)),
            from != AccountId(0) && to != AccountId(0) && old(self).bal(token, from) < value ==> r == Err::<bool, Error>(
                insufficient_balance(from, old(self).bal(token, from), value),
            ),
            from != AccountId(0) && to != AccountId(0) && old(self).bal(token, from) >= value && from != to
                && old(self).bal(token, to) > u128::MAX - value ==> r == Err::<bool, Error>(invalid_receiver(to)),
            r is Err ==> same_balances(*final(self), *old(self)) && same_allowances(
                *final(self),
                *old(self),
            ),
            r is Ok ==> forall|t: AccountId, o: AccountId| #[trigger] final(self).bal(t, o) as int == old(
                self,
            ).bal(t, o) - (if t == token && o == from {
                value as int
            } else {
                0
            }) + (if t == token && o == to {
                value as int
            } else {
                0
            }),
            r is Ok ==> same_allowances(*final(self), *old(self)),
    {
        if from.0 == 0 {
            return Err(Error::InvalidSender { sender: from });
        }
        if to.0 == 0 {
            return Err(Error::InvalidReceiver { receiver: to });
        }
        let bf = self.balance_of(token, from);
        if bf < value {
            return Err(Error::InsufficientBalance { sender: from, balance: bf, needed: value });
        }
        if from.0 == to.0 {
            // nothing moves on a self-transfer
            proof {
                assert(from == to);
            }
            return Ok(true);
        }
        let bt = self.balance_of(token, to);
        if bt > u128::MAX - value {
            return Err(Error::InvalidReceiver { receiver: to });
        }
        self.set_balance(token, from, bf - value);
        let ghost mid = *self;
        self.set_balance(token, to, bt + value);
        proof {
            assert forall|t: AccountId, o: AccountId| #[trigger] self.bal(t, o) as int == old(self).bal(
                t,
                o,
            ) - (if t == token && o == from {
                value as int
            } else {
                0
            }) + (if t == token && o == to {
                value as int
            } else {
                0
            }) by {
                assert(mid.bal(t, o) == if t == token && o == from {
                    (bf - value) as u128
                } else {
                    old(self).bal(t, o)
                });
            }
        }
        Ok(true)
    }

    /// Sets `spender`'s allowance over `owner`'s balance of `token` to
    /// `value`. No balance changes; on any error nothing changes.
    pub fn approve(&mut self, token: AccountId, owner: AccountId, spender: AccountId, value: u128) -> (r:
        Result<bool, Error>)
        requires
            old(self).wf(),
        ensures
            final(self).wf(),
            r is Ok <==> owner != AccountId(0) && spender != AccountId(0),
            r is Ok ==> r == Ok::<bool, Error>(true),
            owner == AccountId(0) ==> r == Err::<bool, Error>(invalid_approver(owner)),
            owner != AccountId(0) && spender == AccountId(0) ==> r == Err::<bool, Error>(invalid_spender(spender)),
            r is Err ==> same_balances(*final(self), *old(self)) && same_allowances(
                *final(self),
                *old(self),
            ),
            r is Ok ==> same_balances(*final(self), *old(self)),
            r is Ok ==> forall|t: AccountId, o: AccountId, s: AccountId| #[trigger] final(self).alw(t, o, s)
                == if t == token && o == owner && s == spender {
                value
            } else {
                old(self).alw(t, o, s)
            },
    {
        if owner.0 == 0 {
            return Err(Error::InvalidApprover { approver: owner });
        }
        if spender.0 == 0 {
            return Err(Error::InvalidSpender { spender });
        }
        self.set_allowance(token, owner, spender, value);
        Ok(true)
    }

    /// Moves `value` of `token` from `from` to `to` on behalf of `caller`,
    /// consuming exactly `value` of the allowance `from` granted to `caller`.
    /// On any error nothing changes.
    pub fn transfer_from(
        &mut self,
        token: AccountId,
        caller: AccountId,
        from: AccountId,
        to: AccountId,
        value: u128,
    ) -> (r: Result<bool, Error>)
        requires
            old(self).wf(),
        ensures
            final(self).wf(),
            r is Ok <==> old(self).alw(token, from, caller) >= value && transfer_ok(
                *old(self),
                token,
                from,
                to,
                value,
            ),
            r is Ok ==> r == Ok::<bool, Error>(true),
            old(self).alw(token, from, caller) < value ==> r == Err::<bool, Error>(
                insufficient_allowance(caller, old(self).alw(token, from, caller), value),
            ),
            old(self).alw(token, from, caller) >= value && from == AccountId(0) ==> r == Err::<bool, Error>(
                invalid_sender(from),
            ),
            old(self).alw(token, from, caller) >= value && from != AccountId(0) && to == AccountId(0) ==> r
                == Err::<bool, Error>(invalid_receiver(to)),
            old(self).alw(token, from, caller) >= value && from != AccountId(0) && to != AccountId(0) && old(
                self,
            ).bal(token, from) < value ==> r == Err::<bool, Error>(
                insufficient_balance(from, old(self).bal(token, from), value),
            ),
            old(self).alw(token, from, caller) >= value && from != AccountId(0) && to != AccountId(0) && old(
                self,
            ).bal(token, from) >= value && from != to && old(self).bal(token, to) > u128::MAX - value ==> r
                == Err::<bool, Error>(invalid_receiver(to)),
            r is Err ==> same_balances(*final(self), *old(self)) && same_allowances(
                *final(self),
                *old(self),
            ),
            r is Ok ==> forall|t: AccountId, o: AccountId| #[trigger] final(self).bal(t, o) as int == old(
                self,
            ).bal(t, o) - (if t == token && o == from {
                value as int
            } else {
                0
            }) + (if t == token && o == to {
                value as int
            } else {
                0
            }),
            r is Ok ==> forall|t: AccountId, o: AccountId, s: AccountId| #[trigger] final(self).alw(t, o, s)
                as int == old(self).alw(t, o, s) - (if t == token && o == from && s == caller {
                value as int
            } else {
                0
            }),
    {
        let al = self.allowance(token, from, caller);
        if al < value {
            return Err(Error::InsufficientAllowance { spender: caller, allowance: al, needed: value });
        }
        let ghost l0 = *self;
        match self.transfer(token, from, to, value) {
            Ok(_) => {
                let ghost mid = *self;
                self.set_allowance(token, from, caller, al - value);
                proof {
                    assert(same_allowances(mid, l0));
                }
                Ok(true)
            },
            Err(e) => Err(e),
        }
    }
}

} // verus!
