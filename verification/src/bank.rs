//! The ledger engine: a bank owning a collection of named, PIN-protected
//! accounts. Balances are kept in canonical units as exact nonnegative
//! rationals; every operation converts the amount it is given, checks
//! uniqueness, authorization and solvency, and either mutates the ledger
//! atomically or leaves it untouched and reports a typed failure.

use vstd::prelude::*;

use crate::currency::{frac_add, frac_fits, frac_le, frac_mul, frac_sub, frac_wf, Currency, Frac,
    Rat};

verus! {

/// What a ledger operation can fail with.
#[derive(Clone, Copy, Debug, PartialEq, Eq, Structural)]
pub enum BankError {
    /// `add_account`: an account with the requested name already exists.
    DuplicateName,
    /// The named account does not exist.
    AccountNotFound,
    /// The supplied PIN differs from the account's PIN.
    WrongPin,
    /// The canonical balance is smaller than the canonical amount asked for.
    InsufficientFunds,
}

/// What a transfer can fail with; a missing account is tagged with the
/// side on which it was missed.
#[derive(Clone, Copy, Debug, PartialEq, Eq, Structural)]
pub enum TransferError {
    /// The source account does not exist.
    SourceNotFound,
    /// The destination account does not exist.
    DestinationNotFound,
    /// The supplied PIN differs from the source account's PIN.
    WrongPin,
    /// The source's canonical balance is smaller than the canonical amount.
    InsufficientFunds,
}

/// An account: a unique name, a nonnegative canonical balance, and the PIN
/// that authorizes withdrawal, transfer, inspection and removal.
#[derive(Debug)]
pub struct Account {
    name: String,
    balance: Rat,
    pin: String,
}

/// The mathematical content of an account.
pub ghost struct AccountModel {
    pub name: Seq<char>,
    pub balance: Frac,
    pub pin: Seq<char>,
}

impl View for Account {
    type V = AccountModel;

    closed spec fn view(&self) -> AccountModel {
        AccountModel { name: self.name@, balance: self.balance@, pin: self.pin@ }
    }
}

impl Account {
    /// The account's canonical balance.
    pub fn balance(&self) -> (r: &Rat)
        ensures
            r@ == self@.balance,
    {
        &self.balance
    }
}

/// Whether the ledger holds an account of this name.
pub open spec fn has_account(s: Seq<AccountModel>, name: Seq<char>) -> bool {
    exists|i: int| 0 <= i < s.len() && s[i].name == name
}

/// The index of the account of this name. In a well-formed ledger names
/// are unique, so the index is determined whenever the account exists.
pub open spec fn index_of(s: Seq<AccountModel>, name: Seq<char>) -> int {
    choose|i: int| 0 <= i < s.len() && s[i].name == name
}

/// The canonical balance of the account of this name.
pub open spec fn balance_of(s: Seq<AccountModel>, name: Seq<char>) -> Frac {
    s[index_of(s, name)].balance
}

/// The PIN of the account of this name.
pub open spec fn pin_of(s: Seq<AccountModel>, name: Seq<char>) -> Seq<char> {
    s[index_of(s, name)].pin
}

/// The ledger with the named account's balance replaced.
pub open spec fn with_balance(s: Seq<AccountModel>, name: Seq<char>, b: Frac) -> Seq<
    AccountModel,
> {
    let i = index_of(s, name);
    s.update(i, AccountModel { name: s[i].name, balance: b, pin: s[i].pin })
}

/// Whether crediting this canonical amount to the named account, if it
/// exists, stays within the machine representation of balances.
pub open spec fn deposit_fits(s: Seq<AccountModel>, name: Seq<char>, amount: Frac) -> bool {
    has_account(s, name) ==> frac_fits(frac_add(balance_of(s, name), amount))
}

/// Whether debiting this canonical amount from the named account, where
/// the ledger would allow it, stays within the machine representation of
/// balances.
pub open spec fn withdraw_fits(s: Seq<AccountModel>, name: Seq<char>, amount: Frac) -> bool {
    has_account(s, name) && frac_le(amount, balance_of(s, name)) ==> frac_fits(
        frac_sub(balance_of(s, name), amount),
    )
}

/// The ledger after a successful transfer: the source debited by the
/// canonical amount, then the destination credited with the same amount.
/// The composition also describes a transfer from an account to itself,
/// which leaves that account's value unchanged.
pub open spec fn transfer_result(
    s: Seq<AccountModel>,
    from: Seq<char>,
    to: Seq<char>,
    amount: Frac,
) -> Seq<AccountModel> {
    let debited = with_balance(s, from, frac_sub(balance_of(s, from), amount));
    with_balance(debited, to, frac_add(balance_of(debited, to), amount))
}

/// Whether moving this canonical amount between the named accounts, where
/// the ledger would allow it, stays within the machine representation of
/// balances.
pub open spec fn transfer_fits(
    s: Seq<AccountModel>,
    from: Seq<char>,
    to: Seq<char>,
    amount: Frac,
) -> bool {
    has_account(s, from) && has_account(s, to) && frac_le(amount, balance_of(s, from)) ==> {
        let debited = with_balance(s, from, frac_sub(balance_of(s, from), amount));
        frac_fits(frac_sub(balance_of(s, from), amount)) && frac_fits(
            frac_add(balance_of(debited, to), amount),
        )
    }
}

/// A well-formed ledger: no two accounts share a name, and every balance
/// is a well-formed nonnegative rational.
pub open spec fn ledger_wf(s: Seq<AccountModel>) -> bool {
    &&& forall|i: int, j: int|
        0 <= i < s.len() && 0 <= j < s.len() && i != j ==> s[i].name != s[j].name
    &&& forall|i: int| 0 <= i < s.len() ==> frac_wf(#[trigger] s[i].balance)
}

/// Uniqueness: in a well-formed ledger, no two coexisting accounts share
/// a name.
pub proof fn lemma_unique_names(s: Seq<AccountModel>, i: int, j: int)
    requires
        ledger_wf(s),
        0 <= i < s.len(),
        0 <= j < s.len(),
        i != j,
    ensures
        s[i].name != s[j].name,
{
}

/// Solvency: in a well-formed ledger, every account's canonical balance
/// is nonnegative — numerator at least zero over a positive denominator.
pub proof fn lemma_solvency(s: Seq<AccountModel>, i: int)
    requires
        ledger_wf(s),
        0 <= i < s.len(),
    ensures
        s[i].balance.num >= 0,
        s[i].balance.den >= 1,
{
}

/// In a well-formed ledger, any index holding the name is the index of
/// the name.
proof fn lemma_index_of(s: Seq<AccountModel>, name: Seq<char>, i: int)
    requires
        ledger_wf(s),
        0 <= i < s.len(),
        s[i].name == name,
    ensures
        index_of(s, name) == i,
        has_account(s, name),
{
    assert(has_account(s, name));
    let j = index_of(s, name);
    if j != i {
        lemma_unique_names(s, i, j);
    }
}

/// The bank: sole owner of the ledger's accounts.
#[derive(Debug)]
pub struct Bank {
    accounts: Vec<Account>,
}

impl View for Bank {
    type V = Seq<AccountModel>;

    closed spec fn view(&self) -> Seq<AccountModel> {
        self.accounts@.map(|i: int, a: Account| a@)
    }
}

impl Bank {
    /// A well-formed bank holds a well-formed ledger.
    pub open spec fn wf(self) -> bool {
        ledger_wf(self@)
    }

    /// An empty bank: no accounts.
    pub fn new() -> (r: Bank)
        ensures
            r@ == Seq::<AccountModel>::empty(),
            r.wf(),
    {
        let b = Bank { accounts: Vec::new() };
        proof {
            assert(b@ =~= Seq::<AccountModel>::empty());
        }
        b
    }

    /// The index of the first account of this name, if any.
    fn find_index(&self, name: &str) -> (r: Option<usize>)
        ensures
            match r {
                Some(i) => i < self@.len() && self@[i as int].name == name@,
                None => !has_account(self@, name@),
            },
    {
        let key = String::from_str(name);
        let n = self.accounts.len();
        let mut i: usize = 0;
        while i < n
            invariant
                n == self.accounts.len(),
                i <= n,
                key@ == name@,
                forall|j: int| 0 <= j < i ==> self@[j].name != name@,
            decreases n - i,
        {
            if self.accounts[i].name == key {
                return Some(i);
            }
            i += 1;
        }
        None
    }

    /// Looks an account up by name. Fails with `AccountNotFound` when no
    /// account of this name exists, with `WrongPin` when one exists but
    /// the PIN differs; never mutates.
    pub fn get_account(&self, name: &str, pin: &str) -> (r: Result<&Account, BankError>)
        requires
            self.wf(),
        ensures
            match r {
                Ok(a) => has_account(self@, name@) && pin_of(self@, name@) == pin@ && a@
                    == self@[index_of(self@, name@)],
                Err(BankError::AccountNotFound) => !has_account(self@, name@),
                Err(BankError::WrongPin) => has_account(self@, name@) && pin_of(self@, name@)
                    != pin@,
                Err(_) => false,
            },
    {
        match self.find_index(name) {
            Some(i) => {
                proof {
                    lemma_index_of(self@, name@, i as int);
                }
                let supplied = String::from_str(pin);
                if self.accounts[i].pin == supplied {
                    Ok(&self.accounts[i])
                } else {
                    Err(BankError::WrongPin)
                }
            },
            None => Err(BankError::AccountNotFound),
        }
    }

    /// Creates an account holding the given amount of the given currency,
    /// normalized to canonical units. Fails with `DuplicateName`, and
    /// leaves the ledger unchanged, when the name is already taken.
    pub fn add_account(
        &mut self,
        name: &str,
        balance: &Rat,
        currency: &Currency,
        pin: &str,
    ) -> (r: Result<(), BankError>)
        requires
            old(self).wf(),
            balance.wf(),
            currency.wf(),
            frac_fits(frac_mul(balance@, currency.ratio@)),
        ensures
            final(self).wf(),
            match r {
                Ok(()) => !has_account(old(self)@, name@) && final(self)@ == old(self)@.push(
                    AccountModel {
                        name: name@,
                        balance: frac_mul(balance@, currency.ratio@),
                        pin: pin@,
                    },
                ),
                Err(BankError::DuplicateName) => has_account(old(self)@, name@) && final(self)@
                    == old(self)@,
                Err(_) => false,
            },
    {
        if self.is_same_name(name) {
            return Err(BankError::DuplicateName);
        }
        let canonical = currency.to_itc(balance);
        let account = Account {
            name: String::from_str(name),
            balance: canonical,
            pin: String::from_str(pin),
        };
        proof {
            assert(account@ == AccountModel {
                name: name@,
                balance: frac_mul(balance@, currency.ratio@),
                pin: pin@,
            });
        }
        self.accounts.push(account);
        proof {
            assert(self@ =~= old(self)@.push(account@));
        }
        Ok(())
    }

    /// Adds an amount of the given currency, normalized to canonical
    /// units, to the named account's balance. No PIN is required: anyone
    /// may pay into a known account. Fails with `AccountNotFound`, and
    /// leaves the ledger unchanged, when no account of this name exists.
    pub fn deposit(&mut self, account: &str, amount: &Rat, currency: &Currency) -> (r: Result<
        (),
        BankError,
    >)
        requires
            old(self).wf(),
            amount.wf(),
            currency.wf(),
            frac_fits(frac_mul(amount@, currency.ratio@)),
            deposit_fits(old(self)@, account@, frac_mul(amount@, currency.ratio@)),
        ensures
            final(self).wf(),
            match r {
                Ok(()) => has_account(old(self)@, account@) && final(self)@ == with_balance(
                    old(self)@,
                    account@,
                    frac_add(
                        balance_of(old(self)@, account@),
                        frac_mul(amount@, currency.ratio@),
                    ),
                ),
                Err(BankError::AccountNotFound) => !has_account(old(self)@, account@)
                    && final(self)@ == old(self)@,
                Err(_) => false,
            },
    {
        let canonical = currency.to_itc(amount);
        match self.find_index(account) {
            Some(i) => {
                proof {
                    lemma_index_of(self@, account@, i as int);
                }
                let updated = self.accounts[i].balance.add(&canonical);
                self.accounts[i].balance = updated;
                proof {
                    assert(self@ =~= with_balance(
                        old(self)@,
                        account@,
                        frac_add(balance_of(old(self)@, account@), canonical@),
                    ));
                }
                Ok(())
            },
            None => Err(BankError::AccountNotFound),
        }
    }

    /// Removes the named account and returns its canonical balance at the
    /// time of removal. Fails with `AccountNotFound` when no account of
    /// this name exists and with `WrongPin` when the PIN differs; on any
    /// failure the ledger is unchanged.
    pub fn remove_account(&mut self, account: &str, pin: &str) -> (r: Result<Rat, BankError>)
        requires
            old(self).wf(),
        ensures
            final(self).wf(),
            match r {
                Ok(taken) => has_account(old(self)@, account@) && pin_of(old(self)@, account@)
                    == pin@ && taken@ == balance_of(old(self)@, account@)
                    && final(self)@ == old(self)@.remove(index_of(old(self)@, account@)),
                Err(BankError::AccountNotFound) => !has_account(old(self)@, account@)
                    && final(self)@ == old(self)@,
                Err(BankError::WrongPin) => has_account(old(self)@, account@)
                    && pin_of(old(self)@, account@) != pin@ && final(self)@ == old(self)@,
                Err(_) => false,
            },
    {
        match self.find_index(account) {
            Some(i) => {
                proof {
                    lemma_index_of(self@, account@, i as int);
                }
                let supplied = String::from_str(pin);
                if self.accounts[i].pin != supplied {
                    return Err(BankError::WrongPin);
                }
                let removed = self.accounts.remove(i);
                proof {
                    assert(self@ =~= old(self)@.remove(i as int));
                }
                Ok(removed.balance)
            },
            None => Err(BankError::AccountNotFound),
        }
    }

    /// Debits an amount of the given currency, normalized to canonical
    /// units, from the named account and returns the canonical amount
    /// withdrawn. Existence, authorization and solvency are checked in
    /// that order; on any failure the ledger is unchanged. A zero-amount
    /// withdrawal succeeds and withdraws zero.
    pub fn withdraw(
        &mut self,
        account: &str,
        amount: &Rat,
        currency: &Currency,
        pin: &str,
    ) -> (r: Result<Rat, BankError>)
        requires
            old(self).wf(),
            amount.wf(),
            currency.wf(),
            frac_fits(frac_mul(amount@, currency.ratio@)),
            withdraw_fits(old(self)@, account@, frac_mul(amount@, currency.ratio@)),
        ensures
            final(self).wf(),
            ({
                let canonical = frac_mul(amount@, currency.ratio@);
                match r {
                    Ok(taken) => has_account(old(self)@, account@)
                        && pin_of(old(self)@, account@) == pin@
                        && frac_le(canonical, balance_of(old(self)@, account@))
                        && taken@ == canonical
                        && final(self)@ == with_balance(
                            old(self)@,
                            account@,
                            frac_sub(balance_of(old(self)@, account@), canonical),
                        ),
                    Err(BankError::AccountNotFound) => !has_account(old(self)@, account@)
                        && final(self)@ == old(self)@,
                    Err(BankError::WrongPin) => has_account(old(self)@, account@)
                        && pin_of(old(self)@, account@) != pin@ && final(self)@ == old(self)@,
                    Err(BankError::InsufficientFunds) => has_account(old(self)@, account@)
                        && pin_of(old(self)@, account@) == pin@
                        && !frac_le(canonical, balance_of(old(self)@, account@))
                        && final(self)@ == old(self)@,
                    Err(_) => false,
                }
            }),
    {
        let canonical = currency.to_itc(amount);
        match self.find_index(account) {
            Some(i) => {
                proof {
                    lemma_index_of(self@, account@, i as int);
                }
                let supplied = String::from_str(pin);
                if self.accounts[i].pin != supplied {
                    return Err(BankError::WrongPin);
                }
                if !canonical.le(&self.accounts[i].balance) {
                    return Err(BankError::InsufficientFunds);
                }
                let updated = self.accounts[i].balance.sub(&canonical);
                self.accounts[i].balance = updated;
                proof {
                    assert(self@ =~= with_balance(
                        old(self)@,
                        account@,
                        frac_sub(balance_of(old(self)@, account@), canonical@),
                    ));
                }
                Ok(canonical)
            },
            None => Err(BankError::AccountNotFound),
        }
    }

    /// Moves an amount of the given currency, normalized to canonical
    /// units, from the source account to the destination account. The
    /// source's PIN governs the transfer; the destination needs no
    /// authorization. The operation is atomic: on any failure — including
    /// a missing destination — the ledger, and in particular the source's
    /// balance, is unchanged.
    pub fn transfer(
        &mut self,
        from: &str,
        to: &str,
        amount: &Rat,
        currency: &Currency,
        pin: &str,
    ) -> (r: Result<(), TransferError>)
        requires
            old(self).wf(),
            amount.wf(),
            currency.wf(),
            frac_fits(frac_mul(amount@, currency.ratio@)),
            transfer_fits(old(self)@, from@, to@, frac_mul(amount@, currency.ratio@)),
        ensures
            final(self).wf(),
            ({
                let canonical = frac_mul(amount@, currency.ratio@);
                match r {
                    Ok(()) => has_account(old(self)@, from@) && pin_of(old(self)@, from@) == pin@
                        && frac_le(canonical, balance_of(old(self)@, from@))
                        && has_account(old(self)@, to@)
                        && final(self)@ == transfer_result(old(self)@, from@, to@, canonical),
                    Err(TransferError::SourceNotFound) => !has_account(old(self)@, from@)
                        && final(self)@ == old(self)@,
                    Err(TransferError::WrongPin) => has_account(old(self)@, from@)
                        && pin_of(old(self)@, from@) != pin@ && final(self)@ == old(self)@,
                    Err(TransferError::InsufficientFunds) => has_account(old(self)@, from@)
                        && pin_of(old(self)@, from@) == pin@
                        && !frac_le(canonical, balance_of(old(self)@, from@))
                        && final(self)@ == old(self)@,
                    Err(TransferError::DestinationNotFound) => has_account(old(self)@, from@)
                        && pin_of(old(self)@, from@) == pin@
                        && frac_le(canonical, balance_of(old(self)@, from@))
                        && !has_account(old(self)@, to@) && final(self)@ == old(self)@,
                }
            }),
    {
        let canonical = currency.to_itc(amount);
        let i = match self.find_index(from) {
            Some(i) => i,
            None => {
                return Err(TransferError::SourceNotFound);
            },
        };
        proof {
            lemma_index_of(self@, from@, i as int);
        }
        let supplied = String::from_str(pin);
        if self.accounts[i].pin != supplied {
            return Err(TransferError::WrongPin);
        }
        proof {
            assert(frac_wf(self@[i as int].balance));
        }
        if !canonical.le(&self.accounts[i].balance) {
            return Err(TransferError::InsufficientFunds);
        }
        let j = match self.find_index(to) {
            Some(j) => j,
            None => {
                return Err(TransferError::DestinationNotFound);
            },
        };
        proof {
            lemma_index_of(self@, to@, j as int);
        }
        let debited = self.accounts[i].balance.sub(&canonical);
        self.accounts[i].balance = debited;
        proof {
            assert(self@ =~= with_balance(
                old(self)@,
                from@,
                frac_sub(balance_of(old(self)@, from@), canonical@),
            ));
            assert(self.wf());
            lemma_index_of(self@, to@, j as int);
        }
        let credited = self.accounts[j].balance.add(&canonical);
        self.accounts[j].balance = credited;
        proof {
            assert(self@ =~= transfer_result(old(self)@, from@, to@, canonical@));
        }
        Ok(())
    }

    /// Whether an account of this name exists.
    pub fn is_same_name(&self, name: &str) -> (r: bool)
        ensures
            r == has_account(self@, name@),
    {
        match self.find_index(name) {
            Some(i) => {
                proof {
                    assert(has_account(self@, name@));
                }
                true
            },
            None => false,
        }
    }
}

} // verus!
