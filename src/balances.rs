use std::collections::HashMap;
use vstd::prelude::*;

use crate::genome::AccountId;

verus! {

/// An amount of currency.
pub type Balance = u64;

/// What the ledger holds for one account: spendable funds and funds locked
/// as collateral.
#[derive(Clone, Copy, Debug, PartialEq, Eq, Structural)]
pub struct AccountData {
    pub free: Balance,
    pub reserved: Balance,
}

/// Why the ledger refused an operation.
#[derive(Clone, Copy, Debug, PartialEq, Eq, Structural)]
pub enum LedgerError {
    /// The source account's free funds are below the amount.
    InsufficientBalance,
    /// The source account would fall below the existential deposit.
    KeepAlive,
    /// The destination account would end below the existential deposit.
    ExistentialDeposit,
    /// A balance would exceed its type's range.
    Overflow,
}

/// An in-memory currency ledger with free and reserved balances per account.
/// An account that was never written holds nothing.
pub struct Balances {
    accounts: HashMap<AccountId, AccountData>,
    existential_deposit: Balance,
}

impl Balances {
    /// What the ledger holds for `a`.
    pub closed spec fn account(&self, a: AccountId) -> AccountData {
        if self.accounts@.contains_key(a) {
            self.accounts@[a]
        } else {
            AccountData { free: 0, reserved: 0 }
        }
    }

    /// The least total an account may hold after a transfer.
    pub closed spec fn min_balance(&self) -> Balance {
        self.existential_deposit
    }

    pub open spec fn free(&self, a: AccountId) -> nat {
        self.account(a).free as nat
    }

    pub open spec fn reserved(&self, a: AccountId) -> nat {
        self.account(a).reserved as nat
    }

    /// Every account's total, free and reserved together, fits in a balance.
    pub open spec fn wf(&self) -> bool {
        forall|a: AccountId| #[trigger] self.free(a) + self.reserved(a) <= u64::MAX
    }

    /// Both ledgers hold the same for every account.
    pub open spec fn agrees_with(&self, other: &Balances) -> bool {
        &&& forall|a: AccountId| #[trigger] self.account(a) == other.account(a)
        &&& self.min_balance() == other.min_balance()
    }

    /// `self` is `old` with the account `a` replaced by `d`.
    pub open spec fn is_update(&self, old: &Balances, a: AccountId, d: AccountData) -> bool {
        &&& self.account(a) == d
        &&& forall|b: AccountId| b != a ==> #[trigger] self.account(b) == old.account(b)
        &&& self.min_balance() == old.min_balance()
    }

    /// What moving `value` of free funds out of account `f` into account `t`
    /// reports, in the order the checks are made, for an existential
    /// deposit `ed`.
    pub open spec fn transfer_rule(
        f: AccountData,
        t: AccountData,
        value: Balance,
        ed: Balance,
        keep_alive: bool,
    ) -> Result<(), LedgerError> {
        if f.free < value {
            Err(LedgerError::InsufficientBalance)
        } else if t.free + value + t.reserved > u64::MAX {
            Err(LedgerError::Overflow)
        } else if t.free + value + t.reserved < ed {
            Err(LedgerError::ExistentialDeposit)
        } else if keep_alive && f.free - value + f.reserved < ed {
            Err(LedgerError::KeepAlive)
        } else {
            Ok(())
        }
    }

    /// What a transfer of `value` from `from` to `to` reports.
    pub open spec fn transfer_outcome(
        &self,
        from: AccountId,
        to: AccountId,
        value: Balance,
        keep_alive: bool,
    ) -> Result<(), LedgerError> {
        if value == 0 || from == to {
            Ok(())
        } else {
            Self::transfer_rule(self.account(from), self.account(to), value, self.min_balance(), keep_alive)
        }
    }

    /// An empty ledger whose accounts must keep at least `existential_deposit`
    /// after a transfer.
    pub fn new(existential_deposit: Balance) -> (r: Balances)
        ensures
            r.wf(),
            forall|a: AccountId| #[trigger] r.account(a) == (AccountData { free: 0, reserved: 0 }),
            r.min_balance() == existential_deposit,
    {
        Balances { accounts: HashMap::new(), existential_deposit }
    }

    /// What the ledger holds for `a`.
    pub fn get_account(&self, a: AccountId) -> (r: AccountData)
        ensures
            r == self.account(a),
    {
        match self.accounts.get(&a) {
            Some(d) => *d,
            None => AccountData { free: 0, reserved: 0 },
        }
    }

    /// Overwrites what the ledger holds for `a`.
    pub fn set_account(&mut self, a: AccountId, d: AccountData)
        requires
            old(self).wf(),
            d.free + d.reserved <= u64::MAX,
        ensures
            final(self).wf(),
            final(self).is_update(old(self), a, d),
    {
        self.accounts.insert(a, d);
        assert forall|b: AccountId| #[trigger] final(self).free(b) + final(self).reserved(b) <= u64::MAX by {
            if b != a {
                assert(old(self).free(b) + old(self).reserved(b) <= u64::MAX);
            }
        }
    }

    /// Sets the free funds of `who`, keeping its reservation.
    pub fn set_balance(&mut self, who: AccountId, free: Balance)
        requires
            old(self).wf(),
            free + old(self).reserved(who) <= u64::MAX,
        ensures
            final(self).wf(),
            final(self).is_update(old(self), who, AccountData { free, reserved: old(self).account(who).reserved }),
    {
        let d = self.get_account(who);
        self.set_account(who, AccountData { free, reserved: d.reserved });
    }

    pub fn free_balance(&self, who: AccountId) -> (r: Balance)
        ensures
            r == self.free(who),
    {
        self.get_account(who).free
    }

    pub fn reserved_balance(&self, who: AccountId) -> (r: Balance)
        ensures
            r == self.reserved(who),
    {
        self.get_account(who).reserved
    }

    pub fn existential_deposit(&self) -> (r: Balance)
        ensures
            r == self.min_balance(),
    {
        self.existential_deposit
    }

    /// Moves `value` of `who`'s free funds into its reservation. Fails, with
    /// nothing changed, when the free funds are short.
    pub fn reserve(&mut self, who: AccountId, value: Balance) -> (r: Result<(), LedgerError>)
        requires
            old(self).wf(),
        ensures
            final(self).wf(),
            r is Ok <==> value <= old(self).free(who),
            r is Err ==> r == Err::<(), LedgerError>(LedgerError::InsufficientBalance) && final(self).agrees_with(
                old(self),
            ),
            r is Ok ==> final(self).is_update(
                old(self),
                who,
                AccountData {
                    free: (old(self).free(who) - value) as u64,
                    reserved: (old(self).reserved(who) + value) as u64,
                },
            ),
    {
        let d = self.get_account(who);
        if d.free < value {
            return Err(LedgerError::InsufficientBalance);
        }
        assert(old(self).free(who) + old(self).reserved(who) <= u64::MAX);
        self.set_account(who, AccountData { free: d.free - value, reserved: d.reserved + value });
        Ok(())
    }

    /// Moves up to `value` of `who`'s reservation back to its free funds.
    /// Returns the part of `value` that was not reserved.
    pub fn unreserve(&mut self, who: AccountId, value: Balance) -> (r: Balance)
        requires
            old(self).wf(),
        ensures
            final(self).wf(),
            ({
                let d = old(self).account(who);
                let actual = if d.reserved < value { d.reserved } else { value };
                &&& r == value - actual
                &&& final(self).is_update(
                    old(self),
                    who,
                    AccountData { free: (d.free + actual) as u64, reserved: (d.reserved - actual) as u64 },
                )
            }),
    {
        let d = self.get_account(who);
        let actual = if d.reserved < value { d.reserved } else { value };
        assert(old(self).free(who) + old(self).reserved(who) <= u64::MAX);
        self.set_account(who, AccountData { free: d.free + actual, reserved: d.reserved - actual });
        value - actual
    }

    /// Moves `value` of free funds from `from` to `to`. With `keep_alive`, the
    /// source must keep at least the existential deposit in total.
    pub fn transfer(&mut self, from: AccountId, to: AccountId, value: Balance, keep_alive: bool) -> (r: Result<(), LedgerError>)
        requires
            old(self).wf(),
        ensures
            final(self).wf(),
            r == old(self).transfer_outcome(from, to, value, keep_alive),
            r is Err || value == 0 || from == to ==> final(self).agrees_with(old(self)),
            r is Ok && value != 0 && from != to ==> {
                let f = old(self).account(from);
                let t = old(self).account(to);
                &&& final(self).account(from) == (AccountData { free: (f.free - value) as u64, reserved: f.reserved })
                &&& final(self).account(to) == (AccountData { free: (t.free + value) as u64, reserved: t.reserved })
                &&& forall|b: AccountId| b != from && b != to ==> #[trigger] final(self).account(b) == old(self).account(b)
                &&& final(self).min_balance() == old(self).min_balance()
            },
    {
        if value == 0 || from == to {
            return Ok(());
        }
        let f = self.get_account(from);
        let t = self.get_account(to);
        if f.free < value {
            return Err(LedgerError::InsufficientBalance);
        }
        assert(old(self).free(to) + old(self).reserved(to) <= u64::MAX);
        assert(old(self).free(from) + old(self).reserved(from) <= u64::MAX);
        if t.free > u64::MAX - value || t.reserved > u64::MAX - value - t.free {
            return Err(LedgerError::Overflow);
        }
        let ed = self.existential_deposit as u128;
        let to_total: u128 = (t.free + value) as u128 + t.reserved as u128;
        if to_total < ed {
            return Err(LedgerError::ExistentialDeposit);
        }
        let from_total: u128 = (f.free - value) as u128 + f.reserved as u128;
        if keep_alive && from_total < ed {
            return Err(LedgerError::KeepAlive);
        }
        self.set_account(from, AccountData { free: f.free - value, reserved: f.reserved });
        self.set_account(to, AccountData { free: t.free + value, reserved: t.reserved });
        Ok(())
    }
}

} // verus!
