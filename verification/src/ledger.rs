//! The ledger contract: typed accessors over the store, and the operations
//! that mint and exchange.

use crate::error::LedgerError;
use crate::model::{
    booga_balance_key, booga_balance_of, claim_error, claimed, exchange_error, exchanged,
    initialized, lemma_claimed, lemma_exchanged, lemma_initialized, ooga_balance_key,
    ooga_balance_of, total_booga, total_booga_key, total_ooga, total_ooga_key, StoreMap,
};
use crate::storage::{write_u128, Storage, StoragePointer};
use vstd::prelude::*;
use vstd::string::StringExecFns;

verus! {

/// The key under which the OOGA balance of `address` is stored.
pub fn ooga_balance_keyword(address: &str) -> (key: String)
    ensures
        key@ == ooga_balance_key(address@),
{
    let mut key = String::from_str("/ooga-balance/");
    key.append(address);
    key
}

/// The key under which the BOOGA balance of `address` is stored.
pub fn booga_balance_keyword(address: &str) -> (key: String)
    ensures
        key@ == booga_balance_key(address@),
{
    let mut key = String::from_str("/booga-balance/");
    key.append(address);
    key
}

/// The key under which the total OOGA supply is stored.
pub fn total_ooga_keyword() -> (key: String)
    ensures
        key@ == total_ooga_key(),
{
    String::from_str("/total-ooga")
}

/// The key under which the total BOOGA supply is stored.
pub fn total_booga_keyword() -> (key: String)
    ensures
        key@ == total_booga_key(),
{
    String::from_str("/total-booga")
}

/// The ledger, together with the store it keeps its counters in.
pub struct OogaBoogaContract {
    storage: Storage,
}

impl View for OogaBoogaContract {
    type V = StoreMap;

    closed spec fn view(&self) -> StoreMap {
        self.storage@
    }
}

impl Default for OogaBoogaContract {
    /// A ledger over an empty store: every counter reads zero.
    fn default() -> (contract: Self)
        ensures
            contract@ == StoreMap::empty(),
    {
        OogaBoogaContract { storage: Storage::new() }
    }
}

impl OogaBoogaContract {
    /// A ledger over the given store.
    pub fn new(storage: Storage) -> (contract: Self)
        ensures
            contract@ == storage@,
    {
        OogaBoogaContract { storage }
    }

    /// The store as the ledger has left it.
    pub fn storage(&self) -> (storage: &Storage)
        ensures
            storage@ == self@,
    {
        &self.storage
    }

    /// Gives up the ledger for its store.
    pub fn into_storage(self) -> (storage: Storage)
        ensures
            storage@ == self@,
    {
        self.storage
    }

    /// A ledger holds finitely many keys.
    pub proof fn lemma_finite(self)
        ensures
            self@.dom().finite(),
    {
        self.storage.lemma_finite();
    }

    /// The pointer to the OOGA balance of `address`.
    pub fn ooga_balance_pointer(&self, address: &str) -> (pointer: StoragePointer)
        ensures
            pointer@ == ooga_balance_key(address@),
    {
        StoragePointer::from_keyword(ooga_balance_keyword(address).as_str())
    }

    /// The pointer to the BOOGA balance of `address`.
    pub fn booga_balance_pointer(&self, address: &str) -> (pointer: StoragePointer)
        ensures
            pointer@ == booga_balance_key(address@),
    {
        StoragePointer::from_keyword(booga_balance_keyword(address).as_str())
    }

    /// The pointer to the total OOGA supply.
    pub fn total_ooga_pointer(&self) -> (pointer: StoragePointer)
        ensures
            pointer@ == total_ooga_key(),
    {
        StoragePointer::from_keyword(total_ooga_keyword().as_str())
    }

    /// The pointer to the total BOOGA supply.
    pub fn total_booga_pointer(&self) -> (pointer: StoragePointer)
        ensures
            pointer@ == total_booga_key(),
    {
        StoragePointer::from_keyword(total_booga_keyword().as_str())
    }

    /// The OOGA balance of `address`; zero for an account never written.
    pub fn ooga_balance_of(&self, address: &str) -> (balance: u128)
        ensures
            balance == ooga_balance_of(self@, address@),
    {
        self.ooga_balance_pointer(address).get_value(&self.storage)
    }

    /// The BOOGA balance of `address`; zero for an account never written.
    pub fn booga_balance_of(&self, address: &str) -> (balance: u128)
        ensures
            balance == booga_balance_of(self@, address@),
    {
        self.booga_balance_pointer(address).get_value(&self.storage)
    }

    /// The total OOGA supply on record.
    pub fn total_ooga(&self) -> (total: u128)
        ensures
            total == total_ooga(self@),
    {
        self.total_ooga_pointer().get_value(&self.storage)
    }

    /// The total BOOGA supply on record.
    pub fn total_booga(&self) -> (total: u128)
        ensures
            total == total_booga(self@),
    {
        self.total_booga_pointer().get_value(&self.storage)
    }

    /// Records `amount` as the OOGA balance of `address`.
    pub fn set_ooga_balance(&mut self, address: &str, amount: u128)
        ensures
            final(self)@ == write_u128(old(self)@, ooga_balance_key(address@), amount),
    {
        let pointer = self.ooga_balance_pointer(address);
        pointer.set_value(&mut self.storage, amount);
    }

    /// Records `amount` as the BOOGA balance of `address`.
    pub fn set_booga_balance(&mut self, address: &str, amount: u128)
        ensures
            final(self)@ == write_u128(old(self)@, booga_balance_key(address@), amount),
    {
        let pointer = self.booga_balance_pointer(address);
        pointer.set_value(&mut self.storage, amount);
    }

    /// Records `amount` as the total OOGA supply.
    pub fn set_total_ooga(&mut self, amount: u128)
        ensures
            final(self)@ == write_u128(old(self)@, total_ooga_key(), amount),
    {
        let pointer = self.total_ooga_pointer();
        pointer.set_value(&mut self.storage, amount);
    }

    /// Records `amount` as the total BOOGA supply.
    pub fn set_total_booga(&mut self, amount: u128)
        ensures
            final(self)@ == write_u128(old(self)@, total_booga_key(), amount),
    {
        let pointer = self.total_booga_pointer();
        pointer.set_value(&mut self.storage, amount);
    }

    /// Sets both totals to zero. Account balances are not touched: where
    /// some account holds a balance, the totals no longer equal the sums of
    /// the balances afterwards, and stay apart from them until they are set
    /// again (see `supply::lemma_initialize_matches`).
    pub fn initialize(&mut self)
        ensures
            final(self)@ == initialized(old(self)@),
            total_ooga(final(self)@) == 0,
            total_booga(final(self)@) == 0,
    {
        proof {
            lemma_initialized(self@, Seq::empty());
        }
        self.set_total_ooga(0);
        self.set_total_booga(0);
    }

    /// Mints one OOGA to `address`.
    ///
    /// Fails with `BalanceOverflow`, writing nothing, where the account's
    /// balance or the total supply cannot grow. Otherwise both grow by
    /// exactly one and nothing else changes.
    pub fn claim_ooga(&mut self, address: &str) -> (result: Result<(), LedgerError>)
        ensures
            match result {
                Ok(()) => claim_error(old(self)@, address@) is None && final(self)@ == claimed(
                    old(self)@,
                    address@,
                ),
                Err(error) => claim_error(old(self)@, address@) == Some(error) && final(self)@
                    == old(self)@,
            },
            result is Ok ==> ooga_balance_of(final(self)@, address@) == ooga_balance_of(
                old(self)@,
                address@,
            ) + 1,
            result is Ok ==> total_ooga(final(self)@) == total_ooga(old(self)@) + 1,
    {
        let current_balance = self.ooga_balance_of(address);
        let total_ooga = self.total_ooga();
        let new_balance = match current_balance.checked_add(1) {
            Some(sum) => sum,
            None => {
                return Err(LedgerError::BalanceOverflow);
            },
        };
        let new_total = match total_ooga.checked_add(1) {
            Some(sum) => sum,
            None => {
                return Err(LedgerError::BalanceOverflow);
            },
        };
        proof {
            lemma_claimed(self@, address@, address@);
        }
        self.set_total_ooga(new_total);
        self.set_ooga_balance(address, new_balance);
        Ok(())
    }

    /// Turns one OOGA of `address` into one BOOGA.
    ///
    /// All four counters are read before any is written. Fails with
    /// `InsufficientBalance` where the account or the total supply holds no
    /// OOGA, and with `BalanceOverflow` where the account's BOOGA balance or
    /// the total BOOGA supply cannot grow; a failed exchange writes nothing.
    /// Otherwise the four counters move by exactly one each and the sum of
    /// the two totals stays what it was.
    pub fn exchange_ooga_for_booga(&mut self, address: &str) -> (result: Result<(), LedgerError>)
        ensures
            match result {
                Ok(()) => exchange_error(old(self)@, address@) is None && final(self)@
                    == exchanged(old(self)@, address@),
                Err(error) => exchange_error(old(self)@, address@) == Some(error) && final(self)@
                    == old(self)@,
            },
            result is Ok ==> ooga_balance_of(final(self)@, address@) == ooga_balance_of(
                old(self)@,
                address@,
            ) - 1,
            result is Ok ==> booga_balance_of(final(self)@, address@) == booga_balance_of(
                old(self)@,
                address@,
            ) + 1,
            result is Ok ==> total_ooga(final(self)@) == total_ooga(old(self)@) - 1,
            result is Ok ==> total_booga(final(self)@) == total_booga(old(self)@) + 1,
            total_ooga(final(self)@) + total_booga(final(self)@) == total_ooga(old(self)@)
                + total_booga(old(self)@),
    {
        let ooga_balance = self.ooga_balance_of(address);
        let booga_balance = self.booga_balance_of(address);
        let total_ooga = self.total_ooga();
        let total_booga = self.total_booga();
        if ooga_balance < 1 || total_ooga < 1 {
            return Err(LedgerError::InsufficientBalance);
        }
        if booga_balance == u128::MAX || total_booga == u128::MAX {
            return Err(LedgerError::BalanceOverflow);
        }
        proof {
            lemma_exchanged(self@, address@, address@);
        }
        self.set_ooga_balance(address, ooga_balance - 1);
        self.set_booga_balance(address, booga_balance + 1);
        self.set_total_ooga(total_ooga - 1);
        self.set_total_booga(total_booga + 1);
        Ok(())
    }
}

} // verus!
