//! The ledger as mathematics: where each counter lives in the store and
//! what each operation does to the store's view.

use crate::error::LedgerError;
use crate::storage::{lemma_read_other, lemma_read_written, read_u128, write_u128};
use vstd::prelude::*;

verus! {

/// The view of a store: key characters to value bytes.
pub type StoreMap = Map<Seq<char>, Seq<u8>>;

/// The key under which the OOGA balance of `address` is stored.
pub open spec fn ooga_balance_key(address: Seq<char>) -> Seq<char> {
    "/ooga-balance/"@ + address
}

/// The key under which the BOOGA balance of `address` is stored.
pub open spec fn booga_balance_key(address: Seq<char>) -> Seq<char> {
    "/booga-balance/"@ + address
}

/// The key under which the total OOGA supply is stored.
pub open spec fn total_ooga_key() -> Seq<char> {
    "/total-ooga"@
}

/// The key under which the total BOOGA supply is stored.
pub open spec fn total_booga_key() -> Seq<char> {
    "/total-booga"@
}

/// The OOGA balance that `store` records for `address`.
pub open spec fn ooga_balance_of(store: StoreMap, address: Seq<char>) -> u128 {
    read_u128(store, ooga_balance_key(address))
}

/// The BOOGA balance that `store` records for `address`.
pub open spec fn booga_balance_of(store: StoreMap, address: Seq<char>) -> u128 {
    read_u128(store, booga_balance_key(address))
}

/// The total OOGA supply that `store` records.
pub open spec fn total_ooga(store: StoreMap) -> u128 {
    read_u128(store, total_ooga_key())
}

/// The total BOOGA supply that `store` records.
pub open spec fn total_booga(store: StoreMap) -> u128 {
    read_u128(store, total_booga_key())
}

/// The store after initialization: both totals are zero, nothing else moves.
pub open spec fn initialized(store: StoreMap) -> StoreMap {
    write_u128(write_u128(store, total_ooga_key(), 0), total_booga_key(), 0)
}

/// Why a claim for `address` fails on `store`, if it does: the balance or
/// the total supply is already the largest 128-bit number.
pub open spec fn claim_error(store: StoreMap, address: Seq<char>) -> Option<LedgerError> {
    if ooga_balance_of(store, address) == u128::MAX || total_ooga(store) == u128::MAX {
        Some(LedgerError::BalanceOverflow)
    } else {
        None
    }
}

/// The store after one OOGA has been minted to `address`.
pub open spec fn claimed(store: StoreMap, address: Seq<char>) -> StoreMap {
    write_u128(
        write_u128(store, total_ooga_key(), (total_ooga(store) + 1) as u128),
        ooga_balance_key(address),
        (ooga_balance_of(store, address) + 1) as u128,
    )
}

/// Why an exchange for `address` fails on `store`, if it does. There must
/// be an OOGA to take, from the account and from the total supply; and
/// there must be room for one more BOOGA, in the account and in the total.
pub open spec fn exchange_error(store: StoreMap, address: Seq<char>) -> Option<LedgerError> {
    if ooga_balance_of(store, address) < 1 || total_ooga(store) < 1 {
        Some(LedgerError::InsufficientBalance)
    } else if booga_balance_of(store, address) == u128::MAX || total_booga(store) == u128::MAX {
        Some(LedgerError::BalanceOverflow)
    } else {
        None
    }
}

/// The store after one OOGA of `address` has become one BOOGA.
pub open spec fn exchanged(store: StoreMap, address: Seq<char>) -> StoreMap {
    write_u128(
        write_u128(
            write_u128(
                write_u128(
                    store,
                    ooga_balance_key(address),
                    (ooga_balance_of(store, address) - 1) as u128,
                ),
                booga_balance_key(address),
                (booga_balance_of(store, address) + 1) as u128,
            ),
            total_ooga_key(),
            (total_ooga(store) - 1) as u128,
        ),
        total_booga_key(),
        (total_booga(store) + 1) as u128,
    )
}

/// The four kinds of key never coincide, and an account's key determines
/// its address.
pub proof fn lemma_keys_distinct(a: Seq<char>, b: Seq<char>)
    ensures
        total_ooga_key() != total_booga_key(),
        ooga_balance_key(a) != total_ooga_key(),
        ooga_balance_key(a) != total_booga_key(),
        booga_balance_key(a) != total_ooga_key(),
        booga_balance_key(a) != total_booga_key(),
        ooga_balance_key(a) != booga_balance_key(b),
        ooga_balance_key(a) == ooga_balance_key(b) ==> a == b,
        booga_balance_key(a) == booga_balance_key(b) ==> a == b,
{
    reveal_strlit("/ooga-balance/");
    reveal_strlit("/booga-balance/");
    reveal_strlit("/total-ooga");
    reveal_strlit("/total-booga");
    assert(total_ooga_key().len() != total_booga_key().len());
    assert(ooga_balance_key(a)[1] == 'o');
    assert(ooga_balance_key(b)[1] == 'o');
    assert(booga_balance_key(a)[1] == 'b');
    assert(booga_balance_key(b)[1] == 'b');
    assert(total_ooga_key()[1] == 't');
    assert(total_booga_key()[1] == 't');
    if ooga_balance_key(a) == ooga_balance_key(b) {
        assert(a =~= ooga_balance_key(a).skip(14));
        assert(b =~= ooga_balance_key(b).skip(14));
    }
    if booga_balance_key(a) == booga_balance_key(b) {
        assert(a =~= booga_balance_key(a).skip(15));
        assert(b =~= booga_balance_key(b).skip(15));
    }
}

/// What initialization changes and what it leaves: both totals read zero
/// afterwards, and every account keeps both balances.
pub proof fn lemma_initialized(store: StoreMap, other: Seq<char>)
    ensures
        total_ooga(initialized(store)) == 0,
        total_booga(initialized(store)) == 0,
        ooga_balance_of(initialized(store), other) == ooga_balance_of(store, other),
        booga_balance_of(initialized(store), other) == booga_balance_of(store, other),
{
    lemma_keys_distinct(other, other);
    let first = write_u128(store, total_ooga_key(), 0);
    lemma_read_written(store, total_ooga_key(), 0);
    lemma_read_written(first, total_booga_key(), 0);
    lemma_read_other(first, total_booga_key(), 0, total_ooga_key());
}

/// What a claim changes and what it leaves. The account's OOGA balance and
/// the total OOGA supply each grow by exactly one; the BOOGA side and every
/// other account stay as they were.
pub proof fn lemma_claimed(store: StoreMap, address: Seq<char>, other: Seq<char>)
    requires
        claim_error(store, address) is None,
    ensures
        ooga_balance_of(claimed(store, address), address) == ooga_balance_of(store, address) + 1,
        total_ooga(claimed(store, address)) == total_ooga(store) + 1,
        total_booga(claimed(store, address)) == total_booga(store),
        booga_balance_of(claimed(store, address), other) == booga_balance_of(store, other),
        other != address ==> ooga_balance_of(claimed(store, address), other) == ooga_balance_of(
            store,
            other,
        ),
{
    lemma_keys_distinct(address, other);
    lemma_keys_distinct(other, address);
    let total = (total_ooga(store) + 1) as u128;
    let balance = (ooga_balance_of(store, address) + 1) as u128;
    let first = write_u128(store, total_ooga_key(), total);
    lemma_read_written(store, total_ooga_key(), total);
    lemma_read_written(first, ooga_balance_key(address), balance);
    lemma_read_other(first, ooga_balance_key(address), balance, total_ooga_key());
}

/// What an exchange changes and what it leaves. One OOGA leaves the account
/// and the total supply, one BOOGA enters the account and the total supply,
/// so the two totals together stay the same; every other account stays as
/// it was.
pub proof fn lemma_exchanged(store: StoreMap, address: Seq<char>, other: Seq<char>)
    requires
        exchange_error(store, address) is None,
    ensures
        ooga_balance_of(exchanged(store, address), address) == ooga_balance_of(store, address) - 1,
        booga_balance_of(exchanged(store, address), address) == booga_balance_of(store, address)
            + 1,
        total_ooga(exchanged(store, address)) == total_ooga(store) - 1,
        total_booga(exchanged(store, address)) == total_booga(store) + 1,
        total_ooga(exchanged(store, address)) + total_booga(exchanged(store, address))
            == total_ooga(store) + total_booga(store),
        other != address ==> ooga_balance_of(exchanged(store, address), other) == ooga_balance_of(
            store,
            other,
        ),
        other != address ==> booga_balance_of(exchanged(store, address), other)
            == booga_balance_of(store, other),
{
    lemma_keys_distinct(address, other);
    lemma_keys_distinct(other, address);
    lemma_keys_distinct(address, address);
    let ooga = (ooga_balance_of(store, address) - 1) as u128;
    let booga = (booga_balance_of(store, address) + 1) as u128;
    let supply_ooga = (total_ooga(store) - 1) as u128;
    let supply_booga = (total_booga(store) + 1) as u128;
    let first = write_u128(store, ooga_balance_key(address), ooga);
    let second = write_u128(first, booga_balance_key(address), booga);
    let third = write_u128(second, total_ooga_key(), supply_ooga);
    lemma_read_written(store, ooga_balance_key(address), ooga);
    lemma_read_written(first, booga_balance_key(address), booga);
    lemma_read_written(second, total_ooga_key(), supply_ooga);
    lemma_read_written(third, total_booga_key(), supply_booga);
}

} // verus!
