//! The supply invariant: each recorded total equals the sum of the account
//! balances of its kind.
//!
//! Initialization zeroes the totals and leaves the accounts alone, so it
//! gives matching totals exactly when no account holds a balance. Every
//! other call keeps the totals matching, or mismatching, as it found them.

use crate::dispatch::{decode_call, execute_store, Opcode};
use crate::model::{
    booga_balance_key, booga_balance_of, claim_error, claimed, exchange_error, exchanged,
    initialized, lemma_claimed, lemma_exchanged, lemma_initialized, lemma_keys_distinct,
    ooga_balance_key, ooga_balance_of, total_booga, total_booga_key, total_ooga, total_ooga_key,
    StoreMap,
};
use crate::storage::{lemma_read_written, read_u128, write_u128};
use vstd::prelude::*;

verus! {

/// The sum of all values of a finite map.
pub open spec fn sum_values(balances: Map<Seq<char>, nat>) -> nat
    decreases balances.dom().len(),
    when balances.dom().finite()
{
    if balances.dom().len() == 0 {
        0
    } else {
        let address = balances.dom().choose();
        balances[address] + sum_values(balances.remove(address))
    }
}

/// The balances that `store` holds under keys that begin with `prefix`,
/// by the address that follows the prefix.
pub open spec fn balances(store: StoreMap, prefix: Seq<char>) -> Map<Seq<char>, nat> {
    Map::new(
        |address: Seq<char>| store.contains_key(prefix + address),
        |address: Seq<char>| read_u128(store, prefix + address) as nat,
    )
}

/// The OOGA balance of every account on record.
pub open spec fn ooga_balances(store: StoreMap) -> Map<Seq<char>, nat> {
    balances(store, "/ooga-balance/"@)
}

/// The BOOGA balance of every account on record.
pub open spec fn booga_balances(store: StoreMap) -> Map<Seq<char>, nat> {
    balances(store, "/booga-balance/"@)
}

/// The invariant: each total equals the sum of the balances of its kind.
pub open spec fn supply_matches(store: StoreMap) -> bool {
    &&& total_ooga(store) == sum_values(ooga_balances(store))
    &&& total_booga(store) == sum_values(booga_balances(store))
}

/// Whether no account holds a balance of either kind.
pub open spec fn no_balances(store: StoreMap) -> bool {
    forall|address: Seq<char>|
        #![trigger ooga_balance_of(store, address)]
        #![trigger booga_balance_of(store, address)]
        ooga_balance_of(store, address) == 0 && booga_balance_of(store, address) == 0
}

/// The store after the calls of `calls` have been served in order.
pub open spec fn run(store: StoreMap, calls: Seq<Seq<Seq<char>>>) -> StoreMap
    decreases calls.len(),
{
    if calls.len() == 0 {
        store
    } else {
        execute_store(run(store, calls.drop_last()), calls.last())
    }
}

/// Whether `inputs` is a well-formed call for initialization.
pub open spec fn is_initialize(inputs: Seq<Seq<char>>) -> bool {
    decode_call(inputs) matches Ok(call) && call.0 == Opcode::Initialize
}

/// A sum splits at any of its keys.
pub proof fn lemma_sum_remove(balances: Map<Seq<char>, nat>, address: Seq<char>)
    requires
        balances.dom().finite(),
        balances.contains_key(address),
    ensures
        sum_values(balances) == balances[address] + sum_values(balances.remove(address)),
    decreases balances.dom().len(),
{
    let chosen = balances.dom().choose();
    if chosen != address {
        lemma_sum_remove(balances.remove(chosen), address);
        lemma_sum_remove(balances.remove(address), chosen);
        assert(balances.remove(chosen).remove(address) =~= balances.remove(address).remove(
            chosen,
        ));
    }
}

/// Setting one value moves the sum by the difference to the old value,
/// where an absent key counts as zero.
pub proof fn lemma_sum_insert(balances: Map<Seq<char>, nat>, address: Seq<char>, value: nat)
    requires
        balances.dom().finite(),
    ensures
        sum_values(balances.insert(address, value)) + (if balances.contains_key(address) {
            balances[address]
        } else {
            0
        }) == sum_values(balances) + value,
{
    let after = balances.insert(address, value);
    lemma_sum_remove(after, address);
    assert(after.remove(address) =~= balances.remove(address));
    if balances.contains_key(address) {
        lemma_sum_remove(balances, address);
    } else {
        assert(balances.remove(address) =~= balances);
    }
}

/// A sum is zero exactly when every value is.
pub proof fn lemma_sum_zero(balances: Map<Seq<char>, nat>)
    requires
        balances.dom().finite(),
    ensures
        sum_values(balances) == 0 <==> forall|address: Seq<char>|
            balances.contains_key(address) ==> #[trigger] balances[address] == 0,
    decreases balances.dom().len(),
{
    if balances.dom().len() > 0 {
        let chosen = balances.dom().choose();
        let rest = balances.remove(chosen);
        lemma_sum_zero(rest);
        if sum_values(balances) == 0 {
            assert forall|address: Seq<char>| balances.contains_key(address) implies #[trigger]
                balances[address] == 0 by {
                if address != chosen {
                    assert(rest.contains_key(address));
                    assert(rest[address] == 0);
                }
            }
        }
        if forall|address: Seq<char>|
            balances.contains_key(address) ==> #[trigger] balances[address] == 0 {
            assert(balances[chosen] == 0);
            assert forall|address: Seq<char>| rest.contains_key(address) implies #[trigger]
                rest[address] == 0 by {
                assert(balances[address] == 0);
            }
        }
    } else {
        assert forall|address: Seq<char>| balances.contains_key(address) implies #[trigger]
            balances[address] == 0 by {
            assert(balances.dom().contains(address));
            assert(balances.dom().len() > 0) by {
                vstd::set_lib::lemma_set_empty_equivalency_len(balances.dom());
            }
        }
    }
}

/// A finite store records finitely many accounts.
pub proof fn lemma_balances_finite(store: StoreMap, prefix: Seq<char>)
    requires
        store.dom().finite(),
    ensures
        balances(store, prefix).dom().finite(),
{
    let strip = |key: Seq<char>| key.skip(prefix.len() as int);
    store.dom().lemma_map_finite(strip);
    let image = store.dom().map(strip);
    assert forall|address: Seq<char>| balances(store, prefix).dom().contains(
        address,
    ) implies image.contains(address) by {
        let key = prefix + address;
        assert(store.dom().contains(key));
        assert(strip(key) =~= address);
    }
    vstd::set_lib::lemma_set_subset_finite(image, balances(store, prefix).dom());
}

/// Writing under a key that does not begin with `prefix` changes no
/// balance kept under `prefix`.
pub proof fn lemma_balances_write_outside(
    store: StoreMap,
    prefix: Seq<char>,
    key: Seq<char>,
    value: u128,
)
    requires
        forall|address: Seq<char>| key != #[trigger] (prefix + address),
    ensures
        balances(write_u128(store, key, value), prefix) == balances(store, prefix),
{
    let after = write_u128(store, key, value);
    assert forall|address: Seq<char>|
        balances(after, prefix).contains_key(address) == balances(store, prefix).contains_key(
            address,
        ) by {
        assert(key != prefix + address);
    }
    assert forall|address: Seq<char>| balances(store, prefix).contains_key(address) implies balances(
        after,
        prefix,
    )[address] == balances(store, prefix)[address] by {
        assert(key != prefix + address);
    }
    assert(balances(after, prefix) =~= balances(store, prefix));
}

/// Writing the balance of `address` sets that one balance.
pub proof fn lemma_balances_write_inside(
    store: StoreMap,
    prefix: Seq<char>,
    address: Seq<char>,
    value: u128,
)
    ensures
        balances(write_u128(store, prefix + address, value), prefix) == balances(
            store,
            prefix,
        ).insert(address, value as nat),
{
    let after = write_u128(store, prefix + address, value);
    let expected = balances(store, prefix).insert(address, value as nat);
    lemma_read_written(store, prefix + address, value);
    assert forall|other: Seq<char>| other != address implies prefix + other != prefix
        + address by {
        assert((prefix + other).skip(prefix.len() as int) =~= other);
        assert((prefix + address).skip(prefix.len() as int) =~= address);
    }
    assert forall|other: Seq<char>|
        balances(after, prefix).contains_key(other) == expected.contains_key(other) by {
        if other != address {
            assert(prefix + other != prefix + address);
        }
    }
    assert forall|other: Seq<char>| expected.contains_key(other) implies balances(after, prefix)[other]
        == expected[other] by {
        if other != address {
            assert(prefix + other != prefix + address);
        }
    }
    assert(balances(after, prefix) =~= expected);
}

/// Writing the balance of `address` moves the sum of the balances under
/// `prefix` by the difference to the balance it held.
pub proof fn lemma_sum_write_inside(
    store: StoreMap,
    prefix: Seq<char>,
    address: Seq<char>,
    value: u128,
)
    requires
        store.dom().finite(),
    ensures
        sum_values(balances(write_u128(store, prefix + address, value), prefix)) + read_u128(
            store,
            prefix + address,
        ) == sum_values(balances(store, prefix)) + value,
{
    lemma_balances_finite(store, prefix);
    lemma_balances_write_inside(store, prefix, address, value);
    lemma_sum_insert(balances(store, prefix), address, value as nat);
}

/// Neither total is stored under an account key, and no account key of one
/// kind is an account key of the other.
proof fn lemma_keys_apart(address: Seq<char>)
    ensures
        forall|other: Seq<char>| total_ooga_key() != #[trigger] ("/ooga-balance/"@ + other),
        forall|other: Seq<char>| total_ooga_key() != #[trigger] ("/booga-balance/"@ + other),
        forall|other: Seq<char>| total_booga_key() != #[trigger] ("/ooga-balance/"@ + other),
        forall|other: Seq<char>| total_booga_key() != #[trigger] ("/booga-balance/"@ + other),
        forall|other: Seq<char>|
            ooga_balance_key(address) != #[trigger] ("/booga-balance/"@ + other),
        forall|other: Seq<char>|
            booga_balance_key(address) != #[trigger] ("/ooga-balance/"@ + other),
{
    assert forall|other: Seq<char>| total_ooga_key() != #[trigger] ("/ooga-balance/"@ + other) by {
        lemma_keys_distinct(other, other);
    }
    assert forall|other: Seq<char>| total_ooga_key() != #[trigger] ("/booga-balance/"@ + other) by {
        lemma_keys_distinct(other, other);
    }
    assert forall|other: Seq<char>| total_booga_key() != #[trigger] ("/ooga-balance/"@ + other) by {
        lemma_keys_distinct(other, other);
    }
    assert forall|other: Seq<char>| total_booga_key() != #[trigger] ("/booga-balance/"@
        + other) by {
        lemma_keys_distinct(other, other);
    }
    assert forall|other: Seq<char>|
        ooga_balance_key(address) != #[trigger] ("/booga-balance/"@ + other) by {
        lemma_keys_distinct(address, other);
    }
    assert forall|other: Seq<char>|
        booga_balance_key(address) != #[trigger] ("/ooga-balance/"@ + other) by {
        lemma_keys_distinct(other, address);
    }
}

/// Initialization leaves every account balance, and so both sums.
pub proof fn lemma_initialized_balances(store: StoreMap)
    ensures
        ooga_balances(initialized(store)) == ooga_balances(store),
        booga_balances(initialized(store)) == booga_balances(store),
{
    lemma_keys_apart(Seq::empty());
    let first = write_u128(store, total_ooga_key(), 0);
    lemma_balances_write_outside(store, "/ooga-balance/"@, total_ooga_key(), 0);
    lemma_balances_write_outside(first, "/ooga-balance/"@, total_booga_key(), 0);
    lemma_balances_write_outside(store, "/booga-balance/"@, total_ooga_key(), 0);
    lemma_balances_write_outside(first, "/booga-balance/"@, total_booga_key(), 0);
}

/// No account holds a balance exactly when both sums are zero.
pub proof fn lemma_no_balances(store: StoreMap)
    requires
        store.dom().finite(),
    ensures
        no_balances(store) <==> sum_values(ooga_balances(store)) == 0 && sum_values(
            booga_balances(store),
        ) == 0,
{
    lemma_balances_finite(store, "/ooga-balance/"@);
    lemma_balances_finite(store, "/booga-balance/"@);
    lemma_sum_zero(ooga_balances(store));
    lemma_sum_zero(booga_balances(store));
    if no_balances(store) {
        assert forall|address: Seq<char>|
            ooga_balances(store).contains_key(address) implies #[trigger] ooga_balances(
            store,
        )[address] == 0 by {
            assert(ooga_balance_of(store, address) == 0);
        }
        assert forall|address: Seq<char>|
            booga_balances(store).contains_key(address) implies #[trigger] booga_balances(
            store,
        )[address] == 0 by {
            assert(booga_balance_of(store, address) == 0);
        }
    }
    if sum_values(ooga_balances(store)) == 0 && sum_values(booga_balances(store)) == 0 {
        assert forall|address: Seq<char>|
            #![trigger ooga_balance_of(store, address)]
            #![trigger booga_balance_of(store, address)]
            ooga_balance_of(store, address) == 0 && booga_balance_of(store, address) == 0 by {
            if store.contains_key(ooga_balance_key(address)) {
                assert(ooga_balances(store).contains_key(address));
                assert(ooga_balances(store)[address] == 0);
            }
            if store.contains_key(booga_balance_key(address)) {
                assert(booga_balances(store).contains_key(address));
                assert(booga_balances(store)[address] == 0);
            }
        }
    }
}

/// Law: initialization gives matching totals exactly when no account holds
/// a balance.
pub proof fn lemma_initialize_matches(store: StoreMap)
    requires
        store.dom().finite(),
    ensures
        supply_matches(initialized(store)) <==> no_balances(store),
{
    lemma_initialized(store, Seq::empty());
    lemma_initialized_balances(store);
    lemma_no_balances(store);
}

/// Law: a claim that succeeds moves the total OOGA supply and the sum of the
/// OOGA balances by one each, and leaves the BOOGA side.
pub proof fn lemma_claim_keeps_supply(store: StoreMap, address: Seq<char>)
    requires
        store.dom().finite(),
        claim_error(store, address) is None,
    ensures
        sum_values(ooga_balances(claimed(store, address))) == sum_values(ooga_balances(store))
            + 1,
        sum_values(booga_balances(claimed(store, address))) == sum_values(booga_balances(store)),
        supply_matches(claimed(store, address)) <==> supply_matches(store),
{
    lemma_keys_apart(address);
    lemma_claimed(store, address, address);
    let total = (total_ooga(store) + 1) as u128;
    let balance = (ooga_balance_of(store, address) + 1) as u128;
    let first = write_u128(store, total_ooga_key(), total);
    lemma_balances_write_outside(store, "/ooga-balance/"@, total_ooga_key(), total);
    lemma_balances_write_outside(store, "/booga-balance/"@, total_ooga_key(), total);
    lemma_balances_write_outside(first, "/booga-balance/"@, ooga_balance_key(address), balance);
    lemma_sum_write_inside(first, "/ooga-balance/"@, address, balance);
    lemma_keys_distinct(address, address);
    assert(read_u128(first, ooga_balance_key(address)) == ooga_balance_of(store, address));
}

/// Law: an exchange that succeeds moves one unit from the OOGA side to the
/// BOOGA side, in the totals and in the sums of the balances alike.
pub proof fn lemma_exchange_keeps_supply(store: StoreMap, address: Seq<char>)
    requires
        store.dom().finite(),
        exchange_error(store, address) is None,
    ensures
        sum_values(ooga_balances(exchanged(store, address))) + 1 == sum_values(
            ooga_balances(store),
        ),
        sum_values(booga_balances(exchanged(store, address))) == sum_values(
            booga_balances(store),
        ) + 1,
        supply_matches(exchanged(store, address)) <==> supply_matches(store),
{
    lemma_keys_apart(address);
    lemma_exchanged(store, address, address);
    lemma_keys_distinct(address, address);
    let ooga = (ooga_balance_of(store, address) - 1) as u128;
    let booga = (booga_balance_of(store, address) + 1) as u128;
    let supply_ooga = (total_ooga(store) - 1) as u128;
    let supply_booga = (total_booga(store) + 1) as u128;
    let first = write_u128(store, ooga_balance_key(address), ooga);
    let second = write_u128(first, booga_balance_key(address), booga);
    let third = write_u128(second, total_ooga_key(), supply_ooga);
    lemma_sum_write_inside(store, "/ooga-balance/"@, address, ooga);
    lemma_balances_write_outside(store, "/booga-balance/"@, ooga_balance_key(address), ooga);
    lemma_balances_write_outside(first, "/ooga-balance/"@, booga_balance_key(address), booga);
    lemma_sum_write_inside(first, "/booga-balance/"@, address, booga);
    assert(read_u128(first, booga_balance_key(address)) == booga_balance_of(store, address));
    lemma_balances_write_outside(second, "/ooga-balance/"@, total_ooga_key(), supply_ooga);
    lemma_balances_write_outside(second, "/booga-balance/"@, total_ooga_key(), supply_ooga);
    lemma_balances_write_outside(third, "/ooga-balance/"@, total_booga_key(), supply_booga);
    lemma_balances_write_outside(third, "/booga-balance/"@, total_booga_key(), supply_booga);
}

/// A call leaves a finite store finite.
pub proof fn lemma_execute_finite(store: StoreMap, inputs: Seq<Seq<char>>)
    requires
        store.dom().finite(),
    ensures
        execute_store(store, inputs).dom().finite(),
{
}

/// Any number of calls leave a finite store finite.
pub proof fn lemma_run_finite(store: StoreMap, calls: Seq<Seq<Seq<char>>>)
    requires
        store.dom().finite(),
    ensures
        run(store, calls).dom().finite(),
    decreases calls.len(),
{
    if calls.len() > 0 {
        lemma_run_finite(store, calls.drop_last());
        lemma_execute_finite(run(store, calls.drop_last()), calls.last());
    }
}

/// Law: what one call does to the invariant. A call of initialization gives
/// matching totals exactly when no account holds a balance; after any other
/// call, failed ones included, the totals match exactly when they matched
/// before.
pub proof fn lemma_execute_supply(store: StoreMap, inputs: Seq<Seq<char>>)
    requires
        store.dom().finite(),
    ensures
        supply_matches(execute_store(store, inputs)) <==> if is_initialize(inputs) {
            no_balances(store)
        } else {
            supply_matches(store)
        },
{
    match decode_call(inputs) {
        Err(_) => {},
        Ok((opcode, address)) => {
            match opcode {
                Opcode::Initialize => {
                    lemma_initialize_matches(store);
                },
                Opcode::ClaimOoga => {
                    if claim_error(store, address) is None {
                        lemma_claim_keeps_supply(store, address);
                    }
                },
                Opcode::ExchangeOogaForBooga => {
                    if exchange_error(store, address) is None {
                        lemma_exchange_keeps_supply(store, address);
                    }
                },
                _ => {},
            }
        },
    }
}

/// Law: the invariant over whole histories. Take any finite store and any
/// list of calls that begins with initialization, in which every
/// initialization finds no account holding a balance. After all of them,
/// each total equals the sum of the balances of its kind.
pub proof fn lemma_supply_matches_after_calls(store: StoreMap, calls: Seq<Seq<Seq<char>>>)
    requires
        store.dom().finite(),
        calls.len() > 0,
        is_initialize(calls[0]),
        forall|i: int|
            0 <= i < calls.len() && is_initialize(#[trigger] calls[i]) ==> no_balances(
                run(store, calls.take(i)),
            ),
    ensures
        supply_matches(run(store, calls)),
    decreases calls.len(),
{
    let before = calls.drop_last();
    let last = calls.len() - 1;
    assert(calls.take(last) =~= before);
    assert(calls.last() == calls[last]);
    lemma_run_finite(store, before);
    lemma_execute_supply(run(store, before), calls.last());
    if !is_initialize(calls.last()) {
        assert(before.len() > 0);
        assert(before[0] == calls[0]);
        assert forall|i: int| 0 <= i < before.len() && is_initialize(#[trigger] before[i]) implies no_balances(
        run(store, before.take(i))) by {
            assert(before[i] == calls[i]);
            assert(before.take(i) =~= calls.take(i));
        }
        lemma_supply_matches_after_calls(store, before);
    }
}

} // verus!
