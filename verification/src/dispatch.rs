//! The single entry point: an ordered list of input tokens selects one
//! ledger operation, which answers with a payload or fails.

use crate::codec::{encode_u128, u128_to_le_bytes};
use crate::error::LedgerError;
use crate::ledger::{
    booga_balance_keyword, ooga_balance_keyword, total_booga_keyword, total_ooga_keyword,
    OogaBoogaContract,
};
use crate::model::{
    booga_balance_key, booga_balance_of, claim_error, claimed, exchange_error, exchanged,
    initialized, lemma_keys_distinct, ooga_balance_key, ooga_balance_of, total_booga,
    total_booga_key, total_ooga, total_ooga_key, StoreMap,
};
use vstd::prelude::*;
use vstd::slice::slice_to_vec;
use vstd::string::is_ascii_spec_bytes;

verus! {

/// The byte of the sign `+`.
const PLUS: u8 = 0x2b;

/// The byte of the digit `0`.
const DIGIT_ZERO: u8 = 0x30;

/// The byte of the digit `9`.
const DIGIT_NINE: u8 = 0x39;

/// Whether `c` is one of the ten decimal digits.
pub open spec fn is_digit(c: char) -> bool {
    '0' <= c && c <= '9'
}

/// The number that the decimal digit `c` stands for.
pub open spec fn digit_value(c: char) -> nat {
    (c as int - '0' as int) as nat
}

/// Whether `s` holds decimal digits only.
pub open spec fn all_digits(s: Seq<char>) -> bool {
    forall|i: int| 0 <= i < s.len() ==> is_digit(#[trigger] s[i])
}

/// The number that the digit string `digits` writes in base ten.
pub open spec fn decimal_value(digits: Seq<char>) -> nat
    decreases digits.len(),
{
    if digits.len() == 0 {
        0
    } else {
        10 * decimal_value(digits.drop_last()) + digit_value(digits.last())
    }
}

/// A token without the one `+` that may lead it.
pub open spec fn unsigned_part(token: Seq<char>) -> Seq<char> {
    if token.len() > 0 && token[0] == '+' {
        token.skip(1)
    } else {
        token
    }
}

/// The opcode number that `token` writes: an optional `+`, then one or
/// more decimal digits whose value is at most 255. Any other token writes
/// none.
pub open spec fn opcode_number(token: Seq<char>) -> Option<u8> {
    let digits = unsigned_part(token);
    if digits.len() > 0 && all_digits(digits) && decimal_value(digits) <= 255 {
        Some(decimal_value(digits) as u8)
    } else {
        None
    }
}

/// A digit string is worth at least as much as any of its prefixes.
pub proof fn lemma_decimal_value_prefix(digits: Seq<char>, n: int)
    requires
        0 <= n <= digits.len(),
    ensures
        decimal_value(digits.take(n)) <= decimal_value(digits),
    decreases digits.len(),
{
    if n == digits.len() {
        assert(digits.take(n) =~= digits);
    } else {
        assert(digits.drop_last().take(n) =~= digits.take(n));
        lemma_decimal_value_prefix(digits.drop_last(), n);
    }
}

/// Reads the opcode number off its token.
pub fn parse_opcode(token: &str) -> (result: Result<u8, LedgerError>)
    ensures
        match result {
            Ok(number) => opcode_number(token@) == Some(number),
            Err(error) => error == LedgerError::InvalidOpcodeFormat && opcode_number(token@)
                is None,
        },
{
    broadcast use is_ascii_spec_bytes;

    let ghost digits = unsigned_part(token@);
    if !token.is_ascii() {
        proof {
            let i = choose|i: int|
                0 <= i < token@.len() && !('\0' <= #[trigger] token@[i] <= '\u{7f}');
            if digits.len() == token@.len() {
                assert(!is_digit(digits[i]));
            } else {
                assert(i > 0);
                assert(!is_digit(digits[i - 1]));
            }
        }
        return Err(LedgerError::InvalidOpcodeFormat);
    }
    let bytes = token.as_bytes();
    let len = bytes.len();
    let start: usize = if len > 0 && bytes[0] == PLUS {
        1
    } else {
        0
    };
    if start == len {
        return Err(LedgerError::InvalidOpcodeFormat);
    }
    let mut value: u8 = 0;
    let mut i: usize = start;
    while i < len
        invariant
            start <= i <= len,
            len == token@.len(),
            bytes@.len() == len,
            forall|j: int| 0 <= j < len ==> bytes@[j] == #[trigger] token@[j] as u8,
            forall|j: int| 0 <= j < len ==> '\0' <= #[trigger] token@[j] <= '\u{7f}',
            digits == unsigned_part(token@),
            digits.len() == len - start,
            forall|j: int| 0 <= j < len - start ==> #[trigger] digits[j] == token@[start + j],
            all_digits(digits.take(i - start)),
            value == decimal_value(digits.take(i - start)),
        decreases len - i,
    {
        let byte = bytes[i];
        let ghost seen = digits.take(i - start);
        let ghost next = digits.take(i - start + 1);
        proof {
            assert(next.drop_last() =~= seen);
            assert(next.last() == digits[i - start]);
            assert(digits[i - start] == token@[i as int]);
        }
        if byte < DIGIT_ZERO || byte > DIGIT_NINE {
            assert(!is_digit(digits[i - start]));
            return Err(LedgerError::InvalidOpcodeFormat);
        }
        proof {
            assert(digit_value(next.last()) == byte - DIGIT_ZERO);
            assert(decimal_value(next) == 10 * value + (byte - DIGIT_ZERO));
            lemma_decimal_value_prefix(digits, i - start + 1);
        }
        let tens = match value.checked_mul(10) {
            Some(product) => product,
            None => {
                return Err(LedgerError::InvalidOpcodeFormat);
            },
        };
        value = match tens.checked_add(byte - DIGIT_ZERO) {
            Some(sum) => sum,
            None => {
                return Err(LedgerError::InvalidOpcodeFormat);
            },
        };
        i += 1;
        proof {
            assert forall|j: int| 0 <= j < next.len() implies is_digit(#[trigger] next[j]) by {
                if j < seen.len() {
                    assert(seen[j] == next[j]);
                }
            }
        }
    }
    proof {
        assert(digits.take(len - start) =~= digits);
    }
    Ok(value)
}

/// The operations of the ledger.
#[derive(Clone, Copy, Debug, PartialEq, Eq, Structural)]
pub enum Opcode {
    /// Sets both totals to zero.
    Initialize,
    /// Mints one OOGA to an address.
    ClaimOoga,
    /// Turns one OOGA of an address into one BOOGA.
    ExchangeOogaForBooga,
    /// Reads the OOGA balance of an address.
    QueryOogaBalance,
    /// Reads the BOOGA balance of an address.
    QueryBoogaBalance,
    /// Reads the total OOGA supply.
    QueryTotalOoga,
    /// Reads the total BOOGA supply.
    QueryTotalBooga,
}

impl Opcode {
    /// The operation that the number `number` selects, if any.
    pub open spec fn spec_from_number(number: u8) -> Option<Opcode> {
        if number == 0 {
            Some(Opcode::Initialize)
        } else if number == 1 {
            Some(Opcode::ClaimOoga)
        } else if number == 2 {
            Some(Opcode::ExchangeOogaForBooga)
        } else if number == 3 {
            Some(Opcode::QueryOogaBalance)
        } else if number == 4 {
            Some(Opcode::QueryBoogaBalance)
        } else if number == 5 {
            Some(Opcode::QueryTotalOoga)
        } else if number == 6 {
            Some(Opcode::QueryTotalBooga)
        } else {
            None
        }
    }

    /// The operation that the number `number` selects, if any.
    #[verifier::when_used_as_spec(spec_from_number)]
    pub fn from_number(number: u8) -> (opcode: Option<Opcode>)
        ensures
            opcode == Self::spec_from_number(number),
    {
        match number {
            0 => Some(Opcode::Initialize),
            1 => Some(Opcode::ClaimOoga),
            2 => Some(Opcode::ExchangeOogaForBooga),
            3 => Some(Opcode::QueryOogaBalance),
            4 => Some(Opcode::QueryBoogaBalance),
            5 => Some(Opcode::QueryTotalOoga),
            6 => Some(Opcode::QueryTotalBooga),
            _ => None,
        }
    }

    /// The number that selects this operation.
    pub open spec fn spec_number(self) -> u8 {
        match self {
            Opcode::Initialize => 0,
            Opcode::ClaimOoga => 1,
            Opcode::ExchangeOogaForBooga => 2,
            Opcode::QueryOogaBalance => 3,
            Opcode::QueryBoogaBalance => 4,
            Opcode::QueryTotalOoga => 5,
            Opcode::QueryTotalBooga => 6,
        }
    }

    /// The number that selects this operation.
    #[verifier::when_used_as_spec(spec_number)]
    pub fn number(self) -> (number: u8)
        ensures
            number == self.spec_number(),
            Self::spec_from_number(number) == Some(self),
    {
        match self {
            Opcode::Initialize => 0,
            Opcode::ClaimOoga => 1,
            Opcode::ExchangeOogaForBooga => 2,
            Opcode::QueryOogaBalance => 3,
            Opcode::QueryBoogaBalance => 4,
            Opcode::QueryTotalOoga => 5,
            Opcode::QueryTotalBooga => 6,
        }
    }

    /// Whether this operation reads an address after the opcode.
    pub open spec fn spec_takes_address(self) -> bool {
        match self {
            Opcode::ClaimOoga
            | Opcode::ExchangeOogaForBooga
            | Opcode::QueryOogaBalance
            | Opcode::QueryBoogaBalance => true,
            Opcode::Initialize | Opcode::QueryTotalOoga | Opcode::QueryTotalBooga => false,
        }
    }

    /// Whether this operation reads an address after the opcode.
    #[verifier::when_used_as_spec(spec_takes_address)]
    pub fn takes_address(self) -> (takes: bool)
        ensures
            takes == self.spec_takes_address(),
    {
        match self {
            Opcode::ClaimOoga
            | Opcode::ExchangeOogaForBooga
            | Opcode::QueryOogaBalance
            | Opcode::QueryBoogaBalance => true,
            Opcode::Initialize | Opcode::QueryTotalOoga | Opcode::QueryTotalBooga => false,
        }
    }
}

/// Takes the first item off the front of `list`, if there is one.
pub fn shift<T>(list: &mut Vec<T>) -> (first: Option<T>)
    ensures
        old(list)@.len() == 0 ==> first is None && final(list)@ == old(list)@,
        old(list)@.len() > 0 ==> first == Some(old(list)@[0]) && final(list)@ == old(list)@.skip(
            1,
        ),
{
    if list.is_empty() {
        None
    } else {
        let first = list.remove(0);
        assert(old(list)@.remove(0) =~= old(list)@.skip(1));
        Some(first)
    }
}

/// Takes the first item off the front of `list`, or fails with
/// `MissingOperand` where the list is exhausted.
pub fn shift_or_err<T>(list: &mut Vec<T>) -> (first: Result<T, LedgerError>)
    ensures
        old(list)@.len() == 0 ==> first == Err::<T, LedgerError>(LedgerError::MissingOperand)
            && final(list)@ == old(list)@,
        old(list)@.len() > 0 ==> first == Ok::<T, LedgerError>(old(list)@[0]) && final(list)@
            == old(list)@.skip(1),
{
    match shift(list) {
        Some(first) => Ok(first),
        None => Err(LedgerError::MissingOperand),
    }
}

/// The characters of each token of an input list.
pub open spec fn token_views(inputs: Seq<String>) -> Seq<Seq<char>> {
    inputs.map_values(|token: String| token@)
}

/// One decoded call: the operation, and the address it is for. Operations
/// that take no address carry an empty one.
pub struct Call {
    pub opcode: Opcode,
    pub address: String,
}

impl View for Call {
    type V = (Opcode, Seq<char>);

    open spec fn view(&self) -> (Opcode, Seq<char>) {
        (self.opcode, self.address@)
    }
}

/// The call that an input list writes, read strictly from the front: the
/// first token is the opcode, and the next is the address where the
/// operation takes one.
///
/// An empty list, or one that ends before a needed address, is a
/// `MissingOperand`; a first token that writes no number is an
/// `InvalidOpcodeFormat`; a number that selects no operation is an
/// `UnrecognizedOpcode`, whatever follows it.
pub open spec fn decode_call(inputs: Seq<Seq<char>>) -> Result<(Opcode, Seq<char>), LedgerError> {
    if inputs.len() == 0 {
        Err(LedgerError::MissingOperand)
    } else {
        match opcode_number(inputs[0]) {
            None => Err(LedgerError::InvalidOpcodeFormat),
            Some(number) => match Opcode::spec_from_number(number) {
                None => Err(LedgerError::UnrecognizedOpcode),
                Some(opcode) => if !opcode.spec_takes_address() {
                    Ok((opcode, Seq::empty()))
                } else if inputs.len() < 2 {
                    Err(LedgerError::MissingOperand)
                } else {
                    Ok((opcode, inputs[1]))
                },
            },
        }
    }
}

impl Call {
    /// Decodes an input list into a call.
    pub fn parse(inputs: Vec<String>) -> (result: Result<Call, LedgerError>)
        ensures
            match result {
                Ok(call) => decode_call(token_views(inputs@)) == Ok::<
                    (Opcode, Seq<char>),
                    LedgerError,
                >(call@),
                Err(error) => decode_call(token_views(inputs@)) == Err::<
                    (Opcode, Seq<char>),
                    LedgerError,
                >(error),
            },
    {
        let mut inputs = inputs;
        let ghost tokens = token_views(inputs@);
        let token = match shift_or_err(&mut inputs) {
            Ok(token) => token,
            Err(error) => {
                return Err(error);
            },
        };
        assert(token@ == tokens[0]);
        let number = match parse_opcode(token.as_str()) {
            Ok(number) => number,
            Err(error) => {
                return Err(error);
            },
        };
        let opcode = match Opcode::from_number(number) {
            Some(opcode) => opcode,
            None => {
                return Err(LedgerError::UnrecognizedOpcode);
            },
        };
        if !opcode.takes_address() {
            return Ok(Call { opcode, address: String::new() });
        }
        let address = match shift_or_err(&mut inputs) {
            Ok(address) => address,
            Err(error) => {
                return Err(error);
            },
        };
        assert(address@ == tokens[1]);
        Ok(Call { opcode, address })
    }
}

/// The keys that the operation reads or writes, and no others.
pub open spec fn call_keys(opcode: Opcode, address: Seq<char>) -> Seq<Seq<char>> {
    match opcode {
        Opcode::Initialize => seq![total_ooga_key(), total_booga_key()],
        Opcode::ClaimOoga => seq![ooga_balance_key(address), total_ooga_key()],
        Opcode::ExchangeOogaForBooga => seq![
            ooga_balance_key(address),
            booga_balance_key(address),
            total_ooga_key(),
            total_booga_key(),
        ],
        Opcode::QueryOogaBalance => seq![ooga_balance_key(address)],
        Opcode::QueryBoogaBalance => seq![booga_balance_key(address)],
        Opcode::QueryTotalOoga => seq![total_ooga_key()],
        Opcode::QueryTotalBooga => seq![total_booga_key()],
    }
}

impl Call {
    /// The keys that this call reads or writes: what a host has to load
    /// before the call and to store after it.
    pub fn storage_keys(&self) -> (keys: Vec<String>)
        ensures
            token_views(keys@) == call_keys(self.opcode, self.address@),
    {
        let address = self.address.as_str();
        let mut keys: Vec<String> = Vec::new();
        match self.opcode {
            Opcode::Initialize => {
                keys.push(total_ooga_keyword());
                keys.push(total_booga_keyword());
            },
            Opcode::ClaimOoga => {
                keys.push(ooga_balance_keyword(address));
                keys.push(total_ooga_keyword());
            },
            Opcode::ExchangeOogaForBooga => {
                keys.push(ooga_balance_keyword(address));
                keys.push(booga_balance_keyword(address));
                keys.push(total_ooga_keyword());
                keys.push(total_booga_keyword());
            },
            Opcode::QueryOogaBalance => {
                keys.push(ooga_balance_keyword(address));
            },
            Opcode::QueryBoogaBalance => {
                keys.push(booga_balance_keyword(address));
            },
            Opcode::QueryTotalOoga => {
                keys.push(total_ooga_keyword());
            },
            Opcode::QueryTotalBooga => {
                keys.push(total_booga_keyword());
            },
        }
        assert(token_views(keys@) =~= call_keys(self.opcode, self.address@));
        keys
    }
}

/// Why the operation fails on `store`, if it does. Only minting and
/// exchanging can fail.
pub open spec fn call_error(store: StoreMap, opcode: Opcode, address: Seq<char>) -> Option<
    LedgerError,
> {
    match opcode {
        Opcode::ClaimOoga => claim_error(store, address),
        Opcode::ExchangeOogaForBooga => exchange_error(store, address),
        _ => None,
    }
}

/// The store after the operation. A failed operation and a query leave it
/// as it was.
pub open spec fn store_after(store: StoreMap, opcode: Opcode, address: Seq<char>) -> StoreMap {
    if call_error(store, opcode, address) is Some {
        store
    } else {
        match opcode {
            Opcode::Initialize => initialized(store),
            Opcode::ClaimOoga => claimed(store, address),
            Opcode::ExchangeOogaForBooga => exchanged(store, address),
            _ => store,
        }
    }
}

/// The payload that the operation answers with on `store`: the sixteen
/// little-endian bytes of the counter for a query, nothing for the rest.
pub open spec fn response_data(store: StoreMap, opcode: Opcode, address: Seq<char>) -> Seq<u8> {
    match opcode {
        Opcode::QueryOogaBalance => encode_u128(ooga_balance_of(store, address)),
        Opcode::QueryBoogaBalance => encode_u128(booga_balance_of(store, address)),
        Opcode::QueryTotalOoga => encode_u128(total_ooga(store)),
        Opcode::QueryTotalBooga => encode_u128(total_booga(store)),
        _ => Seq::empty(),
    }
}

/// What a whole call answers on `store`: its payload, or why it failed.
pub open spec fn execute_result(store: StoreMap, inputs: Seq<Seq<char>>) -> Result<
    Seq<u8>,
    LedgerError,
> {
    match decode_call(inputs) {
        Err(error) => Err(error),
        Ok((opcode, address)) => match call_error(store, opcode, address) {
            Some(error) => Err(error),
            None => Ok(response_data(store, opcode, address)),
        },
    }
}

/// The store after a whole call.
pub open spec fn execute_store(store: StoreMap, inputs: Seq<Seq<char>>) -> StoreMap {
    match decode_call(inputs) {
        Err(_) => store,
        Ok((opcode, address)) => store_after(store, opcode, address),
    }
}

/// Law: a call that fails changes nothing in the store.
pub proof fn lemma_failed_call_changes_nothing(store: StoreMap, inputs: Seq<Seq<char>>)
    requires
        execute_result(store, inputs) is Err,
    ensures
        execute_store(store, inputs) == store,
{
}

/// Law: an opcode number above the last operation's is unrecognized,
/// whatever operands follow it, and the call changes nothing.
pub proof fn lemma_unrecognized_opcode(store: StoreMap, inputs: Seq<Seq<char>>, number: u8)
    requires
        inputs.len() > 0,
        opcode_number(inputs[0]) == Some(number),
        number > 6,
    ensures
        decode_call(inputs) == Err::<(Opcode, Seq<char>), LedgerError>(
            LedgerError::UnrecognizedOpcode,
        ),
        execute_result(store, inputs) == Err::<Seq<u8>, LedgerError>(
            LedgerError::UnrecognizedOpcode,
        ),
        execute_store(store, inputs) == store,
{
}

/// Law: a query answers with sixteen bytes and changes nothing; every other
/// operation that succeeds answers with an empty payload.
pub proof fn lemma_payload_shape(store: StoreMap, opcode: Opcode, address: Seq<char>)
    ensures
        match opcode {
            Opcode::QueryOogaBalance
            | Opcode::QueryBoogaBalance
            | Opcode::QueryTotalOoga
            | Opcode::QueryTotalBooga => response_data(store, opcode, address).len() == 16
                && store_after(store, opcode, address) == store && call_error(
                store,
                opcode,
                address,
            ) is None,
            _ => response_data(store, opcode, address).len() == 0,
        },
{
    crate::codec::lemma_decode_encode(ooga_balance_of(store, address));
    crate::codec::lemma_decode_encode(booga_balance_of(store, address));
    crate::codec::lemma_decode_encode(total_ooga(store));
    crate::codec::lemma_decode_encode(total_booga(store));
}

/// Whether two stores hold the same under `key`.
pub open spec fn same_at(a: StoreMap, b: StoreMap, key: Seq<char>) -> bool {
    a.contains_key(key) == b.contains_key(key) && (a.contains_key(key) ==> a[key] == b[key])
}

/// Law: an operation writes under its own keys only.
pub proof fn lemma_call_writes_only_its_keys(
    store: StoreMap,
    opcode: Opcode,
    address: Seq<char>,
    key: Seq<char>,
)
    requires
        !call_keys(opcode, address).contains(key),
    ensures
        same_at(store_after(store, opcode, address), store, key),
{
    let keys = call_keys(opcode, address);
    assert(forall|i: int| 0 <= i < keys.len() ==> keys[i] != key);
    match opcode {
        Opcode::Initialize => {
            assert(keys[0] != key && keys[1] != key);
        },
        Opcode::ClaimOoga => {
            assert(keys[0] != key && keys[1] != key);
        },
        Opcode::ExchangeOogaForBooga => {
            assert(keys[0] != key && keys[1] != key && keys[2] != key && keys[3] != key);
        },
        _ => {},
    }
}

/// Law: an operation reads under its own keys only. On two stores that
/// hold the same under those keys it fails alike, answers alike, and
/// leaves the same under each of those keys.
pub proof fn lemma_call_reads_only_its_keys(
    a: StoreMap,
    b: StoreMap,
    opcode: Opcode,
    address: Seq<char>,
)
    requires
        forall|i: int|
            0 <= i < call_keys(opcode, address).len() ==> same_at(
                a,
                b,
                #[trigger] call_keys(opcode, address)[i],
            ),
    ensures
        call_error(a, opcode, address) == call_error(b, opcode, address),
        response_data(a, opcode, address) == response_data(b, opcode, address),
        forall|i: int|
            0 <= i < call_keys(opcode, address).len() ==> same_at(
                store_after(a, opcode, address),
                store_after(b, opcode, address),
                #[trigger] call_keys(opcode, address)[i],
            ),
{
    let keys = call_keys(opcode, address);
    lemma_keys_distinct(address, address);
    match opcode {
        Opcode::Initialize => {
            assert(same_at(a, b, keys[0]) && same_at(a, b, keys[1]));
        },
        Opcode::ClaimOoga => {
            assert(same_at(a, b, keys[0]) && same_at(a, b, keys[1]));
        },
        Opcode::ExchangeOogaForBooga => {
            assert(same_at(a, b, keys[0]) && same_at(a, b, keys[1]));
            assert(same_at(a, b, keys[2]) && same_at(a, b, keys[3]));
        },
        _ => {
            assert(same_at(a, b, keys[0]));
        },
    }
}

/// What the host hands to a call.
#[derive(Debug, PartialEq, Eq)]
pub struct Context {
    /// The opcode token, then the operand tokens.
    pub inputs: Vec<String>,
    /// What came in with the call. It is forwarded and never read.
    pub incoming_alkanes: Vec<u8>,
}

/// What a successful call hands back to the host.
#[derive(Debug, PartialEq, Eq)]
pub struct CallResponse {
    /// The payload: empty, or the sixteen bytes of a counter.
    pub data: Vec<u8>,
    /// What came in with the call, unchanged.
    pub alkanes: Vec<u8>,
}

impl CallResponse {
    /// The response that forwards `incoming_alkanes` and carries no payload.
    pub fn forward(incoming_alkanes: &Vec<u8>) -> (response: CallResponse)
        ensures
            response.data@ == Seq::<u8>::empty(),
            response.alkanes@ == incoming_alkanes@,
    {
        CallResponse { data: Vec::new(), alkanes: slice_to_vec(incoming_alkanes.as_slice()) }
    }
}

impl OogaBoogaContract {
    /// Performs one decoded call and returns its payload.
    pub fn apply(&mut self, call: &Call) -> (result: Result<Vec<u8>, LedgerError>)
        ensures
            final(self)@ == store_after(old(self)@, call.opcode, call.address@),
            match result {
                Ok(data) => call_error(old(self)@, call.opcode, call.address@) is None && data@
                    == response_data(old(self)@, call.opcode, call.address@),
                Err(error) => call_error(old(self)@, call.opcode, call.address@) == Some(error)
                    && final(self)@ == old(self)@,
            },
    {
        let address = call.address.as_str();
        match call.opcode {
            Opcode::Initialize => {
                self.initialize();
                Ok(Vec::new())
            },
            Opcode::ClaimOoga => match self.claim_ooga(address) {
                Ok(()) => Ok(Vec::new()),
                Err(error) => Err(error),
            },
            Opcode::ExchangeOogaForBooga => match self.exchange_ooga_for_booga(address) {
                Ok(()) => Ok(Vec::new()),
                Err(error) => Err(error),
            },
            Opcode::QueryOogaBalance => Ok(u128_to_le_bytes(self.ooga_balance_of(address))),
            Opcode::QueryBoogaBalance => Ok(u128_to_le_bytes(self.booga_balance_of(address))),
            Opcode::QueryTotalOoga => Ok(u128_to_le_bytes(self.total_ooga())),
            Opcode::QueryTotalBooga => Ok(u128_to_le_bytes(self.total_booga())),
        }
    }

    /// Serves one call: decodes the inputs, performs the operation, and
    /// answers with the payload and the forwarded incoming buffer.
    ///
    /// A call that fails, at decoding or in the operation, leaves the store
    /// exactly as it was.
    pub fn execute(&mut self, context: Context) -> (result: Result<CallResponse, LedgerError>)
        ensures
            final(self)@ == execute_store(old(self)@, token_views(context.inputs@)),
            match result {
                Ok(response) => execute_result(old(self)@, token_views(context.inputs@)) == Ok::<
                    Seq<u8>,
                    LedgerError,
                >(response.data@) && response.alkanes@ == context.incoming_alkanes@,
                Err(error) => execute_result(old(self)@, token_views(context.inputs@)) == Err::<
                    Seq<u8>,
                    LedgerError,
                >(error) && final(self)@ == old(self)@,
            },
    {
        let mut response = CallResponse::forward(&context.incoming_alkanes);
        let call = match Call::parse(context.inputs) {
            Ok(call) => call,
            Err(error) => {
                return Err(error);
            },
        };
        match self.apply(&call) {
            Ok(data) => {
                response.data = data;
                Ok(response)
            },
            Err(error) => Err(error),
        }
    }
}

} // verus!
