use ooga_booga::dispatch::{parse_opcode, shift, shift_or_err};
use ooga_booga::{Call, CallResponse, LedgerError, Opcode};

fn tokens(list: &[&str]) -> Vec<String> {
    list.iter().map(|token| token.to_string()).collect()
}

#[test]
fn parse_opcode_reads_decimal_numbers() {
    assert_eq!(parse_opcode("0"), Ok(0));
    assert_eq!(parse_opcode("6"), Ok(6));
    assert_eq!(parse_opcode("42"), Ok(42));
    assert_eq!(parse_opcode("99"), Ok(99));
    assert_eq!(parse_opcode("255"), Ok(255));
}

#[test]
fn parse_opcode_accepts_one_leading_plus_and_leading_zeros() {
    assert_eq!(parse_opcode("+7"), Ok(7));
    assert_eq!(parse_opcode("007"), Ok(7));
    assert_eq!(parse_opcode("+000255"), Ok(255));
    assert_eq!(parse_opcode("0000000000000000000000000000000000000001"), Ok(1));
}

#[test]
fn parse_opcode_rejects_numbers_above_255() {
    assert_eq!(parse_opcode("256"), Err(LedgerError::InvalidOpcodeFormat));
    assert_eq!(parse_opcode("260"), Err(LedgerError::InvalidOpcodeFormat));
    assert_eq!(parse_opcode("1000"), Err(LedgerError::InvalidOpcodeFormat));
    assert_eq!(parse_opcode("0256"), Err(LedgerError::InvalidOpcodeFormat));
    assert_eq!(
        parse_opcode("340282366920938463463374607431768211456"),
        Err(LedgerError::InvalidOpcodeFormat)
    );
}

#[test]
fn parse_opcode_rejects_what_is_not_a_number() {
    for token in ["", "+", "-", "-1", "-0", "++1", "+-1", "1+", "1a", "a1", " 1", "1 ", "0x10", "1.0", "one"] {
        assert_eq!(parse_opcode(token), Err(LedgerError::InvalidOpcodeFormat), "token {:?}", token);
    }
}

#[test]
fn parse_opcode_rejects_digits_outside_ascii() {
    assert_eq!(parse_opcode("\u{ff11}"), Err(LedgerError::InvalidOpcodeFormat));
    assert_eq!(parse_opcode("1\u{0663}"), Err(LedgerError::InvalidOpcodeFormat));
    assert_eq!(parse_opcode("+\u{00e9}"), Err(LedgerError::InvalidOpcodeFormat));
}

#[test]
fn parse_opcode_agrees_with_the_standard_parser() {
    let samples = [
        "0", "1", "9", "10", "099", "199", "249", "250", "255", "256", "259", "299", "300", "+", "+0", "+255",
        "+256", "", "-", "-3", "12x", "x", "00", "2 5", "25\n",
    ];
    for token in samples {
        let expected = token.parse::<u8>().map_err(|_| LedgerError::InvalidOpcodeFormat);
        assert_eq!(parse_opcode(token), expected, "token {:?}", token);
    }
    for number in 0..=255u8 {
        assert_eq!(parse_opcode(&number.to_string()), Ok(number));
    }
}

#[test]
fn opcode_numbers_select_the_seven_operations() {
    assert_eq!(Opcode::from_number(0), Some(Opcode::Initialize));
    assert_eq!(Opcode::from_number(1), Some(Opcode::ClaimOoga));
    assert_eq!(Opcode::from_number(2), Some(Opcode::ExchangeOogaForBooga));
    assert_eq!(Opcode::from_number(3), Some(Opcode::QueryOogaBalance));
    assert_eq!(Opcode::from_number(4), Some(Opcode::QueryBoogaBalance));
    assert_eq!(Opcode::from_number(5), Some(Opcode::QueryTotalOoga));
    assert_eq!(Opcode::from_number(6), Some(Opcode::QueryTotalBooga));
    for number in 7..=255u8 {
        assert_eq!(Opcode::from_number(number), None);
    }
}

#[test]
fn opcode_number_undoes_from_number() {
    for number in 0..=6u8 {
        let opcode = Opcode::from_number(number).unwrap();
        assert_eq!(opcode.number(), number);
    }
}

#[test]
fn opcodes_one_to_four_take_an_address() {
    assert!(!Opcode::Initialize.takes_address());
    assert!(Opcode::ClaimOoga.takes_address());
    assert!(Opcode::ExchangeOogaForBooga.takes_address());
    assert!(Opcode::QueryOogaBalance.takes_address());
    assert!(Opcode::QueryBoogaBalance.takes_address());
    assert!(!Opcode::QueryTotalOoga.takes_address());
    assert!(!Opcode::QueryTotalBooga.takes_address());
}

#[test]
fn shift_takes_from_the_front() {
    let mut list = vec![1, 2, 3];
    assert_eq!(shift(&mut list), Some(1));
    assert_eq!(list, vec![2, 3]);
    assert_eq!(shift(&mut list), Some(2));
    assert_eq!(shift(&mut list), Some(3));
    assert_eq!(shift(&mut list), None);
    assert!(list.is_empty());
}

#[test]
fn shift_or_err_fails_on_an_exhausted_list() {
    let mut list = tokens(&["a"]);
    assert_eq!(shift_or_err(&mut list), Ok("a".to_string()));
    assert_eq!(shift_or_err(&mut list), Err(LedgerError::MissingOperand));
    assert!(list.is_empty());
}

#[test]
fn parse_reads_the_opcode_then_the_address() {
    let call = Call::parse(tokens(&["1", "alice"])).unwrap();
    assert_eq!(call.opcode, Opcode::ClaimOoga);
    assert_eq!(call.address, "alice");
    let call = Call::parse(tokens(&["4", "bob", "ignored"])).unwrap();
    assert_eq!(call.opcode, Opcode::QueryBoogaBalance);
    assert_eq!(call.address, "bob");
}

#[test]
fn parse_gives_an_empty_address_to_operations_that_take_none() {
    for (token, opcode) in [("0", Opcode::Initialize), ("5", Opcode::QueryTotalOoga), ("6", Opcode::QueryTotalBooga)]
    {
        let call = Call::parse(tokens(&[token])).unwrap();
        assert_eq!(call.opcode, opcode);
        assert_eq!(call.address, "");
        let call = Call::parse(tokens(&[token, "extra"])).unwrap();
        assert_eq!(call.opcode, opcode);
        assert_eq!(call.address, "");
    }
}

#[test]
fn parse_of_an_empty_list_is_a_missing_operand() {
    assert_eq!(Call::parse(Vec::new()).err(), Some(LedgerError::MissingOperand));
}

#[test]
fn parse_without_a_needed_address_is_a_missing_operand() {
    for token in ["1", "2", "3", "4"] {
        assert_eq!(Call::parse(tokens(&[token])).err(), Some(LedgerError::MissingOperand));
    }
}

#[test]
fn parse_of_a_malformed_opcode_is_an_invalid_format() {
    assert_eq!(Call::parse(tokens(&["claim", "alice"])).err(), Some(LedgerError::InvalidOpcodeFormat));
    assert_eq!(Call::parse(tokens(&["", "alice"])).err(), Some(LedgerError::InvalidOpcodeFormat));
    assert_eq!(Call::parse(tokens(&["256"])).err(), Some(LedgerError::InvalidOpcodeFormat));
    assert_eq!(Call::parse(tokens(&["-1"])).err(), Some(LedgerError::InvalidOpcodeFormat));
}

#[test]
fn parse_of_an_unknown_opcode_is_unrecognized_whatever_follows() {
    assert_eq!(Call::parse(tokens(&["99"])).err(), Some(LedgerError::UnrecognizedOpcode));
    assert_eq!(Call::parse(tokens(&["99", "alice"])).err(), Some(LedgerError::UnrecognizedOpcode));
    assert_eq!(Call::parse(tokens(&["99", "a", "b", "c"])).err(), Some(LedgerError::UnrecognizedOpcode));
    assert_eq!(Call::parse(tokens(&["7"])).err(), Some(LedgerError::UnrecognizedOpcode));
    assert_eq!(Call::parse(tokens(&["255", ""])).err(), Some(LedgerError::UnrecognizedOpcode));
}

#[test]
fn forward_carries_the_incoming_buffer_and_no_payload() {
    let incoming = vec![1u8, 2, 3, 255];
    let response = CallResponse::forward(&incoming);
    assert!(response.data.is_empty());
    assert_eq!(response.alkanes, incoming);
    let response = CallResponse::forward(&Vec::new());
    assert_eq!(response, CallResponse { data: Vec::new(), alkanes: Vec::new() });
}

#[test]
fn each_error_has_its_message() {
    assert_eq!(LedgerError::MissingOperand.message(), "expected value in list but list is exhausted");
    assert_eq!(LedgerError::InvalidOpcodeFormat.message(), "invalid opcode format");
    assert_eq!(LedgerError::UnrecognizedOpcode.message(), "unrecognized opcode");
    assert_eq!(LedgerError::BalanceOverflow.message(), "balance overflow");
    assert_eq!(LedgerError::InsufficientBalance.message(), "insufficient OOGA balance");
}

#[test]
fn storage_keys_name_what_each_operation_touches() {
    let keys = |opcode: Opcode, address: &str| Call { opcode, address: address.to_string() }.storage_keys();
    assert_eq!(keys(Opcode::Initialize, ""), tokens(&["/total-ooga", "/total-booga"]));
    assert_eq!(keys(Opcode::ClaimOoga, "alice"), tokens(&["/ooga-balance/alice", "/total-ooga"]));
    assert_eq!(
        keys(Opcode::ExchangeOogaForBooga, "alice"),
        tokens(&["/ooga-balance/alice", "/booga-balance/alice", "/total-ooga", "/total-booga"])
    );
    assert_eq!(keys(Opcode::QueryOogaBalance, "bob"), tokens(&["/ooga-balance/bob"]));
    assert_eq!(keys(Opcode::QueryBoogaBalance, "bob"), tokens(&["/booga-balance/bob"]));
    assert_eq!(keys(Opcode::QueryTotalOoga, ""), tokens(&["/total-ooga"]));
    assert_eq!(keys(Opcode::QueryTotalBooga, ""), tokens(&["/total-booga"]));
}
