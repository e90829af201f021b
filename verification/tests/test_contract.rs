use ooga_booga::{CallResponse, Context, LedgerError, OogaBoogaContract};

// Test harness for executing contract operations
struct TestHarness {
    contract: OogaBoogaContract,
}

impl TestHarness {
    fn new() -> Self {
        // Every harness starts from an empty store
        Self { contract: OogaBoogaContract::default() }
    }

    fn execute(&mut self, opcode: u8, inputs: Vec<String>) -> Result<CallResponse, LedgerError> {
        // Create proper context with inputs
        let mut all_inputs = vec![opcode.to_string()];
        all_inputs.extend(inputs);

        // Execute contract
        self.contract.execute(Context { inputs: all_inputs, incoming_alkanes: Vec::new() })
    }
}

// Helper function to extract u128 from response data
fn extract_u128(response: &CallResponse) -> u128 {
    let mut bytes = [0u8; 16];
    bytes.copy_from_slice(&response.data[0..16]);
    u128::from_le_bytes(bytes)
}

// Helper function to create a test address
fn test_address() -> String {
    "integration_test_user".to_string()
}

#[test]
fn test_complete_flow() {
    let mut harness = TestHarness::new();
    let address = test_address();

    // Initialize contract
    let result = harness.execute(0, vec![]);
    assert!(result.is_ok());

    // Claim multiple OOGA tokens
    for _ in 0..5 {
        let result = harness.execute(1, vec![address.clone()]);
        assert!(result.is_ok());
    }

    // Verify OOGA balance
    let result = harness.execute(3, vec![address.clone()]);
    assert!(result.is_ok());
    if let Ok(response) = result {
        assert_eq!(extract_u128(&response), 5);
    }

    // Exchange some OOGA for BOOGA
    for _ in 0..3 {
        let result = harness.execute(2, vec![address.clone()]);
        assert!(result.is_ok());
    }

    // Verify final balances
    let result = harness.execute(3, vec![address.clone()]);
    assert!(result.is_ok());
    if let Ok(response) = result {
        assert_eq!(extract_u128(&response), 2); // 5 - 3 = 2 OOGA remaining
    }

    let result = harness.execute(4, vec![address.clone()]);
    assert!(result.is_ok());
    if let Ok(response) = result {
        assert_eq!(extract_u128(&response), 3); // 3 BOOGA received
    }

    // Verify total supplies
    let result = harness.execute(5, vec![]);
    assert!(result.is_ok());
    if let Ok(response) = result {
        assert_eq!(extract_u128(&response), 2); // 2 OOGA total supply
    }

    let result = harness.execute(6, vec![]);
    assert!(result.is_ok());
    if let Ok(response) = result {
        assert_eq!(extract_u128(&response), 3); // 3 BOOGA total supply
    }
}

#[test]
fn test_multi_user_interaction() {
    let mut harness = TestHarness::new();
    let alice = "alice".to_string();
    let bob = "bob".to_string();
    let charlie = "charlie".to_string();

    // Initialize contract
    let _ = harness.execute(0, vec![]);

    // Alice claims 3 OOGA
    for _ in 0..3 {
        let _ = harness.execute(1, vec![alice.clone()]);
    }

    // Bob claims 2 OOGA
    for _ in 0..2 {
        let _ = harness.execute(1, vec![bob.clone()]);
    }

    // Charlie claims 1 OOGA
    let _ = harness.execute(1, vec![charlie.clone()]);

    // Verify total OOGA supply
    let result = harness.execute(5, vec![]);
    assert!(result.is_ok());
    if let Ok(response) = result {
        assert_eq!(extract_u128(&response), 6); // 3 + 2 + 1 = 6 OOGA total
    }

    // Alice exchanges 2 OOGA for BOOGA
    for _ in 0..2 {
        let _ = harness.execute(2, vec![alice.clone()]);
    }

    // Bob exchanges 1 OOGA for BOOGA
    let _ = harness.execute(2, vec![bob.clone()]);

    // Verify individual balances
    let result = harness.execute(3, vec![alice.clone()]);
    assert!(result.is_ok());
    if let Ok(response) = result {
        assert_eq!(extract_u128(&response), 1); // 3 - 2 = 1 OOGA remaining
    }

    let result = harness.execute(4, vec![alice.clone()]);
    assert!(result.is_ok());
    if let Ok(response) = result {
        assert_eq!(extract_u128(&response), 2); // 2 BOOGA received
    }

    let result = harness.execute(3, vec![bob.clone()]);
    assert!(result.is_ok());
    if let Ok(response) = result {
        assert_eq!(extract_u128(&response), 1); // 2 - 1 = 1 OOGA remaining
    }

    let result = harness.execute(4, vec![bob.clone()]);
    assert!(result.is_ok());
    if let Ok(response) = result {
        assert_eq!(extract_u128(&response), 1); // 1 BOOGA received
    }

    // Verify total supplies after exchanges
    let result = harness.execute(5, vec![]);
    assert!(result.is_ok());
    if let Ok(response) = result {
        assert_eq!(extract_u128(&response), 3); // 6 - 3 = 3 OOGA total
    }

    let result = harness.execute(6, vec![]);
    assert!(result.is_ok());
    if let Ok(response) = result {
        assert_eq!(extract_u128(&response), 3); // 3 BOOGA total
    }
}

#[test]
fn test_error_handling() {
    let mut harness = TestHarness::new();
    let address = test_address();

    // Initialize contract
    let _ = harness.execute(0, vec![]);

    // Try to exchange without claiming first (should fail)
    let result = harness.execute(2, vec![address.clone()]);
    assert!(result.is_err());
    if let Err(e) = result {
        assert!(e.message().contains("insufficient OOGA balance"));
    }

    // Claim one OOGA
    let _ = harness.execute(1, vec![address.clone()]);

    // Exchange it for BOOGA (should succeed)
    let result = harness.execute(2, vec![address.clone()]);
    assert!(result.is_ok());

    // Try to exchange again (should fail)
    let result = harness.execute(2, vec![address.clone()]);
    assert!(result.is_err());
    if let Err(e) = result {
        assert!(e.message().contains("insufficient OOGA balance"));
    }

    // Try invalid opcode
    let result = harness.execute(99, vec![]);
    assert!(result.is_err());
    if let Err(e) = result {
        assert!(e.message().contains("unrecognized opcode"));
    }
}

#[test]
fn test_contract_test_balance_overflow() {
    let mut harness = TestHarness::new();
    let address = test_address();

    // Initialize contract
    let _ = harness.execute(0, vec![]);

    // Set balance to max u128 - 1
    harness.contract.set_ooga_balance(&address, u128::MAX - 1);

    // Claim OOGA (should succeed)
    let result = harness.execute(1, vec![address.clone()]);
    assert!(result.is_ok());
    assert_eq!(harness.contract.ooga_balance_of(&address), u128::MAX);

    // Claim OOGA again (should fail with overflow)
    let result = harness.execute(1, vec![address.clone()]);
    assert!(result.is_err());
    if let Err(e) = result {
        assert!(e.message().contains("balance overflow"));
    }
}
