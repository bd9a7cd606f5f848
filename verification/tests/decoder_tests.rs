use delegated_spend::delegate_instruction::{DecodeError, DelegatooooorInstruction};

#[test]
fn empty_input_is_missing_tag() {
    assert_eq!(
        DelegatooooorInstruction::unpack(&[]),
        Err(DecodeError::MissingTag),
    );
}

#[test]
fn tag_zero_is_grant_with_le_allowance() {
    let mut input = vec![0u8];
    input.extend_from_slice(&100u64.to_le_bytes());
    assert_eq!(
        DelegatooooorInstruction::unpack(&input),
        Ok(DelegatooooorInstruction::GrantPermission { allowance: 100 }),
    );
    // little-endian interpretation
    let input = [0u8, 0x01, 0x02, 0, 0, 0, 0, 0, 0];
    assert_eq!(
        DelegatooooorInstruction::unpack(&input),
        Ok(DelegatooooorInstruction::GrantPermission { allowance: 0x0201 }),
    );
}

#[test]
fn trailing_payload_bytes_are_ignored() {
    let mut input = vec![0u8];
    input.extend_from_slice(&5u64.to_le_bytes());
    input.extend_from_slice(&[0xFF; 7]);
    assert_eq!(
        DelegatooooorInstruction::unpack(&input),
        Ok(DelegatooooorInstruction::GrantPermission { allowance: 5 }),
    );
}

#[test]
fn tag_one_is_revoke_and_needs_no_payload() {
    assert_eq!(
        DelegatooooorInstruction::unpack(&[1]),
        Ok(DelegatooooorInstruction::RevokePermission),
    );
    assert_eq!(
        DelegatooooorInstruction::unpack(&[1, 9, 9]),
        Ok(DelegatooooorInstruction::RevokePermission),
    );
}

#[test]
fn tag_two_is_execute_with_le_amount() {
    let mut input = vec![2u8];
    input.extend_from_slice(&50u64.to_le_bytes());
    assert_eq!(
        DelegatooooorInstruction::unpack(&input),
        Ok(DelegatooooorInstruction::ExecuteTransaction { amount: 50 }),
    );
}

#[test]
fn short_payload_is_invalid_encoding() {
    assert_eq!(
        DelegatooooorInstruction::unpack(&[0, 1, 2, 3]),
        Err(DecodeError::InvalidEncoding),
    );
    assert_eq!(
        DelegatooooorInstruction::unpack(&[2, 1, 2, 3, 4, 5, 6, 7]),
        Err(DecodeError::InvalidEncoding),
    );
}

#[test]
fn unknown_tag_is_invalid_encoding() {
    assert_eq!(
        DelegatooooorInstruction::unpack(&[3, 0, 0, 0, 0, 0, 0, 0, 0]),
        Err(DecodeError::InvalidEncoding),
    );
    assert_eq!(
        DelegatooooorInstruction::unpack(&[255]),
        Err(DecodeError::InvalidEncoding),
    );
}
