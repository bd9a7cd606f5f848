use delegated_spend::delegate::{ApprovedToken, CodecError, DelegatePermissions, Permission};

fn sample_record() -> DelegatePermissions {
    DelegatePermissions {
        delegator_address: [7u8; 32],
        is_initialized: true,
        permissions: vec![Permission::Spend, Permission::Spend],
        approved_tokens: vec![
            ApprovedToken { token_account: [9u8; 32], allowance: 1000 },
            ApprovedToken { token_account: [11u8; 32], allowance: u64::MAX },
        ],
    }
}

// 37 + 2 + 4 + 2 * 40
const SAMPLE_LEN: usize = 123;

#[test]
fn round_trip_exact_buffer() {
    let rec = sample_record();
    let mut buf = vec![0u8; SAMPLE_LEN];
    assert_eq!(rec.pack_into_slice(&mut buf), Ok(()));
    let back = DelegatePermissions::unpack_from_slice(&buf).unwrap();
    assert_eq!(back, rec);
}

#[test]
fn round_trip_trailing_bytes_ignored() {
    let rec = sample_record();
    let mut buf = vec![0xAAu8; SAMPLE_LEN + 13];
    assert_eq!(rec.pack_into_slice(&mut buf), Ok(()));
    // the tail is untouched by encode
    assert!(buf[SAMPLE_LEN..].iter().all(|b| *b == 0xAA));
    let back = DelegatePermissions::unpack_from_slice(&buf).unwrap();
    assert_eq!(back, rec);
}

#[test]
fn encode_recomputes_counts() {
    let rec = sample_record();
    let mut buf = vec![0u8; SAMPLE_LEN];
    assert_eq!(rec.pack_into_slice(&mut buf), Ok(()));
    assert_eq!(&buf[0..32], &[7u8; 32]);
    assert_eq!(buf[32], 1);
    assert_eq!(&buf[33..37], &[2, 0, 0, 0]);
    assert_eq!(&buf[37..39], &[0, 0]);
    assert_eq!(&buf[39..43], &[2, 0, 0, 0]);
    assert_eq!(&buf[43..75], &[9u8; 32]);
    assert_eq!(&buf[75..83], &1000u64.to_le_bytes());
    assert_eq!(&buf[83..115], &[11u8; 32]);
    assert_eq!(&buf[115..123], &u64::MAX.to_le_bytes());
}

#[test]
fn zero_filled_41_byte_buffer_is_uninitialized() {
    let buf = vec![0u8; 41];
    let rec = DelegatePermissions::unpack_from_slice(&buf).unwrap();
    assert!(!rec.is_initialized);
    assert_eq!(rec.delegator_address, [0u8; 32]);
    assert!(rec.permissions.is_empty());
    assert!(rec.approved_tokens.is_empty());
}

#[test]
fn truncation_anywhere_fails_with_truncated_buffer() {
    let rec = DelegatePermissions {
        delegator_address: [3u8; 32],
        is_initialized: true,
        permissions: vec![Permission::Spend, Permission::Spend],
        approved_tokens: vec![ApprovedToken { token_account: [5u8; 32], allowance: 77 }],
    };
    let total = 37 + 2 + 4 + 40;
    let mut buf = vec![0u8; total];
    assert_eq!(rec.pack_into_slice(&mut buf), Ok(()));
    for cut in 0..total {
        assert_eq!(
            DelegatePermissions::unpack_from_slice(&buf[..cut]),
            Err(CodecError::TruncatedBuffer),
        );
    }
}

#[test]
fn declared_count_past_end_is_truncated_buffer() {
    // an empty-section buffer whose permission count claims 200 entries
    let mut buf = vec![0u8; 41];
    buf[33] = 200;
    assert_eq!(
        DelegatePermissions::unpack_from_slice(&buf),
        Err(CodecError::TruncatedBuffer),
    );
    // an approved-token count without the bytes to back it
    let mut buf = vec![0u8; 41];
    buf[37] = 1;
    assert_eq!(
        DelegatePermissions::unpack_from_slice(&buf),
        Err(CodecError::TruncatedBuffer),
    );
}

#[test]
fn unknown_permission_byte_is_an_error_not_an_abort() {
    let mut buf = vec![0u8; 42];
    buf[33] = 1;  // one permission
    buf[37] = 7;  // unmapped permission byte
    assert_eq!(
        DelegatePermissions::unpack_from_slice(&buf),
        Err(CodecError::UnknownPermissionTag),
    );
}

#[test]
fn flag_other_than_zero_or_one_is_invalid() {
    let mut buf = vec![0u8; 41];
    buf[32] = 2;
    assert_eq!(
        DelegatePermissions::unpack_from_slice(&buf),
        Err(CodecError::InvalidFlag),
    );
}

#[test]
fn short_destination_is_buffer_too_small() {
    let rec = sample_record();
    let mut buf = vec![0xCCu8; SAMPLE_LEN - 1];
    assert_eq!(rec.pack_into_slice(&mut buf), Err(CodecError::BufferTooSmall));
    // the destination is untouched on failure
    assert!(buf.iter().all(|b| *b == 0xCC));
}

#[test]
fn permission_byte_mapping() {
    assert_eq!(Permission::from_byte(0), Some(Permission::Spend));
    assert_eq!(Permission::from_byte(1), None);
    assert_eq!(Permission::from_byte(255), None);
    assert_eq!(Permission::Spend.to_byte(), 0);
}
