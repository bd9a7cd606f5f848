use delegated_spend::delegate::{CodecError, DelegatePermissions, Permission};
use delegated_spend::engine::token_engine_id;
use delegated_spend::processor::{
    AccountSlot, AuthorizationError, EngineCall, ProcessError, Processor,
};

const DELEGATOR: [u8; 32] = [1u8; 32];
const DELEGATE: [u8; 32] = [2u8; 32];
const TOKEN: [u8; 32] = [3u8; 32];
const SOURCE: [u8; 32] = [4u8; 32];
const DESTINATION: [u8; 32] = [5u8; 32];

fn engine_key() -> [u8; 32] {
    token_engine_id()
}

fn plain(key: [u8; 32]) -> AccountSlot {
    AccountSlot { key, is_signer: false, owner: [0u8; 32], data: Vec::new() }
}

/// A fresh, never-granted delegate account: owned by the delegator, with a
/// zero-filled buffer large enough for the records these tests build.
fn grant_accounts() -> Vec<AccountSlot> {
    vec![
        AccountSlot { key: DELEGATOR, is_signer: true, owner: [0u8; 32], data: Vec::new() },
        AccountSlot { key: DELEGATE, is_signer: false, owner: DELEGATOR, data: vec![0u8; 64] },
        plain(TOKEN),
        plain(engine_key()),
    ]
}

fn grant_instruction(allowance: u64) -> Vec<u8> {
    let mut input = vec![0u8];
    input.extend_from_slice(&allowance.to_le_bytes());
    input
}

fn execute_instruction(amount: u64) -> Vec<u8> {
    let mut input = vec![2u8];
    input.extend_from_slice(&amount.to_le_bytes());
    input
}

fn delegate_record(accounts: &Vec<AccountSlot>) -> DelegatePermissions {
    DelegatePermissions::unpack_from_slice(&accounts[1].data).unwrap()
}

#[test]
fn grant_initializes_and_requests_one_approve() {
    let mut accounts = grant_accounts();
    let r = Processor::process(&mut accounts, &grant_instruction(100));
    // exactly one engine invocation is requested: the approve for 100 units
    assert_eq!(
        r,
        Ok(Some(EngineCall::Approve {
            token_account: TOKEN,
            delegate: DELEGATE,
            owner: DELEGATOR,
            amount: 100,
        })),
    );
    let rec = delegate_record(&accounts);
    assert!(rec.is_initialized);
    assert_eq!(rec.delegator_address, DELEGATOR);
    assert_eq!(rec.permissions, vec![Permission::Spend]);
    assert!(rec.approved_tokens.is_empty());
}

#[test]
fn revoke_clears_permissions_and_requests_nothing() {
    let mut accounts = grant_accounts();
    Processor::process(&mut accounts, &grant_instruction(100)).unwrap();
    let r = Processor::process(&mut accounts, &[1u8]);
    // no engine invocation is requested
    assert_eq!(r, Ok(None));
    let rec = delegate_record(&accounts);
    assert!(rec.is_initialized);
    assert_eq!(rec.delegator_address, DELEGATOR);
    assert!(rec.permissions.is_empty());
}

#[test]
fn execute_after_revoke_misses_spend_permission() {
    let mut accounts = grant_accounts();
    Processor::process(&mut accounts, &grant_instruction(100)).unwrap();
    Processor::process(&mut accounts, &[1u8]).unwrap();
    let revoked_data = accounts[1].data.clone();
    let mut exec_accounts = vec![
        AccountSlot { key: DELEGATE, is_signer: true, owner: DELEGATOR, data: revoked_data },
        plain(SOURCE),
        plain(DESTINATION),
        plain(engine_key()),
    ];
    let r = Processor::process(&mut exec_accounts, &execute_instruction(50));
    assert_eq!(
        r,
        Err(ProcessError::Auth(AuthorizationError::MissingSpendPermission)),
    );
}

#[test]
fn execute_without_delegate_signature_is_unauthorized() {
    let mut accounts = grant_accounts();
    Processor::process(&mut accounts, &grant_instruction(100)).unwrap();
    let granted_data = accounts[1].data.clone();
    let mut exec_accounts = vec![
        AccountSlot {
            key: DELEGATE,
            is_signer: false,
            owner: DELEGATOR,
            data: granted_data.clone(),
        },
        plain(SOURCE),
        plain(DESTINATION),
        plain(engine_key()),
    ];
    let r = Processor::process(&mut exec_accounts, &execute_instruction(50));
    assert_eq!(r, Err(ProcessError::Auth(AuthorizationError::Unauthorized)));
    // the failure leaves every buffer as it was
    assert_eq!(exec_accounts[0].data, granted_data);
}

#[test]
fn execute_with_granted_permission_requests_the_transfer() {
    let mut accounts = grant_accounts();
    Processor::process(&mut accounts, &grant_instruction(100)).unwrap();
    let granted_data = accounts[1].data.clone();
    let mut exec_accounts = vec![
        AccountSlot { key: DELEGATE, is_signer: true, owner: DELEGATOR, data: granted_data },
        plain(SOURCE),
        plain(DESTINATION),
        plain(engine_key()),
    ];
    let r = Processor::process(&mut exec_accounts, &execute_instruction(50));
    assert_eq!(
        r,
        Ok(Some(EngineCall::Transfer {
            source: SOURCE,
            destination: DESTINATION,
            authority: DELEGATE,
            amount: 50,
        })),
    );
}

#[test]
fn execute_with_wrong_engine_identity_is_rejected() {
    let mut accounts = grant_accounts();
    Processor::process(&mut accounts, &grant_instruction(100)).unwrap();
    let granted_data = accounts[1].data.clone();
    let mut exec_accounts = vec![
        AccountSlot { key: DELEGATE, is_signer: true, owner: DELEGATOR, data: granted_data },
        plain(SOURCE),
        plain(DESTINATION),
        plain([42u8; 32]),
    ];
    let r = Processor::process(&mut exec_accounts, &execute_instruction(50));
    assert_eq!(
        r,
        Err(ProcessError::Auth(AuthorizationError::WrongTransferEngine)),
    );
}

#[test]
fn two_grants_append_two_spend_entries() {
    let mut accounts = grant_accounts();
    Processor::process(&mut accounts, &grant_instruction(100)).unwrap();
    Processor::process(&mut accounts, &grant_instruction(200)).unwrap();
    let rec = delegate_record(&accounts);
    // the grant policy appends; it does not deduplicate
    assert_eq!(rec.permissions, vec![Permission::Spend, Permission::Spend]);
}

#[test]
fn grant_without_delegator_signature_is_unauthorized() {
    let mut accounts = grant_accounts();
    accounts[0].is_signer = false;
    let before = accounts[1].data.clone();
    let r = Processor::process(&mut accounts, &grant_instruction(100));
    assert_eq!(r, Err(ProcessError::Auth(AuthorizationError::Unauthorized)));
    assert_eq!(accounts[1].data, before);
}

#[test]
fn grant_on_foreign_account_is_ownership_mismatch() {
    let mut accounts = grant_accounts();
    accounts[1].owner = [9u8; 32];
    let before = accounts[1].data.clone();
    let r = Processor::process(&mut accounts, &grant_instruction(100));
    assert_eq!(
        r,
        Err(ProcessError::Auth(AuthorizationError::OwnershipMismatch)),
    );
    assert_eq!(accounts[1].data, before);
}

#[test]
fn revoke_checks_signer_and_owner_too() {
    let mut accounts = grant_accounts();
    Processor::process(&mut accounts, &grant_instruction(100)).unwrap();
    accounts[0].is_signer = false;
    assert_eq!(
        Processor::process(&mut accounts, &[1u8]),
        Err(ProcessError::Auth(AuthorizationError::Unauthorized)),
    );
    accounts[0].is_signer = true;
    accounts[1].owner = [9u8; 32];
    assert_eq!(
        Processor::process(&mut accounts, &[1u8]),
        Err(ProcessError::Auth(AuthorizationError::OwnershipMismatch)),
    );
}

#[test]
fn too_few_accounts_is_missing_participant() {
    let mut accounts = vec![
        AccountSlot { key: DELEGATOR, is_signer: true, owner: [0u8; 32], data: Vec::new() },
    ];
    assert_eq!(
        Processor::process(&mut accounts, &grant_instruction(1)),
        Err(ProcessError::MissingParticipant),
    );
    assert_eq!(
        Processor::process(&mut accounts, &[1u8]),
        Err(ProcessError::MissingParticipant),
    );
    assert_eq!(
        Processor::process(&mut accounts, &execute_instruction(1)),
        Err(ProcessError::MissingParticipant),
    );
}

#[test]
fn bad_instruction_reaches_no_account() {
    let mut accounts = grant_accounts();
    let before = accounts[1].data.clone();
    let r = Processor::process(&mut accounts, &[7u8]);
    assert!(matches!(r, Err(ProcessError::Decode(_))));
    assert_eq!(accounts[1].data, before);
}

#[test]
fn grant_into_exactly_sized_uninitialized_buffer_fails_to_fit() {
    // a 41-byte buffer holds an empty record exactly; one permission needs 42
    let mut accounts = grant_accounts();
    accounts[1].data = vec![0u8; 41];
    let r = Processor::process(&mut accounts, &grant_instruction(100));
    assert_eq!(r, Err(ProcessError::Codec(CodecError::BufferTooSmall)));
    assert_eq!(accounts[1].data, vec![0u8; 41]);
}

#[test]
fn grant_on_undecodable_record_reports_the_codec_error() {
    let mut accounts = grant_accounts();
    accounts[1].data = vec![0u8; 20];
    assert_eq!(
        Processor::process(&mut accounts, &grant_instruction(100)),
        Err(ProcessError::Codec(CodecError::TruncatedBuffer)),
    );
    let mut bad_flag = vec![0u8; 64];
    bad_flag[32] = 9;
    accounts[1].data = bad_flag.clone();
    assert_eq!(
        Processor::process(&mut accounts, &grant_instruction(100)),
        Err(ProcessError::Codec(CodecError::InvalidFlag)),
    );
    assert_eq!(accounts[1].data, bad_flag);
}
