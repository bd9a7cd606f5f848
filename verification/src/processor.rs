//! The authorization state machine.
//!
//! One call is handled in sequence: decode the instruction, check the signer
//! and ownership, decode the delegate's permission record, mutate and
//! re-encode it, and describe the call the external transfer engine must
//! perform.  Every error aborts the call with the account buffers unchanged.

use crate::delegate::{
    record_wf, spec_decode, spec_encode, spec_encoded_len, CodecError, DelegatePermissions,
    Permission, RecordModel,
};
use crate::delegate_instruction::{spec_unpack, DecodeError, DelegatooooorInstruction};
use crate::engine::spec_token_engine_id;
use vstd::prelude::*;

verus! {

/// One call participant: its address, whether it signed the call, the address
/// of its recorded owner, and its data buffer.
#[derive(Clone, Debug)]
pub struct AccountSlot {
    pub key: [u8; 32],
    pub is_signer: bool,
    pub owner: [u8; 32],
    pub data: Vec<u8>,
}

/// The mathematical value of an [`AccountSlot`].
#[verifier::ext_equal]
pub struct SlotModel {
    pub key: Seq<u8>,
    pub is_signer: bool,
    pub owner: Seq<u8>,
    pub data: Seq<u8>,
}

impl View for AccountSlot {
    type V = SlotModel;

    open spec fn view(&self) -> SlotModel {
        SlotModel {
            key: self.key@,
            is_signer: self.is_signer,
            owner: self.owner@,
            data: self.data@,
        }
    }
}

impl DeepView for AccountSlot {
    type V = SlotModel;

    open spec fn deep_view(&self) -> SlotModel {
        self@
    }
}

/// Authorization failures of the state machine.
#[derive(Clone, Copy, Debug, PartialEq, Eq, Structural)]
pub enum AuthorizationError {
    /// The required participant did not sign the call.
    Unauthorized,
    /// The delegate account's recorded owner is not the delegator.
    OwnershipMismatch,
    /// The delegate's record does not hold the `Spend` permission.
    MissingSpendPermission,
    /// The supplied transfer-engine identity is not the canonical one.
    WrongTransferEngine,
}

/// Any failure a call can end with.
#[derive(Clone, Copy, Debug, PartialEq, Eq, Structural)]
pub enum ProcessError {
    /// The instruction payload did not decode.
    Decode(DecodeError),
    /// The permission record did not decode, or could not be re-encoded.
    Codec(CodecError),
    /// A signer, ownership, capability or identity check failed.
    Auth(AuthorizationError),
    /// The call supplied fewer accounts than the operation requires.
    MissingParticipant,
}

/// A call the external transfer engine is asked to perform.
#[derive(Clone, Copy, Debug, PartialEq, Eq)]
pub enum EngineCall {
    /// Authorize `delegate` to draw up to `amount` units from `token_account`,
    /// signed by `owner`.
    Approve { token_account: [u8; 32], delegate: [u8; 32], owner: [u8; 32], amount: u64 },
    /// Move `amount` units from `source` to `destination`, authorized by
    /// `authority`.
    Transfer { source: [u8; 32], destination: [u8; 32], authority: [u8; 32], amount: u64 },
}

/// The mathematical value of an [`EngineCall`].
#[verifier::ext_equal]
pub enum EngineCallModel {
    Approve { token_account: Seq<u8>, delegate: Seq<u8>, owner: Seq<u8>, amount: u64 },
    Transfer { source: Seq<u8>, destination: Seq<u8>, authority: Seq<u8>, amount: u64 },
}

impl View for EngineCall {
    type V = EngineCallModel;

    open spec fn view(&self) -> EngineCallModel {
        match *self {
            EngineCall::Approve { token_account, delegate, owner, amount } => {
                EngineCallModel::Approve {
                    token_account: token_account@,
                    delegate: delegate@,
                    owner: owner@,
                    amount,
                }
            },
            EngineCall::Transfer { source, destination, authority, amount } => {
                EngineCallModel::Transfer {
                    source: source@,
                    destination: destination@,
                    authority: authority@,
                    amount,
                }
            },
        }
    }
}

/// The record after a grant: a first grant initializes the record and starts
/// the lists afresh; any later grant appends one more `Spend` entry.
pub open spec fn spec_granted_record(rec: RecordModel, delegator: Seq<u8>) -> RecordModel {
    if !rec.is_initialized {
        RecordModel {
            delegator_address: delegator,
            is_initialized: true,
            permissions: seq![Permission::Spend],
            approved_tokens: Seq::empty(),
        }
    } else {
        RecordModel { permissions: rec.permissions.push(Permission::Spend), ..rec }
    }
}

/// What a grant call does: the checked outcome, and the accounts afterwards.
/// Participants: 0 the delegator (signer), 1 the delegate (written), 2 the
/// token account, 3 the transfer-engine identity.  A grown record that can no
/// longer be persisted — the count field or the account buffer cannot hold
/// one more permission — fails with `BufferTooSmall` and changes nothing.
pub open spec fn spec_grant(s: Seq<SlotModel>, allowance: u64) -> (Result<
    EngineCallModel,
    ProcessError,
>, Seq<SlotModel>) {
    if s.len() < 4 {
        (Err(ProcessError::MissingParticipant), s)
    } else if !s[0].is_signer {
        (Err(ProcessError::Auth(AuthorizationError::Unauthorized)), s)
    } else if s[1].owner != s[0].key {
        (Err(ProcessError::Auth(AuthorizationError::OwnershipMismatch)), s)
    } else {
        match spec_decode(s[1].data) {
            Err(e) => (Err(ProcessError::Codec(e)), s),
            Ok(rec) => {
                let rec2 = spec_granted_record(rec, s[0].key);
                if rec2.permissions.len() > u32::MAX || s[1].data.len() < spec_encoded_len(rec2) {
                    (Err(ProcessError::Codec(CodecError::BufferTooSmall)), s)
                } else {
                    (
                        Ok(
                            EngineCallModel::Approve {
                                token_account: s[2].key,
                                delegate: s[1].key,
                                owner: s[0].key,
                                amount: allowance,
                            },
                        ),
                        s.update(
                            1,
                            SlotModel {
                                data: spec_encode(rec2) + s[1].data.skip(spec_encoded_len(rec2)),
                                ..s[1]
                            },
                        ),
                    )
                }
            },
        }
    }
}

/// The permissions kept by a revoke: every `Spend` entry is filtered out.
pub open spec fn spec_revoked_permissions(ps: Seq<Permission>) -> Seq<Permission> {
    ps.filter(|p: Permission| p != Permission::Spend)
}

/// What a revoke call does: the checked outcome, and the accounts afterwards.
/// Participants: 0 the delegator (signer), 1 the delegate (written).
pub open spec fn spec_revoke(s: Seq<SlotModel>) -> (Result<(), ProcessError>, Seq<SlotModel>) {
    if s.len() < 2 {
        (Err(ProcessError::MissingParticipant), s)
    } else if !s[0].is_signer {
        (Err(ProcessError::Auth(AuthorizationError::Unauthorized)), s)
    } else if s[1].owner != s[0].key {
        (Err(ProcessError::Auth(AuthorizationError::OwnershipMismatch)), s)
    } else {
        match spec_decode(s[1].data) {
            Err(e) => (Err(ProcessError::Codec(e)), s),
            Ok(rec) => {
                if !rec.is_initialized {
                    (Ok(()), s)
                } else {
                    let rec2 = RecordModel {
                        permissions: spec_revoked_permissions(rec.permissions),
                        ..rec
                    };
                    (
                        Ok(()),
                        s.update(
                            1,
                            SlotModel {
                                data: spec_encode(rec2) + s[1].data.skip(spec_encoded_len(rec2)),
                                ..s[1]
                            },
                        ),
                    )
                }
            },
        }
    }
}

/// What an execute call does.  It never changes any account: it only checks
/// the signer, the recorded capability and the engine identity, and describes
/// the transfer.  Participants: 0 the delegate (signer), 1 the source token
/// account, 2 the destination token account, 3 the transfer-engine identity.
pub open spec fn spec_execute(s: Seq<SlotModel>, amount: u64) -> Result<
    EngineCallModel,
    ProcessError,
> {
    if s.len() < 4 {
        Err(ProcessError::MissingParticipant)
    } else if !s[0].is_signer {
        Err(ProcessError::Auth(AuthorizationError::Unauthorized))
    } else {
        match spec_decode(s[0].data) {
            Err(e) => Err(ProcessError::Codec(e)),
            Ok(rec) => {
                if !rec.permissions.contains(Permission::Spend) {
                    Err(ProcessError::Auth(AuthorizationError::MissingSpendPermission))
                } else if s[3].key != spec_token_engine_id() {
                    Err(ProcessError::Auth(AuthorizationError::WrongTransferEngine))
                } else {
                    Ok(
                        EngineCallModel::Transfer {
                            source: s[1].key,
                            destination: s[2].key,
                            authority: s[0].key,
                            amount,
                        },
                    )
                }
            },
        }
    }
}

/// What one whole call does: decode the instruction, then take the matching
/// transition.  The engine call to perform, if any, is handed back beside the
/// accounts as they stand afterwards.
pub open spec fn spec_process(s: Seq<SlotModel>, input: Seq<u8>) -> (Result<
    Option<EngineCallModel>,
    ProcessError,
>, Seq<SlotModel>) {
    match spec_unpack(input) {
        Err(e) => (Err(ProcessError::Decode(e)), s),
        Ok(DelegatooooorInstruction::GrantPermission { allowance }) => {
            let (r, s2) = spec_grant(s, allowance);
            (
                match r {
                    Ok(c) => Ok(Some(c)),
                    Err(e) => Err(e),
                },
                s2,
            )
        },
        Ok(DelegatooooorInstruction::RevokePermission) => {
            let (r, s2) = spec_revoke(s);
            (
                match r {
                    Ok(_) => Ok(None),
                    Err(e) => Err(e),
                },
                s2,
            )
        },
        Ok(DelegatooooorInstruction::ExecuteTransaction { amount }) => {
            (
                match spec_execute(s, amount) {
                    Ok(c) => Ok(Some(c)),
                    Err(e) => Err(e),
                },
                s,
            )
        },
    }
}

/// Are two 32-byte keys the same address?
#[verifier::loop_isolation(false)]
fn keys_equal(a: &[u8; 32], b: &[u8; 32]) -> (r: bool)
    ensures
        r == (a@ == b@),
{
    let mut i: usize = 0;
    while i < 32
        invariant
            0 <= i <= 32,
            forall|j: int| 0 <= j < i ==> a@[j] == b@[j],
        decreases 32 - i,
    {
        if a[i] != b[i] {
            return false;
        }
        i += 1;
    }
    proof {
        assert(a@ =~= b@);
    }
    true
}

/// Grants accumulate rather than deduplicate: when two consecutive grant
/// calls both succeed, the second appends one more `Spend` entry to the
/// record the first one left; from an uninitialized record, two grants leave
/// exactly two `Spend` entries.
pub proof fn lemma_grant_appends(s: Seq<SlotModel>, a1: u64, a2: u64)
    requires
        s[0].key.len() == 32,
        spec_grant(s, a1).0 is Ok,
        spec_grant(spec_grant(s, a1).1, a2).0 is Ok,
    ensures
        ({
            let s1 = spec_grant(s, a1).1;
            let s2 = spec_grant(s1, a2).1;
            &&& spec_decode(s1[1].data) is Ok
            &&& spec_decode(s2[1].data) is Ok
            &&& spec_decode(s2[1].data)->Ok_0.permissions == spec_decode(
                s1[1].data,
            )->Ok_0.permissions.push(Permission::Spend)
            &&& !spec_decode(s[1].data)->Ok_0.is_initialized ==> spec_decode(
                s2[1].data,
            )->Ok_0.permissions == seq![Permission::Spend, Permission::Spend]
        }),
{
    let s1 = spec_grant(s, a1).1;
    let s2 = spec_grant(s1, a2).1;
    let rec = spec_decode(s[1].data)->Ok_0;
    let rec2 = spec_granted_record(rec, s[0].key);
    crate::delegate::lemma_decode_wf(s[1].data);
    crate::delegate::lemma_decode_of_encode_with_tail(
        rec2,
        s[1].data.skip(spec_encoded_len(rec2)),
    );
    assert(spec_decode(s1[1].data) == Ok::<RecordModel, CodecError>(rec2));
    let rec3 = spec_granted_record(rec2, s1[0].key);
    crate::delegate::lemma_decode_wf(s1[1].data);
    crate::delegate::lemma_decode_of_encode_with_tail(
        rec3,
        s1[1].data.skip(spec_encoded_len(rec3)),
    );
    assert(spec_decode(s2[1].data) == Ok::<RecordModel, CodecError>(rec3));
    assert(rec3.permissions == rec2.permissions.push(Permission::Spend));
    if !rec.is_initialized {
        assert(rec2.permissions =~= seq![Permission::Spend]);
        assert(rec3.permissions =~= seq![Permission::Spend, Permission::Spend]);
    }
}

/// Once a record is initialized, the recorded delegator address is immutable:
/// neither a grant nor a revoke changes it, whether or not the call succeeds.
pub proof fn lemma_delegator_immutable(s: Seq<SlotModel>, allowance: u64)
    requires
        s.len() >= 2,
        spec_decode(s[1].data) is Ok,
        spec_decode(s[1].data)->Ok_0.is_initialized,
    ensures
        ({
            let g = spec_grant(s, allowance).1;
            &&& spec_decode(g[1].data) is Ok
            &&& spec_decode(g[1].data)->Ok_0.delegator_address == spec_decode(
                s[1].data,
            )->Ok_0.delegator_address
        }),
        ({
            let v = spec_revoke(s).1;
            &&& spec_decode(v[1].data) is Ok
            &&& spec_decode(v[1].data)->Ok_0.delegator_address == spec_decode(
                s[1].data,
            )->Ok_0.delegator_address
        }),
{
    let rec = spec_decode(s[1].data)->Ok_0;
    crate::delegate::lemma_decode_wf(s[1].data);
    if spec_grant(s, allowance).0 is Ok {
        let rec2 = spec_granted_record(rec, s[0].key);
        crate::delegate::lemma_decode_of_encode_with_tail(
            rec2,
            s[1].data.skip(spec_encoded_len(rec2)),
        );
    }
    if spec_revoke(s).0 is Ok && s[0].is_signer && s[1].owner == s[0].key {
        let rec2 = RecordModel { permissions: spec_revoked_permissions(rec.permissions), ..rec };
        assert(record_wf(rec2)) by {
            lemma_revoked_len(rec.permissions);
        }
        crate::delegate::lemma_decode_of_encode_with_tail(
            rec2,
            s[1].data.skip(spec_encoded_len(rec2)),
        );
    }
}

/// Filtering distributes over appending one permission.
proof fn lemma_revoked_push(ps: Seq<Permission>, p: Permission)
    ensures
        spec_revoked_permissions(ps.push(p)) == if p != Permission::Spend {
            spec_revoked_permissions(ps).push(p)
        } else {
            spec_revoked_permissions(ps)
        },
{
    reveal_with_fuel(Seq::filter, 2);
    assert(ps.push(p).drop_last() =~= ps);
    assert(ps.push(p).last() == p);
}

/// Filtering the empty sequence keeps nothing.
proof fn lemma_revoked_empty()
    ensures
        spec_revoked_permissions(Seq::<Permission>::empty()) == Seq::<Permission>::empty(),
{
    reveal_with_fuel(Seq::filter, 2);
}

/// Filtering never lengthens the list.
proof fn lemma_revoked_len(ps: Seq<Permission>)
    ensures
        spec_revoked_permissions(ps).len() <= ps.len(),
    decreases ps.len(),
{
    if ps.len() == 0 {
        lemma_revoked_empty();
        assert(ps =~= Seq::<Permission>::empty());
    } else {
        lemma_revoked_len(ps.drop_last());
        lemma_revoked_push(ps.drop_last(), ps.last());
        assert(ps.drop_last().push(ps.last()) =~= ps);
    }
}

/// The shared delegator checks, used by both the grant and the revoke path:
/// the delegator must have signed, and the delegate account's recorded owner
/// must be the delegator.
fn check_delegator_authority(delegator: &AccountSlot, delegate: &AccountSlot) -> (r: Option<
    ProcessError,
>)
    ensures
        r == if !delegator@.is_signer {
            Some(ProcessError::Auth(AuthorizationError::Unauthorized))
        } else if delegate@.owner != delegator@.key {
            Some(ProcessError::Auth(AuthorizationError::OwnershipMismatch))
        } else {
            None::<ProcessError>
        },
{
    if !delegator.is_signer {
        return Some(ProcessError::Auth(AuthorizationError::Unauthorized));
    }
    if !keys_equal(&delegate.owner, &delegator.key) {
        return Some(ProcessError::Auth(AuthorizationError::OwnershipMismatch));
    }
    None
}

/// The state machine.  Each handler checks a call and applies its transition.
pub struct Processor;

impl Processor {
    /// Grant the delegate a `Spend` permission and describe the `approve`
    /// call the transfer engine must perform, per [`spec_grant`].
    pub fn grant_permission(accounts: &mut Vec<AccountSlot>, allowance: u64) -> (r: Result<
        EngineCall,
        ProcessError,
    >)
        ensures
            ({
                let (sr, ss) = spec_grant(old(accounts).deep_view(), allowance);
                &&& final(accounts).deep_view() == ss
                &&& match (r, sr) {
                    (Ok(c), Ok(cm)) => c@ == cm,
                    (Err(e), Err(em)) => e == em,
                    _ => false,
                }
            }),
    {
        proof {
            assert(accounts.deep_view() =~= old(accounts).deep_view());
        }
        if accounts.len() < 4 {
            return Err(ProcessError::MissingParticipant);
        }
        match check_delegator_authority(&accounts[0], &accounts[1]) {
            Some(e) => {
                return Err(e);
            },
            None => {},
        }
        let mut rec = match DelegatePermissions::unpack_from_slice(accounts[1].data.as_slice()) {
            Ok(rec) => rec,
            Err(e) => {
                return Err(ProcessError::Codec(e));
            },
        };
        if !rec.is_initialized {
            rec.is_initialized = true;
            rec.delegator_address = accounts[0].key;
            let mut granted: Vec<Permission> = Vec::new();
            granted.push(Permission::Spend);
            rec.permissions = granted;
            rec.approved_tokens = Vec::new();
        } else {
            if rec.permissions.len() >= u32::MAX as usize {
                return Err(ProcessError::Codec(CodecError::BufferTooSmall));
            }
            rec.permissions.push(Permission::Spend);
        }
        proof {
            let s = old(accounts).deep_view();
            let rec2 = spec_granted_record(spec_decode(s[1].data)->Ok_0, s[0].key);
            assert(rec@.permissions =~= rec2.permissions);
            assert(rec@.approved_tokens =~= rec2.approved_tokens);
            assert(rec@ =~= rec2);
        }
        let mut data = accounts[1].data.clone();
        match rec.pack_into_slice(&mut data) {
            Ok(_) => {},
            Err(e) => {
                return Err(ProcessError::Codec(e));
            },
        }
        let slot = AccountSlot {
            key: accounts[1].key,
            is_signer: accounts[1].is_signer,
            owner: accounts[1].owner,
            data,
        };
        accounts[1] = slot;
        let call = EngineCall::Approve {
            token_account: accounts[2].key,
            delegate: accounts[1].key,
            owner: accounts[0].key,
            amount: allowance,
        };
        proof {
            let s = old(accounts).deep_view();
            let (sr, ss) = spec_grant(s, allowance);
            assert(accounts.deep_view() =~= ss);
        }
        Ok(call)
    }

    /// Remove every `Spend` entry from the delegate's record, per
    /// [`spec_revoke`].  No engine call is made: any approval already granted
    /// on the token side stays outstanding unless revoked there separately.
    #[verifier::loop_isolation(false)]
    pub fn revoke_permission(accounts: &mut Vec<AccountSlot>) -> (r: Result<(), ProcessError>)
        ensures
            ({
                let (sr, ss) = spec_revoke(old(accounts).deep_view());
                &&& final(accounts).deep_view() == ss
                &&& match (r, sr) {
                    (Ok(_), Ok(_)) => true,
                    (Err(e), Err(em)) => e == em,
                    _ => false,
                }
            }),
    {
        proof {
            assert(accounts.deep_view() =~= old(accounts).deep_view());
        }
        if accounts.len() < 2 {
            return Err(ProcessError::MissingParticipant);
        }
        match check_delegator_authority(&accounts[0], &accounts[1]) {
            Some(e) => {
                return Err(e);
            },
            None => {},
        }
        let rec = match DelegatePermissions::unpack_from_slice(accounts[1].data.as_slice()) {
            Ok(rec) => rec,
            Err(e) => {
                return Err(ProcessError::Codec(e));
            },
        };
        if !rec.is_initialized {
            return Ok(());
        }
        let mut kept: Vec<Permission> = Vec::new();
        proof {
            lemma_revoked_empty();
            assert(rec.permissions@.take(0) =~= Seq::<Permission>::empty());
        }
        let mut i: usize = 0;
        while i < rec.permissions.len()
            invariant
                0 <= i <= rec.permissions@.len(),
                kept@.len() <= i,
                kept@ == spec_revoked_permissions(rec.permissions@.take(i as int)),
            decreases rec.permissions@.len() - i,
        {
            let p = rec.permissions[i];
            if p != Permission::Spend {
                kept.push(p);
            }
            i += 1;
            proof {
                lemma_revoked_push(rec.permissions@.take(i - 1), rec.permissions@[i - 1]);
                assert(rec.permissions@.take(i as int) =~= rec.permissions@.take(i - 1).push(
                    rec.permissions@[i - 1],
                ));
            }
        }
        proof {
            assert(rec.permissions@.take(rec.permissions@.len() as int) =~= rec.permissions@);
        }
        let rec2 = DelegatePermissions { permissions: kept, ..rec };
        proof {
            let s = old(accounts).deep_view();
            let srec = spec_decode(s[1].data)->Ok_0;
            let srec2 = RecordModel { permissions: spec_revoked_permissions(srec.permissions), ..srec };
            assert(rec2@.approved_tokens =~= srec2.approved_tokens);
            assert(rec2@ =~= srec2);
        }
        let mut data = accounts[1].data.clone();
        match rec2.pack_into_slice(&mut data) {
            Ok(_) => {},
            Err(_) => {
                proof {
                    assert(false);
                }
                return Err(ProcessError::MissingParticipant);
            },
        }
        let slot = AccountSlot {
            key: accounts[1].key,
            is_signer: accounts[1].is_signer,
            owner: accounts[1].owner,
            data,
        };
        accounts[1] = slot;
        proof {
            let (sr, ss) = spec_revoke(old(accounts).deep_view());
            assert(accounts.deep_view() =~= ss);
        }
        Ok(())
    }

    /// Check the delegate's capability and describe the `transfer` call the
    /// engine must perform, per [`spec_execute`].  The accounts are only read.
    #[verifier::loop_isolation(false)]
    pub fn execute_transaction(accounts: &Vec<AccountSlot>, amount: u64) -> (r: Result<
        EngineCall,
        ProcessError,
    >)
        ensures
            ({
                let sr = spec_execute(accounts.deep_view(), amount);
                match (r, sr) {
                    (Ok(c), Ok(cm)) => c@ == cm,
                    (Err(e), Err(em)) => e == em,
                    _ => false,
                }
            }),
    {
        if accounts.len() < 4 {
            return Err(ProcessError::MissingParticipant);
        }
        if !accounts[0].is_signer {
            return Err(ProcessError::Auth(AuthorizationError::Unauthorized));
        }
        let rec = match DelegatePermissions::unpack_from_slice(accounts[0].data.as_slice()) {
            Ok(rec) => rec,
            Err(e) => {
                return Err(ProcessError::Codec(e));
            },
        };
        let mut has_spend = false;
        let mut i: usize = 0;
        while i < rec.permissions.len()
            invariant
                0 <= i <= rec.permissions@.len(),
                has_spend == exists|j: int|
                    0 <= j < i && rec.permissions@[j] == Permission::Spend,
            decreases rec.permissions@.len() - i,
        {
            let p = rec.permissions[i];
            if p == Permission::Spend {
                has_spend = true;
                proof {
                    assert(rec.permissions@[i as int] == Permission::Spend);
                }
            }
            i += 1;
        }
        if !has_spend {
            proof {
                assert(!rec.permissions@.contains(Permission::Spend));
            }
            return Err(ProcessError::Auth(AuthorizationError::MissingSpendPermission));
        }
        proof {
            assert(rec.permissions@.contains(Permission::Spend));
        }
        if !crate::engine::is_token_engine_id(&accounts[3].key) {
            return Err(ProcessError::Auth(AuthorizationError::WrongTransferEngine));
        }
        Ok(
            EngineCall::Transfer {
                source: accounts[1].key,
                destination: accounts[2].key,
                authority: accounts[0].key,
                amount,
            },
        )
    }

    /// Handle one whole call, per [`spec_process`]: decode the instruction,
    /// run the matching handler, and hand back the engine call to perform, if
    /// the operation asks for one.
    pub fn process(accounts: &mut Vec<AccountSlot>, instruction_data: &[u8]) -> (r: Result<
        Option<EngineCall>,
        ProcessError,
    >)
        ensures
            ({
                let (sr, ss) = spec_process(old(accounts).deep_view(), instruction_data@);
                &&& final(accounts).deep_view() == ss
                &&& match (r, sr) {
                    (Ok(c), Ok(cm)) => match (c, cm) {
                        (Some(c1), Some(cm1)) => c1@ == cm1,
                        (None, None) => true,
                        _ => false,
                    },
                    (Err(e), Err(em)) => e == em,
                    _ => false,
                }
            }),
    {
        proof {
            assert(accounts.deep_view() =~= old(accounts).deep_view());
        }
        let instruction = match DelegatooooorInstruction::unpack(instruction_data) {
            Ok(instruction) => instruction,
            Err(e) => {
                return Err(ProcessError::Decode(e));
            },
        };
        match instruction {
            DelegatooooorInstruction::GrantPermission { allowance } => {
                match Self::grant_permission(accounts, allowance) {
                    Ok(c) => Ok(Some(c)),
                    Err(e) => Err(e),
                }
            },
            DelegatooooorInstruction::RevokePermission => {
                match Self::revoke_permission(accounts) {
                    Ok(_) => Ok(None),
                    Err(e) => Err(e),
                }
            },
            DelegatooooorInstruction::ExecuteTransaction { amount } => {
                match Self::execute_transaction(accounts, amount) {
                    Ok(c) => Ok(Some(c)),
                    Err(e) => Err(e),
                }
            },
        }
    }
}

} // verus!
