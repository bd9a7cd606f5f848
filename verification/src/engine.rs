//! The external transfer engine: its identity, and the instructions it is
//! asked to run.
//!
//! The engine itself is an outside collaborator.  This module checks the
//! engine identity a call supplied against the canonical one, and builds the
//! `approve` and `transfer` instructions the engine consumes; performing them
//! is the host's work.

use crate::processor::{AuthorizationError, EngineCall, EngineCallModel};
use vstd::prelude::*;

verus! {

#[verifier::external_type_specification]
#[verifier::external_body]
pub struct ExInstruction(solana_program::instruction::Instruction);

/// The instruction that asks the engine to let `delegate` draw up to `amount`
/// units from `token_account`, authorized by `owner`.
pub uninterp spec fn approve_instruction_of(
    token_account: Seq<u8>,
    delegate: Seq<u8>,
    owner: Seq<u8>,
    amount: u64,
) -> solana_program::instruction::Instruction;

/// The instruction that asks the engine to move `amount` units from `source`
/// to `destination`, authorized by `authority`.
pub uninterp spec fn transfer_instruction_of(
    source: Seq<u8>,
    destination: Seq<u8>,
    authority: Seq<u8>,
    amount: u64,
) -> solana_program::instruction::Instruction;

/// The canonical transfer-engine identity: the token program's 32-byte
/// address, whose base58 form is `TokenkegQfeZyiNwAJbNbGKPFXCWuBvf9Ss623VQ5DA`.
pub open spec fn spec_token_engine_id() -> Seq<u8> {
    seq![
        6u8, 221u8, 246u8, 225u8, 215u8, 101u8, 161u8, 147u8, 217u8, 203u8, 225u8, 70u8, 206u8,
        235u8, 121u8, 172u8, 28u8, 180u8, 133u8, 237u8, 95u8, 91u8, 55u8, 145u8, 58u8, 140u8,
        245u8, 133u8, 126u8, 255u8, 0u8, 169u8,
    ]
}

/// The canonical transfer-engine identity as bytes.
pub fn token_engine_id() -> (r: [u8; 32])
    ensures
        r@ == spec_token_engine_id(),
{
    let r: [u8; 32] = [
        6, 221, 246, 225, 215, 101, 161, 147, 217, 203, 225, 70, 206, 235, 121, 172, 28, 180, 133,
        237, 95, 91, 55, 145, 58, 140, 245, 133, 126, 255, 0, 169,
    ];
    proof {
        assert(r@ =~= spec_token_engine_id());
    }
    r
}

/// Does a 32-byte key name the canonical transfer engine?
pub fn is_token_engine_id(key: &[u8; 32]) -> (r: bool)
    ensures
        r == (key@ == spec_token_engine_id()),
{
    let id = token_engine_id();
    let mut i: usize = 0;
    while i < 32
        invariant
            0 <= i <= 32,
            id@ == spec_token_engine_id(),
            forall|j: int| 0 <= j < i ==> key@[j] == id@[j],
        decreases 32 - i,
    {
        if key[i] != id[i] {
            assert(key@[i as int] != spec_token_engine_id()[i as int]);
            return false;
        }
        i += 1;
    }
    proof {
        assert(key@ =~= spec_token_engine_id());
    }
    true
}

/// Relies on `spl_token::instruction::approve`: called with the canonical
/// token program identity it always returns `Ok`, and the instruction it
/// builds is a function of the keys and the amount alone.
#[verifier::external_body]
fn build_approve(
    token_account: &[u8; 32],
    delegate: &[u8; 32],
    owner: &[u8; 32],
    amount: u64,
) -> (r: solana_program::instruction::Instruction)
    ensures
        r == approve_instruction_of(token_account@, delegate@, owner@, amount),
{
    let t = solana_program::pubkey::Pubkey::new_from_array(*token_account);
    let d = solana_program::pubkey::Pubkey::new_from_array(*delegate);
    let o = solana_program::pubkey::Pubkey::new_from_array(*owner);
    spl_token::instruction::approve(&spl_token::id(), &t, &d, &o, &[], amount).unwrap()
}

/// Relies on `spl_token::instruction::transfer`: called with the canonical
/// token program identity it always returns `Ok`, and the instruction it
/// builds is a function of the keys and the amount alone.
#[verifier::external_body]
fn build_transfer(
    source: &[u8; 32],
    destination: &[u8; 32],
    authority: &[u8; 32],
    amount: u64,
) -> (r: solana_program::instruction::Instruction)
    ensures
        r == transfer_instruction_of(source@, destination@, authority@, amount),
{
    let s = solana_program::pubkey::Pubkey::new_from_array(*source);
    let d = solana_program::pubkey::Pubkey::new_from_array(*destination);
    let a = solana_program::pubkey::Pubkey::new_from_array(*authority);
    spl_token::instruction::transfer(&spl_token::id(), &s, &d, &a, &[], amount).unwrap()
}

/// The engine instruction that performs `c`.
pub open spec fn spec_instruction_of(c: EngineCallModel) -> solana_program::instruction::Instruction {
    match c {
        EngineCallModel::Approve { token_account, delegate, owner, amount } => {
            approve_instruction_of(token_account, delegate, owner, amount)
        },
        EngineCallModel::Transfer { source, destination, authority, amount } => {
            transfer_instruction_of(source, destination, authority, amount)
        },
    }
}

impl EngineCall {
    /// Build the engine instruction that performs this call, after checking
    /// that the supplied engine identity is the canonical one.
    pub fn to_instruction(&self, engine_key: &[u8; 32]) -> (r: Result<
        solana_program::instruction::Instruction,
        AuthorizationError,
    >)
        ensures
            match r {
                Ok(i) => engine_key@ == spec_token_engine_id() && i == spec_instruction_of(self@),
                Err(e) => engine_key@ != spec_token_engine_id() && e
                    == AuthorizationError::WrongTransferEngine,
            },
    {
        if !is_token_engine_id(engine_key) {
            return Err(AuthorizationError::WrongTransferEngine);
        }
        match self {
            EngineCall::Approve { token_account, delegate, owner, amount } => {
                Ok(build_approve(token_account, delegate, owner, *amount))
            },
            EngineCall::Transfer { source, destination, authority, amount } => {
                Ok(build_transfer(source, destination, authority, *amount))
            },
        }
    }
}

} // verus!
