//! The instruction decoder: an opaque byte payload becomes a typed operation.

use vstd::bytes::*;
use vstd::prelude::*;

verus! {

/// The three operations a call may request.
#[derive(Clone, Copy, Debug, PartialEq, Eq, Structural)]
pub enum DelegatooooorInstruction {
    /// Grant the delegate the capability to draw up to `allowance` units.
    GrantPermission { allowance: u64 },
    /// Revoke the delegate's spend capability.
    RevokePermission,
    /// Execute a transfer of `amount` units on the delegator's behalf.
    ExecuteTransaction { amount: u64 },
}

/// Failures of the instruction decoder.
#[derive(Clone, Copy, Debug, PartialEq, Eq, Structural)]
pub enum DecodeError {
    /// The payload was empty: there is no discriminant tag to read.
    MissingTag,
    /// The tag is unknown, or the payload is shorter than the tag requires.
    InvalidEncoding,
}

/// What decoding an instruction payload yields.  The first byte is the tag;
/// tags 0 and 2 carry a little-endian u64 in the next eight bytes, and any
/// trailing bytes are ignored.
pub open spec fn spec_unpack(input: Seq<u8>) -> Result<DelegatooooorInstruction, DecodeError> {
    if input.len() == 0 {
        Err(DecodeError::MissingTag)
    } else if input[0] == 0 {
        if input.len() >= 9 {
            Ok(
                DelegatooooorInstruction::GrantPermission {
                    allowance: spec_u64_from_le_bytes(input.subrange(1, 9)),
                },
            )
        } else {
            Err(DecodeError::InvalidEncoding)
        }
    } else if input[0] == 1 {
        Ok(DelegatooooorInstruction::RevokePermission)
    } else if input[0] == 2 {
        if input.len() >= 9 {
            Ok(
                DelegatooooorInstruction::ExecuteTransaction {
                    amount: spec_u64_from_le_bytes(input.subrange(1, 9)),
                },
            )
        } else {
            Err(DecodeError::InvalidEncoding)
        }
    } else {
        Err(DecodeError::InvalidEncoding)
    }
}

impl DelegatooooorInstruction {
    /// Decode a byte payload into an instruction.
    pub fn unpack(input: &[u8]) -> (r: Result<Self, DecodeError>)
        ensures
            r == spec_unpack(input@),
    {
        if input.len() == 0 {
            return Err(DecodeError::MissingTag);
        }
        let tag = input[0];
        match tag {
            0 => {
                if input.len() >= 9 {
                    let allowance = u64_from_le_bytes(vstd::slice::slice_subrange(input, 1, 9));
                    Ok(DelegatooooorInstruction::GrantPermission { allowance })
                } else {
                    Err(DecodeError::InvalidEncoding)
                }
            },
            1 => Ok(DelegatooooorInstruction::RevokePermission),
            2 => {
                if input.len() >= 9 {
                    let amount = u64_from_le_bytes(vstd::slice::slice_subrange(input, 1, 9));
                    Ok(DelegatooooorInstruction::ExecuteTransaction { amount })
                } else {
                    Err(DecodeError::InvalidEncoding)
                }
            },
            _ => Err(DecodeError::InvalidEncoding),
        }
    }
}

} // verus!
