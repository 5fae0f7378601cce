use vstd::bytes::spec_u64_from_le_bytes;
use vstd::prelude::*;

use crate::error::DecodeError;
use crate::layout::{read_u64, u64_at, INT_LEN};

verus! {

/// Number of bytes of the amount that follows the tag.
pub const AMOUNT_LEN: usize = 8;

/// An operation requested of the program, decoded from its instruction data.
#[derive(Debug, Clone, Copy, PartialEq, Eq, Structural)]
pub enum BreedInstruction {
    /// Tag 0: set the platform fee (and treasury) to `amount`.
    UpdatePlatformData { amount: u64 },
    /// Tag 1: start a breeding with the given `amount`.
    InitBreed { amount: u64 },
}

/// The amount held in the first eight bytes of `payload`, little-endian.
pub open spec fn spec_amount(payload: Seq<u8>) -> Result<u64, DecodeError> {
    if payload.len() < AMOUNT_LEN {
        Err(DecodeError::PayloadTooShort)
    } else {
        Ok(spec_u64_from_le_bytes(payload.subrange(0, AMOUNT_LEN as int)))
    }
}

impl BreedInstruction {
    /// What `unpack` makes of the buffer `input`.
    pub open spec fn spec_unpack(input: Seq<u8>) -> Result<BreedInstruction, DecodeError> {
        if input.len() == 0 {
            Err(DecodeError::EmptyBuffer)
        } else if input[0] > 1 {
            Err(DecodeError::InvalidTag)
        } else {
            match spec_amount(input.drop_first()) {
                Err(e) => Err(e),
                Ok(amount) => if input[0] == 0 {
                    Ok(BreedInstruction::UpdatePlatformData { amount })
                } else {
                    Ok(BreedInstruction::InitBreed { amount })
                },
            }
        }
    }

    /// The amount carried by the operation.
    pub open spec fn spec_amount_of(self) -> u64 {
        match self {
            BreedInstruction::UpdatePlatformData { amount } => amount,
            BreedInstruction::InitBreed { amount } => amount,
        }
    }

    /// Decodes a tag byte followed by a little-endian `u64` amount. Bytes
    /// after the amount are ignored.
    pub fn unpack(input: &[u8]) -> (r: Result<Self, DecodeError>)
        ensures
            r == Self::spec_unpack(input@),
    {
        if input.len() == 0 {
            return Err(DecodeError::EmptyBuffer);
        }
        let tag = input[0];
        if tag > 1 {
            return Err(DecodeError::InvalidTag);
        }
        let amount = Self::unpack_amount(input, 1)?;
        if tag == 0 {
            Ok(BreedInstruction::UpdatePlatformData { amount })
        } else {
            Ok(BreedInstruction::InitBreed { amount })
        }
    }

    /// Reads the amount that starts at `start` in `input`.
    fn unpack_amount(input: &[u8], start: usize) -> (r: Result<u64, DecodeError>)
        requires
            start <= input.len(),
        ensures
            r == spec_amount(input@.subrange(start as int, input@.len() as int)),
    {
        if input.len() - start < AMOUNT_LEN {
            return Err(DecodeError::PayloadTooShort);
        }
        let ghost rest = input@.subrange(start as int, input@.len() as int);
        assert(rest.subrange(0, AMOUNT_LEN as int) =~= input@.subrange(
            start as int,
            start + INT_LEN,
        ));
        Ok(read_u64(input, start))
    }
}

/// Bytes after the tag and the amount play no part in decoding.
pub proof fn lemma_trailing_bytes_ignored(input: Seq<u8>)
    requires
        input.len() >= 1 + AMOUNT_LEN,
    ensures
        BreedInstruction::spec_unpack(input) == BreedInstruction::spec_unpack(
            input.subrange(0, 1 + AMOUNT_LEN),
        ),
{
    let w = input.subrange(0, 1 + AMOUNT_LEN);
    assert(input.drop_first().subrange(0, AMOUNT_LEN as int) =~= w.drop_first().subrange(
        0,
        AMOUNT_LEN as int,
    ));
}

/// A known tag followed by at least eight bytes always decodes, to the
/// operation of that tag carrying the little-endian amount after it.
pub proof fn lemma_tag_dispatch(input: Seq<u8>)
    requires
        input.len() >= 1 + AMOUNT_LEN,
        input[0] <= 1,
    ensures
        BreedInstruction::spec_unpack(input) is Ok,
        BreedInstruction::spec_unpack(input)->Ok_0.spec_amount_of() == u64_at(input, 1),
        input[0] == 0 <==> BreedInstruction::spec_unpack(input)->Ok_0 is UpdatePlatformData,
{
    assert(input.drop_first().subrange(0, AMOUNT_LEN as int) =~= input.subrange(1, 1 + INT_LEN));
}

} // verus!
