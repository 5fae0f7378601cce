use vstd::prelude::*;

use crate::error::DecodeError;
use crate::layout::{Identifier, KEY_LEN};
use crate::state::{spec_check, PlatformData};

verus! {

/// Why a request to update the platform account was turned down.
#[derive(Debug, Clone, Copy, PartialEq, Eq, Structural)]
pub enum UpdateRejected {
    /// The signer is not the platform's update authority.
    WrongAuthority,
    /// The platform account is not owned by this program.
    NotProgramOwned,
    /// The platform account does not hold enough lamports to be rent exempt.
    NotRentExempt,
}

/// What the authorization policy decides for a platform update, checks in
/// this order: authority, ownership, rent exemption.
pub open spec fn spec_authorize(
    user: Seq<u8>,
    authority: Seq<u8>,
    owned_by_program: bool,
    rent_exempt: bool,
) -> Result<(), UpdateRejected> {
    if user != authority {
        Err(UpdateRejected::WrongAuthority)
    } else if !owned_by_program {
        Err(UpdateRejected::NotProgramOwned)
    } else if !rent_exempt {
        Err(UpdateRejected::NotRentExempt)
    } else {
        Ok(())
    }
}

/// The platform record that an update with `treasury_acc` and `amount` leaves.
pub open spec fn updated_platform(treasury_acc: Identifier, amount: u64) -> PlatformData {
    PlatformData { is_initialized: true, treasury_acc, platform_fee: amount }
}

/// The program's handlers, over values read from the accounts.
pub struct Processor;

impl Processor {
    /// Decides whether `user` may update the platform account.
    pub fn authorize_platform_update(
        user: &Identifier,
        authority: &Identifier,
        owned_by_program: bool,
        rent_exempt: bool,
    ) -> (r: Result<(), UpdateRejected>)
        ensures
            r == spec_authorize(user@, authority@, owned_by_program, rent_exempt),
    {
        if !same_key(user, authority) {
            return Err(UpdateRejected::WrongAuthority);
        }
        if !owned_by_program {
            return Err(UpdateRejected::NotProgramOwned);
        }
        if !rent_exempt {
            return Err(UpdateRejected::NotRentExempt);
        }
        Ok(())
    }

    /// Marks the platform record held in `data` initialized, with the given
    /// treasury and fee, and stores it back. The stored record must decode;
    /// if it does not, `data` is left as it was.
    pub fn process_update_platform_acc(
        data: &mut [u8],
        treasury_acc: &Identifier,
        amount: u64,
    ) -> (r: Result<(), DecodeError>)
        ensures
            match r {
                Ok(()) => spec_check(old(data)@, PlatformData::LEN) is None && final(data)@
                    == updated_platform(*treasury_acc, amount).packed_into(old(data)@),
                Err(e) => spec_check(old(data)@, PlatformData::LEN) == Some(e) && final(data)@
                    == old(data)@,
            },
    {
        let mut record = PlatformData::unpack_from_slice(data)?;
        record.is_initialized = true;
        record.treasury_acc = *treasury_acc;
        record.platform_fee = amount;
        record.pack_into_slice(data)
    }
}

/// Whether two identifiers hold the same bytes.
fn same_key(a: &Identifier, b: &Identifier) -> (r: bool)
    ensures
        r == (a@ == b@),
{
    let mut i: usize = 0;
    while i < KEY_LEN
        invariant
            i <= KEY_LEN,
            a@.len() == KEY_LEN,
            b@.len() == KEY_LEN,
            forall|t: int| 0 <= t < i ==> a@[t] == b@[t],
        decreases KEY_LEN - i,
    {
        if a[i] != b[i] {
            return false;
        }
        i = i + 1;
    }
    assert(a@ =~= b@);
    true
}

} // verus!
