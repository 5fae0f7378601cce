use vstd::bytes::spec_u64_to_le_bytes;
use vstd::prelude::*;

use crate::error::DecodeError;
use crate::layout::{
    flag_byte, key_at, read_flag, read_key, read_u64, spec_flag, splice, u64_at, write_key,
    write_u64, Identifier, INT_LEN, KEY_LEN,
};

verus! {

/// Why `src` cannot be decoded as a record of `len` bytes, if it cannot.
pub open spec fn spec_check(src: Seq<u8>, len: usize) -> Option<DecodeError> {
    if src.len() < len {
        Some(DecodeError::BufferTooShort)
    } else if src[0] > 1 {
        Some(DecodeError::InvalidEncoding)
    } else {
        None
    }
}

/// Offset of the second parent's mint in a `ChildNFTData` record.
pub const PARENT_TWO_AT: usize = 1 + KEY_LEN + KEY_LEN;

/// Offset of the mint time in a `ChildNFTData` record.
pub const MINT_TIME_AT: usize = PARENT_TWO_AT + KEY_LEN;

/// Platform configuration: where fees go and how large they are.
#[derive(Debug, Clone, Copy, PartialEq, Eq)]
pub struct PlatformData {
    pub is_initialized: bool,
    pub treasury_acc: Identifier,
    pub platform_fee: u64,
}

impl PlatformData {
    /// Encoded length of the record.
    pub const LEN: usize = 41;

    /// The canonical encoding of the record.
    pub open spec fn spec_bytes(self) -> Seq<u8> {
        seq![flag_byte(self.is_initialized)] + self.treasury_acc@ + spec_u64_to_le_bytes(
            self.platform_fee,
        )
    }

    /// The fields of the record are those held in the leading window of `src`.
    pub open spec fn decodes_from(self, src: Seq<u8>) -> bool {
        &&& spec_flag(src[0]) == Ok::<bool, DecodeError>(self.is_initialized)
        &&& self.treasury_acc@ == key_at(src, 1)
        &&& self.platform_fee == u64_at(src, 1 + KEY_LEN)
    }

    /// `dst` after the record was encoded over its leading window.
    pub open spec fn packed_into(self, dst: Seq<u8>) -> Seq<u8> {
        splice(dst, 0, self.spec_bytes())
    }

    /// Whether the storage slot holds a record that was set up.
    pub fn is_initialized(&self) -> (r: bool)
        ensures
            r == self.is_initialized,
    {
        self.is_initialized
    }

    /// Decodes the record from the first `LEN` bytes of `src`.
    pub fn unpack_from_slice(src: &[u8]) -> (r: Result<Self, DecodeError>)
        ensures
            match r {
                Ok(d) => spec_check(src@, Self::LEN) is None && d.decodes_from(src@),
                Err(e) => spec_check(src@, Self::LEN) == Some(e),
            },
    {
        if src.len() < Self::LEN {
            return Err(DecodeError::BufferTooShort);
        }
        let is_initialized = read_flag(src[0])?;
        let treasury_acc = read_key(src, 1);
        let platform_fee = read_u64(src, 1 + KEY_LEN);
        Ok(PlatformData { is_initialized, treasury_acc, platform_fee })
    }

    /// Encodes the record over the first `LEN` bytes of `dst`; the bytes
    /// after them are left as they were.
    pub fn pack_into_slice(&self, dst: &mut [u8]) -> (r: Result<(), DecodeError>)
        ensures
            old(dst)@.len() < Self::LEN ==> r == Err::<(), DecodeError>(DecodeError::BufferTooShort)
                && final(dst)@ == old(dst)@,
            old(dst)@.len() >= Self::LEN ==> r is Ok && final(dst)@ == self.packed_into(old(dst)@),
    {
        if dst.len() < Self::LEN {
            return Err(DecodeError::BufferTooShort);
        }
        let ghost d0 = dst@;
        dst[0] = if self.is_initialized { 1u8 } else { 0u8 };
        write_key(dst, 1, &self.treasury_acc);
        write_u64(dst, 1 + KEY_LEN, self.platform_fee);
        proof {
            vstd::bytes::lemma_auto_spec_u64_to_from_le_bytes();
        }
        assert(dst@ =~= self.packed_into(d0));
        Ok(())
    }

    /// Encoding a record and decoding the result gives the record back, and
    /// no other: for every buffer of at least `LEN` bytes.
    pub proof fn lemma_round_trip(self, dst: Seq<u8>, other: Self)
        requires
            dst.len() >= Self::LEN,
        ensures
            spec_check(self.packed_into(dst), Self::LEN) is None,
            self.decodes_from(self.packed_into(dst)),
            other.decodes_from(self.packed_into(dst)) ==> other == self,
    {
        vstd::bytes::lemma_auto_spec_u64_to_from_le_bytes();
        let s = self.packed_into(dst);
        assert(key_at(s, 1) =~= self.treasury_acc@);
        assert(s.subrange(1 + KEY_LEN, 1 + KEY_LEN + INT_LEN) =~= spec_u64_to_le_bytes(
            self.platform_fee,
        ));
        if other.decodes_from(s) {
            assert(other.treasury_acc =~= self.treasury_acc);
        }
    }

    /// The encoding always spans exactly `LEN` bytes, whatever the fields hold.
    pub proof fn lemma_encoded_len(self)
        ensures
            self.spec_bytes().len() == Self::LEN,
    {
        vstd::bytes::lemma_auto_spec_u64_to_from_le_bytes();
    }

    /// A buffer one byte short of `LEN` is refused for its length, and one
    /// of `LEN` bytes or more whose flag byte is 0 or 1 is accepted.
    pub proof fn lemma_length_sensitivity(src: Seq<u8>)
        ensures
            src.len() + 1 == Self::LEN ==> spec_check(src, Self::LEN) == Some(
                DecodeError::BufferTooShort,
            ),
            src.len() >= Self::LEN && src[0] <= 1 ==> spec_check(src, Self::LEN) is None,
    {
    }

    /// A buffer of `LEN` bytes or more whose flag byte is neither 0 nor 1 is
    /// refused for its encoding, whatever the other bytes hold.
    pub proof fn lemma_flag_strictness(src: Seq<u8>)
        requires
            src.len() >= Self::LEN,
            src[0] != 0 && src[0] != 1,
        ensures
            spec_check(src, Self::LEN) == Some(DecodeError::InvalidEncoding),
    {
    }

    /// Only the leading `LEN` bytes of a buffer decide what it decodes to.
    pub proof fn lemma_window_only(src: Seq<u8>, other: Self)
        requires
            src.len() >= Self::LEN,
        ensures
            spec_check(src, Self::LEN) == spec_check(src.subrange(0, Self::LEN as int), Self::LEN),
            other.decodes_from(src) <==> other.decodes_from(src.subrange(0, Self::LEN as int)),
    {
        let w = src.subrange(0, Self::LEN as int);
        assert(key_at(src, 1) =~= key_at(w, 1));
        assert(src.subrange(1 + KEY_LEN, 1 + KEY_LEN + INT_LEN) =~= w.subrange(
            1 + KEY_LEN,
            1 + KEY_LEN + INT_LEN,
        ));
    }
}

/// Breeding metadata of a parent NFT.
#[derive(Debug, Clone, Copy, PartialEq, Eq)]
pub struct NFTData {
    pub is_initialized: bool,
    pub mint_key: Identifier,
    pub last_breed: u64,
    pub breed_count: u64,
}

impl NFTData {
    /// Encoded length of the record.
    pub const LEN: usize = 49;

    /// The canonical encoding of the record.
    pub open spec fn spec_bytes(self) -> Seq<u8> {
        seq![flag_byte(self.is_initialized)]
            + self.mint_key@
            + spec_u64_to_le_bytes(self.last_breed)
            + spec_u64_to_le_bytes(self.breed_count)
    }

    /// The fields of the record are those held in the leading window of `src`.
    pub open spec fn decodes_from(self, src: Seq<u8>) -> bool {
        &&& spec_flag(src[0]) == Ok::<bool, DecodeError>(self.is_initialized)
        &&& self.mint_key@ == key_at(src, 1)
        &&& self.last_breed == u64_at(src, 1 + KEY_LEN)
        &&& self.breed_count == u64_at(src, 1 + KEY_LEN + INT_LEN)
    }

    /// `dst` after the record was encoded over its leading window.
    pub open spec fn packed_into(self, dst: Seq<u8>) -> Seq<u8> {
        splice(dst, 0, self.spec_bytes())
    }

    /// Whether the storage slot holds a record that was set up.
    pub fn is_initialized(&self) -> (r: bool)
        ensures
            r == self.is_initialized,
    {
        self.is_initialized
    }

    /// Decodes the record from the first `LEN` bytes of `src`.
    pub fn unpack_from_slice(src: &[u8]) -> (r: Result<Self, DecodeError>)
        ensures
            match r {
                Ok(d) => spec_check(src@, Self::LEN) is None && d.decodes_from(src@),
                Err(e) => spec_check(src@, Self::LEN) == Some(e),
            },
    {
        if src.len() < Self::LEN {
            return Err(DecodeError::BufferTooShort);
        }
        let is_initialized = read_flag(src[0])?;
        let mint_key = read_key(src, 1);
        let last_breed = read_u64(src, 1 + KEY_LEN);
        let breed_count = read_u64(src, 1 + KEY_LEN + INT_LEN);
        Ok(NFTData { is_initialized, mint_key, last_breed, breed_count })
    }

    /// Encodes the record over the first `LEN` bytes of `dst`; the bytes
    /// after them are left as they were.
    pub fn pack_into_slice(&self, dst: &mut [u8]) -> (r: Result<(), DecodeError>)
        ensures
            old(dst)@.len() < Self::LEN ==> r == Err::<(), DecodeError>(DecodeError::BufferTooShort)
                && final(dst)@ == old(dst)@,
            old(dst)@.len() >= Self::LEN ==> r is Ok && final(dst)@ == self.packed_into(old(dst)@),
    {
        if dst.len() < Self::LEN {
            return Err(DecodeError::BufferTooShort);
        }
        let ghost d0 = dst@;
        dst[0] = if self.is_initialized { 1u8 } else { 0u8 };
        write_key(dst, 1, &self.mint_key);
        write_u64(dst, 1 + KEY_LEN, self.last_breed);
        write_u64(dst, 1 + KEY_LEN + INT_LEN, self.breed_count);
        proof {
            vstd::bytes::lemma_auto_spec_u64_to_from_le_bytes();
        }
        assert(dst@ =~= self.packed_into(d0));
        Ok(())
    }

    /// Encoding a record and decoding the result gives the record back, and
    /// no other: for every buffer of at least `LEN` bytes.
    pub proof fn lemma_round_trip(self, dst: Seq<u8>, other: Self)
        requires
            dst.len() >= Self::LEN,
        ensures
            spec_check(self.packed_into(dst), Self::LEN) is None,
            self.decodes_from(self.packed_into(dst)),
            other.decodes_from(self.packed_into(dst)) ==> other == self,
    {
        vstd::bytes::lemma_auto_spec_u64_to_from_le_bytes();
        let s = self.packed_into(dst);
        assert(key_at(s, 1) =~= self.mint_key@);
        assert(s.subrange(1 + KEY_LEN, 1 + KEY_LEN + INT_LEN) =~=
            spec_u64_to_le_bytes(self.last_breed)
        );
        assert(s.subrange(1 + KEY_LEN + INT_LEN, 1 + KEY_LEN + INT_LEN + INT_LEN) =~=
            spec_u64_to_le_bytes(self.breed_count)
        );
        if other.decodes_from(s) {
            assert(other.mint_key =~= self.mint_key);
        }
    }

    /// The encoding always spans exactly `LEN` bytes, whatever the fields hold.
    pub proof fn lemma_encoded_len(self)
        ensures
            self.spec_bytes().len() == Self::LEN,
    {
        vstd::bytes::lemma_auto_spec_u64_to_from_le_bytes();
    }

    /// A buffer one byte short of `LEN` is refused for its length, and one
    /// of `LEN` bytes or more whose flag byte is 0 or 1 is accepted.
    pub proof fn lemma_length_sensitivity(src: Seq<u8>)
        ensures
            src.len() + 1 == Self::LEN ==> spec_check(src, Self::LEN) == Some(
                DecodeError::BufferTooShort,
            ),
            src.len() >= Self::LEN && src[0] <= 1 ==> spec_check(src, Self::LEN) is None,
    {
    }

    /// A buffer of `LEN` bytes or more whose flag byte is neither 0 nor 1 is
    /// refused for its encoding, whatever the other bytes hold.
    pub proof fn lemma_flag_strictness(src: Seq<u8>)
        requires
            src.len() >= Self::LEN,
            src[0] != 0 && src[0] != 1,
        ensures
            spec_check(src, Self::LEN) == Some(DecodeError::InvalidEncoding),
    {
    }

    /// Only the leading `LEN` bytes of a buffer decide what it decodes to.
    pub proof fn lemma_window_only(src: Seq<u8>, other: Self)
        requires
            src.len() >= Self::LEN,
        ensures
            spec_check(src, Self::LEN) == spec_check(src.subrange(0, Self::LEN as int), Self::LEN),
            other.decodes_from(src) <==> other.decodes_from(src.subrange(0, Self::LEN as int)),
    {
        let w = src.subrange(0, Self::LEN as int);
        assert(key_at(src, 1) =~= key_at(w, 1));
        assert(src.subrange(1 + KEY_LEN, 1 + KEY_LEN + INT_LEN) =~=
            w.subrange(1 + KEY_LEN, 1 + KEY_LEN + INT_LEN)
        );
        assert(src.subrange(1 + KEY_LEN + INT_LEN, 1 + KEY_LEN + INT_LEN + INT_LEN) =~=
            w.subrange(1 + KEY_LEN + INT_LEN, 1 + KEY_LEN + INT_LEN + INT_LEN)
        );
    }
}

/// Provenance of an NFT produced by breeding.
#[derive(Debug, Clone, Copy, PartialEq, Eq)]
pub struct ChildNFTData {
    pub is_initialized: bool,
    pub child_nft_mint: Identifier,
    pub parent_one_mint: Identifier,
    pub parent_two_mint: Identifier,
    pub mint_time: u64,
}

impl ChildNFTData {
    /// Encoded length of the record.
    pub const LEN: usize = 105;

    /// The canonical encoding of the record.
    pub open spec fn spec_bytes(self) -> Seq<u8> {
        seq![flag_byte(self.is_initialized)]
            + self.child_nft_mint@
            + self.parent_one_mint@
            + self.parent_two_mint@
            + spec_u64_to_le_bytes(self.mint_time)
    }

    /// The fields of the record are those held in the leading window of `src`.
    pub open spec fn decodes_from(self, src: Seq<u8>) -> bool {
        &&& spec_flag(src[0]) == Ok::<bool, DecodeError>(self.is_initialized)
        &&& self.child_nft_mint@ == key_at(src, 1)
        &&& self.parent_one_mint@ == key_at(src, 1 + KEY_LEN)
        &&& self.parent_two_mint@ == key_at(src, PARENT_TWO_AT as int)
        &&& self.mint_time == u64_at(src, MINT_TIME_AT as int)
    }

    /// `dst` after the record was encoded over its leading window.
    pub open spec fn packed_into(self, dst: Seq<u8>) -> Seq<u8> {
        splice(dst, 0, self.spec_bytes())
    }

    /// Whether the storage slot holds a record that was set up.
    pub fn is_initialized(&self) -> (r: bool)
        ensures
            r == self.is_initialized,
    {
        self.is_initialized
    }

    /// Decodes the record from the first `LEN` bytes of `src`.
    pub fn unpack_from_slice(src: &[u8]) -> (r: Result<Self, DecodeError>)
        ensures
            match r {
                Ok(d) => spec_check(src@, Self::LEN) is None && d.decodes_from(src@),
                Err(e) => spec_check(src@, Self::LEN) == Some(e),
            },
    {
        if src.len() < Self::LEN {
            return Err(DecodeError::BufferTooShort);
        }
        let is_initialized = read_flag(src[0])?;
        let child_nft_mint = read_key(src, 1);
        let parent_one_mint = read_key(src, 1 + KEY_LEN);
        let parent_two_mint = read_key(src, PARENT_TWO_AT);
        let mint_time = read_u64(src, MINT_TIME_AT);
        Ok(ChildNFTData {
            is_initialized,
            child_nft_mint,
            parent_one_mint,
            parent_two_mint,
            mint_time,
        })
    }

    /// Encodes the record over the first `LEN` bytes of `dst`; the bytes
    /// after them are left as they were.
    pub fn pack_into_slice(&self, dst: &mut [u8]) -> (r: Result<(), DecodeError>)
        ensures
            old(dst)@.len() < Self::LEN ==> r == Err::<(), DecodeError>(DecodeError::BufferTooShort)
                && final(dst)@ == old(dst)@,
            old(dst)@.len() >= Self::LEN ==> r is Ok && final(dst)@ == self.packed_into(old(dst)@),
    {
        if dst.len() < Self::LEN {
            return Err(DecodeError::BufferTooShort);
        }
        let ghost d0 = dst@;
        dst[0] = if self.is_initialized { 1u8 } else { 0u8 };
        write_key(dst, 1, &self.child_nft_mint);
        write_key(dst, 1 + KEY_LEN, &self.parent_one_mint);
        write_key(dst, PARENT_TWO_AT, &self.parent_two_mint);
        write_u64(dst, MINT_TIME_AT, self.mint_time);
        proof {
            vstd::bytes::lemma_auto_spec_u64_to_from_le_bytes();
        }
        assert(dst@ =~= self.packed_into(d0));
        Ok(())
    }

    /// Encoding a record and decoding the result gives the record back, and
    /// no other: for every buffer of at least `LEN` bytes.
    pub proof fn lemma_round_trip(self, dst: Seq<u8>, other: Self)
        requires
            dst.len() >= Self::LEN,
        ensures
            spec_check(self.packed_into(dst), Self::LEN) is None,
            self.decodes_from(self.packed_into(dst)),
            other.decodes_from(self.packed_into(dst)) ==> other == self,
    {
        vstd::bytes::lemma_auto_spec_u64_to_from_le_bytes();
        let s = self.packed_into(dst);
        assert(key_at(s, 1) =~= self.child_nft_mint@);
        assert(key_at(s, 1 + KEY_LEN) =~= self.parent_one_mint@);
        assert(key_at(s, PARENT_TWO_AT as int) =~= self.parent_two_mint@);
        assert(s.subrange(MINT_TIME_AT as int, MINT_TIME_AT as int + INT_LEN) =~=
            spec_u64_to_le_bytes(self.mint_time)
        );
        if other.decodes_from(s) {
            assert(other.child_nft_mint =~= self.child_nft_mint);
            assert(other.parent_one_mint =~= self.parent_one_mint);
            assert(other.parent_two_mint =~= self.parent_two_mint);
        }
    }

    /// The encoding always spans exactly `LEN` bytes, whatever the fields hold.
    pub proof fn lemma_encoded_len(self)
        ensures
            self.spec_bytes().len() == Self::LEN,
    {
        vstd::bytes::lemma_auto_spec_u64_to_from_le_bytes();
    }

    /// A buffer one byte short of `LEN` is refused for its length, and one
    /// of `LEN` bytes or more whose flag byte is 0 or 1 is accepted.
    pub proof fn lemma_length_sensitivity(src: Seq<u8>)
        ensures
            src.len() + 1 == Self::LEN ==> spec_check(src, Self::LEN) == Some(
                DecodeError::BufferTooShort,
            ),
            src.len() >= Self::LEN && src[0] <= 1 ==> spec_check(src, Self::LEN) is None,
    {
    }

    /// A buffer of `LEN` bytes or more whose flag byte is neither 0 nor 1 is
    /// refused for its encoding, whatever the other bytes hold.
    pub proof fn lemma_flag_strictness(src: Seq<u8>)
        requires
            src.len() >= Self::LEN,
            src[0] != 0 && src[0] != 1,
        ensures
            spec_check(src, Self::LEN) == Some(DecodeError::InvalidEncoding),
    {
    }

    /// Only the leading `LEN` bytes of a buffer decide what it decodes to.
    pub proof fn lemma_window_only(src: Seq<u8>, other: Self)
        requires
            src.len() >= Self::LEN,
        ensures
            spec_check(src, Self::LEN) == spec_check(src.subrange(0, Self::LEN as int), Self::LEN),
            other.decodes_from(src) <==> other.decodes_from(src.subrange(0, Self::LEN as int)),
    {
        let w = src.subrange(0, Self::LEN as int);
        assert(key_at(src, 1) =~= key_at(w, 1));
        assert(key_at(src, 1 + KEY_LEN) =~= key_at(w, 1 + KEY_LEN));
        assert(key_at(src, PARENT_TWO_AT as int) =~= key_at(w, PARENT_TWO_AT as int));
        assert(src.subrange(MINT_TIME_AT as int, MINT_TIME_AT as int + INT_LEN) =~=
            w.subrange(MINT_TIME_AT as int, MINT_TIME_AT as int + INT_LEN)
        );
    }
}

/// A breeding in progress.
#[derive(Debug, Clone, Copy, PartialEq, Eq)]
pub struct BreedingState {
    pub is_initialized: bool,
    pub child_mint_key: Identifier,
    pub random_no_genrated: u64,
}

impl BreedingState {
    /// Encoded length of the record.
    pub const LEN: usize = 41;

    /// The canonical encoding of the record.
    pub open spec fn spec_bytes(self) -> Seq<u8> {
        seq![flag_byte(self.is_initialized)]
            + self.child_mint_key@
            + spec_u64_to_le_bytes(self.random_no_genrated)
    }

    /// The fields of the record are those held in the leading window of `src`.
    pub open spec fn decodes_from(self, src: Seq<u8>) -> bool {
        &&& spec_flag(src[0]) == Ok::<bool, DecodeError>(self.is_initialized)
        &&& self.child_mint_key@ == key_at(src, 1)
        &&& self.random_no_genrated == u64_at(src, 1 + KEY_LEN)
    }

    /// `dst` after the record was encoded over its leading window.
    pub open spec fn packed_into(self, dst: Seq<u8>) -> Seq<u8> {
        splice(dst, 0, self.spec_bytes())
    }

    /// Whether the storage slot holds a record that was set up.
    pub fn is_initialized(&self) -> (r: bool)
        ensures
            r == self.is_initialized,
    {
        self.is_initialized
    }

    /// Decodes the record from the first `LEN` bytes of `src`.
    pub fn unpack_from_slice(src: &[u8]) -> (r: Result<Self, DecodeError>)
        ensures
            match r {
                Ok(d) => spec_check(src@, Self::LEN) is None && d.decodes_from(src@),
                Err(e) => spec_check(src@, Self::LEN) == Some(e),
            },
    {
        if src.len() < Self::LEN {
            return Err(DecodeError::BufferTooShort);
        }
        let is_initialized = read_flag(src[0])?;
        let child_mint_key = read_key(src, 1);
        let random_no_genrated = read_u64(src, 1 + KEY_LEN);
        Ok(BreedingState { is_initialized, child_mint_key, random_no_genrated })
    }

    /// Encodes the record over the first `LEN` bytes of `dst`; the bytes
    /// after them are left as they were.
    pub fn pack_into_slice(&self, dst: &mut [u8]) -> (r: Result<(), DecodeError>)
        ensures
            old(dst)@.len() < Self::LEN ==> r == Err::<(), DecodeError>(DecodeError::BufferTooShort)
                && final(dst)@ == old(dst)@,
            old(dst)@.len() >= Self::LEN ==> r is Ok && final(dst)@ == self.packed_into(old(dst)@),
    {
        if dst.len() < Self::LEN {
            return Err(DecodeError::BufferTooShort);
        }
        let ghost d0 = dst@;
        dst[0] = if self.is_initialized { 1u8 } else { 0u8 };
        write_key(dst, 1, &self.child_mint_key);
        write_u64(dst, 1 + KEY_LEN, self.random_no_genrated);
        proof {
            vstd::bytes::lemma_auto_spec_u64_to_from_le_bytes();
        }
        assert(dst@ =~= self.packed_into(d0));
        Ok(())
    }

    /// Encoding a record and decoding the result gives the record back, and
    /// no other: for every buffer of at least `LEN` bytes.
    pub proof fn lemma_round_trip(self, dst: Seq<u8>, other: Self)
        requires
            dst.len() >= Self::LEN,
        ensures
            spec_check(self.packed_into(dst), Self::LEN) is None,
            self.decodes_from(self.packed_into(dst)),
            other.decodes_from(self.packed_into(dst)) ==> other == self,
    {
        vstd::bytes::lemma_auto_spec_u64_to_from_le_bytes();
        let s = self.packed_into(dst);
        assert(key_at(s, 1) =~= self.child_mint_key@);
        assert(s.subrange(1 + KEY_LEN, 1 + KEY_LEN + INT_LEN) =~=
            spec_u64_to_le_bytes(self.random_no_genrated)
        );
        if other.decodes_from(s) {
            assert(other.child_mint_key =~= self.child_mint_key);
        }
    }

    /// The encoding always spans exactly `LEN` bytes, whatever the fields hold.
    pub proof fn lemma_encoded_len(self)
        ensures
            self.spec_bytes().len() == Self::LEN,
    {
        vstd::bytes::lemma_auto_spec_u64_to_from_le_bytes();
    }

    /// A buffer one byte short of `LEN` is refused for its length, and one
    /// of `LEN` bytes or more whose flag byte is 0 or 1 is accepted.
    pub proof fn lemma_length_sensitivity(src: Seq<u8>)
        ensures
            src.len() + 1 == Self::LEN ==> spec_check(src, Self::LEN) == Some(
                DecodeError::BufferTooShort,
            ),
            src.len() >= Self::LEN && src[0] <= 1 ==> spec_check(src, Self::LEN) is None,
    {
    }

    /// A buffer of `LEN` bytes or more whose flag byte is neither 0 nor 1 is
    /// refused for its encoding, whatever the other bytes hold.
    pub proof fn lemma_flag_strictness(src: Seq<u8>)
        requires
            src.len() >= Self::LEN,
            src[0] != 0 && src[0] != 1,
        ensures
            spec_check(src, Self::LEN) == Some(DecodeError::InvalidEncoding),
    {
    }

    /// Only the leading `LEN` bytes of a buffer decide what it decodes to.
    pub proof fn lemma_window_only(src: Seq<u8>, other: Self)
        requires
            src.len() >= Self::LEN,
        ensures
            spec_check(src, Self::LEN) == spec_check(src.subrange(0, Self::LEN as int), Self::LEN),
            other.decodes_from(src) <==> other.decodes_from(src.subrange(0, Self::LEN as int)),
    {
        let w = src.subrange(0, Self::LEN as int);
        assert(key_at(src, 1) =~= key_at(w, 1));
        assert(src.subrange(1 + KEY_LEN, 1 + KEY_LEN + INT_LEN) =~=
            w.subrange(1 + KEY_LEN, 1 + KEY_LEN + INT_LEN)
        );
    }
}

} // verus!
