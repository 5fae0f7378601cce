use vstd::bytes::{spec_u64_from_le_bytes, spec_u64_to_le_bytes, u64_from_le_bytes, u64_to_le_bytes};
use vstd::prelude::*;

use crate::error::DecodeError;

verus! {

/// An opaque 32-byte identifier (a mint address, a treasury account).
pub type Identifier = [u8; 32];

/// Width of an identifier field.
pub const KEY_LEN: usize = 32;

/// Width of an unsigned 64-bit integer field.
pub const INT_LEN: usize = 8;

/// The flag that the byte `b` encodes.
pub open spec fn spec_flag(b: u8) -> Result<bool, DecodeError> {
    if b == 0 {
        Ok(false)
    } else if b == 1 {
        Ok(true)
    } else {
        Err(DecodeError::InvalidEncoding)
    }
}

/// The byte that encodes the flag `f`.
pub open spec fn flag_byte(f: bool) -> u8 {
    if f { 1 } else { 0 }
}

/// The identifier stored at offset `off` of `s`.
pub open spec fn key_at(s: Seq<u8>, off: int) -> Seq<u8> {
    s.subrange(off, off + KEY_LEN)
}

/// The little-endian integer stored at offset `off` of `s`.
pub open spec fn u64_at(s: Seq<u8>, off: int) -> u64 {
    spec_u64_from_le_bytes(s.subrange(off, off + INT_LEN))
}

/// `s` with the bytes from `off` on replaced by `w`.
pub open spec fn splice(s: Seq<u8>, off: int, w: Seq<u8>) -> Seq<u8> {
    s.subrange(0, off) + w + s.subrange(off + w.len(), s.len() as int)
}

/// Reads a flag byte: 0 is false, 1 is true, anything else is refused.
pub fn read_flag(b: u8) -> (r: Result<bool, DecodeError>)
    ensures
        r == spec_flag(b),
{
    if b == 0 {
        Ok(false)
    } else if b == 1 {
        Ok(true)
    } else {
        Err(DecodeError::InvalidEncoding)
    }
}

/// Copies the identifier stored at `off`.
pub fn read_key(src: &[u8], off: usize) -> (r: Identifier)
    requires
        off + KEY_LEN <= src.len(),
    ensures
        r@ == key_at(src@, off as int),
{
    let mut key: Identifier = [0u8; 32];
    let mut i: usize = 0;
    while i < KEY_LEN
        invariant
            i <= KEY_LEN,
            off + KEY_LEN <= src.len(),
            key@.len() == KEY_LEN,
            forall|t: int| 0 <= t < i ==> key@[t] == src@[off + t],
        decreases KEY_LEN - i,
    {
        key[i] = src[off + i];
        i = i + 1;
    }
    assert(key@ =~= key_at(src@, off as int));
    key
}

/// Reads the little-endian integer stored at `off`.
pub fn read_u64(src: &[u8], off: usize) -> (r: u64)
    requires
        off + INT_LEN <= src.len(),
    ensures
        r == u64_at(src@, off as int),
{
    let end: usize = off + INT_LEN;
    let mut window: Vec<u8> = Vec::with_capacity(INT_LEN);
    let mut j: usize = off;
    while j < end
        invariant
            off <= j <= end,
            end == off + INT_LEN,
            end <= src.len(),
            window@ == src@.subrange(off as int, j as int),
        decreases end - j,
    {
        window.push(src[j]);
        j = j + 1;
    }
    u64_from_le_bytes(window.as_slice())
}

/// Overwrites the bytes of `dst` from `off` on with those of `w`.
pub fn write_bytes(dst: &mut [u8], off: usize, w: &[u8])
    requires
        off + w@.len() <= old(dst).len(),
    ensures
        final(dst)@ == splice(old(dst)@, off as int, w@),
{
    let mut i: usize = 0;
    while i < w.len()
        invariant
            i <= w@.len(),
            off + w@.len() <= dst.len(),
            dst@.len() == old(dst)@.len(),
            forall|t: int| 0 <= t < i ==> dst@[off + t] == w@[t],
            forall|t: int|
                0 <= t < dst@.len() && !(off <= t < off + i) ==> dst@[t] == old(dst)@[t],
        decreases w@.len() - i,
    {
        dst[off + i] = w[i];
        i = i + 1;
    }
    assert(dst@ =~= splice(old(dst)@, off as int, w@));
}

/// Writes `key` at offset `off`.
pub fn write_key(dst: &mut [u8], off: usize, key: &Identifier)
    requires
        off + KEY_LEN <= old(dst).len(),
    ensures
        final(dst)@ == splice(old(dst)@, off as int, key@),
{
    write_bytes(dst, off, key.as_slice());
}

/// Writes `v` at offset `off`, little-endian.
pub fn write_u64(dst: &mut [u8], off: usize, v: u64)
    requires
        off + INT_LEN <= old(dst).len(),
    ensures
        final(dst)@ == splice(old(dst)@, off as int, spec_u64_to_le_bytes(v)),
{
    let bytes = u64_to_le_bytes(v);
    write_bytes(dst, off, bytes.as_slice());
}

} // verus!
