use nft_breeding::{BreedingState, ChildNFTData, DecodeError, NFTData, PlatformData};

fn key(b: u8) -> [u8; 32] {
    let mut k = [0u8; 32];
    for (i, x) in k.iter_mut().enumerate() {
        *x = b.wrapping_add(i as u8);
    }
    k
}

#[test]
fn platform_data_round_trip() {
    let r = PlatformData { is_initialized: true, treasury_acc: key(7), platform_fee: 250 };
    let mut buf = vec![0u8; PlatformData::LEN];
    assert_eq!(r.pack_into_slice(&mut buf), Ok(()));
    assert_eq!(PlatformData::unpack_from_slice(&buf), Ok(r));
}

#[test]
fn nft_data_round_trip() {
    let r = NFTData {
        is_initialized: true,
        mint_key: key(1),
        last_breed: 1_650_000_000,
        breed_count: u64::MAX,
    };
    let mut buf = vec![0xAAu8; NFTData::LEN];
    assert_eq!(r.pack_into_slice(&mut buf), Ok(()));
    assert_eq!(NFTData::unpack_from_slice(&buf), Ok(r));
}

#[test]
fn child_nft_data_round_trip() {
    let r = ChildNFTData {
        is_initialized: false,
        child_nft_mint: key(3),
        parent_one_mint: key(100),
        parent_two_mint: key(200),
        mint_time: 42,
    };
    let mut buf = vec![0u8; ChildNFTData::LEN + 5];
    assert_eq!(r.pack_into_slice(&mut buf), Ok(()));
    assert_eq!(ChildNFTData::unpack_from_slice(&buf), Ok(r));
}

#[test]
fn breeding_state_round_trip() {
    let r = BreedingState { is_initialized: true, child_mint_key: key(9), random_no_genrated: 0 };
    let mut buf = vec![0u8; BreedingState::LEN];
    assert_eq!(r.pack_into_slice(&mut buf), Ok(()));
    assert_eq!(BreedingState::unpack_from_slice(&buf), Ok(r));
    assert!(r.is_initialized());
}

#[test]
fn nft_data_exact_layout() {
    let r = NFTData { is_initialized: true, mint_key: [5u8; 32], last_breed: 0x0102, breed_count: 3 };
    let mut buf = vec![0u8; NFTData::LEN];
    r.pack_into_slice(&mut buf).unwrap();
    assert_eq!(buf[0], 1);
    assert!(buf[1..33].iter().all(|b| *b == 5));
    assert_eq!(&buf[33..41], &[0x02, 0x01, 0, 0, 0, 0, 0, 0]);
    assert_eq!(&buf[41..49], &[3, 0, 0, 0, 0, 0, 0, 0]);
}

#[test]
fn child_nft_data_exact_offsets() {
    let mut buf = vec![0u8; ChildNFTData::LEN];
    buf[0] = 1;
    buf[1] = 11;
    buf[33] = 22;
    buf[65] = 33;
    buf[97] = 44;
    let r = ChildNFTData::unpack_from_slice(&buf).unwrap();
    assert!(r.is_initialized);
    assert_eq!(r.child_nft_mint[0], 11);
    assert_eq!(r.parent_one_mint[0], 22);
    assert_eq!(r.parent_two_mint[0], 33);
    assert_eq!(r.mint_time, 44);
}

#[test]
fn all_zero_storage_decodes_uninitialized() {
    let buf = vec![0u8; NFTData::LEN];
    let r = NFTData::unpack_from_slice(&buf).unwrap();
    assert!(!r.is_initialized());
    assert_eq!(r.mint_key, [0u8; 32]);
    assert_eq!(r.last_breed, 0);
    assert_eq!(r.breed_count, 0);
}

#[test]
fn decode_one_byte_short_fails() {
    assert_eq!(PlatformData::unpack_from_slice(&[0u8; 40]), Err(DecodeError::BufferTooShort));
    assert_eq!(NFTData::unpack_from_slice(&[0u8; 48]), Err(DecodeError::BufferTooShort));
    assert_eq!(ChildNFTData::unpack_from_slice(&[0u8; 104]), Err(DecodeError::BufferTooShort));
    assert_eq!(BreedingState::unpack_from_slice(&[0u8; 40]), Err(DecodeError::BufferTooShort));
    assert_eq!(PlatformData::unpack_from_slice(&[]), Err(DecodeError::BufferTooShort));
}

#[test]
fn decode_exact_and_longer_succeeds() {
    assert!(PlatformData::unpack_from_slice(&[1u8; 41]).is_ok());
    assert!(NFTData::unpack_from_slice(&[0u8; 49]).is_ok());
    assert!(ChildNFTData::unpack_from_slice(&[1u8; 105]).is_ok());
    assert!(BreedingState::unpack_from_slice(&[0u8; 41]).is_ok());
    let mut long = vec![0xFFu8; 60];
    long[0] = 1;
    let r = PlatformData::unpack_from_slice(&long).unwrap();
    assert_eq!(r.treasury_acc, [0xFFu8; 32]);
    assert_eq!(r.platform_fee, u64::MAX);
}

#[test]
fn bad_flag_byte_fails() {
    for flag in [2u8, 3, 0x7F, 0xFF] {
        let mut buf = vec![0u8; ChildNFTData::LEN];
        buf[0] = flag;
        assert_eq!(PlatformData::unpack_from_slice(&buf), Err(DecodeError::InvalidEncoding));
        assert_eq!(NFTData::unpack_from_slice(&buf), Err(DecodeError::InvalidEncoding));
        assert_eq!(ChildNFTData::unpack_from_slice(&buf), Err(DecodeError::InvalidEncoding));
        assert_eq!(BreedingState::unpack_from_slice(&buf), Err(DecodeError::InvalidEncoding));
    }
}

#[test]
fn integer_fields_are_little_endian() {
    let mut buf = vec![0u8; PlatformData::LEN];
    buf[33] = 1;
    assert_eq!(PlatformData::unpack_from_slice(&buf).unwrap().platform_fee, 1);
    let mut buf = vec![0u8; PlatformData::LEN];
    buf[40] = 1;
    assert_eq!(PlatformData::unpack_from_slice(&buf).unwrap().platform_fee, 72_057_594_037_927_936);
}

#[test]
fn platform_data_encoding_is_always_41_bytes() {
    let zero = PlatformData { is_initialized: false, treasury_acc: [0u8; 32], platform_fee: 0 };
    let max = PlatformData { is_initialized: true, treasury_acc: [0xFFu8; 32], platform_fee: u64::MAX };
    for r in [zero, max] {
        let mut buf = vec![0x5Au8; 50];
        assert_eq!(r.pack_into_slice(&mut buf), Ok(()));
        assert!(buf[41..].iter().all(|b| *b == 0x5A));
        assert_eq!(PlatformData::unpack_from_slice(&buf[..41]), Ok(r));
    }
    let mut exact = vec![0x5Au8; 41];
    max.pack_into_slice(&mut exact).unwrap();
    assert!(exact.iter().all(|b| *b == 0xFF || *b == 1));
    assert_eq!(exact[0], 1);
}

#[test]
fn encode_into_short_buffer_fails() {
    let r = NFTData { is_initialized: true, mint_key: key(2), last_breed: 1, breed_count: 2 };
    let mut buf = vec![9u8; NFTData::LEN - 1];
    assert_eq!(r.pack_into_slice(&mut buf), Err(DecodeError::BufferTooShort));
    assert!(buf.iter().all(|b| *b == 9));
    let s = ChildNFTData {
        is_initialized: true,
        child_nft_mint: key(1),
        parent_one_mint: key(2),
        parent_two_mint: key(3),
        mint_time: 4,
    };
    let mut small = vec![0u8; 10];
    assert_eq!(s.pack_into_slice(&mut small), Err(DecodeError::BufferTooShort));
    let b = BreedingState { is_initialized: false, child_mint_key: key(0), random_no_genrated: 5 };
    assert_eq!(b.pack_into_slice(&mut small), Err(DecodeError::BufferTooShort));
    let p = PlatformData { is_initialized: false, treasury_acc: key(0), platform_fee: 5 };
    assert_eq!(p.pack_into_slice(&mut small), Err(DecodeError::BufferTooShort));
}
