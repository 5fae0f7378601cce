use nft_breeding::{DecodeError, PlatformData, Processor, UpdateRejected};

#[test]
fn authority_check_order() {
    let admin = [7u8; 32];
    let mut other = [7u8; 32];
    other[31] = 8;
    assert_eq!(Processor::authorize_platform_update(&admin, &admin, true, true), Ok(()));
    assert_eq!(
        Processor::authorize_platform_update(&other, &admin, true, true),
        Err(UpdateRejected::WrongAuthority)
    );
    assert_eq!(
        Processor::authorize_platform_update(&other, &admin, false, false),
        Err(UpdateRejected::WrongAuthority)
    );
    assert_eq!(
        Processor::authorize_platform_update(&admin, &admin, false, false),
        Err(UpdateRejected::NotProgramOwned)
    );
    assert_eq!(
        Processor::authorize_platform_update(&admin, &admin, true, false),
        Err(UpdateRejected::NotRentExempt)
    );
}

#[test]
fn update_platform_writes_record() {
    let mut data = vec![0u8; PlatformData::LEN];
    let treasury = [3u8; 32];
    assert_eq!(Processor::process_update_platform_acc(&mut data, &treasury, 500), Ok(()));
    assert_eq!(
        PlatformData::unpack_from_slice(&data),
        Ok(PlatformData { is_initialized: true, treasury_acc: treasury, platform_fee: 500 })
    );
    assert_eq!(data[0], 1);
    assert_eq!(&data[33..41], &[0xF4, 0x01, 0, 0, 0, 0, 0, 0]);
}

#[test]
fn update_platform_refuses_bad_storage() {
    let mut data = vec![4u8; PlatformData::LEN];
    assert_eq!(
        Processor::process_update_platform_acc(&mut data, &[1u8; 32], 5),
        Err(DecodeError::InvalidEncoding)
    );
    assert!(data.iter().all(|b| *b == 4));
    let mut short = vec![0u8; 40];
    assert_eq!(
        Processor::process_update_platform_acc(&mut short, &[1u8; 32], 5),
        Err(DecodeError::BufferTooShort)
    );
    assert!(short.iter().all(|b| *b == 0));
}
