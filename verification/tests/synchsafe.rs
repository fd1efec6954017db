use id3tag::utility::{
    convert_safesynch_to_u32, convert_safesynch_to_u64, convert_u32_to_safesynch,
    convert_u64_to_safesynch, SYNCHSAFE_MAX, SYNCHSAFE_MAX_64,
};

#[test]
fn decode_u32_places_seven_bits_per_byte() {
    assert_eq!(convert_safesynch_to_u32(0, 0, 0, 0), 0);
    assert_eq!(convert_safesynch_to_u32(0, 0, 0, 0x7f), 127);
    assert_eq!(convert_safesynch_to_u32(0, 0, 1, 0), 128);
    assert_eq!(convert_safesynch_to_u32(0, 0, 0x02, 0x01), 257);
    assert_eq!(convert_safesynch_to_u32(0, 1, 0, 0), 1 << 14);
    assert_eq!(convert_safesynch_to_u32(1, 0, 0, 0), 1 << 21);
    assert_eq!(convert_safesynch_to_u32(0x7f, 0x7f, 0x7f, 0x7f), SYNCHSAFE_MAX);
}

#[test]
fn decode_u32_does_not_check_high_bits() {
    assert_eq!(convert_safesynch_to_u32(0, 0, 0, 0x80), 128);
    assert_eq!(convert_safesynch_to_u32(0, 0, 0x01, 0x80), 128);
    assert_eq!(convert_safesynch_to_u32(0xff, 0xff, 0xff, 0xff), 0x1fff_ffff);
}

#[test]
fn encode_u32_masks_seven_bits_per_byte() {
    assert_eq!(convert_u32_to_safesynch(0), [0, 0, 0, 0]);
    assert_eq!(convert_u32_to_safesynch(14), [0, 0, 0, 14]);
    assert_eq!(convert_u32_to_safesynch(128), [0, 0, 1, 0]);
    assert_eq!(convert_u32_to_safesynch(257), [0, 0, 2, 1]);
    assert_eq!(convert_u32_to_safesynch(SYNCHSAFE_MAX), [0x7f, 0x7f, 0x7f, 0x7f]);
    // Bits 28 and above are dropped.
    assert_eq!(convert_u32_to_safesynch(0x1000_0000), [0, 0, 0, 0]);
    assert_eq!(convert_u32_to_safesynch(u32::MAX), [0x7f, 0x7f, 0x7f, 0x7f]);
}

#[test]
fn u32_round_trip_on_sample_values() {
    let samples: [u32; 10] =
        [0, 1, 127, 128, 255, 16_383, 16_384, 2_097_151, 2_097_152, SYNCHSAFE_MAX];
    for v in samples {
        let b = convert_u32_to_safesynch(v);
        assert!(b.iter().all(|x| *x < 0x80));
        assert_eq!(convert_safesynch_to_u32(b[0], b[1], b[2], b[3]), v);
    }
    let mut v: u32 = 1;
    while v <= SYNCHSAFE_MAX {
        let b = convert_u32_to_safesynch(v);
        assert_eq!(convert_safesynch_to_u32(b[0], b[1], b[2], b[3]), v);
        v = v * 3 + 1;
    }
}

#[test]
fn u32_bytes_round_trip_on_synchsafe_bytes() {
    let b = [0x12u8, 0x34, 0x56, 0x78 & 0x7f];
    let v = convert_safesynch_to_u32(b[0], b[1], b[2], b[3]);
    assert_eq!(convert_u32_to_safesynch(v), b);
}

#[test]
fn decode_u64_places_seven_bits_per_byte() {
    assert_eq!(convert_safesynch_to_u64(0, 0, 0, 0, 0), 0);
    assert_eq!(convert_safesynch_to_u64(0, 0, 0, 1, 0), 128);
    assert_eq!(convert_safesynch_to_u64(1, 0, 0, 0, 0), 1 << 28);
    assert_eq!(convert_safesynch_to_u64(0x7f, 0x7f, 0x7f, 0x7f, 0x7f), SYNCHSAFE_MAX_64);
    assert_eq!(convert_safesynch_to_u64(0x0f, 0x7f, 0x7f, 0x7f, 0x7f), 0xffff_ffff);
}

#[test]
fn encode_u64_masks_seven_bits_per_byte() {
    assert_eq!(convert_u64_to_safesynch(0), [0, 0, 0, 0, 0]);
    assert_eq!(convert_u64_to_safesynch(128), [0, 0, 0, 1, 0]);
    assert_eq!(convert_u64_to_safesynch(1 << 28), [1, 0, 0, 0, 0]);
    assert_eq!(convert_u64_to_safesynch(0xffff_ffff), [0x0f, 0x7f, 0x7f, 0x7f, 0x7f]);
    assert_eq!(convert_u64_to_safesynch(SYNCHSAFE_MAX_64), [0x7f, 0x7f, 0x7f, 0x7f, 0x7f]);
    // Bits 35 and above are dropped.
    assert_eq!(convert_u64_to_safesynch(1 << 35), [0, 0, 0, 0, 0]);
}

#[test]
fn u64_round_trip_on_sample_values() {
    let mut v: u64 = 0;
    while v <= SYNCHSAFE_MAX_64 {
        let b = convert_u64_to_safesynch(v);
        assert_eq!(convert_safesynch_to_u64(b[0], b[1], b[2], b[3], b[4]), v);
        v = v * 5 + 3;
    }
}
