use percolator_matcher::abi::{
    MatcherRequest, MatcherReturn, ABI_VERSION, CALL_LEN, CALL_OFF_LP_ACCOUNT_ID, CALL_OFF_LP_IDX,
    CALL_OFF_ORACLE_PRICE, CALL_OFF_PADDING, CALL_OFF_REQ_ID, CALL_OFF_REQ_SIZE, CALL_OFF_TAG,
    CALL_TAG, FLAG_PARTIAL_OK, FLAG_REJECTED, FLAG_VALID, RETURN_PREFIX_LEN,
};

fn encode_request(req: &MatcherRequest) -> [u8; CALL_LEN] {
    let mut data = [0u8; CALL_LEN];
    data[CALL_OFF_TAG] = CALL_TAG;
    data[CALL_OFF_REQ_ID..CALL_OFF_REQ_ID + 8].copy_from_slice(&req.req_id.to_le_bytes());
    data[CALL_OFF_LP_IDX..CALL_OFF_LP_IDX + 2].copy_from_slice(&req.lp_idx.to_le_bytes());
    data[CALL_OFF_LP_ACCOUNT_ID..CALL_OFF_LP_ACCOUNT_ID + 8]
        .copy_from_slice(&req.lp_account_id.to_le_bytes());
    data[CALL_OFF_ORACLE_PRICE..CALL_OFF_ORACLE_PRICE + 8]
        .copy_from_slice(&req.oracle_price_e6.to_le_bytes());
    data[CALL_OFF_REQ_SIZE..CALL_OFF_REQ_SIZE + 16].copy_from_slice(&req.req_size.to_le_bytes());
    data
}

#[test]
fn test_roundtrip_return() {
    let ret = MatcherReturn {
        abi_version: ABI_VERSION,
        flags: FLAG_VALID | FLAG_PARTIAL_OK,
        exec_price_e6: 50_000_000,
        exec_size: -100_000,
        req_id: 42,
        lp_account_id: 7,
        oracle_price_e6: 50_100_000,
        reserved: 0,
    };
    let mut buf = [0u8; 320];
    assert!(ret.write_to(&mut buf));
    let decoded = MatcherReturn::from_bytes(&buf).unwrap();
    assert_eq!(ret, decoded);
}

#[test]
fn test_roundtrip_request() {
    let req = MatcherRequest {
        req_id: 123,
        lp_idx: 5,
        lp_account_id: 42,
        oracle_price_e6: 60_000_000,
        req_size: 500_000,
    };
    // Build raw call bytes
    let mut data = [0u8; CALL_LEN];
    data[CALL_OFF_TAG] = CALL_TAG;
    data[CALL_OFF_REQ_ID..CALL_OFF_REQ_ID + 8].copy_from_slice(&req.req_id.to_le_bytes());
    data[CALL_OFF_LP_IDX..CALL_OFF_LP_IDX + 2].copy_from_slice(&req.lp_idx.to_le_bytes());
    data[CALL_OFF_LP_ACCOUNT_ID..CALL_OFF_LP_ACCOUNT_ID + 8]
        .copy_from_slice(&req.lp_account_id.to_le_bytes());
    data[CALL_OFF_ORACLE_PRICE..CALL_OFF_ORACLE_PRICE + 8]
        .copy_from_slice(&req.oracle_price_e6.to_le_bytes());
    data[CALL_OFF_REQ_SIZE..CALL_OFF_REQ_SIZE + 16].copy_from_slice(&req.req_size.to_le_bytes());
    let decoded = MatcherRequest::from_bytes(&data).unwrap();
    assert_eq!(req, decoded);
}

#[test]
fn test_request_rejects_wrong_tag() {
    let mut data = [0u8; CALL_LEN];
    data[0] = 1; // wrong tag
    assert!(MatcherRequest::from_bytes(&data).is_none());
}

#[test]
fn test_request_rejects_short_data() {
    let data = [0u8; 10];
    assert!(MatcherRequest::from_bytes(&data).is_none());
}

#[test]
fn test_return_rejects_short_buffer() {
    let data = [0u8; 32];
    assert!(MatcherReturn::from_bytes(&data).is_none());
}

#[test]
fn test_write_rejects_short_buffer() {
    let ret = MatcherReturn::accept(
        &MatcherRequest {
            req_id: 1,
            lp_idx: 0,
            lp_account_id: 1,
            oracle_price_e6: 1_000_000,
            req_size: 100,
        },
        1_000_000,
        100,
    );
    let mut buf = [0u8; 32];
    assert!(!ret.write_to(&mut buf));
}

#[test]
fn test_accept_response() {
    let req = MatcherRequest {
        req_id: 99,
        lp_idx: 3,
        lp_account_id: 55,
        oracle_price_e6: 45_000_000,
        req_size: 1_000_000,
    };
    let ret = MatcherReturn::accept(&req, 45_050_000, 1_000_000);
    assert_eq!(ret.abi_version, ABI_VERSION);
    assert_eq!(ret.flags, FLAG_VALID);
    assert_eq!(ret.exec_price_e6, 45_050_000);
    assert_eq!(ret.exec_size, 1_000_000);
    assert_eq!(ret.req_id, 99);
    assert_eq!(ret.lp_account_id, 55);
    assert_eq!(ret.oracle_price_e6, 45_000_000);
    assert_eq!(ret.reserved, 0);
}

#[test]
fn test_partial_response() {
    let req = MatcherRequest {
        req_id: 1,
        lp_idx: 0,
        lp_account_id: 1,
        oracle_price_e6: 1_000_000,
        req_size: 1_000,
    };
    let ret = MatcherReturn::partial(&req, 1_000_000, 500);
    assert_eq!(ret.flags, FLAG_VALID | FLAG_PARTIAL_OK);
    assert_eq!(ret.exec_size, 500);
}

#[test]
fn test_reject_response() {
    let req = MatcherRequest {
        req_id: 1,
        lp_idx: 0,
        lp_account_id: 1,
        oracle_price_e6: 1_000_000,
        req_size: 1_000,
    };
    let ret = MatcherReturn::reject(&req);
    assert_eq!(ret.flags, FLAG_REJECTED);
    assert_eq!(ret.exec_price_e6, 0);
    assert_eq!(ret.exec_size, 0);
}

#[test]
fn test_request_rejects_nonzero_padding() {
    let mut data = [0u8; CALL_LEN];
    data[CALL_OFF_TAG] = CALL_TAG;
    data[CALL_OFF_PADDING + 5] = 0xFF; // non-zero padding
    assert!(MatcherRequest::from_bytes(&data).is_none());
}

// ── Further cases ────────────────────────────────────────────────────────────

#[test]
fn return_bytes_are_little_endian_at_their_offsets() {
    let ret = MatcherReturn {
        abi_version: 0x0403_0201,
        flags: 0x0807_0605,
        exec_price_e6: 0x1817_1615_1413_1211,
        exec_size: -2,
        req_id: 0x2827_2625_2423_2221,
        lp_account_id: 0x3837_3635_3433_3231,
        oracle_price_e6: 0x4847_4645_4443_4241,
        reserved: 0x5857_5655_5453_5251,
    };
    let mut buf = [0xAAu8; 70];
    assert!(ret.write_to(&mut buf));
    assert_eq!(&buf[0..4], &[1, 2, 3, 4]);
    assert_eq!(&buf[4..8], &[5, 6, 7, 8]);
    assert_eq!(&buf[8..16], &[0x11, 0x12, 0x13, 0x14, 0x15, 0x16, 0x17, 0x18]);
    assert_eq!(buf[16], 0xFE);
    assert!(buf[17..32].iter().all(|&b| b == 0xFF));
    assert_eq!(&buf[32..40], &[0x21, 0x22, 0x23, 0x24, 0x25, 0x26, 0x27, 0x28]);
    assert_eq!(&buf[56..64], &[0x51, 0x52, 0x53, 0x54, 0x55, 0x56, 0x57, 0x58]);
    // Bytes past the prefix are left alone.
    assert!(buf[RETURN_PREFIX_LEN..].iter().all(|&b| b == 0xAA));
    assert_eq!(MatcherReturn::from_bytes(&buf), Some(ret));
}

#[test]
fn write_to_short_buffer_leaves_it_unchanged() {
    let ret = MatcherReturn::reject(&MatcherRequest {
        req_id: 9,
        lp_idx: 1,
        lp_account_id: 2,
        oracle_price_e6: 3,
        req_size: 4,
    });
    let mut buf = [0x5Cu8; 63];
    assert!(!ret.write_to(&mut buf));
    assert!(buf.iter().all(|&b| b == 0x5C));
}

#[test]
fn return_roundtrip_extreme_values() {
    for exec_size in [i128::MIN, i128::MAX, -1, 0, 1] {
        let ret = MatcherReturn {
            abi_version: u32::MAX,
            flags: u32::MAX,
            exec_price_e6: u64::MAX,
            exec_size,
            req_id: u64::MAX,
            lp_account_id: 0,
            oracle_price_e6: u64::MAX,
            reserved: u64::MAX,
        };
        let mut buf = [0u8; RETURN_PREFIX_LEN];
        assert!(ret.write_to(&mut buf));
        assert_eq!(MatcherReturn::from_bytes(&buf), Some(ret));
    }
}

#[test]
fn every_return_prefix_reencodes_to_itself() {
    let mut buf = [0u8; RETURN_PREFIX_LEN];
    for (i, b) in buf.iter_mut().enumerate() {
        *b = (i as u8).wrapping_mul(37).wrapping_add(11);
    }
    let ret = MatcherReturn::from_bytes(&buf).unwrap();
    let mut again = [0u8; RETURN_PREFIX_LEN];
    assert!(ret.write_to(&mut again));
    assert_eq!(buf, again);
}

#[test]
fn request_roundtrip_negative_size_and_trailing_bytes() {
    let req = MatcherRequest {
        req_id: u64::MAX,
        lp_idx: u16::MAX,
        lp_account_id: 0x0102_0304_0506_0708,
        oracle_price_e6: 1,
        req_size: i128::MIN,
    };
    let call = encode_request(&req);
    let mut data = [0x77u8; CALL_LEN + 5];
    data[..CALL_LEN].copy_from_slice(&call);
    assert_eq!(MatcherRequest::from_bytes(&data), Some(req));
}

#[test]
fn request_with_one_byte_short_is_rejected() {
    let req = MatcherRequest {
        req_id: 1,
        lp_idx: 2,
        lp_account_id: 3,
        oracle_price_e6: 4,
        req_size: 5,
    };
    let call = encode_request(&req);
    assert!(MatcherRequest::from_bytes(&call[..CALL_LEN - 1]).is_none());
    assert_eq!(MatcherRequest::from_bytes(&call), Some(req));
}

#[test]
fn request_rejects_last_padding_byte() {
    let mut data = [0u8; CALL_LEN];
    data[CALL_LEN - 1] = 1;
    assert!(MatcherRequest::from_bytes(&data).is_none());
}

#[test]
fn responses_echo_request_fields() {
    let req = MatcherRequest {
        req_id: 77,
        lp_idx: 4,
        lp_account_id: 88,
        oracle_price_e6: 99,
        req_size: -5,
    };
    for ret in [
        MatcherReturn::accept(&req, 10, -5),
        MatcherReturn::partial(&req, 10, -2),
        MatcherReturn::reject(&req),
    ] {
        assert_eq!(ret.abi_version, ABI_VERSION);
        assert_eq!(ret.req_id, 77);
        assert_eq!(ret.lp_account_id, 88);
        assert_eq!(ret.oracle_price_e6, 99);
        assert_eq!(ret.reserved, 0);
    }
    assert_eq!(MatcherReturn::partial(&req, 10, -2).flags, 3);
}
