use percolator_matcher::abi::{MatcherRequest, MatcherReturn, CALL_LEN, CONTEXT_LEN};
use percolator_matcher::amm::price_trade;
use percolator_matcher::error::MatcherError;
use percolator_matcher::program::{process_instruction, AccountView};

const GOOD: [AccountView; 2] = [
    AccountView { is_signer: true, is_writable: false },
    AccountView { is_signer: false, is_writable: true },
];

fn call(req_size: i128, oracle: u64) -> [u8; CALL_LEN] {
    let mut data = [0u8; CALL_LEN];
    data[1..9].copy_from_slice(&7u64.to_le_bytes());
    data[9..11].copy_from_slice(&3u16.to_le_bytes());
    data[11..19].copy_from_slice(&11u64.to_le_bytes());
    data[19..27].copy_from_slice(&oracle.to_le_bytes());
    data[27..43].copy_from_slice(&req_size.to_le_bytes());
    data
}

#[test]
fn process_writes_priced_response() {
    let data = call(2_000, 10_000_000);
    let mut ctx = [0u8; CONTEXT_LEN];
    ctx[64..66].copy_from_slice(&100u16.to_le_bytes());
    ctx[300] = 0x42;
    let req = MatcherRequest::from_bytes(&data).unwrap();
    let expected = price_trade(&req, &ctx).unwrap();
    assert_eq!(process_instruction(&GOOD, &data, &mut ctx), Ok(()));
    let written = MatcherReturn::from_bytes(&ctx).unwrap();
    assert_eq!(written, expected);
    assert_eq!(written.exec_price_e6, 10_100_000);
    assert_eq!(written.exec_size, 2_000);
    assert_eq!(written.req_id, 7);
    assert_eq!(written.lp_account_id, 11);
    // The configuration and the rest of the account are left alone.
    assert_eq!(&ctx[64..66], &100u16.to_le_bytes());
    assert_eq!(ctx[300], 0x42);
}

#[test]
fn process_errors_in_order_and_leave_context_alone() {
    let data = call(5, 1_000_000);
    let mut ctx = [9u8; CONTEXT_LEN];
    let unsigned = [AccountView { is_signer: false, is_writable: true }, GOOD[1]];
    let readonly = [GOOD[0], AccountView { is_signer: false, is_writable: false }];
    assert_eq!(process_instruction(&[], &data, &mut ctx), Err(MatcherError::NotEnoughAccountKeys));
    assert_eq!(
        process_instruction(&unsigned, &data, &mut ctx),
        Err(MatcherError::MissingRequiredSignature)
    );
    assert_eq!(
        process_instruction(&GOOD[..1], &data, &mut ctx),
        Err(MatcherError::NotEnoughAccountKeys)
    );
    assert_eq!(
        process_instruction(&readonly, &data, &mut ctx),
        Err(MatcherError::InvalidAccountData)
    );
    let mut small = [9u8; CONTEXT_LEN - 1];
    assert_eq!(
        process_instruction(&GOOD, &data, &mut small),
        Err(MatcherError::AccountDataTooSmall)
    );
    let mut bad_call = data;
    bad_call[0] = 1;
    assert_eq!(
        process_instruction(&GOOD, &bad_call, &mut ctx),
        Err(MatcherError::InvalidInstructionData)
    );
    let overflow = call(5, u64::MAX);
    assert_eq!(
        process_instruction(&GOOD, &overflow, &mut ctx),
        Err(MatcherError::ArithmeticOverflow)
    );
    assert!(ctx.iter().all(|&b| b == 9));
    assert!(small.iter().all(|&b| b == 9));
}

#[test]
fn process_rejection_is_written() {
    let data = call(0, 1_000_000);
    let mut ctx = [0u8; CONTEXT_LEN];
    assert_eq!(process_instruction(&GOOD, &data, &mut ctx), Ok(()));
    let req = MatcherRequest::from_bytes(&data).unwrap();
    assert_eq!(MatcherReturn::from_bytes(&ctx), Some(MatcherReturn::reject(&req)));
}

#[test]
fn shortest_short_fills_its_share() {
    let data = call(i128::MIN, 1_000_000);
    let mut ctx = [0u8; CONTEXT_LEN];
    ctx[66..68].copy_from_slice(&5000u16.to_le_bytes());
    assert_eq!(process_instruction(&GOOD, &data, &mut ctx), Ok(()));
    let written = MatcherReturn::from_bytes(&ctx).unwrap();
    assert_eq!(written.exec_size, i128::MIN / 2);
    ctx[66..68].copy_from_slice(&1u16.to_le_bytes());
    assert_eq!(process_instruction(&GOOD, &data, &mut ctx), Ok(()));
    let written = MatcherReturn::from_bytes(&ctx).unwrap();
    assert_eq!(written.exec_size, -(((1u128 << 127) / 10_000) as i128));
}

#[test]
fn tiny_oracle_short_is_written_as_rejection() {
    let data = call(-3, 1);
    let mut ctx = [0u8; CONTEXT_LEN];
    assert_eq!(process_instruction(&GOOD, &data, &mut ctx), Ok(()));
    let req = MatcherRequest::from_bytes(&data).unwrap();
    assert_eq!(MatcherReturn::from_bytes(&ctx), Some(MatcherReturn::reject(&req)));
}
