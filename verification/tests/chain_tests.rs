use hexfetch::rpc::{all_endpoints_failed, rpc_answered, Failover};
use hexfetch::calldata::{
    daily_data_call, get_reserves_call, globals_call, is_wallet_address, stake_count_call,
    stake_lists_call,
};
use hexfetch::rpc::{
    block_tag, decode_globals, decode_stake_record, decode_word_pair, endpoint_for_attempt,
    endpoint_switch, is_success_status, parse_hex_u64, should_probe_primary,
    words_split_cleanly,
};
use hexfetch::u256::U256;
use std::cmp::Ordering;

fn word(v: u64) -> String {
    format!("{:064x}", v)
}

#[test]
fn u256_from_hex_reads_limbs() {
    assert_eq!(U256::from_hex("0x1"), U256([1, 0, 0, 0]));
    assert_eq!(U256::from_hex("ff"), U256([255, 0, 0, 0]));
    assert_eq!(U256::from_hex("0xFF"), U256([255, 0, 0, 0]));
    assert_eq!(U256::from_hex(""), U256([0, 0, 0, 0]));
    assert_eq!(U256::from_hex("0x"), U256([0, 0, 0, 0]));
    assert_eq!(U256::from_hex("0x10000000000000000"), U256([0, 1, 0, 0]));
    assert_eq!(U256::from_hex("1g2"), U256([0x12, 0, 0, 0]));
    let max = "f".repeat(64);
    assert_eq!(U256::from_hex(&max), U256([u64::MAX; 4]));
    let longer = format!("1{}", "0".repeat(64));
    assert_eq!(U256::from_hex(&longer), U256([0, 0, 0, 0]));
}

#[test]
fn u256_lower_hex_roundtrip() {
    let u = U256([0x0123456789abcdef, 42, 0, 7]);
    let text = u.to_lower_hex();
    assert_eq!(text.len(), 64);
    assert_eq!(
        text,
        "00000000000000070000000000000000000000000000002a0123456789abcdef"
    );
    assert_eq!(U256::from_hex(&text), u);
}

#[test]
fn u256_sub_borrows_and_wraps() {
    assert_eq!(U256([5, 0, 0, 0]).sub(3), U256([2, 0, 0, 0]));
    assert_eq!(U256([0, 1, 0, 0]).sub(1), U256([u64::MAX, 0, 0, 0]));
    assert_eq!(U256([0, 0, 0, 0]).sub(1), U256([u64::MAX; 4]));
}

#[test]
fn u256_compare_by_value() {
    let small = U256([u64::MAX, 0, 0, 0]);
    let big = U256([0, 1, 0, 0]);
    assert_eq!(small.compare(&big), Ordering::Less);
    assert_eq!(big.compare(&small), Ordering::Greater);
    assert_eq!(big.compare(&big), Ordering::Equal);
    assert!(big.is_positive());
    assert!(!U256::zero().is_positive());
}

#[test]
fn parse_hex_u64_cases() {
    assert_eq!(parse_hex_u64("0x1b4"), 436);
    assert_eq!(parse_hex_u64("  0X1B4 \n"), 436);
    assert_eq!(parse_hex_u64("1b4"), 436);
    assert_eq!(parse_hex_u64(""), 0);
    assert_eq!(parse_hex_u64("0x"), 0);
    assert_eq!(parse_hex_u64("0xzz"), 0);
    assert_eq!(parse_hex_u64("0xffffffffffffffff"), u64::MAX);
    assert_eq!(parse_hex_u64("0x10000000000000000"), 0);
    assert_eq!(parse_hex_u64("+a"), 10);
}

#[test]
fn block_tag_roundtrip() {
    assert_eq!(block_tag(None), "latest");
    assert_eq!(block_tag(Some(0)), "0x0");
    assert_eq!(block_tag(Some(255)), "0xff");
    for n in [0u64, 1, 436, 19_000_000, u64::MAX] {
        assert_eq!(parse_hex_u64(&block_tag(Some(n))), n);
    }
}

#[test]
fn call_data_texts() {
    assert_eq!(globals_call(), "0xc3124525");
    assert_eq!(get_reserves_call(), "0x0902f1ac");
    assert_eq!(daily_data_call(5), format!("0x90de6871{:064x}", 5));
    let addr = "0x1234567890abcdef1234567890abcdef12345678";
    assert!(is_wallet_address(addr));
    assert!(!is_wallet_address("1234567890abcdef1234567890abcdef1234567890"));
    assert!(!is_wallet_address("0x1234"));
    assert_eq!(
        stake_count_call(addr),
        "0x33060d900000000000000000000000001234567890abcdef1234567890abcdef12345678"
    );
    assert_eq!(
        stake_lists_call(addr, 3),
        format!(
            "0x2607443b0000000000000000000000001234567890abcdef1234567890abcdef12345678{:064x}",
            3
        )
    );
}

#[test]
fn decode_globals_reads_words() {
    let payload = format!("0x{}{}{}{}{}", word(0), word(0), word(123), word(456), word(1500));
    assert!(words_split_cleanly(&payload, 320, 2, 3));
    let (rate, penalties, days) = decode_globals(&payload).unwrap();
    assert_eq!(rate, U256([123, 0, 0, 0]));
    assert_eq!(penalties, U256([456, 0, 0, 0]));
    assert_eq!(days, U256([1500, 0, 0, 0]));
    assert_eq!(decode_globals("0x1234"), Err(4));
}

#[test]
fn decode_word_pair_reads_two_words() {
    let payload = format!("{}{}", word(10), word(20));
    assert_eq!(
        decode_word_pair(&payload),
        Ok((U256([10, 0, 0, 0]), U256([20, 0, 0, 0])))
    );
    assert_eq!(decode_word_pair("0x"), Err(0));
}

#[test]
fn decode_stake_record_trims_and_reads() {
    let payload = format!(
        "  0x{}{}{}{}{}{}{}\n",
        word(1),
        word(2),
        word(3_000_000),
        word(1000),
        word(365),
        word(0),
        word(0)
    );
    let (shares, locked, staked) = decode_stake_record(&payload).unwrap();
    assert_eq!(shares, U256([3_000_000, 0, 0, 0]));
    assert_eq!(locked, U256([1000, 0, 0, 0]));
    assert_eq!(staked, U256([365, 0, 0, 0]));
    assert_eq!(decode_stake_record("0x00"), None);
}

#[test]
fn failover_tries_every_endpoint_once() {
    let count = 4;
    for start in 0..count {
        let mut seen: Vec<usize> = (0..count)
            .map(|a| endpoint_for_attempt(start, a, count))
            .collect();
        assert_eq!(seen[0], start);
        seen.sort();
        assert_eq!(seen, vec![0, 1, 2, 3]);
    }
    assert_eq!(endpoint_for_attempt(2, 3, 4), 1);
    assert_eq!(endpoint_switch(0, 2), Some(2));
    assert_eq!(endpoint_switch(2, 2), None);
    assert!(is_success_status(200));
    assert!(is_success_status(299));
    assert!(!is_success_status(300));
    assert!(!is_success_status(199));
    assert!(should_probe_primary(1));
    assert!(!should_probe_primary(0));
}

#[test]
fn failover_walk_and_answers() {
    let mut f = Failover::new(2, 4);
    let mut order = Vec::new();
    while let Some(e) = f.next_endpoint() {
        order.push(e);
    }
    assert_eq!(order, vec![2, 3, 0, 1]);
    assert!(rpc_answered(200, true, false));
    assert!(!rpc_answered(200, true, true));
    assert!(!rpc_answered(200, false, false));
    assert!(!rpc_answered(503, true, false));
    assert_eq!(all_endpoints_failed("boom"), "All RPC endpoints failed. Last error: boom");
}

#[test]
fn unprefixed_hex_reads_back() {
    for n in [0u64, 9, 10, 255, 0xdead_beef, u64::MAX] {
        assert_eq!(parse_hex_u64(&format!("{:x}", n)), n);
        assert_eq!(parse_hex_u64(&format!("{:X}", n)), n);
        assert_eq!(parse_hex_u64(&format!("0x{:x}", n)), n);
    }
}
