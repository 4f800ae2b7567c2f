use solana_mirror::balances::partition_position_accounts;
use solana_mirror::client::account_data_from_response;
use solana_mirror::clmm::{
    calculate_concentrated_liquidity_amounts, decode_pool_data, decode_position_data,
    get_position_address, position_value, sqrt_price_x32_from_x64, value_position, POOL_LEN,
    POSITION_LEN,
};
use solana_mirror::metadata::{
    get_metadata_address, parse_metadata_account, predefined_image, MetadataCache, ParsedAta,
    ParsedMetadata,
};
use solana_mirror::pubkeys::address_of_bytes;
use solana_mirror::types::FormattedAmount;
use solana_mirror::Error;
use std::str::FromStr;

fn put_u128(buf: &mut Vec<u8>, off: usize, v: u128) {
    let bytes = v.to_le_bytes();
    for i in 0..16 {
        buf[off + i] = bytes[i];
    }
}

fn put_i32(buf: &mut Vec<u8>, off: usize, v: i32) {
    let bytes = v.to_le_bytes();
    for i in 0..4 {
        buf[off + i] = bytes[i];
    }
}

fn put_u64(buf: &mut Vec<u8>, off: usize, v: u64) {
    let bytes = v.to_le_bytes();
    for i in 0..8 {
        buf[off + i] = bytes[i];
    }
}

#[test]
fn decode_position_reads_fixed_offsets() {
    let mut data = vec![0u8; POSITION_LEN];
    data[8] = 7; // bump
    for i in 0..32 {
        data[9 + i] = 0xAA; // nft mint
        data[41 + i] = 0xBB; // pool id
    }
    put_i32(&mut data, 73, -100);
    put_i32(&mut data, 77, 100);
    put_u128(&mut data, 81, 1_000_000);
    put_u64(&mut data, 129, 55);
    put_u128(&mut data, 145, 9);
    let position = decode_position_data(&data).unwrap();
    assert_eq!(position.bump, 7);
    assert_eq!(position.nft_mint, vec![0xAA; 32]);
    assert_eq!(position.pool_id, vec![0xBB; 32]);
    assert_eq!(position.tick_lower, -100);
    assert_eq!(position.tick_upper, 100);
    assert_eq!(position.liquidity, 1_000_000);
    assert_eq!(position.token_fees_owed_a, 55);
    assert_eq!(position.reward_infos.len(), 3);
    assert_eq!(position.reward_infos[0].growth_inside_last_x64, 9);
}

#[test]
fn decode_position_rejects_short_buffers() {
    let data = vec![0u8; POSITION_LEN - 1];
    assert!(matches!(decode_position_data(&data), Err(Error::ParseError)));
}

#[test]
fn decode_pool_reads_fixed_offsets() {
    let mut data = vec![0u8; POOL_LEN];
    data[8] = 3; // bump
    for i in 0..32 {
        data[73 + i] = 0x11; // mint a
        data[105 + i] = 0x22; // mint b
    }
    data[233] = 9; // decimals a
    data[234] = 6; // decimals b
    data[235] = 10; // tick spacing, little-endian u16
    put_u128(&mut data, 253, 1u128 << 64); // sqrt price at 1.0
    put_i32(&mut data, 269, -5);
    let pool = decode_pool_data(&data).unwrap();
    assert_eq!(pool.bump, 3);
    assert_eq!(pool.mint_a, vec![0x11; 32]);
    assert_eq!(pool.mint_b, vec![0x22; 32]);
    assert_eq!(pool.mint_decimals_a, 9);
    assert_eq!(pool.mint_decimals_b, 6);
    assert_eq!(pool.tick_spacing, 10);
    assert_eq!(pool.sqrt_price_x64, 1u128 << 64);
    assert_eq!(pool.tick_current, -5);
}

#[test]
fn decode_pool_rejects_short_buffers() {
    let data = vec![0u8; 100];
    assert!(matches!(decode_pool_data(&data), Err(Error::ParseError)));
}

#[test]
fn sqrt_price_reduction_drops_32_bits() {
    assert_eq!(sqrt_price_x32_from_x64(1u128 << 64), Ok(1u64 << 32));
    assert_eq!(sqrt_price_x32_from_x64(0), Ok(0));
    assert!(matches!(
        sqrt_price_x32_from_x64(1u128 << 100),
        Err(Error::ParseError)
    ));
}

fn sqrt_x32_of_tick(tick: i32) -> u64 {
    let sqrt_price = 1.0001f64.powi(tick).sqrt();
    (sqrt_price * (1u64 << 32) as f64).round() as u64
}

#[test]
fn centered_position_holds_both_tokens() {
    // A position over ticks -100..100 with the pool price at tick 0:
    // both token amounts are strictly positive.
    let lower = sqrt_x32_of_tick(-100);
    let upper = sqrt_x32_of_tick(100);
    let current = 1u64 << 32;
    let (amount_a, amount_b) =
        calculate_concentrated_liquidity_amounts(1_000_000, lower, current, upper);
    assert!(amount_a > 0, "token A amount should be positive");
    assert!(amount_b > 0, "token B amount should be positive");
}

#[test]
fn amounts_are_continuous_at_range_bounds() {
    // At the range bounds the in-range branch agrees exactly with the
    // single-token branches.
    let lower = sqrt_x32_of_tick(-500);
    let upper = sqrt_x32_of_tick(500);
    let liquidity = 123_456_789u64;
    let at_lower = calculate_concentrated_liquidity_amounts(liquidity, lower, lower, upper);
    let below = calculate_concentrated_liquidity_amounts(liquidity, lower, lower - 1, upper);
    assert_eq!(at_lower, below);
    assert_eq!(at_lower.1, 0);
    let at_upper = calculate_concentrated_liquidity_amounts(liquidity, lower, upper, upper);
    let above = calculate_concentrated_liquidity_amounts(liquidity, lower, upper + 1, upper);
    assert_eq!(at_upper, above);
    assert_eq!(at_upper.0, 0);
}

#[test]
fn in_range_amounts_have_exact_values() {
    // Liquidity 1000 between sqrt prices 1.0 and 2.0 with the pool at 1.5:
    // amount A is 1000/1.5 - 1000/2 = 666 - 500, amount B is 1000 * 0.5.
    let one = 1u64 << 32;
    let (a, b) = calculate_concentrated_liquidity_amounts(1000, one, one + (one / 2), 2 * one);
    assert_eq!(a, 166);
    assert_eq!(b, 500);
    // At or below the lower bound everything is token A: 1000/1 - 1000/2.
    let (a_low, b_low) = calculate_concentrated_liquidity_amounts(1000, one, one, 2 * one);
    assert_eq!(a_low, 500);
    assert_eq!(b_low, 0);
    // At or above the upper bound everything is token B: 1000 * (2 - 1).
    let (a_high, b_high) = calculate_concentrated_liquidity_amounts(1000, one, 2 * one, 2 * one);
    assert_eq!(a_high, 0);
    assert_eq!(b_high, 1000);
}

#[test]
fn below_range_position_is_all_token_a() {
    let lower = sqrt_x32_of_tick(100);
    let upper = sqrt_x32_of_tick(200);
    let current = sqrt_x32_of_tick(0);
    let (a, b) = calculate_concentrated_liquidity_amounts(1_000_000, lower, current, upper);
    assert!(a > 0);
    assert_eq!(b, 0);
}

#[test]
fn position_value_combines_known_legs() {
    // 1.0 of token A at 3 USD and 2.0 of token B at 4 USD.
    let total = position_value(
        1_000_000_000,
        2_000_000,
        9,
        6,
        Some(3_000_000),
        Some(4_000_000),
    );
    assert_eq!(total, Some(11_000_000));
    // One unknown price: that leg alone is dropped, not the whole value.
    let only_a = position_value(1_000_000_000, 2_000_000, 9, 6, Some(3_000_000), None);
    assert_eq!(only_a, Some(3_000_000));
    // No price at all: the value is absent, never zero.
    let none = position_value(1_000_000_000, 2_000_000, 9, 6, None, None);
    assert_eq!(none, None);
}

#[test]
fn value_position_rejects_oversized_state() {
    let mut position_data = vec![0u8; POSITION_LEN];
    put_u128(&mut position_data, 81, u128::from(u64::MAX) + 1);
    let position = decode_position_data(&position_data).unwrap();
    let mut pool_data = vec![0u8; POOL_LEN];
    put_u128(&mut pool_data, 253, 1u128 << 64);
    let pool = decode_pool_data(&pool_data).unwrap();
    assert!(matches!(
        value_position(&position, &pool, 1, 2, None, None),
        Err(Error::ParseError)
    ));
}

#[test]
fn value_position_values_a_centered_position() {
    let mut position_data = vec![0u8; POSITION_LEN];
    put_i32(&mut position_data, 73, -100);
    put_i32(&mut position_data, 77, 100);
    put_u128(&mut position_data, 81, 1_000_000);
    let position = decode_position_data(&position_data).unwrap();
    let mut pool_data = vec![0u8; POOL_LEN];
    pool_data[233] = 6;
    pool_data[234] = 6;
    put_u128(&mut pool_data, 253, 1u128 << 64);
    let pool = decode_pool_data(&pool_data).unwrap();
    let lower = sqrt_x32_of_tick(-100);
    let upper = sqrt_x32_of_tick(100);
    let valued = value_position(
        &position,
        &pool,
        lower,
        upper,
        Some(1_000_000),
        Some(1_000_000),
    )
    .unwrap();
    assert!(valued.amount_a > 0);
    assert!(valued.amount_b > 0);
    let expected = valued.amount_a + valued.amount_b;
    assert_eq!(valued.total_value_usd, Some(expected));
}

#[test]
fn position_address_matches_the_onchain_derivation() {
    let mint = "EPjFWdd5AufqSSqeM2qN1xzybapC8G4wEGGkZwyTDt1v";
    let derived = get_position_address(mint).unwrap();
    let mint_pk = solana_program::pubkey::Pubkey::from_str(mint).unwrap();
    let program =
        solana_program::pubkey::Pubkey::from_str("CAMMCzo5YL8w4VFF8KVHrK22GGUsp5VTaW7grrKgrWqK")
            .unwrap();
    let (expected, _bump) = solana_program::pubkey::Pubkey::find_program_address(
        &[b"position", mint_pk.as_ref()],
        &program,
    );
    assert_eq!(derived, expected.to_string());
}

#[test]
fn address_rendering_matches_base58() {
    let mint = "So11111111111111111111111111111111111111112";
    let bytes = solana_program::pubkey::Pubkey::from_str(mint)
        .unwrap()
        .to_bytes()
        .to_vec();
    assert_eq!(address_of_bytes(&bytes), Ok(mint.to_string()));
    assert_eq!(address_of_bytes(&vec![0u8; 31]), Err(Error::InvalidAddress));
}

#[test]
fn position_address_rejects_malformed_mints() {
    assert!(matches!(
        get_position_address("not-base58-0OIl"),
        Err(Error::InvalidAddress)
    ));
}

#[test]
fn metadata_address_matches_the_onchain_derivation() {
    let mint = "So11111111111111111111111111111111111111112";
    let derived = get_metadata_address(mint).unwrap();
    let mint_pk = solana_program::pubkey::Pubkey::from_str(mint).unwrap();
    let program =
        solana_program::pubkey::Pubkey::from_str("metaqbxxUerdq28cj1RbAWkYQm3ybzjb6a8bt518x1s")
            .unwrap();
    let (expected, _bump) = solana_program::pubkey::Pubkey::find_program_address(
        &[b"metadata", program.as_ref(), mint_pk.as_ref()],
        &program,
    );
    assert_eq!(derived, expected.to_string());
}

#[test]
fn account_data_decodes_base64_payload() {
    let response = vec!["aGVsbG8=".to_string(), "base64".to_string()];
    assert_eq!(account_data_from_response(&response), Ok(b"hello".to_vec()));
    let bad = vec!["not base64 !!".to_string()];
    assert_eq!(account_data_from_response(&bad), Err(Error::ParseError));
    assert_eq!(account_data_from_response(&vec![]), Err(Error::ParseError));
}

fn push_borsh_string(buf: &mut Vec<u8>, s: &str) {
    buf.extend_from_slice(&(s.len() as u32).to_le_bytes());
    buf.extend_from_slice(s.as_bytes());
}

#[test]
fn metadata_account_decodes_and_trims() {
    // A minimal metadata account: key tag, two addresses, the three display
    // strings, fee, and the trailing flags.
    let mut data: Vec<u8> = vec![4u8];
    data.extend_from_slice(&[0u8; 64]);
    push_borsh_string(&mut data, "MyToken\u{0}");
    push_borsh_string(&mut data, "TKN");
    push_borsh_string(&mut data, "https://example.invalid/meta.json");
    data.extend_from_slice(&500u16.to_le_bytes());
    data.push(0); // no creators
    data.push(0); // primary sale
    data.push(1); // mutable
    data.push(0); // no edition nonce
    let parsed = parse_metadata_account(&data).unwrap();
    assert_eq!(parsed.name, "MyToken");
    assert_eq!(parsed.symbol, "TKN");
    assert_eq!(parsed.uri, "https://example.invalid/meta.json");
}

#[test]
fn metadata_account_rejects_other_records() {
    let data = vec![1u8, 2, 3];
    assert!(parse_metadata_account(&data).is_none());
    assert!(parse_metadata_account(&vec![]).is_none());
}

#[test]
fn metadata_cache_inserts_only_once() {
    let mut cache = MetadataCache::new();
    let mint = "mintA".to_string();
    assert!(cache.get(&mint).is_none());
    cache.insert_if_absent(
        &mint,
        ParsedMetadata {
            name: "First".to_string(),
            symbol: "ONE".to_string(),
            uri: String::new(),
        },
    );
    cache.insert_if_absent(
        &mint,
        ParsedMetadata {
            name: "Second".to_string(),
            symbol: "TWO".to_string(),
            uri: String::new(),
        },
    );
    assert_eq!(cache.get(&mint).unwrap().name, "First");
}

#[test]
fn predefined_images_cover_known_symbols() {
    assert!(predefined_image(&"USDC".to_string()).unwrap().contains("3408"));
    assert!(predefined_image(&"SOL".to_string()).unwrap().contains("5426"));
    assert!(predefined_image(&"RCL".to_string()).unwrap().contains("ipfs"));
    assert!(predefined_image(&"OTHER".to_string()).is_none());
}

fn ata(mint: &str, amount: u64) -> ParsedAta {
    ParsedAta {
        mint: mint.to_string(),
        ata: format!("{}-ata", mint),
        coingecko_id: None,
        decimals: 0,
        name: String::new(),
        symbol: String::new(),
        image: String::new(),
        price: None,
        balance: FormattedAmount { amount, decimals: 0 },
    }
}

#[test]
fn partition_splits_position_nfts_from_tokens() {
    let accounts = vec![ata("mintA", 1), ata("mintB", 250), ata("mintC", 1)];
    let (positions, others) = partition_position_accounts(accounts);
    let position_mints: Vec<String> = positions.iter().map(|a| a.mint.clone()).collect();
    let other_mints: Vec<String> = others.iter().map(|a| a.mint.clone()).collect();
    assert_eq!(position_mints, vec!["mintA".to_string(), "mintC".to_string()]);
    assert_eq!(other_mints, vec!["mintB".to_string()]);
}
