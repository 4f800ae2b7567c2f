use solana_mirror::chart::ChartData;
use solana_mirror::coingecko::{get_coingecko_id, CoingeckoData, CoingeckoToken};
use solana_mirror::mint_map::MintMap;
use solana_mirror::price::{
    get_price_states, historical_range, price_for_token, quote_amount_in, time_step_for,
    unique_mints, PricePoint, PriceTable,
};
use solana_mirror::types::FormattedAmount;

fn state(t: i64, mints: &[(&str, u64, u8)]) -> ChartData {
    let mut balances = MintMap::new();
    for (mint, amount, decimals) in mints {
        balances.set(
            &mint.to_string(),
            FormattedAmount { amount: *amount, decimals: *decimals },
        );
    }
    ChartData { timestamp: t, balances }
}

#[test]
fn historical_range_is_skipped_for_a_single_instant() {
    // A zero-width range must never reach the historical feed: the planner
    // returns no query and the aligner prices the lone bucket live.
    assert_eq!(historical_range(&vec![]), None);
    let single = vec![state(500, &[("mintA", 10, 0)])];
    assert_eq!(historical_range(&single), None);
    let pair = vec![state(500, &[]), state(900, &[])];
    assert_eq!(historical_range(&pair), Some((500, 900)));
}

#[test]
fn time_step_is_daily_beyond_ninety_days() {
    assert_eq!(time_step_for(0, 90 * 86400), 3600);
    assert_eq!(time_step_for(0, 91 * 86400), 86400);
    assert_eq!(time_step_for(1000, 1000), 3600);
}

#[test]
fn unique_mints_lists_each_once() {
    let states = vec![
        state(100, &[("mintA", 5, 0), ("mintB", 6, 0)]),
        state(200, &[("mintB", 7, 0), ("mintC", 8, 0)]),
    ];
    let mints = unique_mints(&states);
    let mut names: Vec<String> = mints.clone();
    names.sort();
    assert_eq!(
        names,
        vec!["mintA".to_string(), "mintB".to_string(), "mintC".to_string()]
    );
    assert_eq!(mints.len(), 3);
}

#[test]
fn aligner_prices_past_buckets_from_series_and_last_bucket_live() {
    // 2.0 tokens of a 9-decimals mint: worth 10 USD at the historical
    // price of 5 USD, 12 USD at the live quote of 6 USD.
    let states = vec![
        state(1000, &[("mintA", 2_000_000_000, 9)]),
        state(4600, &[("mintA", 2_000_000_000, 9)]),
    ];
    let mut table = PriceTable::new();
    table.set(
        &"mintA".to_string(),
        vec![PricePoint { timestamp: 1000, price: 5_000_000 }],
    );
    let mut live: MintMap<u64> = MintMap::new();
    live.set(&"mintA".to_string(), 6_000_000);
    let out = get_price_states(&states, &table, &live, 1000, 3600);
    assert_eq!(out.len(), 2);
    assert_eq!(out[0].timestamp, 1000);
    let (p0, _) = {
        let e = out[0].balances.entry_at(0);
        (e.1.price, e.1.amount)
    };
    assert_eq!(p0, 5_000_000);
    assert_eq!(out[0].usd_value, 10_000_000);
    let p1 = out[1].balances.entry_at(0).1.price;
    assert_eq!(p1, 6_000_000);
    assert_eq!(out[1].usd_value, 12_000_000);
}

#[test]
fn aligner_defaults_missing_prices_to_zero() {
    let states = vec![
        state(1000, &[("mintA", 1_000_000, 6)]),
        state(4600, &[("mintA", 1_000_000, 6)]),
    ];
    let table = PriceTable::new();
    let live: MintMap<u64> = MintMap::new();
    let out = get_price_states(&states, &table, &live, 1000, 3600);
    assert_eq!(out[0].usd_value, 0);
    assert_eq!(out[0].balances.entry_at(0).1.price, 0);
    assert_eq!(out[1].usd_value, 0);
}

#[test]
fn aligner_prices_single_bucket_purely_live() {
    // The single-bucket chart is also the last bucket: only the live quote
    // is consulted, never the (empty) historical table.
    let states = vec![state(777, &[("mintA", 3_000_000, 6)])];
    let table = PriceTable::new();
    let mut live: MintMap<u64> = MintMap::new();
    live.set(&"mintA".to_string(), 2_000_000);
    let out = get_price_states(&states, &table, &live, 777, 3600);
    assert_eq!(out.len(), 1);
    assert_eq!(out[0].balances.entry_at(0).1.price, 2_000_000);
    assert_eq!(out[0].usd_value, 6_000_000);
}

#[test]
fn equal_balances_and_prices_give_equal_usd_totals() {
    // Conservation of value: adjacent buckets with the same balances and
    // constant prices carry the same USD total.
    let states = vec![
        state(1000, &[("mintA", 500, 2), ("mintB", 70, 0)]),
        state(4600, &[("mintA", 500, 2), ("mintB", 70, 0)]),
        state(8200, &[("mintA", 500, 2), ("mintB", 70, 0)]),
    ];
    let mut table = PriceTable::new();
    // The same price at every index of the range.
    table.set(
        &"mintA".to_string(),
        vec![
            PricePoint { timestamp: 0, price: 1_000_000 },
            PricePoint { timestamp: 1, price: 1_000_000 },
        ],
    );
    table.set(
        &"mintB".to_string(),
        vec![
            PricePoint { timestamp: 0, price: 3_000_000 },
            PricePoint { timestamp: 1, price: 3_000_000 },
        ],
    );
    let live: MintMap<u64> = MintMap::new();
    let out = get_price_states(&states, &table, &live, 1000, 3600);
    assert_eq!(out[0].usd_value, out[1].usd_value);
    assert_eq!(out[0].usd_value, 5_000_000 + 210_000_000);
}

#[test]
fn price_for_token_pins_usdc_to_one_dollar() {
    let usdc = "EPjFWdd5AufqSSqeM2qN1xzybapC8G4wEGGkZwyTDt1v".to_string();
    assert_eq!(price_for_token(&usdc, None), Some(1_000_000));
    assert_eq!(price_for_token(&usdc, Some(7)), Some(1_000_000));
    let other = "mintA".to_string();
    assert_eq!(price_for_token(&other, Some(42)), Some(42));
    assert_eq!(price_for_token(&other, None), None);
}

#[test]
fn quote_amount_is_one_whole_token() {
    assert_eq!(quote_amount_in(0), 1);
    assert_eq!(quote_amount_in(6), 1_000_000);
    assert_eq!(quote_amount_in(9), 1_000_000_000);
}

#[test]
fn coingecko_lookup_finds_listed_mints() {
    let mut data = CoingeckoData::new();
    data.insert_if_absent(
        &"mintA".to_string(),
        CoingeckoToken {
            name: "Token A".to_string(),
            id: "token-a".to_string(),
            symbol: "TKA".to_string(),
        },
    );
    assert_eq!(
        get_coingecko_id(&data, &"mintA".to_string()),
        Some("token-a".to_string())
    );
    assert_eq!(get_coingecko_id(&data, &"mintB".to_string()), None);
    // A second insert for the same mint leaves the first entry in place.
    data.insert_if_absent(
        &"mintA".to_string(),
        CoingeckoToken {
            name: "Imposter".to_string(),
            id: "imposter".to_string(),
            symbol: "IMP".to_string(),
        },
    );
    assert_eq!(
        get_coingecko_id(&data, &"mintA".to_string()),
        Some("token-a".to_string())
    );
}
