use solana_mirror::chart::{
    filter_balance_states, get_balance_states, parse_timeframe_request, ChartData, Timeframe,
};
use solana_mirror::client::{
    Header, InnerTransaction, Meta, TokenBalance, Transaction, TransactionMessage, UiTokenAmount,
};
use solana_mirror::mint_map::MintMap;
use solana_mirror::transactions::parse_transaction;
use solana_mirror::types::FormattedAmount;
use solana_mirror::Error;

const SOL: &str = "So11111111111111111111111111111111111111112";

fn tx_with_token(signer: &str, t: i64, mint: &str, pre: &str, post: &str) -> Transaction {
    Transaction {
        meta: Meta {
            compute_units_consumed: 0,
            err: None,
            fee: 5000,
            log_messages: None,
            post_balances: vec![1_000_000_000],
            post_token_balances: vec![TokenBalance {
                account_index: 1,
                mint: mint.to_string(),
                owner: signer.to_string(),
                program_id: String::new(),
                ui_token_amount: UiTokenAmount {
                    amount: post.to_string(),
                    decimals: 6,
                    ui_amount_string: String::new(),
                },
            }],
            pre_balances: vec![1_000_000_000],
            pre_token_balances: vec![TokenBalance {
                account_index: 1,
                mint: mint.to_string(),
                owner: signer.to_string(),
                program_id: String::new(),
                ui_token_amount: UiTokenAmount {
                    amount: pre.to_string(),
                    decimals: 6,
                    ui_amount_string: String::new(),
                },
            }],
            rewards: vec![],
        },
        slot: 1,
        transaction: InnerTransaction {
            message: TransactionMessage {
                account_index: None,
                account_keys: vec![signer.to_string()],
                header: Header {
                    num_readonly_signed_accounts: 0,
                    num_readonly_unsigned_accounts: 0,
                    num_required_signatures: 1,
                },
                instructions: vec![],
                recent_blockhash: String::new(),
            },
            signatures: vec![format!("sig{}", t)],
        },
        version: None,
        block_time: Some(t),
    }
}

#[test]
fn timeframe_parses_unit_letters() {
    assert_eq!(Timeframe::new("h"), Some(Timeframe::Hour));
    assert_eq!(Timeframe::new("H"), Some(Timeframe::Hour));
    assert_eq!(Timeframe::new("d"), Some(Timeframe::Day));
    assert_eq!(Timeframe::new("D"), Some(Timeframe::Day));
    assert_eq!(Timeframe::new("x"), None);
    assert_eq!(Timeframe::new("hd"), None);
    assert_eq!(Timeframe::new(""), None);
}

#[test]
fn timeframe_widths_and_names() {
    assert_eq!(Timeframe::to_seconds(Timeframe::Hour), 3600);
    assert_eq!(Timeframe::to_seconds(Timeframe::Day), 86400);
    assert_eq!(Timeframe::to_string(Timeframe::Hour), "h");
    assert_eq!(Timeframe::to_string(Timeframe::Day), "d");
}

#[test]
fn timeframe_request_parses_range_and_unit() {
    assert_eq!(parse_timeframe_request("30d"), Ok((Timeframe::Day, 30)));
    assert_eq!(parse_timeframe_request("24H"), Ok((Timeframe::Hour, 24)));
    assert_eq!(parse_timeframe_request("d"), Err(Error::InvalidTimeframe));
    assert_eq!(parse_timeframe_request("300d"), Err(Error::InvalidTimeframe));
    assert_eq!(parse_timeframe_request("12x"), Err(Error::InvalidTimeframe));
    assert_eq!(parse_timeframe_request(""), Err(Error::InvalidTimeframe));
}

#[test]
fn builder_prunes_zeroed_balances() {
    // Two transactions raise then zero out a token balance: the snapshot
    // after the second transaction must not contain the mint at all.
    let signer = "walletwalletwalletwalletwalletwallet";
    let t1 = parse_transaction(&tx_with_token(signer, 100, "mintA", "0", "500"), &signer.to_string())
        .unwrap();
    let t2 = parse_transaction(&tx_with_token(signer, 200, "mintA", "500", "0"), &signer.to_string())
        .unwrap();
    let states = get_balance_states(&vec![t1, t2]);
    assert_eq!(states.len(), 2);
    assert_eq!(
        states[0].balances.get(&"mintA".to_string()),
        Some(FormattedAmount { amount: 500, decimals: 6 })
    );
    assert!(states[1].balances.get(&"mintA".to_string()).is_none());
    assert_eq!(states[1].balances.len(), 0);
}

#[test]
fn builder_carries_forward_untouched_mints() {
    let signer = "walletwalletwalletwalletwalletwallet";
    let t1 = parse_transaction(&tx_with_token(signer, 100, "mintA", "0", "500"), &signer.to_string())
        .unwrap();
    let t2 = parse_transaction(&tx_with_token(signer, 200, "mintB", "0", "70"), &signer.to_string())
        .unwrap();
    let states = get_balance_states(&vec![t1, t2]);
    assert_eq!(
        states[1].balances.get(&"mintA".to_string()),
        Some(FormattedAmount { amount: 500, decimals: 6 })
    );
    assert_eq!(
        states[1].balances.get(&"mintB".to_string()),
        Some(FormattedAmount { amount: 70, decimals: 6 })
    );
}

fn sol_state(t: i64, lamports: u64) -> ChartData {
    let mut balances = MintMap::new();
    balances.set(
        &SOL.to_string(),
        FormattedAmount { amount: lamports, decimals: 9 },
    );
    ChartData { timestamp: t, balances }
}

#[test]
fn bucketer_emits_grid_and_now_bucket() {
    // A wallet whose whole history is a single 10 SOL deposit one hour
    // before "now", charted daily over one period: exactly two buckets, the
    // day-grid bucket and the trailing "now" bucket holding the deposit.
    let t = 1_000_000_000i64;
    let now = t + 3600;
    let states = vec![sol_state(t, 10_000_000_000)];
    let out = filter_balance_states(&states, Timeframe::Day, 1, now);
    assert_eq!(out.len(), 2);
    let final_t = (now / 86400) * 86400;
    assert_eq!(out[0].timestamp, final_t - 86400);
    assert_eq!(out[1].timestamp, now);
    assert_eq!(
        out[1].balances.get(&SOL.to_string()),
        Some(FormattedAmount { amount: 10_000_000_000, decimals: 9 })
    );
}

#[test]
fn bucketer_timestamps_never_decrease() {
    let states = vec![
        sol_state(1_000_000_000, 5),
        sol_state(1_000_050_000, 7),
        sol_state(1_000_100_000, 9),
    ];
    let now = 1_000_200_000i64;
    let out = filter_balance_states(&states, Timeframe::Hour, 24, now);
    // One bucket per grid point plus the trailing "now" bucket.
    let age = (now - 1_000_000_000 + 3599) / 3600;
    let adjusted = std::cmp::min(24, age + 1);
    assert_eq!(out.len() as i64, adjusted + 1);
    for w in out.windows(2) {
        assert!(w[0].timestamp <= w[1].timestamp);
    }
}

#[test]
fn bucketer_fills_dormant_periods() {
    // One old transaction, then nothing: every bucket still appears, all
    // carrying the same balances.
    let t = 1_000_000_000i64;
    let now = t + 10 * 86400;
    let states = vec![sol_state(t, 3_000_000_000)];
    let out = filter_balance_states(&states, Timeframe::Day, 4, now);
    assert_eq!(out.len(), 5);
    for bucket in &out {
        assert_eq!(
            bucket.balances.get(&SOL.to_string()),
            Some(FormattedAmount { amount: 3_000_000_000, decimals: 9 })
        );
    }
}

#[test]
fn bucketer_is_deterministic() {
    let states = vec![sol_state(1_000_000_000, 5), sol_state(1_000_050_000, 7)];
    let now = 1_000_200_000i64;
    let a = filter_balance_states(&states, Timeframe::Hour, 12, now);
    let b = filter_balance_states(&states, Timeframe::Hour, 12, now);
    assert_eq!(a.len(), b.len());
    for i in 0..a.len() {
        assert_eq!(a[i].timestamp, b[i].timestamp);
        assert_eq!(
            a[i].balances.get(&SOL.to_string()),
            b[i].balances.get(&SOL.to_string())
        );
    }
}

#[test]
fn bucketer_empty_history_gives_empty_chart() {
    let out = filter_balance_states(&vec![], Timeframe::Day, 7, 1_000_000_000);
    assert!(out.is_empty());
}

#[test]
fn bucketer_zero_range_gives_single_now_bucket() {
    let t = 1_000_000_000i64;
    let states = vec![sol_state(t, 42)];
    let out = filter_balance_states(&states, Timeframe::Day, 0, t + 50);
    assert_eq!(out.len(), 1);
    assert_eq!(out[0].timestamp, t + 50);
    assert_eq!(
        out[0].balances.get(&SOL.to_string()),
        Some(FormattedAmount { amount: 42, decimals: 9 })
    );
}
