use solana_mirror::client::{
    Header, InnerTransaction, Meta, TokenBalance, Transaction, TransactionMessage, UiTokenAmount,
};
use solana_mirror::transactions::{
    parse_transaction, plan_transaction_batches, sort_by_block_time, ParsedTransaction,
};
use solana_mirror::utils::{clean_string, create_batches, parse_page, parse_u64};
use solana_mirror::{Error, Page};

fn token_balance(mint: &str, owner: &str, amount: &str, decimals: u8) -> TokenBalance {
    TokenBalance {
        account_index: 1,
        mint: mint.to_string(),
        owner: owner.to_string(),
        program_id: "TokenkegQfeZyiNwAJbNbGKPFXCWuBvf9Ss623VQ5DA".to_string(),
        ui_token_amount: UiTokenAmount {
            amount: amount.to_string(),
            decimals,
            ui_amount_string: String::new(),
        },
    }
}

fn base_transaction(signer: &str) -> Transaction {
    Transaction {
        meta: Meta {
            compute_units_consumed: 0,
            err: None,
            fee: 5000,
            log_messages: None,
            post_balances: vec![1_000_000_000],
            post_token_balances: vec![],
            pre_balances: vec![1_000_000_000],
            pre_token_balances: vec![],
            rewards: vec![],
        },
        slot: 1,
        transaction: InnerTransaction {
            message: TransactionMessage {
                account_index: None,
                account_keys: vec![signer.to_string()],
                header: Header {
                    num_readonly_signed_accounts: 0,
                    num_readonly_unsigned_accounts: 0,
                    num_required_signatures: 1,
                },
                instructions: vec![],
                recent_blockhash: String::new(),
            },
            signatures: vec!["sig1".to_string()],
        },
        version: None,
        block_time: Some(1_000_000_000),
    }
}

const SOL: &str = "So11111111111111111111111111111111111111112";

#[test]
fn parse_transaction_records_native_delta() {
    let signer = "walletwalletwalletwalletwalletwallet".to_string();
    let mut tx = base_transaction(&signer);
    tx.meta.pre_balances = vec![10_000_000_000];
    tx.meta.post_balances = vec![20_000_000_000];
    let parsed = parse_transaction(&tx, &signer).unwrap();
    let change = parsed.balances.get(&SOL.to_string()).unwrap();
    assert_eq!(change.pre.amount, 10_000_000_000);
    assert_eq!(change.pre.decimals, 9);
    assert_eq!(change.post.amount, 20_000_000_000);
    assert_eq!(parsed.block_time, 1_000_000_000);
    assert_eq!(parsed.signatures, vec!["sig1".to_string()]);
}

#[test]
fn parse_transaction_skips_unchanged_native_balance() {
    let signer = "walletwalletwalletwalletwalletwallet".to_string();
    let tx = base_transaction(&signer);
    let parsed = parse_transaction(&tx, &signer).unwrap();
    assert!(parsed.balances.get(&SOL.to_string()).is_none());
    assert_eq!(parsed.balances.len(), 0);
}

#[test]
fn parse_transaction_rejects_missing_signer() {
    let signer = "walletwalletwalletwalletwalletwallet".to_string();
    let tx = base_transaction(&signer);
    let other = "someoneelse".to_string();
    match parse_transaction(&tx, &other) {
        Err(Error::InvalidAddress) => {}
        _ => panic!("expected InvalidAddress"),
    }
}

#[test]
fn parse_transaction_merges_token_sides() {
    let signer = "walletwalletwalletwalletwalletwallet".to_string();
    let mut tx = base_transaction(&signer);
    tx.meta.pre_token_balances = vec![token_balance("mintA", &signer, "500", 6)];
    tx.meta.post_token_balances = vec![
        token_balance("mintA", &signer, "700", 6),
        token_balance("mintB", &signer, "40", 2),
    ];
    let parsed = parse_transaction(&tx, &signer).unwrap();
    let a = parsed.balances.get(&"mintA".to_string()).unwrap();
    assert_eq!(a.pre.amount, 500);
    assert_eq!(a.post.amount, 700);
    assert_eq!(a.post.decimals, 6);
    // A mint seen only post-transaction has an implicit zero pre side.
    let b = parsed.balances.get(&"mintB".to_string()).unwrap();
    assert_eq!(b.pre.amount, 0);
    assert_eq!(b.post.amount, 40);
}

#[test]
fn parse_transaction_ignores_other_owners() {
    let signer = "walletwalletwalletwalletwalletwallet".to_string();
    let mut tx = base_transaction(&signer);
    tx.meta.post_token_balances = vec![token_balance("mintA", "somebodyelse", "700", 6)];
    let parsed = parse_transaction(&tx, &signer).unwrap();
    assert!(parsed.balances.get(&"mintA".to_string()).is_none());
}

#[test]
fn parse_transaction_rejects_unreadable_amount() {
    let signer = "walletwalletwalletwalletwalletwallet".to_string();
    let mut tx = base_transaction(&signer);
    tx.meta.post_token_balances = vec![token_balance("mintA", &signer, "12x4", 6)];
    match parse_transaction(&tx, &signer) {
        Err(Error::ParseError) => {}
        _ => panic!("expected ParseError"),
    }
}

#[test]
fn parse_transaction_extracts_instruction_names() {
    let signer = "walletwalletwalletwalletwalletwallet".to_string();
    let mut tx = base_transaction(&signer);
    tx.meta.log_messages = Some(vec![
        "Program log: Instruction: Transfer".to_string(),
        "Program consumed units".to_string(),
        "Program log: Instruction: CloseAccount".to_string(),
    ]);
    let parsed = parse_transaction(&tx, &signer).unwrap();
    assert_eq!(
        parsed.parsed_instructions,
        vec!["Transfer".to_string(), "CloseAccount".to_string()]
    );
}

#[test]
fn parse_transaction_defaults_missing_block_time() {
    let signer = "walletwalletwalletwalletwalletwallet".to_string();
    let mut tx = base_transaction(&signer);
    tx.block_time = None;
    let parsed = parse_transaction(&tx, &signer).unwrap();
    assert_eq!(parsed.block_time, 0);
}

fn tx_at(signer: &str, t: i64) -> ParsedTransaction {
    let mut tx = base_transaction(signer);
    tx.block_time = Some(t);
    parse_transaction(&tx, &signer.to_string()).unwrap()
}

#[test]
fn sort_orders_by_block_time() {
    let signer = "walletwalletwalletwalletwalletwallet";
    let txs = vec![tx_at(signer, 30), tx_at(signer, 10), tx_at(signer, 20)];
    let sorted = sort_by_block_time(txs);
    let times: Vec<i64> = sorted.iter().map(|t| t.block_time).collect();
    assert_eq!(times, vec![10, 20, 30]);
}

#[test]
fn create_batches_chunks_evenly() {
    let arr: Vec<String> = (0..5).map(|i| format!("s{}", i)).collect();
    let batches = create_batches(&arr, 2, None);
    assert_eq!(batches.len(), 3);
    assert_eq!(batches[0], vec!["s0".to_string(), "s1".to_string()]);
    assert_eq!(batches[2], vec!["s4".to_string()]);
}

#[test]
fn create_batches_respects_limit() {
    let arr: Vec<String> = (0..10).map(|i| format!("s{}", i)).collect();
    let batches = create_batches(&arr, 3, Some(5));
    assert_eq!(batches.len(), 2);
    assert_eq!(batches[0].len(), 3);
    // The chunk the limit cuts is the last one.
    assert_eq!(batches[1], vec!["s3".to_string(), "s4".to_string()]);
}

#[test]
fn create_batches_with_zero_limit_yields_one_empty_batch() {
    let arr: Vec<String> = (0..3).map(|i| format!("s{}", i)).collect();
    let batches = create_batches(&arr, 2, Some(0));
    assert_eq!(batches.len(), 1);
    assert!(batches[0].is_empty());
}

#[test]
fn plan_batches_without_page_uses_chunks_of_900() {
    let arr: Vec<String> = (0..1000).map(|i| format!("s{}", i)).collect();
    let batches = plan_transaction_batches(&arr, &None);
    assert_eq!(batches.len(), 2);
    assert_eq!(batches[0].len(), 900);
    assert_eq!(batches[1].len(), 100);
}

#[test]
fn plan_batches_with_page_clamps_to_history() {
    let arr: Vec<String> = (0..10).map(|i| format!("s{}", i)).collect();
    let past = plan_transaction_batches(&arr, &Some(Page { start_idx: 12, end_idx: 20 }));
    assert!(past.is_empty());
    let tail = plan_transaction_batches(&arr, &Some(Page { start_idx: 8, end_idx: 20 }));
    assert_eq!(tail, vec![vec!["s8".to_string(), "s9".to_string()]]);
    let window = plan_transaction_batches(&arr, &Some(Page { start_idx: 2, end_idx: 4 }));
    assert_eq!(window, vec![vec!["s2".to_string(), "s3".to_string()]]);
}

#[test]
fn parse_page_accepts_a_window() {
    assert_eq!(
        parse_page(Some("3-9")).unwrap(),
        Some(Page { start_idx: 3, end_idx: 9 })
    );
    assert_eq!(parse_page(None).unwrap(), None);
}

#[test]
fn parse_page_rejects_malformed_indexes() {
    assert_eq!(parse_page(Some("9-3")), Err(Error::InvalidIndex));
    assert_eq!(parse_page(Some("a-b")), Err(Error::InvalidIndex));
    assert_eq!(parse_page(Some("1-2-3")), Err(Error::InvalidIndex));
    assert_eq!(parse_page(Some("12")), Err(Error::InvalidIndex));
    assert_eq!(parse_page(Some("-4")), Err(Error::InvalidIndex));
}

#[test]
fn parse_u64_handles_bounds() {
    assert_eq!(parse_u64("0"), Some(0));
    assert_eq!(parse_u64("18446744073709551615"), Some(u64::MAX));
    assert_eq!(parse_u64("18446744073709551616"), None);
    assert_eq!(parse_u64(""), None);
    assert_eq!(parse_u64("12a"), None);
}

#[test]
fn clean_string_strips_padding_and_quotes() {
    assert_eq!(clean_string("\0\"MyToken\"\0\0".to_string()), "MyToken");
    assert_eq!(clean_string("plain".to_string()), "plain");
    assert_eq!(clean_string(String::new()), "");
}
