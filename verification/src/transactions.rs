use vstd::prelude::*;
use crate::{Error, Page};
use crate::client::{TokenBalance, Transaction};
use crate::mint_map::MintMap;
use crate::types::FormattedAmount;
use crate::utils::{copy_range, digits_val, parse_u64, u64_digits};

verus! {

/// The native mint: balance deltas of the wallet's lamport balance are
/// recorded under this address.
pub open spec fn sol_mint() -> Seq<char> {
    "So11111111111111111111111111111111111111112"@
}

/// The native mint address as an owned string.
pub fn sol_address() -> (r: String)
    ensures
        r@ == sol_mint(),
{
    "So11111111111111111111111111111111111111112".to_owned()
}

/// The pre- and post-transaction amounts of one mint within one transaction.
#[derive(Debug, Clone, Copy, PartialEq, Eq, Structural)]
pub struct BalanceChange {
    pub pre: FormattedAmount,
    pub post: FormattedAmount,
}

impl BalanceChange {
    /// Both sides zero: the base for a mint seen on only one side.
    pub fn zero_pair() -> (r: Self)
        ensures
            r == BalanceChange::zero_pair_spec(),
    {
        BalanceChange { pre: FormattedAmount::zero(), post: FormattedAmount::zero() }
    }

    pub open spec fn zero_pair_spec() -> Self {
        BalanceChange { pre: FormattedAmount::zero_spec(), post: FormattedAmount::zero_spec() }
    }
}

/// One transaction reduced to what the balance history needs.
pub struct ParsedTransaction {
    pub block_time: i64,
    pub signatures: Vec<String>,
    pub balances: MintMap<BalanceChange>,
    pub parsed_instructions: Vec<String>,
}

/// The parsed history and the total signature count it was drawn from.
pub struct TransactionResponse {
    pub transactions: Vec<ParsedTransaction>,
    pub count: usize,
}

// ---------------------------------------------------------------------------
// Specification of the extraction
// ---------------------------------------------------------------------------

pub open spec fn keys_view(keys: Seq<String>) -> Seq<Seq<char>> {
    keys.map_values(|s: String| s@)
}

/// The signer appears among the transaction's account keys.
pub open spec fn signer_present(tx: &Transaction, signer: Seq<char>) -> bool {
    keys_view(tx.transaction.message.account_keys@).contains(signer)
}

/// The token-balance entry's raw amount is a digit string that fits a `u64`.
pub open spec fn amount_ok(tb: TokenBalance) -> bool {
    u64_digits(tb.ui_token_amount.amount@)
}

/// Every token-balance entry owned by the signer carries a readable amount.
pub open spec fn relevant_amounts_ok(tbs: Seq<TokenBalance>, signer: Seq<char>) -> bool {
    forall|i: int|
        0 <= i < tbs.len() && (#[trigger] tbs[i]).owner@ == signer ==> amount_ok(tbs[i])
}

pub open spec fn fa_of(tb: TokenBalance) -> FormattedAmount {
    FormattedAmount {
        amount: digits_val(tb.ui_token_amount.amount@) as u64,
        decimals: tb.ui_token_amount.decimals,
    }
}

/// The signer's latest token-balance entry for `mint`, if any.
pub open spec fn last_token_entry(tbs: Seq<TokenBalance>, signer: Seq<char>, mint: Seq<char>) -> Option<TokenBalance>
    decreases tbs.len(),
{
    if tbs.len() == 0 {
        None
    } else if tbs.last().owner@ == signer && tbs.last().mint@ == mint {
        Some(tbs.last())
    } else {
        last_token_entry(tbs.drop_last(), signer, mint)
    }
}

/// The lamport delta at the signer's account index, when the balance moved.
pub open spec fn native_change(tx: &Transaction, signer: Seq<char>) -> Option<BalanceChange> {
    match keys_view(tx.transaction.message.account_keys@).index_of_first(signer) {
        Some(i) => {
            let pre = tx.meta.pre_balances@[i];
            let post = tx.meta.post_balances@[i];
            if pre != post {
                Some(
                    BalanceChange {
                        pre: FormattedAmount { amount: pre, decimals: 9 },
                        post: FormattedAmount { amount: post, decimals: 9 },
                    },
                )
            } else {
                None
            }
        }
        None => None,
    }
}

/// The balance change recorded for mint `k` after folding in the first `i`
/// pre-token entries and the first `j` post-token entries.
pub open spec fn partial_change(tx: &Transaction, signer: Seq<char>, i: int, j: int, k: Seq<char>) -> Option<BalanceChange> {
    let native = if k == sol_mint() {
        native_change(tx, signer)
    } else {
        None
    };
    let tp = last_token_entry(tx.meta.pre_token_balances@.take(i), signer, k);
    let tq = last_token_entry(tx.meta.post_token_balances@.take(j), signer, k);
    if tp is None && tq is None {
        native
    } else {
        let base = match native {
            Some(b) => b,
            None => BalanceChange::zero_pair_spec(),
        };
        Some(
            BalanceChange {
                pre: match tp {
                    Some(tb) => fa_of(tb),
                    None => base.pre,
                },
                post: match tq {
                    Some(tb) => fa_of(tb),
                    None => base.post,
                },
            },
        )
    }
}

/// The balance change parse_transaction records for mint `k`.
pub open spec fn expected_change(tx: &Transaction, signer: Seq<char>, k: Seq<char>) -> Option<BalanceChange> {
    partial_change(
        tx,
        signer,
        tx.meta.pre_token_balances@.len() as int,
        tx.meta.post_token_balances@.len() as int,
        k,
    )
}

/// The log-line prefix that announces a decoded instruction name.
pub open spec fn instr_prefix() -> Seq<char> {
    "Program log: Instruction: "@
}

pub open spec fn is_instr_log(l: Seq<char>) -> bool {
    l.len() >= 26 && l.subrange(0, 26) == instr_prefix()
}

/// Instruction names: the log lines carrying the prefix, prefix stripped.
pub open spec fn instructions_of(logs: Seq<Seq<char>>) -> Seq<Seq<char>>
    decreases logs.len(),
{
    if logs.len() == 0 {
        Seq::empty()
    } else {
        instructions_of(logs.drop_last()) + (if is_instr_log(logs.last()) {
            seq![logs.last().subrange(26, logs.last().len() as int)]
        } else {
            Seq::empty()
        })
    }
}

/// The log lines of the transaction, empty when the field is absent.
pub open spec fn logs_view(tx: &Transaction) -> Seq<Seq<char>> {
    match tx.meta.log_messages {
        Some(logs) => logs@.map_values(|s: String| s@),
        None => Seq::empty(),
    }
}

/// The signer's balance-index entry exists wherever the signer is found.
pub open spec fn balances_cover_signer(tx: &Transaction, signer: Seq<char>) -> bool {
    match keys_view(tx.transaction.message.account_keys@).index_of_first(signer) {
        Some(i) => i < tx.meta.pre_balances@.len() && i < tx.meta.post_balances@.len(),
        None => true,
    }
}

proof fn lemma_last_token_entry_step(tbs: Seq<TokenBalance>, i: int, signer: Seq<char>, k: Seq<char>)
    requires
        0 <= i < tbs.len(),
    ensures
        last_token_entry(tbs.take(i + 1), signer, k) == (if tbs[i].owner@ == signer && tbs[i].mint@
            == k {
            Some(tbs[i])
        } else {
            last_token_entry(tbs.take(i), signer, k)
        }),
{
    assert(tbs.take(i + 1).drop_last() =~= tbs.take(i));
    assert(tbs.take(i + 1).last() == tbs[i]);
}

// ---------------------------------------------------------------------------
// The extraction
// ---------------------------------------------------------------------------

/// Extract the signer's per-mint balance changes from one raw transaction.
///
/// Fails with `InvalidAddress` when the signer is not among the
/// transaction's account keys, and with `ParseError` when a token-balance
/// entry owned by the signer carries an unreadable raw amount. Otherwise the
/// balances map holds, for every mint the signer touched, the latest pre and
/// post amounts, with the lamport balance under the native mint when it
/// moved.
#[verifier::loop_isolation(false)]
pub fn parse_transaction(tx: &Transaction, signer: &String) -> (r: Result<ParsedTransaction, Error>)
    requires
        balances_cover_signer(tx, signer@),
    ensures
        r == Err::<ParsedTransaction, Error>(Error::InvalidAddress) <==> !signer_present(
            tx,
            signer@,
        ),
        r == Err::<ParsedTransaction, Error>(Error::ParseError) <==> signer_present(tx, signer@)
            && !(relevant_amounts_ok(tx.meta.pre_token_balances@, signer@) && relevant_amounts_ok(
            tx.meta.post_token_balances@,
            signer@,
        )),
        r is Ok <==> signer_present(tx, signer@) && relevant_amounts_ok(
            tx.meta.pre_token_balances@,
            signer@,
        ) && relevant_amounts_ok(tx.meta.post_token_balances@, signer@),
        r matches Ok(p) ==> {
            &&& p.block_time == (match tx.block_time {
                Some(t) => t,
                None => 0,
            })
            &&& p.signatures@.map_values(|s: String| s@) == tx.transaction.signatures@.map_values(
                |s: String| s@,
            )
            &&& p.parsed_instructions@.map_values(|s: String| s@) == instructions_of(logs_view(tx))
            &&& p.balances.wf()
            &&& forall|k: Seq<char>|
                p.balances@.contains_key(k) <==> #[trigger] expected_change(tx, signer@, k) is Some
            &&& forall|k: Seq<char>|
                p.balances@.contains_key(k) ==> Some(p.balances@[k]) == #[trigger] expected_change(
                    tx,
                    signer@,
                    k,
                )
        },
{
    let keys = &tx.transaction.message.account_keys;
    let nk = keys.len();
    proof {
        keys_view(keys@).index_of_first_ensures(signer@);
    }
    let mut owner_idx: usize = 0;
    let mut found = false;
    while owner_idx < nk
        invariant
            owner_idx <= nk,
            !found,
            forall|j: int| 0 <= j < owner_idx ==> keys_view(keys@)[j] != signer@,
        decreases nk - owner_idx,
    {
        if keys[owner_idx] == *signer {
            found = true;
            break;
        }
        owner_idx += 1;
    }
    if !found {
        proof {
            assert(keys_view(keys@).index_of_first(signer@) is None);
        }
        return Err(Error::InvalidAddress);
    }
    proof {
        assert(keys_view(keys@)[owner_idx as int] == signer@);
        assert(keys_view(keys@).index_of_first(signer@) == Some(owner_idx as int));
    }

    let pre_sol = tx.meta.pre_balances[owner_idx];
    let post_sol = tx.meta.post_balances[owner_idx];
    let mut balances: MintMap<BalanceChange> = MintMap::new();
    if pre_sol != post_sol {
        let sol = sol_address();
        balances.set(
            &sol,
            BalanceChange {
                pre: FormattedAmount { amount: pre_sol, decimals: 9 },
                post: FormattedAmount { amount: post_sol, decimals: 9 },
            },
        );
    }
    proof {
        assert forall|k: Seq<char>|
            balances@.contains_key(k) <==> #[trigger] partial_change(tx, signer@, 0, 0, k) is Some
        by {
            assert(tx.meta.pre_token_balances@.take(0) =~= Seq::<TokenBalance>::empty());
            assert(tx.meta.post_token_balances@.take(0) =~= Seq::<TokenBalance>::empty());
        }
        assert forall|k: Seq<char>| balances@.contains_key(k) implies Some(balances@[k])
            == #[trigger] partial_change(tx, signer@, 0, 0, k) by {
            assert(tx.meta.pre_token_balances@.take(0) =~= Seq::<TokenBalance>::empty());
            assert(tx.meta.post_token_balances@.take(0) =~= Seq::<TokenBalance>::empty());
        }
    }

    // Fold in the signer's pre-transaction token balances.
    let np = tx.meta.pre_token_balances.len();
    let mut i: usize = 0;
    while i < np
        invariant
            i <= np == tx.meta.pre_token_balances@.len(),
            balances.wf(),
            relevant_amounts_ok(tx.meta.pre_token_balances@.take(i as int), signer@),
            forall|k: Seq<char>|
                balances@.contains_key(k) <==> #[trigger] partial_change(
                    tx,
                    signer@,
                    i as int,
                    0,
                    k,
                ) is Some,
            forall|k: Seq<char>|
                balances@.contains_key(k) ==> Some(balances@[k]) == #[trigger] partial_change(
                    tx,
                    signer@,
                    i as int,
                    0,
                    k,
                ),
        decreases np - i,
    {
        let tb = &tx.meta.pre_token_balances[i];
        if tb.owner == *signer {
            let amt = match parse_u64(tb.ui_token_amount.amount.as_str()) {
                Some(v) => v,
                None => {
                    proof {
                        assert(!amount_ok(tx.meta.pre_token_balances@[i as int]));
                    }
                    return Err(Error::ParseError);
                }
            };
            let prev = match balances.get(&tb.mint) {
                Some(bc) => bc,
                None => BalanceChange::zero_pair(),
            };
            let next = BalanceChange {
                pre: FormattedAmount { amount: amt, decimals: tb.ui_token_amount.decimals },
                post: prev.post,
            };
            proof {
                crate::utils::lemma_digits_val_nonneg(tb.ui_token_amount.amount@);
            }
            balances.set(&tb.mint, next);
            proof {
                assert forall|k: Seq<char>|
                    balances@.contains_key(k) <==> #[trigger] partial_change(
                        tx,
                        signer@,
                        i + 1,
                        0,
                        k,
                    ) is Some by {
                    lemma_last_token_entry_step(tx.meta.pre_token_balances@, i as int, signer@, k);
                    assert(partial_change(tx, signer@, i as int, 0, k) == partial_change(
                        tx,
                        signer@,
                        i as int,
                        0,
                        k,
                    ));
                }
                assert forall|k: Seq<char>| balances@.contains_key(k) implies Some(balances@[k])
                    == #[trigger] partial_change(tx, signer@, i + 1, 0, k) by {
                    lemma_last_token_entry_step(tx.meta.pre_token_balances@, i as int, signer@, k);
                    assert(partial_change(tx, signer@, i as int, 0, k) == partial_change(
                        tx,
                        signer@,
                        i as int,
                        0,
                        k,
                    ));
                }
            }
        } else {
            proof {
                assert forall|k: Seq<char>|
                    balances@.contains_key(k) <==> #[trigger] partial_change(
                        tx,
                        signer@,
                        i + 1,
                        0,
                        k,
                    ) is Some by {
                    lemma_last_token_entry_step(tx.meta.pre_token_balances@, i as int, signer@, k);
                    assert(partial_change(tx, signer@, i as int, 0, k) == partial_change(
                        tx,
                        signer@,
                        i as int,
                        0,
                        k,
                    ));
                }
                assert forall|k: Seq<char>| balances@.contains_key(k) implies Some(balances@[k])
                    == #[trigger] partial_change(tx, signer@, i + 1, 0, k) by {
                    lemma_last_token_entry_step(tx.meta.pre_token_balances@, i as int, signer@, k);
                    assert(partial_change(tx, signer@, i as int, 0, k) == partial_change(
                        tx,
                        signer@,
                        i as int,
                        0,
                        k,
                    ));
                }
            }
        }
        proof {
            assert(relevant_amounts_ok(tx.meta.pre_token_balances@.take(i + 1), signer@)) by {
                assert(forall|j: int|
                    0 <= j < i + 1 ==> tx.meta.pre_token_balances@.take(i + 1)[j]
                        == tx.meta.pre_token_balances@[j]);
            }
        }
        i += 1;
    }

    // Fold in the signer's post-transaction token balances.
    let nq = tx.meta.post_token_balances.len();
    let mut j: usize = 0;
    while j < nq
        invariant
            j <= nq == tx.meta.post_token_balances@.len(),
            balances.wf(),
            relevant_amounts_ok(tx.meta.post_token_balances@.take(j as int), signer@),
            forall|k: Seq<char>|
                balances@.contains_key(k) <==> #[trigger] partial_change(
                    tx,
                    signer@,
                    np as int,
                    j as int,
                    k,
                ) is Some,
            forall|k: Seq<char>|
                balances@.contains_key(k) ==> Some(balances@[k]) == #[trigger] partial_change(
                    tx,
                    signer@,
                    np as int,
                    j as int,
                    k,
                ),
        decreases nq - j,
    {
        let tb = &tx.meta.post_token_balances[j];
        if tb.owner == *signer {
            let amt = match parse_u64(tb.ui_token_amount.amount.as_str()) {
                Some(v) => v,
                None => {
                    proof {
                        assert(!amount_ok(tx.meta.post_token_balances@[j as int]));
                    }
                    return Err(Error::ParseError);
                }
            };
            let prev = match balances.get(&tb.mint) {
                Some(bc) => bc,
                None => BalanceChange::zero_pair(),
            };
            let next = BalanceChange {
                pre: prev.pre,
                post: FormattedAmount { amount: amt, decimals: tb.ui_token_amount.decimals },
            };
            proof {
                crate::utils::lemma_digits_val_nonneg(tb.ui_token_amount.amount@);
            }
            balances.set(&tb.mint, next);
            proof {
                assert forall|k: Seq<char>|
                    balances@.contains_key(k) <==> #[trigger] partial_change(
                        tx,
                        signer@,
                        np as int,
                        j + 1,
                        k,
                    ) is Some by {
                    lemma_last_token_entry_step(tx.meta.post_token_balances@, j as int, signer@, k);
                    assert(partial_change(tx, signer@, np as int, j as int, k) == partial_change(
                        tx,
                        signer@,
                        np as int,
                        j as int,
                        k,
                    ));
                }
                assert forall|k: Seq<char>| balances@.contains_key(k) implies Some(balances@[k])
                    == #[trigger] partial_change(tx, signer@, np as int, j + 1, k) by {
                    lemma_last_token_entry_step(tx.meta.post_token_balances@, j as int, signer@, k);
                    assert(partial_change(tx, signer@, np as int, j as int, k) == partial_change(
                        tx,
                        signer@,
                        np as int,
                        j as int,
                        k,
                    ));
                }
            }
        } else {
            proof {
                assert forall|k: Seq<char>|
                    balances@.contains_key(k) <==> #[trigger] partial_change(
                        tx,
                        signer@,
                        np as int,
                        j + 1,
                        k,
                    ) is Some by {
                    lemma_last_token_entry_step(tx.meta.post_token_balances@, j as int, signer@, k);
                    assert(partial_change(tx, signer@, np as int, j as int, k) == partial_change(
                        tx,
                        signer@,
                        np as int,
                        j as int,
                        k,
                    ));
                }
                assert forall|k: Seq<char>| balances@.contains_key(k) implies Some(balances@[k])
                    == #[trigger] partial_change(tx, signer@, np as int, j + 1, k) by {
                    lemma_last_token_entry_step(tx.meta.post_token_balances@, j as int, signer@, k);
                    assert(partial_change(tx, signer@, np as int, j as int, k) == partial_change(
                        tx,
                        signer@,
                        np as int,
                        j as int,
                        k,
                    ));
                }
            }
        }
        proof {
            assert(relevant_amounts_ok(tx.meta.post_token_balances@.take(j + 1), signer@)) by {
                assert(forall|l: int|
                    0 <= l < j + 1 ==> tx.meta.post_token_balances@.take(j + 1)[l]
                        == tx.meta.post_token_balances@[l]);
            }
        }
        j += 1;
    }
    proof {
        assert(tx.meta.pre_token_balances@.take(np as int) =~= tx.meta.pre_token_balances@);
        assert(tx.meta.post_token_balances@.take(nq as int) =~= tx.meta.post_token_balances@);
    }

    // Instruction names from the log lines.
    let mut parsed_instructions: Vec<String> = Vec::new();
    match &tx.meta.log_messages {
        None => {
            proof {
                assert(instructions_of(logs_view(tx)) =~= Seq::<Seq<char>>::empty());
                assert(parsed_instructions@.map_values(|s: String| s@) =~= Seq::<Seq<char>>::empty());
            }
        }
        Some(logs) => {
            let prefix: &str = "Program log: Instruction: ";
            let nl = logs.len();
            let mut li: usize = 0;
            while li < nl
                invariant
                    li <= nl == logs@.len(),
                    parsed_instructions@.map_values(|s: String| s@) =~= instructions_of(
                        logs@.map_values(|s: String| s@).take(li as int),
                    ),
                decreases nl - li,
            {
                let line: &str = logs[li].as_str();
                let n = line.unicode_len();
                let ghost lv = logs@.map_values(|s: String| s@);
                proof {
                    assert(lv.take(li + 1).drop_last() =~= lv.take(li as int));
                    assert(lv.take(li + 1).last() == line@);
                }
                if n >= 26 {
                    let head = line.substring_char(0, 26);
                    if head.to_owned() == prefix.to_owned() {
                        let name = line.substring_char(26, n);
                        parsed_instructions.push(name.to_owned());
                        proof {
                            assert(is_instr_log(line@));
                            assert(parsed_instructions@.map_values(|s: String| s@)
                                =~= instructions_of(lv.take(li + 1)));
                        }
                    } else {
                        proof {
                            assert(!is_instr_log(line@));
                            assert(parsed_instructions@.map_values(|s: String| s@)
                                =~= instructions_of(lv.take(li + 1)));
                        }
                    }
                } else {
                    proof {
                        assert(!is_instr_log(line@));
                        assert(parsed_instructions@.map_values(|s: String| s@) =~= instructions_of(
                            lv.take(li + 1),
                        ));
                    }
                }
                li += 1;
            }
            proof {
                assert(logs@.map_values(|s: String| s@).take(nl as int) =~= logs_view(tx));
            }
        }
    }

    let block_time = match tx.block_time {
        Some(t) => t,
        None => 0,
    };
    let nsig = tx.transaction.signatures.len();
    let signatures = copy_range(&tx.transaction.signatures, 0, nsig);
    proof {
        assert(tx.transaction.signatures@.map_values(|s: String| s@).subrange(0, nsig as int)
            =~= tx.transaction.signatures@.map_values(|s: String| s@));
    }

    Ok(ParsedTransaction { block_time, signatures, balances, parsed_instructions })
}

// ---------------------------------------------------------------------------
// Ordering and batching
// ---------------------------------------------------------------------------

/// Timestamps never decrease along the history.
pub open spec fn sorted_by_time(s: Seq<ParsedTransaction>) -> bool {
    forall|i: int, j: int| 0 <= i <= j < s.len() ==> s[i].block_time <= s[j].block_time
}

/// Sort the parsed history by block time, ascending. The result is a
/// rearrangement of the input: same transactions, same multiplicities.
#[verifier::loop_isolation(false)]
pub fn sort_by_block_time(txs: Vec<ParsedTransaction>) -> (r: Vec<ParsedTransaction>)
    ensures
        sorted_by_time(r@),
        r@.to_multiset() == txs@.to_multiset(),
        r@.len() == txs@.len(),
        forall|i: int| 0 <= i < r@.len() ==> txs@.contains(#[trigger] r@[i]),
{
    broadcast use vstd::seq_lib::group_to_multiset_ensures;

    let mut rest = txs;
    let mut out: Vec<ParsedTransaction> = Vec::new();
    let ghost orig = rest@;
    while rest.len() > 0
        invariant
            sorted_by_time(out@),
            out@.to_multiset().add(rest@.to_multiset()) =~= orig.to_multiset(),
            out@.len() + rest@.len() == orig.len(),
            forall|p: int, q: int|
                0 <= p < out@.len() && 0 <= q < rest@.len() ==> (#[trigger] out@[p]).block_time <= (
                #[trigger] rest@[q]).block_time,
            forall|i: int| 0 <= i < out@.len() ==> orig.contains(#[trigger] out@[i]),
        decreases rest@.len(),
    {
        let n = rest.len();
        let mut min_idx: usize = 0;
        let mut k: usize = 1;
        while k < n
            invariant
                min_idx < k <= n == rest@.len(),
                forall|q: int|
                    0 <= q < k ==> rest@[min_idx as int].block_time <= (
                    #[trigger] rest@[q]).block_time,
            decreases n - k,
        {
            if rest[k].block_time < rest[min_idx].block_time {
                min_idx = k;
            }
            k += 1;
        }
        let ghost pre_rest = rest@;
        let ghost pre_out = out@;
        let tx = rest.remove(min_idx);
        proof {
            assert(orig.to_multiset().count(tx) > 0) by {
                assert(pre_out.to_multiset().add(pre_rest.to_multiset()) =~= orig.to_multiset());
                assert(pre_rest.contains(tx));
            }
            assert(orig.contains(tx));
        }
        out.push(tx);
        proof {
            assert(out@.to_multiset().add(rest@.to_multiset()) =~= orig.to_multiset()) by {
                assert(out@.to_multiset() =~= pre_out.to_multiset().insert(tx));
                assert(rest@.to_multiset() =~= pre_rest.to_multiset().remove(tx));
                assert(pre_rest.to_multiset().count(tx) > 0);
            }
            assert forall|p: int, q: int|
                0 <= p < out@.len() && 0 <= q < rest@.len() implies (#[trigger] out@[p]).block_time
                <= (#[trigger] rest@[q]).block_time by {
                if q < min_idx {
                    assert(rest@[q] == pre_rest[q]);
                } else {
                    assert(rest@[q] == pre_rest[q + 1]);
                }
            }
        }
    }
    out
}

/// The transaction batches a fetch plan asks for: the whole history in
/// chunks of 900 when no page is given; one chunk holding the page's
/// window, clamped to the history, when one is; no chunk at all when the
/// page starts past the history.
pub fn plan_transaction_batches(signatures: &Vec<String>, page: &Option<Page>) -> (r: Vec<Vec<String>>)
    requires
        page matches Some(p) ==> p.start_idx <= p.end_idx,
    ensures
        ({
            let sv = signatures@.map_values(|x: String| x@);
            let rv = r@.map_values(|b: Vec<String>| b@.map_values(|x: String| x@));
            match page {
                None => rv == crate::utils::batches_spec(sv, 0, 900, None::<int>),
                Some(p) => {
                    if p.start_idx >= sv.len() {
                        rv == Seq::<Seq<Seq<char>>>::empty()
                    } else if p.end_idx >= sv.len() {
                        rv == seq![sv.subrange(p.start_idx as int, sv.len() as int)]
                    } else {
                        rv == seq![sv.subrange(p.start_idx as int, p.end_idx as int)]
                    }
                }
            }
        }),
{
    match page {
        None => crate::utils::create_batches(signatures, 900, None),
        Some(p) => {
            let n = signatures.len();
            if p.start_idx >= n {
                let r: Vec<Vec<String>> = Vec::new();
                proof {
                    assert(r@.map_values(|b: Vec<String>| b@.map_values(|x: String| x@))
                        =~= Seq::<Seq<Seq<char>>>::empty());
                }
                r
            } else if p.end_idx >= n {
                let batch = copy_range(signatures, p.start_idx, n);
                let mut r: Vec<Vec<String>> = Vec::new();
                r.push(batch);
                proof {
                    assert(r@.map_values(|b: Vec<String>| b@.map_values(|x: String| x@))
                        =~= seq![signatures@.map_values(|x: String| x@).subrange(p.start_idx as int, n as int)]);
                }
                r
            } else {
                let batch = copy_range(signatures, p.start_idx, p.end_idx);
                let mut r: Vec<Vec<String>> = Vec::new();
                r.push(batch);
                proof {
                    assert(r@.map_values(|b: Vec<String>| b@.map_values(|x: String| x@))
                        =~= seq![signatures@.map_values(|x: String| x@).subrange(p.start_idx as int, p.end_idx as int)]);
                }
                r
            }
        }
    }
}

} // verus!
