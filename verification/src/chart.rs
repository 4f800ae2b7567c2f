use vstd::prelude::*;
use crate::Error;
use crate::mint_map::MintMap;
use crate::transactions::ParsedTransaction;
use crate::types::{FormattedAmount, FormattedAmountWithPrice};
use crate::utils::{digits_val, lemma_digits_val_nonneg, u64_digits};

verus! {

/// The width of one chart bucket.
#[derive(Debug, Clone, Copy, PartialEq, Eq, Structural)]
pub enum Timeframe {
    Hour,
    Day,
}

pub open spec fn timeframe_of_char(c: char) -> Option<Timeframe> {
    if c == 'h' || c == 'H' {
        Some(Timeframe::Hour)
    } else if c == 'd' || c == 'D' {
        Some(Timeframe::Day)
    } else {
        None
    }
}

pub open spec fn timeframe_seconds(tf: Timeframe) -> int {
    match tf {
        Timeframe::Hour => 3600,
        Timeframe::Day => 86400,
    }
}

impl Timeframe {
    /// Parse a one-letter timeframe unit, case-insensitively.
    pub fn new(timeframe: &str) -> (r: Option<Self>)
        ensures
            r == (if timeframe@.len() == 1 {
                timeframe_of_char(timeframe@[0])
            } else {
                None::<Timeframe>
            }),
    {
        let n = timeframe.unicode_len();
        if n != 1 {
            return None;
        }
        let c = timeframe.get_char(0);
        if c == 'h' || c == 'H' {
            Some(Timeframe::Hour)
        } else if c == 'd' || c == 'D' {
            Some(Timeframe::Day)
        } else {
            None
        }
    }

    /// The one-letter name of the unit.
    pub fn to_string(timeframe: Self) -> (r: String)
        ensures
            timeframe is Hour ==> r@ == "h"@,
            timeframe is Day ==> r@ == "d"@,
    {
        match timeframe {
            Timeframe::Hour => "h".to_owned(),
            Timeframe::Day => "d".to_owned(),
        }
    }

    /// The bucket width in seconds.
    pub fn to_seconds(timeframe: Self) -> (r: i64)
        ensures
            r == timeframe_seconds(timeframe),
    {
        match timeframe {
            Timeframe::Hour => 3600,
            Timeframe::Day => 86400,
        }
    }
}

/// Parse a request string such as `"30d"` or `"24h"`: a decimal range
/// followed by a one-letter unit. The range must fit the `u8` the chart
/// pipeline accepts.
pub fn parse_timeframe_request(timeframe: &str) -> (r: Result<(Timeframe, u8), Error>)
    ensures
        ({
            let s = timeframe@;
            if s.len() >= 1 && timeframe_of_char(s[s.len() - 1]) is Some && u64_digits(
                s.take(s.len() - 1),
            ) && digits_val(s.take(s.len() - 1)) <= u8::MAX {
                r == Ok::<(Timeframe, u8), Error>(
                    (
                        timeframe_of_char(s[s.len() - 1])->0,
                        digits_val(s.take(s.len() - 1)) as u8,
                    ),
                )
            } else {
                r == Err::<(Timeframe, u8), Error>(Error::InvalidTimeframe)
            }
        }),
{
    let n = timeframe.unicode_len();
    if n == 0 {
        return Err(Error::InvalidTimeframe);
    }
    let unit = timeframe.substring_char(n - 1, n);
    let tf = match Timeframe::new(unit) {
        Some(tf) => tf,
        None => {
            return Err(Error::InvalidTimeframe);
        }
    };
    let digits = timeframe.substring_char(0, n - 1);
    proof {
        assert(digits@ =~= timeframe@.take(n - 1));
    }
    let value = match crate::utils::parse_u64(digits) {
        Some(v) => v,
        None => {
            return Err(Error::InvalidTimeframe);
        }
    };
    if value > u8::MAX as u64 {
        return Err(Error::InvalidTimeframe);
    }
    proof {
        lemma_digits_val_nonneg(digits@);
    }
    Ok((tf, value as u8))
}

// ---------------------------------------------------------------------------
// Chart data
// ---------------------------------------------------------------------------

/// A cumulative snapshot of every held mint at one moment.
pub struct ChartData {
    pub timestamp: i64,
    pub balances: MintMap<FormattedAmount>,
}

/// A snapshot with a USD price per mint and the bucket's USD total, in
/// millionths of a USD.
pub struct ChartDataWithPrice {
    pub timestamp: i64,
    pub balances: MintMap<FormattedAmountWithPrice>,
    pub usd_value: u128,
}

/// A snapshot reduced to its USD total.
pub struct MinimalChartData {
    pub timestamp: i64,
    pub usd_value: u128,
}

/// Query parameters of one historical price-range lookup.
pub struct GetCoinMarketChartParams {
    pub id: String,
    pub vs_currency: String,
    pub from: i64,
    pub to: i64,
}

// ---------------------------------------------------------------------------
// Balance-state building
// ---------------------------------------------------------------------------

/// How one transaction's changes rewrite the running balance map: a mint
/// whose post-amount is zero is dropped, any other changed mint holds its
/// post-amount, and untouched mints carry over.
pub open spec fn tx_applied(
    prev: Map<Seq<char>, FormattedAmount>,
    changes: Map<Seq<char>, crate::transactions::BalanceChange>,
    cur: Map<Seq<char>, FormattedAmount>,
) -> bool {
    forall|k: Seq<char>|
        {
            if changes.contains_key(k) {
                if changes[k].post.amount == 0 {
                    !(#[trigger] cur.contains_key(k))
                } else {
                    cur.contains_key(k) && cur[k] == changes[k].post
                }
            } else {
                cur.contains_key(k) == prev.contains_key(k) && (prev.contains_key(k)
                    ==> cur[k] == prev[k])
            }
        }
}

/// The previous snapshot's map: empty before the first transaction.
pub open spec fn prev_balances(r: Seq<ChartData>, i: int) -> Map<Seq<char>, FormattedAmount> {
    if i == 0 {
        Map::empty()
    } else {
        r[i - 1].balances@
    }
}

/// What get_balance_states promises of its output.
pub open spec fn build_post(txs: Seq<ParsedTransaction>, r: Seq<ChartData>) -> bool {
    &&& r.len() == txs.len()
    &&& forall|i: int| 0 <= i < r.len() ==> (#[trigger] r[i]).timestamp == txs[i].block_time
    &&& forall|i: int| 0 <= i < r.len() ==> (#[trigger] r[i]).balances.wf()
    &&& forall|i: int|
        0 <= i < r.len() ==> tx_applied(
            prev_balances(r, i),
            txs[i].balances@,
            (#[trigger] r[i]).balances@,
        )
}

/// The running balance map after folding in a prefix of one transaction's
/// change entries, in entry order.
pub open spec fn apply_entries(
    prev: Map<Seq<char>, FormattedAmount>,
    entries: Seq<(Seq<char>, crate::transactions::BalanceChange)>,
) -> Map<Seq<char>, FormattedAmount>
    decreases entries.len(),
{
    if entries.len() == 0 {
        prev
    } else {
        let m = apply_entries(prev, entries.drop_last());
        let kv = entries.last();
        if kv.1.post.amount == 0 {
            m.remove(kv.0)
        } else {
            m.insert(kv.0, kv.1.post)
        }
    }
}

/// Folding a transaction's entries, each key of which occurs once, applies
/// the transaction: zeroed mints leave, changed mints hold their
/// post-amount, untouched mints carry over.
proof fn lemma_apply_entries_applies(
    prev: Map<Seq<char>, FormattedAmount>,
    entries: Seq<(Seq<char>, crate::transactions::BalanceChange)>,
)
    requires
        forall|i: int, j: int| 0 <= i < j < entries.len() ==> entries[i].0 != entries[j].0,
    ensures
        tx_applied(prev, crate::mint_map::map_of_kv(entries), apply_entries(prev, entries)),
    decreases entries.len(),
{
    let changes = crate::mint_map::map_of_kv(entries);
    let cur = apply_entries(prev, entries);
    if entries.len() == 0 {
        assert forall|k: Seq<char>| !(#[trigger] changes.contains_key(k)) by {}
    } else {
        let init = entries.drop_last();
        let k0 = entries.last().0;
        let c0 = entries.last().1;
        lemma_apply_entries_applies(prev, init);
        let chinit = crate::mint_map::map_of_kv(init);
        let m = apply_entries(prev, init);
        assert(tx_applied(prev, chinit, m));
        assert forall|k: Seq<char>|
            {
                if changes.contains_key(k) {
                    if changes[k].post.amount == 0 {
                        !(#[trigger] cur.contains_key(k))
                    } else {
                        cur.contains_key(k) && cur[k] == changes[k].post
                    }
                } else {
                    cur.contains_key(k) == prev.contains_key(k) && (prev.contains_key(k)
                        ==> cur[k] == prev[k])
                }
            } by {
            if k == k0 {
                assert(forall|i: int| 0 <= i < init.len() ==> (#[trigger] init[i]).0 != k0);
                lemma_map_of_kv_absent_key(init, k0);
            } else {
                let x = m.contains_key(k);
                let y = chinit.contains_key(k);
            }
        }
    }
}

/// A key that no entry carries is not in the entries' map.
proof fn lemma_map_of_kv_absent_key(
    entries: Seq<(Seq<char>, crate::transactions::BalanceChange)>,
    k: Seq<char>,
)
    requires
        forall|i: int| 0 <= i < entries.len() ==> (#[trigger] entries[i]).0 != k,
    ensures
        !crate::mint_map::map_of_kv(entries).contains_key(k),
    decreases entries.len(),
{
    if entries.len() > 0 {
        assert(entries.last() == entries[entries.len() - 1]);
        lemma_map_of_kv_absent_key(entries.drop_last(), k);
    }
}

/// Fold an ordered transaction history into one cumulative snapshot per
/// transaction. A mint whose post-balance reaches zero leaves the map; it
/// returns only when a later transaction reintroduces it.
#[verifier::loop_isolation(false)]
pub fn get_balance_states(txs: &Vec<ParsedTransaction>) -> (r: Vec<ChartData>)
    requires
        forall|i: int| 0 <= i < txs@.len() ==> (#[trigger] txs@[i]).balances.wf(),
    ensures
        build_post(txs@, r@),
{
    let mut states: Vec<ChartData> = Vec::new();
    let n = txs.len();
    let mut i: usize = 0;
    while i < n
        invariant
            i <= n == txs@.len(),
            states@.len() == i,
            build_post(txs@.take(i as int), states@),
        decreases n - i,
    {
        let tx = &txs[i];
        let mut cur: MintMap<FormattedAmount> = if i > 0 {
            states[i - 1].balances.duplicate()
        } else {
            MintMap::new()
        };
        let ghost prev = cur@;
        let changes = &tx.balances;
        let m = changes.len();
        let mut e: usize = 0;
        while e < m
            invariant
                e <= m == changes.seq_view().len(),
                cur.wf(),
                cur@ == apply_entries(prev, changes.seq_view().take(e as int)),
            decreases m - e,
        {
            let (mint, change) = changes.entry_at(e);
            if change.post.amount == 0 {
                cur.remove(mint);
            } else {
                cur.set(mint, change.post);
            }
            proof {
                assert(changes.seq_view().take(e + 1).drop_last() =~= changes.seq_view().take(
                    e as int,
                ));
                assert(changes.seq_view().take(e + 1).last() == changes.seq_view()[e as int]);
            }
            e += 1;
        }
        proof {
            assert(changes.seq_view().take(m as int) =~= changes.seq_view());
            lemma_apply_entries_applies(prev, changes.seq_view());
            crate::mint_map::lemma_view_is_map_of_kv(changes);
            assert(tx_applied(prev, changes@, cur@));
        }
        states.push(ChartData { timestamp: tx.block_time, balances: cur });
        proof {
            assert(txs@.take(i + 1).drop_last() =~= txs@.take(i as int));
            assert(build_post(txs@.take(i + 1), states@));
        }
        i += 1;
    }
    proof {
        assert(txs@.take(n as int) =~= txs@);
    }
    states
}

/// Zero-balance pruning: once a transaction zeroes out a mint, the mint is
/// absent from that snapshot and every later one, until some later
/// transaction mentions the mint again.
pub proof fn lemma_zero_balance_pruned(
    txs: Seq<ParsedTransaction>,
    r: Seq<ChartData>,
    i: int,
    j: int,
    k: Seq<char>,
)
    requires
        build_post(txs, r),
        0 <= i <= j < r.len(),
        txs[i].balances@.contains_key(k),
        txs[i].balances@[k].post.amount == 0,
        forall|l: int| i < l <= j ==> !(#[trigger] txs[l].balances@.contains_key(k)),
    ensures
        !r[j].balances@.contains_key(k),
    decreases j - i,
{
    if j == i {
        assert(tx_applied(prev_balances(r, i), txs[i].balances@, r[i].balances@));
    } else {
        lemma_zero_balance_pruned(txs, r, i, j - 1, k);
        assert(tx_applied(prev_balances(r, j), txs[j].balances@, r[j].balances@));
    }
}

// ---------------------------------------------------------------------------
// Time bucketing
// ---------------------------------------------------------------------------

/// Snapshots are well-formed and in chronological order.
pub open spec fn states_wf(states: Seq<ChartData>) -> bool {
    &&& forall|i: int| 0 <= i < states.len() ==> (#[trigger] states[i]).balances.wf()
    &&& forall|i: int, j: int|
        0 <= i <= j < states.len() ==> states[i].timestamp <= states[j].timestamp
}

pub open spec fn ceil_div(a: int, b: int) -> int {
    (a + b - 1) / b
}

/// How many grid buckets the chart gets: the requested range, clamped so
/// that no bucket predates the wallet's first transaction.
pub open spec fn adjusted_range(states: Seq<ChartData>, t_s: int, range: int, now: int) -> int {
    let age = ceil_div(now - states[0].timestamp, t_s);
    if range <= age + 1 {
        range
    } else {
        age + 1
    }
}

/// The last grid point at or before `now`.
pub open spec fn final_bucket_time(t_s: int, now: int) -> int {
    (now / t_s) * t_s
}

/// The first emitted grid point.
pub open spec fn initial_bucket_time(states: Seq<ChartData>, t_s: int, range: int, now: int) -> int {
    final_bucket_time(t_s, now) - adjusted_range(states, t_s, range, now) * t_s
}

/// The index of the snapshot a bucket at time `t` shows: the last snapshot
/// strictly before `t`, or the first snapshot when none precedes `t`.
pub open spec fn bucket_src(states: Seq<ChartData>, t: int) -> int
    decreases states.len(),
{
    if states.len() == 0 {
        0
    } else if states.last().timestamp < t {
        states.len() - 1
    } else if states.len() == 1 {
        0
    } else {
        bucket_src(states.drop_last(), t)
    }
}

/// Everything filter_balance_states promises of its output.
pub open spec fn resample_post(
    states: Seq<ChartData>,
    tf: Timeframe,
    range: int,
    now: int,
    r: Seq<ChartData>,
) -> bool {
    let t_s = timeframe_seconds(tf);
    let ar = adjusted_range(states, t_s, range, now);
    let t0 = initial_bucket_time(states, t_s, range, now);
    if states.len() == 0 {
        r.len() == 0
    } else {
        &&& r.len() == ar + 1
        &&& forall|i: int| 0 <= i < ar ==> (#[trigger] r[i]).timestamp == t0 + i * t_s
        &&& r[ar].timestamp == now
        &&& forall|i: int|
            0 <= i < ar ==> (#[trigger] r[i]).balances.seq_view() == states[bucket_src(
                states,
                t0 + i * t_s,
            )].balances.seq_view()
        &&& r[ar].balances.seq_view() == (if ar > 0 {
            r[ar - 1].balances.seq_view()
        } else {
            states[states.len() - 1].balances.seq_view()
        })
        &&& forall|i: int|
            0 <= i < ar ==> (#[trigger] r[i]).balances@ == states[bucket_src(
                states,
                t0 + i * t_s,
            )].balances@
        &&& r[ar].balances@ == (if ar > 0 {
            r[ar - 1].balances@
        } else {
            states[states.len() - 1].balances@
        })
        &&& forall|i: int| 0 <= i <= ar ==> (#[trigger] r[i]).balances.wf()
    }
}

/// With snapshots sorted by time, a forward cursor that stopped at the
/// first snapshot not before `t` identifies the bucket's source snapshot.
proof fn lemma_bucket_src_at_cursor(states: Seq<ChartData>, t: int, c: int)
    requires
        states.len() > 0,
        forall|i: int, j: int|
            0 <= i <= j < states.len() ==> states[i].timestamp <= states[j].timestamp,
        0 <= c <= states.len(),
        forall|j: int| 0 <= j < c ==> states[j].timestamp < t,
        c < states.len() ==> states[c].timestamp >= t,
    ensures
        bucket_src(states, t) == (if c > 0 {
            c - 1
        } else {
            0
        }),
    decreases states.len(),
{
    if c == states.len() {
        if states.last().timestamp < t {
        } else {
            assert(false);
        }
    } else {
        if states.last().timestamp < t {
            assert(states[c].timestamp <= states.last().timestamp);
            assert(false);
        } else if states.len() == 1 {
        } else {
            lemma_bucket_src_at_cursor(states.drop_last(), t, if c < states.len() - 1 {
                c
            } else {
                states.len() - 1
            });
        }
    }
}

/// Resample the snapshot history onto a fixed grid of `range` buckets of
/// the chosen width ending at `now`, each bucket carrying the balances in
/// force at its boundary, plus one trailing bucket at `now` itself.
///
/// Clocks near the end of the representable range are excluded so the
/// bucket arithmetic cannot overflow.
#[verifier::loop_isolation(false)]
pub fn filter_balance_states(
    states: &Vec<ChartData>,
    timeframe: Timeframe,
    range: u8,
    now: i64,
) -> (r: Vec<ChartData>)
    requires
        states_wf(states@),
        states@.len() > 0 ==> 0 <= states@[0].timestamp <= now,
        now <= i64::MAX - 100_000_000,
    ensures
        resample_post(states@, timeframe, range as int, now as int, r@),
{
    let mut out: Vec<ChartData> = Vec::new();
    if states.len() == 0 {
        return out;
    }
    let t_s = Timeframe::to_seconds(timeframe);
    let oldest = states[0].timestamp;
    let diff = now - oldest;
    let age = (diff + (t_s - 1)) / t_s;
    let adjusted: i64 = if (range as i64) <= age + 1 {
        range as i64
    } else {
        age + 1
    };
    let q = now / t_s;
    proof {
        assert(0 <= q * t_s <= now) by (nonlinear_arith)
            requires
                t_s > 0,
                now >= 0,
                q == now / t_s,
        ;
    }
    let final_t = q * t_s;
    let initial_t = final_t - adjusted * t_s;
    proof {
        assert(adjusted == adjusted_range(states@, t_s as int, range as int, now as int));
        assert(initial_t == initial_bucket_time(states@, t_s as int, range as int, now as int));
    }
    let n = states.len();
    let mut cursor: usize = 0;
    let mut i: i64 = 0;
    while i < adjusted
        invariant
            0 <= i <= adjusted,
            out@.len() == i,
            cursor <= n,
            forall|j: int| 0 <= j < cursor ==> states@[j].timestamp < initial_t + i * t_s,
            forall|l: int|
                0 <= l < i ==> (#[trigger] out@[l]).timestamp == initial_t + l * t_s,
            forall|l: int|
                0 <= l < i ==> (#[trigger] out@[l]).balances.seq_view() == states@[bucket_src(
                    states@,
                    initial_t + l * t_s,
                )].balances.seq_view(),
            forall|l: int|
                0 <= l < i ==> (#[trigger] out@[l]).balances@ == states@[bucket_src(
                    states@,
                    initial_t + l * t_s,
                )].balances@,
            forall|l: int| 0 <= l < i ==> (#[trigger] out@[l]).balances.wf(),
        decreases adjusted - i,
    {
        let t = initial_t + i * t_s;
        while cursor < n && states[cursor].timestamp < t
            invariant
                cursor <= n,
                forall|j: int| 0 <= j < cursor ==> states@[j].timestamp < t,
            decreases n - cursor,
        {
            cursor += 1;
        }
        proof {
            lemma_bucket_src_at_cursor(states@, t as int, cursor as int);
        }
        let src = if cursor > 0 {
            cursor - 1
        } else {
            0
        };
        out.push(ChartData { timestamp: t, balances: states[src].balances.duplicate() });
        proof {
            assert forall|j: int| 0 <= j < cursor implies states@[j].timestamp < initial_t + (i + 1)
                * t_s by {
                assert(initial_t + i * t_s < initial_t + (i + 1) * t_s);
            }
        }
        i += 1;
    }
    // One trailing bucket at `now` itself, carrying the last emitted
    // balances, or the newest snapshot for a zero-width grid.
    if adjusted > 0 {
        let carried = out[out.len() - 1].balances.duplicate();
        out.push(ChartData { timestamp: now, balances: carried });
    } else {
        out.push(ChartData { timestamp: now, balances: states[n - 1].balances.duplicate() });
    }
    out
}

/// Resampling is deterministic: two bucket sequences drawn from the same
/// history with the same timeframe, range and clock agree bucket for
/// bucket, in timestamps, balance maps and entry order.
pub proof fn lemma_resample_deterministic(
    states: Seq<ChartData>,
    tf: Timeframe,
    range: int,
    now: int,
    r1: Seq<ChartData>,
    r2: Seq<ChartData>,
)
    requires
        resample_post(states, tf, range, now, r1),
        resample_post(states, tf, range, now, r2),
    ensures
        r1.len() == r2.len(),
        forall|i: int| 0 <= i < r1.len() ==> (#[trigger] r1[i]).timestamp == r2[i].timestamp,
        forall|i: int| 0 <= i < r1.len() ==> (#[trigger] r1[i]).balances@ == r2[i].balances@,
        forall|i: int|
            0 <= i < r1.len() ==> (#[trigger] r1[i]).balances.seq_view()
                == r2[i].balances.seq_view(),
{
}

/// The emitted bucket timestamps never decrease, and there is one bucket
/// per grid point plus the trailing "now" bucket.
pub proof fn lemma_resample_monotonic(
    states: Seq<ChartData>,
    tf: Timeframe,
    range: int,
    now: int,
    r: Seq<ChartData>,
)
    requires
        states.len() > 0,
        0 <= states[0].timestamp <= now,
        0 <= range,
        resample_post(states, tf, range, now, r),
    ensures
        r.len() == adjusted_range(states, timeframe_seconds(tf), range, now) + 1,
        forall|i: int, j: int| 0 <= i <= j < r.len() ==> r[i].timestamp <= r[j].timestamp,
{
    let t_s = timeframe_seconds(tf);
    let ar = adjusted_range(states, t_s, range, now);
    let t0 = initial_bucket_time(states, t_s, range, now);
    assert(t_s > 0);
    assert forall|i: int, j: int| 0 <= i <= j < r.len() implies r[i].timestamp <= r[j].timestamp by {
        if j < ar {
            assert(r[i].timestamp == t0 + i * t_s);
            assert(r[j].timestamp == t0 + j * t_s);
            assert(i * t_s <= j * t_s) by (nonlinear_arith)
                requires i <= j && t_s > 0;
        } else {
            assert(j == ar);
            assert(r[j].timestamp == now);
            if i < ar {
                assert(r[i].timestamp == t0 + i * t_s);
                assert(final_bucket_time(t_s, now) <= now) by {
                    assert((now / t_s) * t_s <= now) by (nonlinear_arith)
                        requires t_s > 0 && now >= 0;
                }
                assert(i * t_s <= (ar - 1) * t_s) by (nonlinear_arith)
                    requires i <= ar - 1 && t_s > 0;
                assert((ar - 1) * t_s == ar * t_s - t_s) by (nonlinear_arith);
            }
        }
    }
}

} // verus!
