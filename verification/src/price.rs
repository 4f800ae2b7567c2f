use vstd::prelude::*;
use crate::chart::{ChartData, ChartDataWithPrice};
use crate::mint_map::MintMap;
use crate::types::{FormattedAmount, FormattedAmountWithPrice};

verus! {

/// The USDC mint: the unit every price is quoted in.
pub open spec fn usdc_mint() -> Seq<char> {
    "EPjFWdd5AufqSSqeM2qN1xzybapC8G4wEGGkZwyTDt1v"@
}

/// The USDC mint address as an owned string.
pub fn usdc_address() -> (r: String)
    ensures
        r@ == usdc_mint(),
{
    "EPjFWdd5AufqSSqeM2qN1xzybapC8G4wEGGkZwyTDt1v".to_owned()
}

/// One point of a historical price series: a unix timestamp and a price in
/// millionths of a USD per whole token.
#[derive(Debug, Clone, Copy, PartialEq, Eq, Structural)]
pub struct PricePoint {
    pub timestamp: u64,
    pub price: u64,
}

// ---------------------------------------------------------------------------
// Planning the historical queries
// ---------------------------------------------------------------------------

/// The time range the historical feed is asked for, or nothing when a
/// single instant is charted: a zero-width range needs no history, the live
/// quote prices it alone.
pub fn historical_range(states: &Vec<ChartData>) -> (r: Option<(i64, i64)>)
    ensures
        states@.len() == 0 ==> r is None,
        states@.len() > 0 ==> ({
            let from = states@[0].timestamp;
            let to = states@[states@.len() - 1].timestamp;
            if from == to {
                r is None
            } else {
                r == Some::<(i64, i64)>((from, to))
            }
        }),
{
    if states.len() == 0 {
        return None;
    }
    let from = states[0].timestamp;
    let to = states[states.len() - 1].timestamp;
    if from == to {
        None
    } else {
        Some((from, to))
    }
}

/// The spacing of the points the historical feed returns over `[from, to]`:
/// daily beyond a 90-day span, hourly otherwise.
pub fn time_step_for(from: i64, to: i64) -> (r: i64)
    requires
        0 <= from <= to,
    ensures
        r == spec_time_step(from as int, to as int),
{
    if (to - from) / 86400 > 90 {
        86400
    } else {
        3600
    }
}

pub open spec fn spec_time_step(from: int, to: int) -> int {
    if (to - from) / 86400 > 90 {
        86400
    } else {
        3600
    }
}

/// A mint is among the listed ones.
pub open spec fn mint_listed(r: Seq<String>, k: Seq<char>) -> bool {
    exists|l: int| 0 <= l < r.len() && (#[trigger] r[l])@ == k
}

/// Some bucket holds the mint.
pub open spec fn mint_in_states(states: Seq<ChartData>, k: Seq<char>) -> bool {
    exists|i: int| 0 <= i < states.len() && (#[trigger] states[i]).balances@.contains_key(k)
}

/// Every mint that appears in any bucket, once each: these are the mints
/// whose historical series the aligner needs.
#[verifier::loop_isolation(false)]
pub fn unique_mints(states: &Vec<ChartData>) -> (r: Vec<String>)
    requires
        forall|i: int| 0 <= i < states@.len() ==> (#[trigger] states@[i]).balances.wf(),
    ensures
        forall|p: int, q: int| 0 <= p < q < r@.len() ==> r@[p]@ != r@[q]@,
        forall|i: int, k: Seq<char>|
            0 <= i < states@.len() && (#[trigger] states@[i].balances@.contains_key(k))
                ==> mint_listed(r@, k),
        forall|l: int| 0 <= l < r@.len() ==> mint_in_states(states@, (#[trigger] r@[l])@),
{
    let mut out: Vec<String> = Vec::new();
    let n = states.len();
    let mut i: usize = 0;
    while i < n
        invariant
            i <= n,
            forall|p: int, q: int| 0 <= p < q < out@.len() ==> out@[p]@ != out@[q]@,
            forall|ii: int, k: Seq<char>|
                0 <= ii < i && (#[trigger] states@[ii].balances@.contains_key(k)) ==> mint_listed(
                    out@,
                    k,
                ),
            forall|l: int| 0 <= l < out@.len() ==> mint_in_states(states@, (#[trigger] out@[l])@),
        decreases n - i,
    {
        let bal = &states[i].balances;
        let m = bal.len();
        let mut e: usize = 0;
        while e < m
            invariant
                e <= m == bal.seq_view().len(),
                bal == &states@[i as int].balances,
                i < n,
                forall|p: int, q: int| 0 <= p < q < out@.len() ==> out@[p]@ != out@[q]@,
                forall|ii: int, k: Seq<char>|
                    0 <= ii < i && (#[trigger] states@[ii].balances@.contains_key(k))
                        ==> mint_listed(out@, k),
                forall|ee: int|
                    0 <= ee < e ==> mint_listed(out@, (#[trigger] bal.seq_view()[ee]).0),
                forall|l: int|
                    0 <= l < out@.len() ==> mint_in_states(states@, (#[trigger] out@[l])@),
            decreases m - e,
        {
            let (mint, _v) = bal.entry_at(e);
            let mut seen = false;
            let no = out.len();
            let mut l: usize = 0;
            while l < no
                invariant
                    l <= no == out@.len(),
                    !seen ==> forall|p: int| 0 <= p < l ==> (#[trigger] out@[p])@ != mint@,
                    seen ==> mint_listed(out@, mint@),
                decreases no - l, if seen { 0int } else { 1int },
            {
                if out[l] == *mint {
                    seen = true;
                    break;
                }
                l += 1;
            }
            if !seen {
                let ghost pre = out@;
                out.push(mint.clone());
                proof {
                    bal.lemma_entry_key(e as int);
                    assert(out@[out@.len() - 1]@ == mint@);
                    assert(states@[i as int].balances@.contains_key(mint@));
                    assert(mint_in_states(states@, mint@));
                    assert forall|l: int| 0 <= l < out@.len() implies mint_in_states(
                        states@,
                        (#[trigger] out@[l])@,
                    ) by {
                        if l < pre.len() {
                            assert(pre[l]@ == out@[l]@);
                        } else {
                            assert(out@[l]@ == mint@);
                        }
                    }
                    assert forall|ee: int| 0 <= ee < e + 1 implies mint_listed(
                        out@,
                        (#[trigger] bal.seq_view()[ee]).0,
                    ) by {
                        if ee < e {
                            assert(mint_listed(pre, bal.seq_view()[ee].0));
                            let w = choose|w: int|
                                0 <= w < pre.len() && (#[trigger] pre[w])@ == bal.seq_view()[ee].0;
                            assert(out@[w]@ == bal.seq_view()[ee].0);
                        } else {
                            assert(out@[out@.len() - 1]@ == bal.seq_view()[ee].0);
                        }
                    }
                    assert forall|ii: int, k: Seq<char>|
                        0 <= ii < i && (#[trigger] states@[ii].balances@.contains_key(k)) implies
                        mint_listed(out@, k) by {
                        assert(mint_listed(pre, k));
                        let w = choose|w: int| 0 <= w < pre.len() && (#[trigger] pre[w])@ == k;
                        assert(out@[w]@ == k);
                    }
                }
            } else {
                proof {
                    bal.lemma_entry_key(e as int);
                }
            }
            e += 1;
        }
        proof {
            assert forall|k: Seq<char>| #[trigger]
                states@[i as int].balances@.contains_key(k) implies mint_listed(out@, k) by {
                bal.lemma_key_has_entry(k);
                let ee = choose|ee: int|
                    0 <= ee < bal.seq_view().len() && (#[trigger] bal.seq_view()[ee]).0 == k;
                assert(mint_listed(out@, bal.seq_view()[ee].0));
            }
        }
        i += 1;
    }
    out
}

// ---------------------------------------------------------------------------
// USD totals
// ---------------------------------------------------------------------------

/// Powers of ten.
pub open spec fn pow10(d: nat) -> int
    decreases d,
{
    if d == 0 {
        1
    } else {
        10 * pow10((d - 1) as nat)
    }
}

/// The USD contribution of one balance at one price, in millionths of a
/// USD: `raw * price / 10^decimals`, rounded down.
pub open spec fn contribution_spec(amount: FormattedAmount, price: u64) -> int {
    (amount.amount * price) / pow10(amount.decimals as nat)
}

/// Saturating `u128` addition: bucket totals cap at the largest
/// representable value rather than wrapping.
pub open spec fn sat_add_u128(a: int, b: int) -> int {
    if a + b > u128::MAX {
        u128::MAX as int
    } else {
        a + b
    }
}

/// The USD total of a bucket's entries, summed in entry order with
/// saturating addition.
pub open spec fn usd_total(entries: Seq<(Seq<char>, FormattedAmountWithPrice)>) -> int
    decreases entries.len(),
{
    if entries.len() == 0 {
        0
    } else {
        sat_add_u128(
            usd_total(entries.drop_last()),
            contribution_spec(entries.last().1.amount, entries.last().1.price),
        )
    }
}

proof fn lemma_pow10_positive(d: nat)
    ensures
        pow10(d) >= 1,
    decreases d,
{
    if d > 0 {
        lemma_pow10_positive((d - 1) as nat);
    }
}

proof fn lemma_pow10_ge_39_large(d: nat)
    requires
        d >= 39,
    ensures
        pow10(d) > u128::MAX,
    decreases d,
{
    if d == 39 {
        lemma_pow10_value_39();
    } else {
        lemma_pow10_ge_39_large((d - 1) as nat);
        lemma_pow10_positive((d - 1) as nat);
    }
}

proof fn lemma_pow10_monotone(a: nat, b: nat)
    requires
        a <= b,
    ensures
        pow10(a) <= pow10(b),
    decreases b,
{
    if a < b {
        lemma_pow10_monotone(a, (b - 1) as nat);
        lemma_pow10_positive((b - 1) as nat);
    }
}

proof fn lemma_pow10_value_39()
    ensures
        pow10(39) > u128::MAX,
        pow10(38) <= u128::MAX,
{
    reveal_with_fuel(pow10, 40);
}

/// The USD contribution of one balance at one price.
fn contribution(amount: FormattedAmount, price: u64) -> (r: u128)
    ensures
        r == contribution_spec(amount, price),
{
    proof {
        assert((amount.amount as int) * (price as int) <= u128::MAX) by (nonlinear_arith)
            requires
                amount.amount <= u64::MAX,
                price <= u64::MAX,
        ;
    }
    let product = (amount.amount as u128) * (price as u128);
    if amount.decimals > 38 {
        proof {
            lemma_pow10_ge_39_large(amount.decimals as nat);
            vstd::arithmetic::div_mod::lemma_basic_div(product as int, pow10(
                amount.decimals as nat,
            ));
        }
        return 0;
    }
    let mut divisor: u128 = 1;
    let mut d: u8 = 0;
    while d < amount.decimals
        invariant
            d <= amount.decimals <= 38,
            divisor == pow10(d as nat),
        decreases amount.decimals - d,
    {
        proof {
            lemma_pow10_monotone(d as nat + 1, 38);
            lemma_pow10_value_39();
        }
        divisor = divisor * 10;
        d += 1;
    }
    proof {
        lemma_pow10_positive(amount.decimals as nat);
    }
    product / divisor
}

/// The USD value of one position leg, in millionths of a USD:
/// `amount * price / 10^decimals`, the product saturating at the largest
/// representable value.
pub open spec fn leg_usd_spec(amount: u128, price: u64, decimals: u8) -> int {
    let m = if amount * price > u128::MAX {
        u128::MAX as int
    } else {
        amount * price
    };
    m / pow10(decimals as nat)
}

/// The USD value of one position leg.
pub fn leg_usd(amount: u128, price: u64, decimals: u8) -> (r: u128)
    ensures
        r == leg_usd_spec(amount, price, decimals),
{
    let m: u128 = match amount.checked_mul(price as u128) {
        Some(p) => p,
        None => u128::MAX,
    };
    if decimals > 38 {
        proof {
            lemma_pow10_ge_39_large(decimals as nat);
            vstd::arithmetic::div_mod::lemma_basic_div(m as int, pow10(decimals as nat));
        }
        return 0;
    }
    let mut divisor: u128 = 1;
    let mut d: u8 = 0;
    while d < decimals
        invariant
            d <= decimals <= 38,
            divisor == pow10(d as nat),
        decreases decimals - d,
    {
        proof {
            lemma_pow10_monotone(d as nat + 1, 38);
            lemma_pow10_value_39();
        }
        divisor = divisor * 10;
        d += 1;
    }
    proof {
        lemma_pow10_positive(decimals as nat);
    }
    m / divisor
}

pub fn sat_add(a: u128, b: u128) -> (r: u128)
    ensures
        r == sat_add_u128(a as int, b as int),
{
    match a.checked_add(b) {
        Some(v) => v,
        None => u128::MAX,
    }
}

/// The USD total of a bucket depends only on its amounts and prices: two
/// buckets whose entries pair the same amount with the same price, position
/// for position, have the same total, whatever their mints.
pub proof fn lemma_usd_total_of_amounts_and_prices(
    s1: Seq<(Seq<char>, FormattedAmountWithPrice)>,
    s2: Seq<(Seq<char>, FormattedAmountWithPrice)>,
)
    requires
        s1.len() == s2.len(),
        forall|e: int| 0 <= e < s1.len() ==> (#[trigger] s1[e]).1 == s2[e].1,
    ensures
        usd_total(s1) == usd_total(s2),
    decreases s1.len(),
{
    if s1.len() > 0 {
        lemma_usd_total_of_amounts_and_prices(s1.drop_last(), s2.drop_last());
        assert(s1.last() == s1[s1.len() - 1]);
    }
}

// ---------------------------------------------------------------------------
// Historical price series
// ---------------------------------------------------------------------------

/// A table of historical price series, one per mint, keyed by the mint's
/// base58 string.
pub struct PriceTable {
    pub entries: Vec<(String, Vec<PricePoint>)>,
}

/// The `Map` abstraction of the table's entries.
pub open spec fn series_map_of(entries: Seq<(String, Vec<PricePoint>)>) -> Map<Seq<char>, Seq<PricePoint>>
    decreases entries.len(),
{
    if entries.len() == 0 {
        Map::empty()
    } else {
        series_map_of(entries.drop_last()).insert(entries.last().0@, entries.last().1@)
    }
}

impl PriceTable {
    pub open spec fn wf(&self) -> bool {
        forall|i: int, j: int|
            0 <= i < j < self.entries@.len() ==> self.entries@[i].0@ != self.entries@[j].0@
    }

    pub open spec fn view(&self) -> Map<Seq<char>, Seq<PricePoint>> {
        series_map_of(self.entries@)
    }

    pub fn new() -> (r: Self)
        ensures
            r.wf(),
            r@ == Map::<Seq<char>, Seq<PricePoint>>::empty(),
    {
        PriceTable { entries: Vec::new() }
    }

    /// Record the fetched series of one mint, replacing any earlier one.
    pub fn set(&mut self, mint: &String, points: Vec<PricePoint>)
        requires
            old(self).wf(),
        ensures
            final(self).wf(),
            final(self)@ == old(self)@.insert(mint@, points@),
    {
        let n = self.entries.len();
        let mut i: usize = 0;
        while i < n
            invariant
                i <= n,
                n == self.entries@.len(),
                self.wf(),
                self.entries@ == old(self).entries@,
                forall|j: int| 0 <= j < i ==> self.entries@[j].0@ != mint@,
            decreases n - i,
        {
            if self.entries[i].0 == *mint {
                let ghost pre = self.entries@;
                self.entries[i].1 = points;
                proof {
                    lemma_series_map_of_update(pre, i as int, self.entries@[i as int].1);
                    assert(self@ =~= old(self)@.insert(mint@, self.entries@[i as int].1@));
                }
                return;
            }
            i += 1;
        }
        self.entries.push((mint.clone(), points));
        proof {
            assert(self.entries@.drop_last() =~= old(self).entries@);
        }
    }

    /// The recorded series of one mint.
    pub fn get(&self, mint: &String) -> (r: Option<&Vec<PricePoint>>)
        requires
            self.wf(),
        ensures
            match r {
                Some(pts) => self@.contains_key(mint@) && self@[mint@] == pts@,
                None => !self@.contains_key(mint@),
            },
    {
        let n = self.entries.len();
        let mut i: usize = 0;
        while i < n
            invariant
                i <= n,
                n == self.entries@.len(),
                self.wf(),
                forall|j: int| 0 <= j < i ==> self.entries@[j].0@ != mint@,
            decreases n - i,
        {
            if self.entries[i].0 == *mint {
                proof {
                    lemma_series_map_of_at(self.entries@, i as int);
                }
                return Some(&self.entries[i].1);
            }
            i += 1;
        }
        proof {
            lemma_series_map_of_absent(self.entries@, mint@);
        }
        None
    }
}

proof fn lemma_series_map_of_at(entries: Seq<(String, Vec<PricePoint>)>, i: int)
    requires
        0 <= i < entries.len(),
        forall|p: int, q: int| 0 <= p < q < entries.len() ==> entries[p].0@ != entries[q].0@,
    ensures
        series_map_of(entries).contains_key(entries[i].0@),
        series_map_of(entries)[entries[i].0@] == entries[i].1@,
    decreases entries.len(),
{
    if i < entries.len() - 1 {
        lemma_series_map_of_at(entries.drop_last(), i);
        assert(entries.last().0@ != entries[i].0@);
    }
}

proof fn lemma_series_map_of_absent(entries: Seq<(String, Vec<PricePoint>)>, k: Seq<char>)
    requires
        forall|j: int| 0 <= j < entries.len() ==> entries[j].0@ != k,
    ensures
        !series_map_of(entries).contains_key(k),
    decreases entries.len(),
{
    if entries.len() > 0 {
        assert(entries.last() == entries[entries.len() - 1]);
        lemma_series_map_of_absent(entries.drop_last(), k);
    }
}

proof fn lemma_series_map_of_update(entries: Seq<(String, Vec<PricePoint>)>, i: int, v: Vec<PricePoint>)
    requires
        0 <= i < entries.len(),
        forall|p: int, q: int| 0 <= p < q < entries.len() ==> entries[p].0@ != entries[q].0@,
    ensures
        series_map_of(entries.update(i, (entries[i].0, v))) == series_map_of(entries).insert(
            entries[i].0@,
            v@,
        ),
    decreases entries.len(),
{
    let updated = entries.update(i, (entries[i].0, v));
    if i == entries.len() - 1 {
        assert(updated.drop_last() =~= entries.drop_last());
        assert(series_map_of(updated) =~= series_map_of(entries).insert(entries[i].0@, v@));
    } else {
        lemma_series_map_of_update(entries.drop_last(), i, v);
        assert(updated.drop_last() =~= entries.drop_last().update(i, (entries[i].0, v)));
        assert(updated.last() == entries.last());
        assert(series_map_of(updated) =~= series_map_of(entries).insert(entries[i].0@, v@));
    }
}

// ---------------------------------------------------------------------------
// Price alignment
// ---------------------------------------------------------------------------

/// The price attached to `mint` in a historical (non-final) bucket: the
/// point of the mint's series at the bucket's index into the queried range,
/// or zero when the series or the point is missing.
pub open spec fn hist_price_spec(
    series: Map<Seq<char>, Seq<PricePoint>>,
    mint: Seq<char>,
    idx: int,
) -> u64 {
    if series.contains_key(mint) && 0 <= idx < series[mint].len() {
        series[mint][idx].price
    } else {
        0
    }
}

/// The price attached to `mint` in the final bucket: the live quote, or
/// zero when the quote failed.
pub open spec fn live_price_spec(live: Map<Seq<char>, u64>, mint: Seq<char>) -> u64 {
    if live.contains_key(mint) {
        live[mint]
    } else {
        0
    }
}

/// What one priced bucket promises: same timestamp and mints as its source
/// bucket, entry for entry, each carrying its source amount and the given
/// price, and the USD total of the entries.
pub open spec fn priced_bucket_post(
    src: ChartData,
    dst: ChartDataWithPrice,
    price_of: spec_fn(Seq<char>) -> u64,
) -> bool {
    &&& dst.timestamp == src.timestamp
    &&& dst.balances.wf()
    &&& dst.balances.seq_view().len() == src.balances.seq_view().len()
    &&& forall|e: int|
        0 <= e < dst.balances.seq_view().len() ==> (#[trigger] dst.balances.seq_view()[e]).0
            == src.balances.seq_view()[e].0
    &&& forall|e: int|
        0 <= e < dst.balances.seq_view().len() ==> (#[trigger] dst.balances.seq_view()[e]).1.amount
            == src.balances.seq_view()[e].1
    &&& forall|e: int|
        0 <= e < dst.balances.seq_view().len() ==> (#[trigger] dst.balances.seq_view()[e]).1.price
            == price_of(src.balances.seq_view()[e].0)
    &&& dst.usd_value == usd_total(dst.balances.seq_view())
}

/// What the aligned series promises: one priced bucket per source bucket,
/// historical prices by range index everywhere but the final bucket, the
/// live quote there.
pub open spec fn aligned_post(
    states: Seq<ChartData>,
    series: Map<Seq<char>, Seq<PricePoint>>,
    live: Map<Seq<char>, u64>,
    from: int,
    time_step: int,
    r: Seq<ChartDataWithPrice>,
) -> bool {
    &&& r.len() == states.len()
    &&& forall|i: int|
        0 <= i < r.len() - 1 ==> priced_bucket_post(
            states[i],
            #[trigger] r[i],
            |k: Seq<char>| hist_price_spec(series, k, (states[i].timestamp - from) / time_step),
        )
    &&& r.len() > 0 ==> priced_bucket_post(
        states[r.len() - 1],
        r[r.len() - 1],
        |k: Seq<char>| live_price_spec(live, k),
    )
}

/// Attach a USD price to every mint of every bucket: past buckets from the
/// historical series at the bucket's index into `[from, ..]`, the final
/// bucket from the live quotes; a missing series, point or quote prices
/// that mint at zero. Each bucket's USD total is the sum of its entries'
/// contributions.
#[verifier::loop_isolation(false)]
pub fn get_price_states(
    states: &Vec<ChartData>,
    table: &PriceTable,
    live: &MintMap<u64>,
    from: i64,
    time_step: i64,
) -> (r: Vec<ChartDataWithPrice>)
    requires
        forall|i: int| 0 <= i < states@.len() ==> (#[trigger] states@[i]).balances.wf(),
        forall|i: int| 0 <= i < states@.len() ==> from <= (#[trigger] states@[i]).timestamp,
        table.wf(),
        live.wf(),
        time_step > 0,
        from >= 0,
    ensures
        aligned_post(states@, table@, live@, from as int, time_step as int, r@),
{
    let mut out: Vec<ChartDataWithPrice> = Vec::new();
    let n = states.len();
    let mut i: usize = 0;
    while i < n
        invariant
            i <= n == states@.len(),
            out@.len() == i,
            forall|l: int|
                0 <= l < i && l < n - 1 ==> priced_bucket_post(
                    states@[l],
                    #[trigger] out@[l],
                    |k: Seq<char>|
                        hist_price_spec(
                            table@,
                            k,
                            (states@[l].timestamp - from) / (time_step as int),
                        ),
                ),
            i == n ==> (n > 0 ==> priced_bucket_post(
                states@[n - 1],
                out@[n - 1],
                |k: Seq<char>| live_price_spec(live@, k),
            )),
        decreases n - i,
    {
        let src = &states[i];
        let is_last = i == n - 1;
        let ghost price_of: spec_fn(Seq<char>) -> u64 = if is_last {
            |k: Seq<char>| live_price_spec(live@, k)
        } else {
            |k: Seq<char>|
                hist_price_spec(table@, k, (states@[i as int].timestamp - from) / (time_step as int))
        };
        let mut bals: MintMap<FormattedAmountWithPrice> = MintMap::new();
        let mut total: u128 = 0;
        let m = src.balances.len();
        let mut e: usize = 0;
        while e < m
            invariant
                e <= m == src.balances.seq_view().len(),
                src == &states@[i as int],
                i < n,
                is_last == (i == n - 1),
                bals.wf(),
                bals.seq_view().len() == e,
                forall|l: int|
                    0 <= l < e ==> (#[trigger] bals.seq_view()[l]).0
                        == src.balances.seq_view()[l].0,
                forall|l: int|
                    0 <= l < e ==> (#[trigger] bals.seq_view()[l]).1.amount
                        == src.balances.seq_view()[l].1,
                forall|l: int|
                    0 <= l < e ==> (#[trigger] bals.seq_view()[l]).1.price == price_of(
                        src.balances.seq_view()[l].0,
                    ),
                total == usd_total(bals.seq_view()),
            decreases m - e,
        {
            let (mint, amount) = src.balances.entry_at(e);
            let price: u64 = if is_last {
                match live.get(mint) {
                    Some(p) => p,
                    None => 0,
                }
            } else {
                let idx_i64 = (src.timestamp - from) / time_step;
                match table.get(mint) {
                    Some(points) => {
                        if (idx_i64 as u64) < (points.len() as u64) {
                            points[idx_i64 as usize].price
                        } else {
                            0
                        }
                    }
                    None => 0,
                }
            };
            proof {
                assert(price == price_of(src.balances.seq_view()[e as int].0));
                if bals@.contains_key(mint@) {
                    bals.lemma_key_has_entry(mint@);
                    let l = choose|l: int|
                        0 <= l < bals.seq_view().len() && (#[trigger] bals.seq_view()[l]).0
                            == mint@;
                    assert(src.balances.seq_view()[l].0 == src.balances.seq_view()[e as int].0);
                    assert(false);
                }
            }
            let entry = FormattedAmountWithPrice { amount, price };
            let c = contribution(amount, price);
            let ghost pre_seq = bals.seq_view();
            bals.set(mint, entry);
            total = sat_add(total, c);
            proof {
                assert(bals.seq_view().drop_last() =~= pre_seq);
                assert(bals.seq_view().last() == (mint@, entry));
            }
            e += 1;
        }
        out.push(ChartDataWithPrice { timestamp: src.timestamp, balances: bals, usd_value: total });
        i += 1;
    }
    out
}

/// The exact power of ten used to size a one-whole-token quote.
pub fn quote_amount_in(decimals: u8) -> (r: u64)
    requires
        decimals <= 19,
    ensures
        r == pow10(decimals as nat),
{
    proof {
        lemma_pow10_fits_u64();
    }
    let mut r: u64 = 1;
    let mut d: u8 = 0;
    while d < decimals
        invariant
            d <= decimals <= 19,
            r == pow10(d as nat),
        decreases decimals - d,
    {
        proof {
            lemma_pow10_fits_u64();
            lemma_pow10_monotone(d as nat + 1, 19);
        }
        r = r * 10;
        d += 1;
    }
    r
}

proof fn lemma_pow10_fits_u64()
    ensures
        pow10(19) <= u64::MAX,
{
    reveal_with_fuel(pow10, 20);
}

/// The price of a mint in millionths of a USD per whole token: USDC is one
/// dollar by definition; any other mint takes whatever the swap quote for
/// one whole token returned, absent when the quote failed.
pub fn price_for_token(mint: &String, quote_out: Option<u64>) -> (r: Option<u64>)
    ensures
        mint@ == usdc_mint() ==> r == Some(1_000_000u64),
        mint@ != usdc_mint() ==> r == quote_out,
{
    let usdc = usdc_address();
    if *mint == usdc {
        Some(1_000_000)
    } else {
        quote_out
    }
}

} // verus!
