use vstd::prelude::*;
use crate::Error;
use crate::pubkeys::{base58_of, find_pda, parse_pubkey, pda_of, pubkey_bytes_of, pubkey_to_base58};

verus! {

/// The concentrated-liquidity program the positions live under.
pub open spec fn raydium_clmm_program() -> Seq<char> {
    "CAMMCzo5YL8w4VFF8KVHrK22GGUsp5VTaW7grrKgrWqK"@
}

fn raydium_clmm_program_id() -> (r: String)
    ensures
        r@ == raydium_clmm_program(),
{
    "CAMMCzo5YL8w4VFF8KVHrK22GGUsp5VTaW7grrKgrWqK".to_owned()
}

/// The seed tag of a position account: the bytes of `position`.
pub open spec fn position_seed_spec() -> Seq<u8> {
    seq![0x70u8, 0x6fu8, 0x73u8, 0x69u8, 0x74u8, 0x69u8, 0x6fu8, 0x6eu8]
}

fn position_seed() -> (r: Vec<u8>)
    ensures
        r@ == position_seed_spec(),
{
    let v: Vec<u8> = vec![0x70, 0x6f, 0x73, 0x69, 0x74, 0x69, 0x6f, 0x6e];
    proof {
        assert(v@ =~= position_seed_spec());
    }
    v
}

/// Derive the position account address for a position NFT mint.
///
/// A mint that does not parse as an address is rejected with
/// `InvalidAddress`; a derivation with no viable bump with `ParseError`.
pub fn get_position_address(nft_mint: &str) -> (r: Result<String, Error>)
    ensures
        pubkey_bytes_of(nft_mint@) is None ==> r == Err::<String, Error>(Error::InvalidAddress),
        pubkey_bytes_of(raydium_clmm_program()) is None ==> r is Err,
        pubkey_bytes_of(nft_mint@) matches Some(mb) ==> (pubkey_bytes_of(raydium_clmm_program())
            matches Some(pb) ==> match pda_of(seq![position_seed_spec(), mb], pb) {
            Some(w) => (r matches Ok(s) && s@ == base58_of(w.0)),
            None => r == Err::<String, Error>(Error::ParseError),
        }),
{
    let mint_bytes = match parse_pubkey(nft_mint) {
        Some(b) => b,
        None => {
            return Err(Error::InvalidAddress);
        }
    };
    let program_str = raydium_clmm_program_id();
    let program = match parse_pubkey(program_str.as_str()) {
        Some(b) => b,
        None => {
            return Err(Error::ParseError);
        }
    };
    let mut seeds: Vec<Vec<u8>> = Vec::new();
    seeds.push(position_seed());
    let mut mint_seed: Vec<u8> = Vec::new();
    let mut i: usize = 0;
    while i < 32
        invariant
            i <= 32,
            mint_seed@ =~= mint_bytes@.take(i as int),
        decreases 32 - i,
    {
        mint_seed.push(mint_bytes[i]);
        proof {
            assert(mint_seed@ =~= mint_bytes@.take(i + 1));
        }
        i += 1;
    }
    proof {
        assert(mint_seed@ =~= mint_bytes@);
    }
    seeds.push(mint_seed);
    proof {
        assert(seeds@.map_values(|v: Vec<u8>| v@) =~= seq![position_seed_spec(), mint_bytes@]);
    }
    match find_pda(&seeds, &program) {
        Some((address, _bump)) => Ok(pubkey_to_base58(&address)),
        None => Err(Error::ParseError),
    }
}

// ---------------------------------------------------------------------------
// Fixed-layout account records
// ---------------------------------------------------------------------------

/// One reward slot of a position record.
#[derive(Debug, Clone, Copy, PartialEq, Eq, Structural)]
pub struct PositionRewardInfo {
    pub growth_inside_last_x64: u128,
    pub reward_amount_owed: u64,
}

/// A personal position account, decoded from its fixed binary layout.
pub struct Position {
    pub discriminator: Vec<u8>,
    pub bump: u8,
    pub nft_mint: Vec<u8>,
    pub pool_id: Vec<u8>,
    pub tick_lower: i32,
    pub tick_upper: i32,
    pub liquidity: u128,
    pub fee_growth_inside_last_x64_a: u128,
    pub fee_growth_inside_last_x64_b: u128,
    pub token_fees_owed_a: u64,
    pub token_fees_owed_b: u64,
    pub reward_infos: Vec<PositionRewardInfo>,
}

/// A pool account, decoded from its fixed binary layout; the valuation
/// reads the mints, their decimals and the current sqrt price, the rest of
/// the record only fixes the byte offsets.
pub struct Pool {
    pub discriminator: Vec<u8>,
    pub bump: u8,
    pub amm_config: Vec<u8>,
    pub creator: Vec<u8>,
    pub mint_a: Vec<u8>,
    pub mint_b: Vec<u8>,
    pub vault_a: Vec<u8>,
    pub vault_b: Vec<u8>,
    pub observation_id: Vec<u8>,
    pub mint_decimals_a: u8,
    pub mint_decimals_b: u8,
    pub tick_spacing: u16,
    pub liquidity: u128,
    pub sqrt_price_x64: u128,
    pub tick_current: i32,
}

/// The byte length of a serialized position record.
pub const POSITION_LEN: usize = 281;

/// The byte length of a serialized pool record.
pub const POOL_LEN: usize = 1152;

/// The value of a little-endian byte sequence.
pub open spec fn le_bytes_val(s: Seq<u8>) -> int
    decreases s.len(),
{
    if s.len() == 0 {
        0
    } else {
        s[0] + 256 * le_bytes_val(s.drop_first())
    }
}

pub open spec fn u64_at(data: Seq<u8>, off: int) -> int {
    le_bytes_val(data.subrange(off, off + 8))
}

pub open spec fn u128_at(data: Seq<u8>, off: int) -> int {
    le_bytes_val(data.subrange(off, off + 16))
}

pub open spec fn u16_at(data: Seq<u8>, off: int) -> int {
    le_bytes_val(data.subrange(off, off + 2))
}

/// A little-endian two's-complement 32-bit value.
pub open spec fn i32_at(data: Seq<u8>, off: int) -> int {
    let u = le_bytes_val(data.subrange(off, off + 4));
    if u < 0x8000_0000 {
        u
    } else {
        u - 0x1_0000_0000
    }
}

pub open spec fn pow256(n: nat) -> int
    decreases n,
{
    if n == 0 {
        1
    } else {
        256 * pow256((n - 1) as nat)
    }
}

proof fn lemma_le_bytes_val_bound(s: Seq<u8>)
    ensures
        0 <= le_bytes_val(s) < pow256(s.len()),
    decreases s.len(),
{
    if s.len() == 0 {
    } else {
        lemma_le_bytes_val_bound(s.drop_first());
        let rest = le_bytes_val(s.drop_first());
        assert(s[0] + 256 * rest < 256 * (rest + 1)) by (nonlinear_arith)
            requires
                s[0] < 256,
        ;
        assert(256 * (rest + 1) <= 256 * pow256((s.len() - 1) as nat)) by (nonlinear_arith)
            requires
                rest + 1 <= pow256((s.len() - 1) as nat),
        ;
    }
}

proof fn lemma_pow256_values()
    ensures
        pow256(2) == 0x10000,
        pow256(4) == 0x1_0000_0000,
        pow256(8) == 0x1_0000_0000_0000_0000,
        pow256(16) == 0x1_0000_0000_0000_0000_0000_0000_0000_0000,
{
    reveal_with_fuel(pow256, 17);
}

/// Read a `count`-byte little-endian value, `count` at most 16.
#[verifier::loop_isolation(false)]
fn read_le(data: &Vec<u8>, off: usize, count: usize) -> (r: u128)
    requires
        count <= 16,
        off + count <= data@.len(),
    ensures
        r == le_bytes_val(data@.subrange(off as int, off + count)),
{
    proof {
        lemma_pow256_values();
    }
    let n = data.len();
    let mut r: u128 = 0;
    let mut i: usize = count;
    while i > 0
        invariant
            i <= count,
            r == le_bytes_val(data@.subrange(off + i, off + count)),
            r < pow256((count - i) as nat),
        decreases i,
    {
        i -= 1;
        let b = data[off + i];
        let ghost pre = r;
        proof {
            let tail = data@.subrange(off + i, off + count);
            assert(tail.drop_first() =~= data@.subrange(off + i + 1, off + count));
            assert(tail[0] == data@[off + i]);
            assert(256 * pre < 256 * pow256((count - i - 1) as nat)) by (nonlinear_arith)
                requires
                    pre < pow256((count - i - 1) as nat),
            ;
            lemma_pow256_monotone((count - i) as nat, 16);
        }
        r = b as u128 + 256 * r;
    }
    proof {
        assert(data@.subrange(off as int, off + count) == data@.subrange(off + 0, off + count));
    }
    r
}

proof fn lemma_pow256_monotone(a: nat, b: nat)
    requires
        a <= b,
    ensures
        pow256(a) <= pow256(b),
    decreases b,
{
    if a < b {
        lemma_pow256_monotone(a, (b - 1) as nat);
        lemma_pow256_positive((b - 1) as nat);
    }
}

proof fn lemma_pow256_positive(n: nat)
    ensures
        pow256(n) >= 1,
    decreases n,
{
    if n > 0 {
        lemma_pow256_positive((n - 1) as nat);
    }
}

fn read_u16(data: &Vec<u8>, off: usize) -> (r: u16)
    requires
        off + 2 <= data@.len(),
    ensures
        r == u16_at(data@, off as int),
{
    proof {
        lemma_le_bytes_val_bound(data@.subrange(off as int, off + 2));
        lemma_pow256_values();
    }
    read_le(data, off, 2) as u16
}

fn read_u64(data: &Vec<u8>, off: usize) -> (r: u64)
    requires
        off + 8 <= data@.len(),
    ensures
        r == u64_at(data@, off as int),
{
    proof {
        lemma_le_bytes_val_bound(data@.subrange(off as int, off + 8));
        lemma_pow256_values();
    }
    read_le(data, off, 8) as u64
}

fn read_u128(data: &Vec<u8>, off: usize) -> (r: u128)
    requires
        off + 16 <= data@.len(),
    ensures
        r == u128_at(data@, off as int),
{
    read_le(data, off, 16)
}

fn read_i32(data: &Vec<u8>, off: usize) -> (r: i32)
    requires
        off + 4 <= data@.len(),
    ensures
        r == i32_at(data@, off as int),
{
    proof {
        lemma_le_bytes_val_bound(data@.subrange(off as int, off + 4));
        lemma_pow256_values();
    }
    let u = read_le(data, off, 4) as u64;
    if u >= 0x8000_0000 {
        ((u as i64) - 0x1_0000_0000) as i32
    } else {
        u as i32
    }
}

/// Copy `count` bytes starting at `off`.
fn read_bytes(data: &Vec<u8>, off: usize, count: usize) -> (r: Vec<u8>)
    requires
        off + count <= data@.len(),
    ensures
        r@ == data@.subrange(off as int, off + count),
{
    let n = data.len();
    let mut r: Vec<u8> = Vec::new();
    let mut i: usize = 0;
    while i < count
        invariant
            i <= count,
            off + count <= n == data@.len(),
            r@ =~= data@.subrange(off as int, off + i),
        decreases count - i,
    {
        r.push(data[off + i]);
        proof {
            assert(r@ =~= data@.subrange(off as int, off + i + 1));
        }
        i += 1;
    }
    r
}

/// Decode a position record. A buffer shorter than the record is a parse
/// failure; each field is read at its fixed offset, little-endian.
pub fn decode_position_data(data: &Vec<u8>) -> (r: Result<Position, Error>)
    ensures
        data@.len() < POSITION_LEN ==> r == Err::<Position, Error>(Error::ParseError),
        data@.len() >= POSITION_LEN ==> (r matches Ok(p) && {
            &&& p.discriminator@ == data@.subrange(0, 8)
            &&& p.bump == data@[8]
            &&& p.nft_mint@ == data@.subrange(9, 41)
            &&& p.pool_id@ == data@.subrange(41, 73)
            &&& p.tick_lower == i32_at(data@, 73)
            &&& p.tick_upper == i32_at(data@, 77)
            &&& p.liquidity == u128_at(data@, 81)
            &&& p.fee_growth_inside_last_x64_a == u128_at(data@, 97)
            &&& p.fee_growth_inside_last_x64_b == u128_at(data@, 113)
            &&& p.token_fees_owed_a == u64_at(data@, 129)
            &&& p.token_fees_owed_b == u64_at(data@, 137)
            &&& p.reward_infos@.len() == 3
            &&& forall|i: int|
                0 <= i < 3 ==> (#[trigger] p.reward_infos@[i]).growth_inside_last_x64 == u128_at(
                    data@,
                    145 + i * 24,
                ) && p.reward_infos@[i].reward_amount_owed == u64_at(data@, 161 + i * 24)
        }),
{
    if data.len() < POSITION_LEN {
        return Err(Error::ParseError);
    }
    let mut reward_infos: Vec<PositionRewardInfo> = Vec::new();
    let mut i: usize = 0;
    while i < 3
        invariant
            i <= 3,
            data@.len() >= POSITION_LEN as int,
            reward_infos@.len() == i,
            forall|j: int|
                0 <= j < i ==> (#[trigger] reward_infos@[j]).growth_inside_last_x64 == u128_at(
                    data@,
                    145 + j * 24,
                ) && reward_infos@[j].reward_amount_owed == u64_at(data@, 161 + j * 24),
        decreases 3 - i,
    {
        reward_infos.push(
            PositionRewardInfo {
                growth_inside_last_x64: read_u128(data, 145 + i * 24),
                reward_amount_owed: read_u64(data, 161 + i * 24),
            },
        );
        i += 1;
    }
    Ok(
        Position {
            discriminator: read_bytes(data, 0, 8),
            bump: data[8],
            nft_mint: read_bytes(data, 9, 32),
            pool_id: read_bytes(data, 41, 32),
            tick_lower: read_i32(data, 73),
            tick_upper: read_i32(data, 77),
            liquidity: read_u128(data, 81),
            fee_growth_inside_last_x64_a: read_u128(data, 97),
            fee_growth_inside_last_x64_b: read_u128(data, 113),
            token_fees_owed_a: read_u64(data, 129),
            token_fees_owed_b: read_u64(data, 137),
            reward_infos,
        },
    )
}

/// Decode a pool record. A buffer shorter than the record is a parse
/// failure; each field is read at its fixed offset, little-endian.
pub fn decode_pool_data(data: &Vec<u8>) -> (r: Result<Pool, Error>)
    ensures
        data@.len() < POOL_LEN ==> r == Err::<Pool, Error>(Error::ParseError),
        data@.len() >= POOL_LEN ==> (r matches Ok(p) && {
            &&& p.discriminator@ == data@.subrange(0, 8)
            &&& p.bump == data@[8]
            &&& p.amm_config@ == data@.subrange(9, 41)
            &&& p.creator@ == data@.subrange(41, 73)
            &&& p.mint_a@ == data@.subrange(73, 105)
            &&& p.mint_b@ == data@.subrange(105, 137)
            &&& p.vault_a@ == data@.subrange(137, 169)
            &&& p.vault_b@ == data@.subrange(169, 201)
            &&& p.observation_id@ == data@.subrange(201, 233)
            &&& p.mint_decimals_a == data@[233]
            &&& p.mint_decimals_b == data@[234]
            &&& p.tick_spacing == u16_at(data@, 235)
            &&& p.liquidity == u128_at(data@, 237)
            &&& p.sqrt_price_x64 == u128_at(data@, 253)
            &&& p.tick_current == i32_at(data@, 269)
        }),
{
    if data.len() < POOL_LEN {
        return Err(Error::ParseError);
    }
    Ok(
        Pool {
            discriminator: read_bytes(data, 0, 8),
            bump: data[8],
            amm_config: read_bytes(data, 9, 32),
            creator: read_bytes(data, 41, 32),
            mint_a: read_bytes(data, 73, 32),
            mint_b: read_bytes(data, 105, 32),
            vault_a: read_bytes(data, 137, 32),
            vault_b: read_bytes(data, 169, 32),
            observation_id: read_bytes(data, 201, 32),
            mint_decimals_a: data[233],
            mint_decimals_b: data[234],
            tick_spacing: read_u16(data, 235),
            liquidity: read_u128(data, 237),
            sqrt_price_x64: read_u128(data, 253),
            tick_current: read_i32(data, 269),
        },
    )
}

// ---------------------------------------------------------------------------
// Liquidity math
// ---------------------------------------------------------------------------

/// Square-root prices carry 32 fractional bits.
pub const SQRT_PRICE_SCALE: u64 = 0x1_0000_0000;

/// Token-A amount of liquidity `l` between sqrt prices `sp` and `su`:
/// `l * (1/sp - 1/su)`, each term rounded down.
pub open spec fn amount_a_spec(l: u64, sp: u64, su: u64) -> int {
    (l as int * SQRT_PRICE_SCALE as int) / (sp as int) - (l as int * SQRT_PRICE_SCALE as int) / (
    su as int)
}

/// Token-B amount of liquidity `l` between sqrt prices `sl` and `sp`:
/// `l * (sp - sl)`, rounded down.
pub open spec fn amount_b_spec(l: u64, sp: u64, sl: u64) -> int {
    (l as int * (sp as int - sl as int)) / (SQRT_PRICE_SCALE as int)
}

/// The two token amounts when the current sqrt price sits inside the range.
pub open spec fn in_range_amounts(l: u64, sp: u64, sl: u64, su: u64) -> (int, int) {
    (amount_a_spec(l, sp, su), amount_b_spec(l, sp, sl))
}

/// The two token amounts when the price sits at or below the range: all A.
pub open spec fn below_range_amounts(l: u64, sl: u64, su: u64) -> (int, int) {
    (amount_a_spec(l, sl, su), 0)
}

/// The two token amounts when the price sits at or above the range: all B.
pub open spec fn above_range_amounts(l: u64, sl: u64, su: u64) -> (int, int) {
    (0, amount_b_spec(l, su, sl))
}

/// The position's two token amounts, by where the current sqrt price sits.
pub open spec fn clmm_amounts(l: u64, sp: u64, sl: u64, su: u64) -> (int, int) {
    if sp <= sl {
        below_range_amounts(l, sl, su)
    } else if sp < su {
        in_range_amounts(l, sp, sl, su)
    } else {
        above_range_amounts(l, sl, su)
    }
}

/// The valuation is continuous at the lower range bound: the both-tokens
/// formulas evaluated at `sp == sl` give exactly the below-range amounts.
pub proof fn lemma_value_continuous_at_lower(l: u64, sl: u64, su: u64)
    requires
        1 <= sl <= su,
    ensures
        in_range_amounts(l, sl, sl, su) == below_range_amounts(l, sl, su),
{
    assert((l * (sl - sl)) == 0) by (nonlinear_arith);
    assert(0int / SQRT_PRICE_SCALE as int == 0) by (nonlinear_arith);
}

/// The valuation is continuous at the upper range bound: the both-tokens
/// formulas evaluated at `sp == su` give exactly the above-range amounts.
pub proof fn lemma_value_continuous_at_upper(l: u64, sl: u64, su: u64)
    requires
        1 <= sl <= su,
    ensures
        in_range_amounts(l, su, sl, su) == above_range_amounts(l, sl, su),
{
}

/// Compute `l * 2^32 / s` for a positive sqrt price.
fn liquidity_over_sqrt(l: u64, s: u64) -> (r: u128)
    requires
        s >= 1,
    ensures
        r == (l as int * SQRT_PRICE_SCALE as int) / (s as int),
{
    proof {
        assert((l as int) * (SQRT_PRICE_SCALE as int) <= u128::MAX) by (nonlinear_arith)
            requires
                l <= u64::MAX,
        ;
        vstd::arithmetic::div_mod::lemma_div_pos_is_pos((l * SQRT_PRICE_SCALE) as int, s as int);
    }
    ((l as u128) * (SQRT_PRICE_SCALE as u128)) / (s as u128)
}

/// The two raw token amounts of a position, from its liquidity, its range's
/// sqrt-price bounds and the pool's current sqrt price, all in 32-bit
/// fixed point.
pub fn calculate_concentrated_liquidity_amounts(
    liquidity: u64,
    sqrt_price_lower: u64,
    sqrt_price_current: u64,
    sqrt_price_upper: u64,
) -> (r: (u128, u128))
    requires
        1 <= sqrt_price_lower <= sqrt_price_upper,
    ensures
        (r.0 as int, r.1 as int) == clmm_amounts(
            liquidity,
            sqrt_price_current,
            sqrt_price_lower,
            sqrt_price_upper,
        ),
{
    if sqrt_price_current <= sqrt_price_lower {
        let a_low = liquidity_over_sqrt(liquidity, sqrt_price_lower);
        let a_high = liquidity_over_sqrt(liquidity, sqrt_price_upper);
        proof {
            vstd::arithmetic::div_mod::lemma_div_is_ordered_by_denominator(
                (liquidity * SQRT_PRICE_SCALE) as int,
                sqrt_price_lower as int,
                sqrt_price_upper as int,
            );
        }
        (a_low - a_high, 0)
    } else if sqrt_price_current < sqrt_price_upper {
        let a_cur = liquidity_over_sqrt(liquidity, sqrt_price_current);
        let a_high = liquidity_over_sqrt(liquidity, sqrt_price_upper);
        proof {
            vstd::arithmetic::div_mod::lemma_div_is_ordered_by_denominator(
                (liquidity * SQRT_PRICE_SCALE) as int,
                sqrt_price_current as int,
                sqrt_price_upper as int,
            );
            assert((liquidity as int) * ((sqrt_price_current - sqrt_price_lower) as int)
                <= u128::MAX) by (nonlinear_arith)
                requires
                    liquidity <= u64::MAX,
                    0 <= sqrt_price_current - sqrt_price_lower <= u64::MAX,
            ;
            vstd::arithmetic::div_mod::lemma_div_pos_is_pos(
                (liquidity * (sqrt_price_current - sqrt_price_lower)) as int,
                SQRT_PRICE_SCALE as int,
            );
        }
        let b = ((liquidity as u128) * ((sqrt_price_current - sqrt_price_lower) as u128)) / (
        SQRT_PRICE_SCALE as u128);
        (a_cur - a_high, b)
    } else {
        proof {
            assert((liquidity as int) * ((sqrt_price_upper - sqrt_price_lower) as int)
                <= u128::MAX) by (nonlinear_arith)
                requires
                    liquidity <= u64::MAX,
                    0 <= sqrt_price_upper - sqrt_price_lower <= u64::MAX,
            ;
            vstd::arithmetic::div_mod::lemma_div_pos_is_pos(
                (liquidity * (sqrt_price_upper - sqrt_price_lower)) as int,
                SQRT_PRICE_SCALE as int,
            );
        }
        let b = ((liquidity as u128) * ((sqrt_price_upper - sqrt_price_lower) as u128)) / (
        SQRT_PRICE_SCALE as u128);
        (0, b)
    }
}

/// A pool's current sqrt price reduced from 64 to 32 fractional bits.
pub fn sqrt_price_x32_from_x64(sqrt_price_x64: u128) -> (r: Result<u64, Error>)
    ensures
        sqrt_price_x64 < 0x1_0000_0000_0000_0000_0000_0000 ==> r == Ok::<u64, Error>(
            (sqrt_price_x64 / 0x1_0000_0000) as u64,
        ),
        sqrt_price_x64 >= 0x1_0000_0000_0000_0000_0000_0000 ==> r == Err::<u64, Error>(
            Error::ParseError,
        ),
{
    let reduced = sqrt_price_x64 / 0x1_0000_0000;
    if reduced > u64::MAX as u128 {
        proof {
            assert(sqrt_price_x64 >= 0x1_0000_0000_0000_0000_0000_0000) by (nonlinear_arith)
                requires
                    sqrt_price_x64 / 0x1_0000_0000 > 0xffff_ffff_ffff_ffffu128,
        ;
        }
        Err(Error::ParseError)
    } else {
        proof {
            assert(sqrt_price_x64 < 0x1_0000_0000_0000_0000_0000_0000) by (nonlinear_arith)
                requires
                    sqrt_price_x64 / 0x1_0000_0000 <= 0xffff_ffff_ffff_ffffu128,
        ;
        }
        Ok(reduced as u64)
    }
}

// ---------------------------------------------------------------------------
// Position valuation
// ---------------------------------------------------------------------------

/// A token leg of a valued position: its mint, display metadata, raw
/// amount, the mint's decimals and its price when one is known.
pub struct TokenPosition {
    pub mint: String,
    pub name: String,
    pub symbol: String,
    pub image: String,
    pub amount: u128,
    pub decimals: u8,
    pub price: Option<u64>,
}

/// The protocol a position belongs to.
pub struct ProtocolInfo {
    pub name: String,
    pub symbol: String,
    pub image: String,
    pub program_id: String,
}

/// A fully valued position as the API returns it.
pub struct ParsedPosition {
    pub total_value_usd: Option<u128>,
    pub protocol: ProtocolInfo,
    pub token_a: TokenPosition,
    pub token_b: TokenPosition,
    pub fee_tier: String,
}

/// The two raw amounts of a position and their combined USD value.
pub struct ValuedPosition {
    pub amount_a: u128,
    pub amount_b: u128,
    pub total_value_usd: Option<u128>,
}

/// The position's USD value from its two legs: absent only when neither
/// price is known — a missing price is never a zero position; a leg with an
/// unknown price contributes nothing.
pub open spec fn position_value_spec(
    amount_a: u128,
    amount_b: u128,
    decimals_a: u8,
    decimals_b: u8,
    price_a: Option<u64>,
    price_b: Option<u64>,
) -> Option<int> {
    if price_a is None && price_b is None {
        None
    } else {
        let va = match price_a {
            Some(p) => crate::price::leg_usd_spec(amount_a, p, decimals_a),
            None => 0,
        };
        let vb = match price_b {
            Some(p) => crate::price::leg_usd_spec(amount_b, p, decimals_b),
            None => 0,
        };
        Some(crate::price::sat_add_u128(va, vb))
    }
}

/// The combined USD value of the two legs.
pub fn position_value(
    amount_a: u128,
    amount_b: u128,
    decimals_a: u8,
    decimals_b: u8,
    price_a: Option<u64>,
    price_b: Option<u64>,
) -> (r: Option<u128>)
    ensures
        match r {
            Some(v) => position_value_spec(
                amount_a,
                amount_b,
                decimals_a,
                decimals_b,
                price_a,
                price_b,
            ) == Some(v as int),
            None => position_value_spec(
                amount_a,
                amount_b,
                decimals_a,
                decimals_b,
                price_a,
                price_b,
            ) is None,
        },
{
    if price_a.is_none() && price_b.is_none() {
        return None;
    }
    let va = match price_a {
        Some(p) => crate::price::leg_usd(amount_a, p, decimals_a),
        None => 0,
    };
    let vb = match price_b {
        Some(p) => crate::price::leg_usd(amount_b, p, decimals_b),
        None => 0,
    };
    Some(crate::price::sat_add(va, vb))
}

/// Value a decoded position against its pool: reduce the pool's sqrt price
/// to 32 fractional bits, split the liquidity into the two token amounts by
/// where that price sits in the range, and combine the legs' USD values.
/// A liquidity or sqrt price too large for the fixed-point math is a parse
/// failure.
pub fn value_position(
    position: &Position,
    pool: &Pool,
    sqrt_price_lower_x32: u64,
    sqrt_price_upper_x32: u64,
    price_a: Option<u64>,
    price_b: Option<u64>,
) -> (r: Result<ValuedPosition, Error>)
    requires
        1 <= sqrt_price_lower_x32 <= sqrt_price_upper_x32,
    ensures
        r is Err <==> (position.liquidity > u64::MAX || pool.sqrt_price_x64
            >= 0x1_0000_0000_0000_0000_0000_0000),
        r is Err ==> r == Err::<ValuedPosition, Error>(Error::ParseError),
        r matches Ok(v) ==> ({
            let sp = (pool.sqrt_price_x64 / 0x1_0000_0000) as u64;
            let amounts = clmm_amounts(
                position.liquidity as u64,
                sp,
                sqrt_price_lower_x32,
                sqrt_price_upper_x32,
            );
            &&& (v.amount_a as int, v.amount_b as int) == amounts
            &&& match v.total_value_usd {
                Some(t) => position_value_spec(
                    v.amount_a,
                    v.amount_b,
                    pool.mint_decimals_a,
                    pool.mint_decimals_b,
                    price_a,
                    price_b,
                ) == Some(t as int),
                None => position_value_spec(
                    v.amount_a,
                    v.amount_b,
                    pool.mint_decimals_a,
                    pool.mint_decimals_b,
                    price_a,
                    price_b,
                ) is None,
            }
        }),
{
    if position.liquidity > u64::MAX as u128 {
        return Err(Error::ParseError);
    }
    let liquidity = position.liquidity as u64;
    let sqrt_price_current = match sqrt_price_x32_from_x64(pool.sqrt_price_x64) {
        Ok(sp) => sp,
        Err(e) => {
            return Err(e);
        }
    };
    let (amount_a, amount_b) = calculate_concentrated_liquidity_amounts(
        liquidity,
        sqrt_price_lower_x32,
        sqrt_price_current,
        sqrt_price_upper_x32,
    );
    let total_value_usd = position_value(
        amount_a,
        amount_b,
        pool.mint_decimals_a,
        pool.mint_decimals_b,
        price_a,
        price_b,
    );
    Ok(ValuedPosition { amount_a, amount_b, total_value_usd })
}

} // verus!
