use vstd::prelude::*;
use crate::Error;
use base64::Engine;

verus! {

// ---------------------------------------------------------------------------
// JSON-RPC request/response shells
// ---------------------------------------------------------------------------

pub enum JsonRpcMethod {
    GetTokenAccountsByOwner,
    GetBalance,
    GetAccountInfo,
    GetDecimals,
    GetTransaction,
    GetSignaturesForAddress,
}

impl JsonRpcMethod {
    /// The method name carried on the wire.
    pub fn to_string(&self) -> (r: String)
        ensures
            self is GetTokenAccountsByOwner ==> r@ == "getTokenAccountsByOwner"@,
            self is GetBalance ==> r@ == "getBalance"@,
            self is GetAccountInfo ==> r@ == "getAccountInfo"@,
            self is GetDecimals ==> r@ == "getTokenSupply"@,
            self is GetTransaction ==> r@ == "getTransaction"@,
            self is GetSignaturesForAddress ==> r@ == "getSignaturesForAddress"@,
    {
        match self {
            JsonRpcMethod::GetTokenAccountsByOwner => "getTokenAccountsByOwner".to_owned(),
            JsonRpcMethod::GetBalance => "getBalance".to_owned(),
            JsonRpcMethod::GetAccountInfo => "getAccountInfo".to_owned(),
            JsonRpcMethod::GetDecimals => "getTokenSupply".to_owned(),
            JsonRpcMethod::GetTransaction => "getTransaction".to_owned(),
            JsonRpcMethod::GetSignaturesForAddress => "getSignaturesForAddress".to_owned(),
        }
    }
}

pub struct JsonRpcRequest<Params> {
    pub jsonrpc: String,
    pub method: String,
    pub params: Option<Params>,
    pub id: String,
}

pub struct JsonRpcResponse<R> {
    pub jsonrpc: String,
    pub result: R,
    pub id: String,
}

pub struct JsonRpcError {
    pub error: ErrorDetails,
    pub json_rpc: String,
}

pub struct ErrorDetails {
    pub code: i32,
    pub message: String,
}

/// The error kind an RPC error response maps to: a rate-limit code keeps
/// its identity so callers can back off, everything else is a fetch failure.
pub fn classify_rpc_error(code: i32) -> (r: Error)
    ensures
        code == 429 ==> r == Error::TooManyRequests,
        code != 429 ==> r == Error::FetchError,
{
    if code == 429 {
        Error::TooManyRequests
    } else {
        Error::FetchError
    }
}

/// A failed attempt is retried only on a rate-limit signal and only while
/// attempts remain.
pub fn should_retry(e: &Error, attempt: u8, max_retries: u8) -> (r: bool)
    ensures
        r == (attempt < max_retries && e is TooManyRequests),
{
    attempt < max_retries && matches!(e, Error::TooManyRequests)
}

// ---------------------------------------------------------------------------
// Request configuration records
// ---------------------------------------------------------------------------

pub struct GetTokenAccountsByOwnerFilter {
    pub program_id: String,
}

pub struct GetTokenAccountsByOwnerConfig {
    pub commitment: Option<String>,
    pub min_context_slot: Option<u64>,
    pub data_slice: Option<DataSlice>,
    pub encoding: Option<String>,
}

#[derive(Debug, Clone, Copy, PartialEq, Eq, Structural)]
pub struct DataSlice {
    pub length: usize,
    pub offset: usize,
}

pub struct GetBalanceConfig {
    pub commitment: Option<String>,
    pub min_context_slot: Option<usize>,
}

pub struct GetAccountDataConfig {
    pub commitment: Option<String>,
    pub encoding: Option<String>,
}

pub struct GetDecimalsConfig {
    pub commitment: Option<String>,
}

pub struct GetSignaturesForAddressConfig {
    pub commitment: Option<String>,
    pub before: Option<String>,
    pub until: Option<String>,
    pub limit: Option<u16>,
}

pub struct GetTransactionConfig {
    pub commitment: Option<String>,
    pub max_supported_transaction_version: Option<u8>,
    pub encoding: Option<String>,
}

// ---------------------------------------------------------------------------
// RPC result records
// ---------------------------------------------------------------------------

pub struct Context {
    pub api_version: String,
    pub slot: u64,
}

pub struct BalanceResultData {
    pub context: Context,
    pub value: u64,
}

pub struct AccountDataResultData {
    pub context: Context,
    pub value: AccountMetadataInfo,
}

pub struct AccountMetadataInfo {
    pub data: Vec<String>,
    pub executable: bool,
    pub lamports: u64,
    pub owner: String,
    pub rent_epoch: u64,
    pub space: u64,
}

pub struct DecimalsResultData {
    pub context: Context,
    pub value: Decimals,
}

pub struct Decimals {
    pub amount: String,
    pub decimals: u8,
    pub ui_amount_string: String,
}

pub struct Signature {
    pub err: Option<String>,
    pub memo: Option<String>,
    pub signature: String,
    pub slot: u64,
    pub block_time: Option<i64>,
    pub confirmation_status: Option<String>,
}

// ---------------------------------------------------------------------------
// Transaction records
// ---------------------------------------------------------------------------

pub struct Transaction {
    pub meta: Meta,
    pub slot: u64,
    pub transaction: InnerTransaction,
    pub version: Option<Version>,
    pub block_time: Option<i64>,
}

pub struct Meta {
    pub compute_units_consumed: u64,
    pub err: Option<String>,
    pub fee: u64,
    pub log_messages: Option<Vec<String>>,
    pub post_balances: Vec<u64>,
    pub post_token_balances: Vec<TokenBalance>,
    pub pre_balances: Vec<u64>,
    pub pre_token_balances: Vec<TokenBalance>,
    pub rewards: Vec<Rewards>,
}

pub struct TokenBalance {
    pub account_index: u64,
    pub mint: String,
    pub owner: String,
    pub program_id: String,
    pub ui_token_amount: UiTokenAmount,
}

pub struct UiTokenAmount {
    pub amount: String,
    pub decimals: u8,
    pub ui_amount_string: String,
}

pub struct Rewards {
    pub pubkey: String,
    pub lamports: i64,
    pub post_balance: u64,
    pub reward_type: String,
    pub commission: Option<u8>,
}

pub struct InnerTransaction {
    pub message: TransactionMessage,
    pub signatures: Vec<String>,
}

pub struct TransactionMessage {
    pub account_index: Option<u64>,
    pub account_keys: Vec<String>,
    pub header: Header,
    pub instructions: Vec<Instruction>,
    pub recent_blockhash: String,
}

pub struct Header {
    pub num_readonly_signed_accounts: u8,
    pub num_readonly_unsigned_accounts: u8,
    pub num_required_signatures: u8,
}

pub struct Instruction {
    pub accounts: Vec<u8>,
    pub data: String,
    pub program_id_index: u8,
}

pub enum Version {
    U8(u8),
    Text(String),
}

// ---------------------------------------------------------------------------
// Signature pagination
// ---------------------------------------------------------------------------

/// The cursor state of the signature-history walk.
///
/// Each fetched page is folded in with `step`: the collected list grows, the
/// `before` cursor moves to the page's last signature, and the walk ends on
/// a short page. The fetching itself stays with the caller.
pub struct SignaturePager {
    pub signatures: Vec<String>,
    pub before: Option<String>,
    pub done: bool,
}

/// A full page: anything shorter ends the walk.
pub const PAGE_LIMIT: usize = 1000;

impl SignaturePager {
    pub open spec fn sigs_view(&self) -> Seq<Seq<char>> {
        self.signatures@.map_values(|s: String| s@)
    }

    pub fn new() -> (r: Self)
        ensures
            r.sigs_view() == Seq::<Seq<char>>::empty(),
            r.before is None,
            !r.done,
    {
        let r = SignaturePager { signatures: Vec::new(), before: None, done: false };
        proof {
            assert(r.sigs_view() =~= Seq::<Seq<char>>::empty());
        }
        r
    }

    /// Fold in one page of signatures.
    pub fn step(&mut self, page: &Vec<String>)
        requires
            !old(self).done,
        ensures
            final(self).sigs_view() == old(self).sigs_view() + page@.map_values(|s: String| s@),
            final(self).done == (page@.len() < PAGE_LIMIT),
            page@.len() == 0 ==> final(self).before == old(self).before,
            page@.len() > 0 ==> (final(self).before matches Some(b) && b@ == page@.last()@),
    {
        let len = page.len();
        if len == 0 {
            self.done = true;
            proof {
                assert(self.sigs_view() =~= old(self).sigs_view() + page@.map_values(|s: String| s@));
            }
            return;
        }
        self.before = Some(page[len - 1].clone());
        let ghost cursor = self.before;
        let mut i: usize = 0;
        while i < len
            invariant
                i <= len == page@.len(),
                self.signatures@.len() == old(self).signatures@.len() + i,
                self.before == cursor,
                cursor matches Some(b) && b@ == page@.last()@,
                self.done == old(self).done,
                forall|j: int|
                    0 <= j < old(self).signatures@.len() ==> self.signatures@[j]
                        == old(self).signatures@[j],
                forall|j: int|
                    0 <= j < i ==> self.signatures@[old(self).signatures@.len() + j]@ == page@[j]@,
            decreases len - i,
        {
            self.signatures.push(page[i].clone());
            i += 1;
        }
        if len < PAGE_LIMIT {
            self.done = true;
        } else {
            self.done = false;
        }
        proof {
            assert(self.sigs_view() =~= old(self).sigs_view() + page@.map_values(|s: String| s@));
        }
    }
}

// ---------------------------------------------------------------------------
// Account data decoding
// ---------------------------------------------------------------------------

/// What standard-alphabet base64 decoding yields on a string: the byte
/// payload, or nothing when the string is not valid padded base64.
pub uninterp spec fn base64_decoded(s: Seq<char>) -> Option<Seq<u8>>;

/// Relies on base64's standard engine: decoding is a pure function of the
/// input string.
#[verifier::external_body]
fn decode_base64(s: &str) -> (r: Option<Vec<u8>>)
    ensures
        r is Some <==> base64_decoded(s@) is Some,
        r matches Some(v) ==> (base64_decoded(s@) matches Some(w) && v@ == w),
{
    base64::prelude::BASE64_STANDARD.decode(s).ok()
}

/// Decode the base64 payload an account-info response carries in the first
/// slot of its `data` field. A response with no payload, or one that is not
/// valid base64, is a parse failure.
pub fn account_data_from_response(data: &Vec<String>) -> (r: Result<Vec<u8>, Error>)
    ensures
        data@.len() == 0 ==> r == Err::<Vec<u8>, Error>(Error::ParseError),
        data@.len() > 0 ==> match base64_decoded(data@[0]@) {
            Some(w) => (r matches Ok(v) && v@ == w),
            None => r == Err::<Vec<u8>, Error>(Error::ParseError),
        },
{
    if data.len() == 0 {
        return Err(Error::ParseError);
    }
    match decode_base64(data[0].as_str()) {
        Some(v) => Ok(v),
        None => Err(Error::ParseError),
    }
}

} // verus!
