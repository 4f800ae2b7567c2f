use vstd::prelude::*;
use crate::Error;
use std::str::FromStr;

verus! {

/// What base58 parsing of an account address yields: the 32 raw bytes, or
/// nothing when the string is not a well-formed address.
pub uninterp spec fn pubkey_bytes_of(s: Seq<char>) -> Option<Seq<u8>>;

/// Relies on solana's `Pubkey::from_str`: base58 decoding is a pure
/// function of the string, `Err` exactly on malformed input.
#[verifier::external_body]
pub(crate) fn parse_pubkey(s: &str) -> (r: Option<[u8; 32]>)
    ensures
        r is Some <==> pubkey_bytes_of(s@) is Some,
        r matches Some(b) ==> (pubkey_bytes_of(s@) matches Some(w) && b@ == w),
{
    solana_program::pubkey::Pubkey::from_str(s).ok().map(|p| p.to_bytes())
}

/// What rendering an address yields: the base58 string of the 32 bytes.
pub uninterp spec fn base58_of(b: Seq<u8>) -> Seq<char>;

/// Relies on solana's `Pubkey` `Display`: base58 encoding is a pure
/// function of the bytes.
#[verifier::external_body]
pub(crate) fn pubkey_to_base58(b: &[u8; 32]) -> (r: String)
    ensures
        r@ == base58_of(b@),
{
    solana_program::pubkey::Pubkey::new_from_array(*b).to_string()
}

/// What program-derived-address search yields for given seeds and program:
/// the address bytes and bump, or nothing when no bump gives a valid
/// off-curve address or a seed is over the length cap.
pub uninterp spec fn pda_of(seeds: Seq<Seq<u8>>, program: Seq<u8>) -> Option<(Seq<u8>, u8)>;

/// Relies on solana's `Pubkey::try_find_program_address`: the derivation is
/// a pure function of the seeds and the program id.
#[verifier::external_body]
pub(crate) fn find_pda(seeds: &Vec<Vec<u8>>, program: &[u8; 32]) -> (r: Option<([u8; 32], u8)>)
    ensures
        r is Some <==> pda_of(seeds@.map_values(|v: Vec<u8>| v@), program@) is Some,
        r matches Some(p) ==> (pda_of(seeds@.map_values(|v: Vec<u8>| v@), program@) matches Some(w)
            && p.0@ == w.0 && p.1 == w.1),
{
    let program_id = solana_program::pubkey::Pubkey::new_from_array(*program);
    let seed_slices: Vec<&[u8]> = seeds.iter().map(|s| s.as_slice()).collect();
    solana_program::pubkey::Pubkey::try_find_program_address(&seed_slices, &program_id).map(
        |(address, bump)| (address.to_bytes(), bump),
    )
}

/// Render a 32-byte account address in base58. Anything but exactly 32
/// bytes is rejected.
pub fn address_of_bytes(bytes: &Vec<u8>) -> (r: Result<String, Error>)
    ensures
        bytes@.len() != 32 ==> r == Err::<String, Error>(Error::InvalidAddress),
        bytes@.len() == 32 ==> (r matches Ok(s) && s@ == base58_of(bytes@)),
{
    if bytes.len() != 32 {
        return Err(Error::InvalidAddress);
    }
    let mut arr: [u8; 32] = [0; 32];
    let mut i: usize = 0;
    while i < 32
        invariant
            i <= 32,
            bytes@.len() == 32,
            forall|j: int| 0 <= j < i ==> arr@[j] == bytes@[j],
        decreases 32 - i,
    {
        arr[i] = bytes[i];
        i += 1;
    }
    proof {
        assert(arr@ =~= bytes@);
    }
    Ok(pubkey_to_base58(&arr))
}

} // verus!
