use vstd::prelude::*;
use crate::clmm::ParsedPosition;
use crate::metadata::ParsedAta;

verus! {

/// The plain account listing.
pub struct AccountsOnly {
    pub accounts: Vec<ParsedAta>,
}

/// Account listing together with the wallet's valued positions.
pub struct AllBalances {
    pub accounts: Vec<ParsedAta>,
    pub raydium: Vec<ParsedPosition>,
}

/// A balances response, with or without the positions.
pub enum BalancesResponse {
    All(AllBalances),
    AccountsOnly(AccountsOnly),
}

/// An account holds a position NFT: exactly one raw unit.
pub open spec fn is_position_account(a: ParsedAta) -> bool {
    a.balance.amount == 1
}

/// Split the parsed accounts into position NFTs (one raw unit held) and
/// ordinary token accounts, each side keeping its order.
#[verifier::loop_isolation(false)]
pub fn partition_position_accounts(accounts: Vec<ParsedAta>) -> (r: (Vec<ParsedAta>, Vec<ParsedAta>))
    ensures
        r.0@ == accounts@.filter(|a: ParsedAta| is_position_account(a)),
        r.1@ == accounts@.filter(|a: ParsedAta| !is_position_account(a)),
{
    proof {
        reveal(Seq::filter);
    }
    let ghost orig = accounts@;
    let mut rest = accounts;
    let mut positions: Vec<ParsedAta> = Vec::new();
    let mut others: Vec<ParsedAta> = Vec::new();
    let ghost mut seen: Seq<ParsedAta> = Seq::empty();
    while rest.len() > 0
        invariant
            seen + rest@ =~= orig,
            positions@ =~= seen.filter(|a: ParsedAta| is_position_account(a)),
            others@ =~= seen.filter(|a: ParsedAta| !is_position_account(a)),
        decreases rest@.len(),
    {
        let a = rest.remove(0);
        let ghost pre_seen = seen;
        proof {
            seen = seen.push(a);
            assert(seen.drop_last() =~= pre_seen);
            assert(seen.last() == a);
        }
        if a.balance.amount == 1 {
            positions.push(a);
        } else {
            others.push(a);
        }
        proof {
            reveal(Seq::filter);
            assert(seen + rest@ =~= orig);
            assert(positions@ =~= seen.filter(|a: ParsedAta| is_position_account(a)));
            assert(others@ =~= seen.filter(|a: ParsedAta| !is_position_account(a)));
        }
    }
    proof {
        assert(seen =~= orig);
    }
    (positions, others)
}

} // verus!
