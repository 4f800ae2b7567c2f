use vstd::prelude::*;

verus! {

/// A token amount in raw on-chain units together with the mint's decimals.
///
/// The display value of the amount is the exact rational
/// `amount / 10^decimals`; it is zero exactly when `amount` is zero, which is
/// the condition the balance builder prunes on.
#[derive(Debug, Clone, Copy, PartialEq, Eq, Structural)]
pub struct FormattedAmount {
    pub amount: u64,
    pub decimals: u8,
}

impl FormattedAmount {
    /// The zero amount used when a side of a balance change is absent.
    pub fn zero() -> (r: Self)
        ensures
            r == FormattedAmount::zero_spec(),
    {
        FormattedAmount { amount: 0, decimals: 0 }
    }

    pub open spec fn zero_spec() -> Self {
        FormattedAmount { amount: 0, decimals: 0 }
    }

    /// The display value is zero: the raw amount is zero.
    pub open spec fn is_zero(&self) -> bool {
        self.amount == 0
    }
}

/// An amount paired with the USD price attached to its mint.
///
/// Prices are integers in millionths of a USD per whole token, the unit the
/// USDC-quoted swap oracle reports.
#[derive(Debug, Clone, Copy, PartialEq, Eq, Structural)]
pub struct FormattedAmountWithPrice {
    pub amount: FormattedAmount,
    pub price: u64,
}

} // verus!
