use vstd::prelude::*;

verus! {

/// What can go wrong while selecting coins.
#[derive(Debug, Clone, Copy, PartialEq, Eq, Structural)]
pub enum Error {
    /// The spendable coins do not cover the target once their fees are paid.
    InsufficientFunds {
        /// The target amount plus the fees of the coins that could be spent.
        needed: u64,
        /// The summed value of the coins that could be spent.
        available: u64,
    },
    /// Branch and bound used up its tries without recording a solution.
    BnBTotalTriesExceeded,
    /// Branch and bound searched every branch and found no selection in range.
    BnBNoExactMatch,
    /// A sum of amounts left the range of the integers that hold amounts.
    ArithmeticOverflow,
}

} // verus!
