use crate::types::Txid;
use vstd::prelude::*;

verus! {

/// What the wallet knows about the transactions that created its coins.
pub trait Database {
    /// The height of the block that confirmed the transaction `txid`, or
    /// `None` where the transaction is unconfirmed or unknown.
    fn confirmation_height(&self, txid: &Txid) -> Option<u32>;
}

} // verus!
