use crate::fee_rate::FeeRate;
use crate::types::{Script, MAX_SCRIPT_BYTES};
use vstd::prelude::*;

verus! {

/// The number of bytes that hold the value of a transaction output.
pub const TXOUT_VALUE_BYTES: usize = 8;

/// The dust threshold of the script made of the bytes `script`: the value
/// in satoshi below which the network does not relay an output locked by
/// it.
pub uninterp spec fn script_dust_value(script: Seq<u8>) -> u64;

/// The number of bytes that encode the length `len` in front of a script.
pub open spec fn length_prefix_len(len: nat) -> nat {
    if len <= 0xFC {
        1
    } else if len <= 0xFFFF {
        3
    } else if len <= 0xFFFF_FFFF {
        5
    } else {
        9
    }
}

/// The number of bytes that a script of `len` bytes takes in a
/// transaction: its length prefix and the script.
pub open spec fn serialized_script_len(len: nat) -> nat {
    length_prefix_len(len) + len
}

/// Calls `bitcoin::consensus::encode::serialize` on the script and takes
/// the length of what it returns. The claim is that of its source: the
/// bytes of the script behind their count in the variable-length encoding
/// of one, three, five or nine bytes.
#[verifier::external_body]
fn serialized_len(script: &[u8]) -> (r: usize)
    ensures
        r == serialized_script_len(script@.len()),
{
    bitcoin::consensus::encode::serialize(&bitcoin::Script::from(script.to_vec())).len()
}

/// Calls `bitcoin::Script::dust_value` on the script and takes the amount
/// in satoshi. The claim is only that the amount depends on nothing but
/// the bytes of the script. The script is kept short because the amount is
/// three times a sum that holds its length.
#[verifier::external_body]
fn dust_value(script: &[u8]) -> (r: u64)
    requires
        script@.len() <= MAX_SCRIPT_BYTES,
    ensures
        r == script_dust_value(script@),
{
    bitcoin::Script::from(script.to_vec()).dust_value().as_sat()
}

/// What becomes of the amount that the selected coins bring beyond the
/// target and their fees.
#[derive(Debug, Clone, Copy, PartialEq, Eq, Structural)]
pub enum Excess {
    /// The amount is too small for a change output: all of it goes to the
    /// miner.
    NoChange {
        /// The value below which an output with the change script is dust.
        dust_threshold: u64,
        /// The amount beyond the target and the fees of the inputs.
        remaining_amount: u64,
        /// The fee that the change output would have cost.
        change_fee: u64,
    },
    /// The amount pays for a change output and leaves something to put
    /// into it.
    Change {
        /// The value of the change output.
        amount: u64,
        /// The fee of the change output.
        fee: u64,
    },
}

/// What becomes of `remaining_amount` where a change output costs
/// `change_fee` and an output below `dust_threshold` is dust: the amount
/// less the fee, or nothing where the fee is the greater, is dust or not.
pub open spec fn excess_of(remaining_amount: u64, change_fee: u64, dust_threshold: u64) -> Excess {
    let drain_value = if remaining_amount >= change_fee {
        remaining_amount - change_fee
    } else {
        0
    };
    if drain_value < dust_threshold {
        Excess::NoChange { dust_threshold, remaining_amount, change_fee }
    } else {
        Excess::Change { amount: drain_value as u64, fee: change_fee }
    }
}

/// The fee at `fee_rate` of a change output locked by a script of
/// `script_len` bytes.
pub open spec fn change_fee_of(fee_rate: FeeRate, script_len: nat) -> u64 {
    fee_rate.fee_of_vbytes(serialized_script_len(script_len) + TXOUT_VALUE_BYTES) as u64
}

/// A remainder below the dust threshold plus the change fee gives no
/// change and is kept whole; any other remainder gives change of the
/// remainder less the change fee. This leaves out a dust threshold of zero
/// with a remainder below the change fee, which gives change of zero.
pub proof fn lemma_change_threshold(remaining_amount: u64, change_fee: u64, dust_threshold: u64)
    requires
        dust_threshold > 0 || remaining_amount >= change_fee,
    ensures
        remaining_amount < dust_threshold + change_fee ==> excess_of(
            remaining_amount,
            change_fee,
            dust_threshold,
        ) == (Excess::NoChange { dust_threshold, remaining_amount, change_fee }),
        remaining_amount >= dust_threshold + change_fee ==> excess_of(
            remaining_amount,
            change_fee,
            dust_threshold,
        ) == (Excess::Change { amount: (remaining_amount - change_fee) as u64, fee: change_fee }),
{
}

/// Decides what becomes of `remaining_amount` where a change output costs
/// `change_fee` and an output below `dust_threshold` is dust.
pub fn change_for(remaining_amount: u64, change_fee: u64, dust_threshold: u64) -> (r: Excess)
    ensures
        r == excess_of(remaining_amount, change_fee, dust_threshold),
{
    let drain_value = if remaining_amount >= change_fee {
        remaining_amount - change_fee
    } else {
        0
    };
    if drain_value < dust_threshold {
        Excess::NoChange { dust_threshold, remaining_amount, change_fee }
    } else {
        Excess::Change { amount: drain_value, fee: change_fee }
    }
}

/// Decides whether change can be created.
///
/// - `remaining_amount`: the amount by which the selected coins exceed the
///   target and their own fees
/// - `fee_rate`: the fee rate of the transaction
/// - `drain_script`: the script that would lock the change output
pub fn decide_change(remaining_amount: u64, fee_rate: FeeRate, drain_script: &Script) -> (r: Excess)
    ensures
        r == excess_of(
            remaining_amount,
            change_fee_of(fee_rate, drain_script@.len()),
            script_dust_value(drain_script@),
        ),
{
    let script = drain_script.as_bytes();
    let drain_output_len = serialized_len(script) + TXOUT_VALUE_BYTES;
    let change_fee = fee_rate.fee_vb(drain_output_len);
    let dust_threshold = dust_value(script);
    change_for(remaining_amount, change_fee, dust_threshold)
}

} // verus!
