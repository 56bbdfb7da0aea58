use vstd::prelude::*;

verus! {

/// The longest script, in bytes, that a `Script` holds: no transaction that
/// fits in a block can carry a longer one.
pub const MAX_SCRIPT_BYTES: usize = 4_000_000;

/// The hash that names a transaction.
#[derive(Debug, Clone, Copy, PartialEq, Eq, Hash)]
pub struct Txid(pub [u8; 32]);

impl Txid {
    /// Whether both name the same transaction.
    pub fn same(&self, other: &Txid) -> (r: bool)
        ensures
            r == (*self == *other),
    {
        let mut i: usize = 0;
        while i < 32
            invariant
                i <= 32,
                forall|j: int| 0 <= j < i ==> self.0[j] == other.0[j],
            decreases 32 - i,
        {
            if self.0[i] != other.0[i] {
                return false;
            }
            i += 1;
        }
        assert(self.0 =~= other.0);
        true
    }
}

/// A reference to one output of a transaction.
#[derive(Debug, Clone, Copy, PartialEq, Eq, Hash)]
pub struct OutPoint {
    /// The transaction that created the output.
    pub txid: Txid,
    /// The index of the output in that transaction.
    pub vout: u32,
}

/// The bytes of a script, at most `MAX_SCRIPT_BYTES` of them.
#[derive(Debug, PartialEq, Eq)]
pub struct Script {
    bytes: Vec<u8>,
}

impl View for Script {
    type V = Seq<u8>;

    closed spec fn view(&self) -> Seq<u8> {
        self.bytes@
    }
}

impl Script {
    #[verifier::type_invariant]
    spec fn within_limit(self) -> bool {
        self.bytes@.len() <= MAX_SCRIPT_BYTES
    }

    /// The empty script.
    pub fn new() -> (r: Script)
        ensures
            r@ == Seq::<u8>::empty(),
    {
        Script { bytes: Vec::new() }
    }

    /// The script made of `bytes`, or `None` where they are more than
    /// `MAX_SCRIPT_BYTES`.
    pub fn from_bytes(bytes: Vec<u8>) -> (r: Option<Script>)
        ensures
            bytes@.len() <= MAX_SCRIPT_BYTES ==> r is Some && r->Some_0@ == bytes@,
            bytes@.len() > MAX_SCRIPT_BYTES ==> r is None,
    {
        if bytes.len() <= MAX_SCRIPT_BYTES {
            Some(Script { bytes })
        } else {
            None
        }
    }

    /// The bytes of the script.
    pub fn as_bytes(&self) -> (r: &[u8])
        ensures
            r@ == self@,
            r@.len() <= MAX_SCRIPT_BYTES,
    {
        proof {
            use_type_invariant(self);
        }
        self.bytes.as_slice()
    }

    /// The number of bytes in the script.
    pub fn len(&self) -> (r: usize)
        ensures
            r == self@.len(),
            r <= MAX_SCRIPT_BYTES,
    {
        proof {
            use_type_invariant(self);
        }
        self.bytes.len()
    }
}

impl Clone for Script {
    fn clone(&self) -> (r: Script)
        ensures
            r@ == self@,
    {
        proof {
            use_type_invariant(self);
        }
        Script { bytes: self.bytes.clone() }
    }
}

/// An output of a transaction: an amount locked by a script.
#[derive(Debug, PartialEq, Eq)]
pub struct TxOut {
    /// The amount in satoshi.
    pub value: u64,
    /// The script that must be satisfied to spend the amount.
    pub script_pubkey: Script,
}

/// What a `TxOut` holds.
pub struct TxOutView {
    pub value: u64,
    pub script_pubkey: Seq<u8>,
}

impl View for TxOut {
    type V = TxOutView;

    open spec fn view(&self) -> TxOutView {
        TxOutView { value: self.value, script_pubkey: self.script_pubkey@ }
    }
}

impl Clone for TxOut {
    fn clone(&self) -> (r: TxOut)
        ensures
            r@ == self@,
    {
        TxOut { value: self.value, script_pubkey: self.script_pubkey.clone() }
    }
}

/// The two chains of keys that a wallet derives its addresses from.
#[derive(Debug, Clone, Copy, PartialEq, Eq, Structural, Hash)]
pub enum KeychainKind {
    /// The chain of the addresses handed out to receive payments.
    External,
    /// The chain of the addresses that receive change.
    Internal,
}

/// An unspent output that the wallet owns.
#[derive(Debug, PartialEq, Eq)]
pub struct LocalUtxo {
    /// Where the output is.
    pub outpoint: OutPoint,
    /// The output itself.
    pub txout: TxOut,
    /// The chain of keys that the output's script was derived from.
    pub keychain: KeychainKind,
    /// Whether a known transaction already spends the output.
    pub is_spent: bool,
}

/// What a `LocalUtxo` holds.
pub struct LocalUtxoView {
    pub outpoint: OutPoint,
    pub txout: TxOutView,
    pub keychain: KeychainKind,
    pub is_spent: bool,
}

impl View for LocalUtxo {
    type V = LocalUtxoView;

    open spec fn view(&self) -> LocalUtxoView {
        LocalUtxoView {
            outpoint: self.outpoint,
            txout: self.txout@,
            keychain: self.keychain,
            is_spent: self.is_spent,
        }
    }
}

impl Clone for LocalUtxo {
    fn clone(&self) -> (r: LocalUtxo)
        ensures
            r@ == self@,
    {
        LocalUtxo {
            outpoint: self.outpoint,
            txout: self.txout.clone(),
            keychain: self.keychain,
            is_spent: self.is_spent,
        }
    }
}

/// An unspent output that a transaction can spend.
#[derive(Debug, PartialEq, Eq)]
pub enum Utxo {
    /// An output of the wallet itself.
    Local(LocalUtxo),
    /// An output that the wallet does not own, with the output that its
    /// outpoint refers to as the caller resolved it.
    Foreign {
        /// Where the output is.
        outpoint: OutPoint,
        /// The output itself.
        txout: TxOut,
    },
}

/// What a `Utxo` holds.
pub enum UtxoView {
    Local(LocalUtxoView),
    Foreign { outpoint: OutPoint, txout: TxOutView },
}

impl View for Utxo {
    type V = UtxoView;

    open spec fn view(&self) -> UtxoView {
        match *self {
            Utxo::Local(local) => UtxoView::Local(local@),
            Utxo::Foreign { outpoint, txout } => UtxoView::Foreign { outpoint, txout: txout@ },
        }
    }
}

impl Clone for Utxo {
    fn clone(&self) -> (r: Utxo)
        ensures
            r@ == self@,
    {
        match self {
            Utxo::Local(local) => Utxo::Local(local.clone()),
            Utxo::Foreign { outpoint, txout } => Utxo::Foreign {
                outpoint: *outpoint,
                txout: txout.clone(),
            },
        }
    }
}

impl Utxo {
    /// The amount of the output in satoshi.
    pub open spec fn value(self) -> u64 {
        match self {
            Utxo::Local(local) => local.txout.value,
            Utxo::Foreign { txout, .. } => txout.value,
        }
    }

    /// The transaction that created the output.
    pub open spec fn txid(self) -> Txid {
        match self {
            Utxo::Local(local) => local.outpoint.txid,
            Utxo::Foreign { outpoint, .. } => outpoint.txid,
        }
    }

    /// Where the output is.
    pub fn outpoint(&self) -> (r: OutPoint)
        ensures
            r.txid == self.txid(),
            r == match *self {
                Utxo::Local(local) => local.outpoint,
                Utxo::Foreign { outpoint, .. } => outpoint,
            },
    {
        match self {
            Utxo::Local(local) => local.outpoint,
            Utxo::Foreign { outpoint, .. } => *outpoint,
        }
    }

    /// The output itself.
    pub fn txout(&self) -> (r: &TxOut)
        ensures
            r.value == self.value(),
            *r == match *self {
                Utxo::Local(local) => local.txout,
                Utxo::Foreign { txout, .. } => txout,
            },
    {
        match self {
            Utxo::Local(local) => &local.txout,
            Utxo::Foreign { txout, .. } => txout,
        }
    }
}

/// A `Utxo` with the weight of what satisfies its script.
#[derive(Debug, PartialEq, Eq)]
pub struct WeightedUtxo {
    /// The weight, in weight units, of the witness and script signature
    /// that spend the output.
    pub satisfaction_weight: usize,
    /// The output.
    pub utxo: Utxo,
}

impl Clone for WeightedUtxo {
    fn clone(&self) -> (r: WeightedUtxo)
        ensures
            r.satisfaction_weight == self.satisfaction_weight,
            r.utxo@ == self.utxo@,
    {
        WeightedUtxo { satisfaction_weight: self.satisfaction_weight, utxo: self.utxo.clone() }
    }
}

/// A script with the weight of what will satisfy it.
#[derive(Debug, PartialEq, Eq)]
pub struct WeightedScript {
    /// The weight, in weight units, of the witness and script signature
    /// that will spend an output locked by the script; zero where the
    /// script belongs to somebody else.
    pub satisfaction_weight: usize,
    /// The script.
    pub script_pubkey: Script,
}

impl Clone for WeightedScript {
    fn clone(&self) -> (r: WeightedScript)
        ensures
            r.satisfaction_weight == self.satisfaction_weight,
            r.script_pubkey@ == self.script_pubkey@,
    {
        WeightedScript {
            satisfaction_weight: self.satisfaction_weight,
            script_pubkey: self.script_pubkey.clone(),
        }
    }
}

} // verus!
