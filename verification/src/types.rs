//! Plain-value data model of the wallet: identifiers, transactions, derived
//! summaries, unspent outputs, and the engine's error taxonomy.
//!
//! A transaction identifier is modelled as an abstract integer token: the
//! engine never computes or inspects the underlying hash, it only compares
//! identifiers and uses them as keys.  Scripts are raw byte strings; the
//! engine never reads inside one, it only hands them to the store and the
//! remote capability.

use vstd::prelude::*;

verus! {

/// Content-addressed identifier of a raw transaction.
pub type Txid = u64;

/// Which derivation chain a script belongs to.
#[derive(Debug, Clone, Copy, PartialEq, Eq, Structural, Hash)]
pub enum ScriptType {
    External,
    Internal,
}

impl ScriptType {
    /// True exactly for the change (internal) chain.
    pub fn is_internal(&self) -> (r: bool)
        ensures
            r == (*self is Internal),
    {
        match self {
            ScriptType::Internal => true,
            ScriptType::External => false,
        }
    }
}

/// Reference to one output of one transaction.
#[derive(Debug, Clone, Copy, PartialEq, Eq, Structural, Hash)]
pub struct OutPoint {
    pub txid: Txid,
    pub vout: u32,
}

impl OutPoint {
    /// The marker spent by a coinbase input: no real output is referenced.
    pub open spec fn spec_is_null(self) -> bool {
        self.txid == 0 && self.vout == u32::MAX
    }

    pub fn new(txid: Txid, vout: u32) -> (r: OutPoint)
        ensures
            r == (OutPoint { txid, vout }),
    {
        OutPoint { txid, vout }
    }

    pub fn is_null(&self) -> (r: bool)
        ensures
            r == self.spec_is_null(),
    {
        self.txid == 0 && self.vout == u32::MAX
    }
}

/// One transaction output: an amount locked under a script public key.
#[derive(Debug, PartialEq, Eq)]
pub struct TxOut {
    pub value: u64,
    pub script_pubkey: Vec<u8>,
}

/// Mathematical view of a `TxOut`.
#[verifier::ext_equal]
pub struct TxOutV {
    pub value: u64,
    pub script_pubkey: Seq<u8>,
}

impl View for TxOut {
    type V = TxOutV;

    open spec fn view(&self) -> TxOutV {
        TxOutV { value: self.value, script_pubkey: self.script_pubkey@ }
    }
}

impl Clone for TxOut {
    /// A clone carries the same amount and the same script bytes.
    fn clone(&self) -> (r: TxOut)
        ensures
            r@ == self@,
    {
        let script = clone_script(&self.script_pubkey);
        TxOut { value: self.value, script_pubkey: script }
    }
}

/// Byte-for-byte copy of a script.
pub fn clone_script(script: &Vec<u8>) -> (r: Vec<u8>)
    ensures
        r@ == script@,
{
    let r = script.clone();
    proof {
        assert forall|i: int| 0 <= i < script@.len() implies r@[i] == script@[i] by {
            assert(cloned::<u8>(script@[i], r@[i]));
        }
        assert(r@ =~= script@);
    }
    r
}

/// One transaction input; the engine only ever reads which output it spends.
#[derive(Debug, Clone, Copy, PartialEq, Eq, Structural)]
pub struct TxIn {
    pub previous_output: OutPoint,
}

/// A raw transaction, decoded to the parts the engine reads, together with
/// its content-addressed identifier.
#[derive(Debug, PartialEq, Eq)]
pub struct Transaction {
    pub txid: Txid,
    pub input: Vec<TxIn>,
    pub output: Vec<TxOut>,
}

/// Mathematical view of a `Transaction`.
#[verifier::ext_equal]
pub struct TransactionV {
    pub txid: Txid,
    pub input: Seq<TxIn>,
    pub output: Seq<TxOutV>,
}

impl View for Transaction {
    type V = TransactionV;

    open spec fn view(&self) -> TransactionV {
        TransactionV {
            txid: self.txid,
            input: self.input@,
            output: self.output@.map_values(|o: TxOut| o@),
        }
    }
}

impl Clone for Transaction {
    /// A clone carries the same identifier, inputs and outputs.
    fn clone(&self) -> (r: Transaction)
        ensures
            r@ == self@,
    {
        let input = self.input.clone();
        let mut output: Vec<TxOut> = Vec::new();
        let mut i: usize = 0;
        while i < self.output.len()
            invariant
                i <= self.output@.len(),
                output@.len() == i,
                forall|j: int| 0 <= j < i ==> (#[trigger] output@[j])@ == self.output@[j]@,
            decreases self.output@.len() - i,
        {
            output.push(self.output[i].clone());
            i += 1;
        }
        let r = Transaction { txid: self.txid, input, output };
        proof {
            assert forall|j: int| 0 <= j < self.input@.len()
                implies r.input@[j] == self.input@[j] by {
                assert(cloned::<TxIn>(self.input@[j], r.input@[j]));
            }
            assert(r.input@ =~= self.input@);
            assert(r@.output =~= self@.output);
        }
        r
    }
}

/// The single field of a block header the engine reads: its timestamp.
#[derive(Debug, Clone, Copy, PartialEq, Eq, Structural)]
pub struct BlockHeader {
    pub time: u32,
}

/// One entry of a script's confirmation history, as the remote reports it.
///
/// `height` encodes three states: a positive value means confirmed at that
/// block height, `0` means unconfirmed with confirmed parents, and `-1`
/// means unconfirmed with unconfirmed parents.
#[derive(Debug, Clone, Copy, PartialEq, Eq, Structural)]
pub struct ELSGetHistoryRes {
    pub height: i32,
    pub tx_hash: Txid,
}

/// One entry of a script's unspent listing, as the remote reports it.
#[derive(Debug, Clone, Copy, PartialEq, Eq, Structural)]
pub struct ELSListUnspentRes {
    pub height: usize,
    pub tx_hash: Txid,
    pub tx_pos: usize,
}

/// Normalized confirmation state of a history entry: heights `0` and `-1`
/// both mean "unconfirmed", any positive height means confirmed there.
pub open spec fn spec_normalize_height(h: i32) -> Option<u32> {
    if h <= 0 {
        None
    } else {
        Some(h as u32)
    }
}

/// Collapses the remote's three-state height encoding into the two states
/// the store keeps: confirmed at a positive height, or unconfirmed.
pub fn normalize_height(h: i32) -> (r: Option<u32>)
    ensures
        r == spec_normalize_height(h),
{
    if h <= 0 {
        None
    } else {
        Some(h as u32)
    }
}

/// Wallet-relative summary of one transaction, recomputed wholesale on each
/// sync pass.
#[derive(Debug, PartialEq, Eq)]
pub struct TransactionDetails {
    pub txid: Txid,
    pub transaction: Option<Transaction>,
    pub received: u64,
    pub sent: u64,
    pub height: Option<u32>,
    pub timestamp: u64,
    pub fees: u64,
}

/// Mathematical view of a `TransactionDetails`.
#[verifier::ext_equal]
pub struct TransactionDetailsV {
    pub txid: Txid,
    pub transaction: Option<TransactionV>,
    pub received: u64,
    pub sent: u64,
    pub height: Option<u32>,
    pub timestamp: u64,
    pub fees: u64,
}

impl View for TransactionDetails {
    type V = TransactionDetailsV;

    open spec fn view(&self) -> TransactionDetailsV {
        TransactionDetailsV {
            txid: self.txid,
            transaction: match self.transaction {
                Some(t) => Some(t@),
                None => None,
            },
            received: self.received,
            sent: self.sent,
            height: self.height,
            timestamp: self.timestamp,
            fees: self.fees,
        }
    }
}

impl Clone for TransactionDetails {
    /// A clone carries the same summary, field for field.
    fn clone(&self) -> (r: TransactionDetails)
        ensures
            r@ == self@,
    {
        TransactionDetails {
            txid: self.txid,
            transaction: match &self.transaction {
                Some(t) => Some(t.clone()),
                None => None,
            },
            received: self.received,
            sent: self.sent,
            height: self.height,
            timestamp: self.timestamp,
            fees: self.fees,
        }
    }
}

/// An output the wallet can spend: paid to a wallet-owned script and not
/// observed as consumed by any known transaction.
#[derive(Debug, PartialEq, Eq)]
pub struct UTXO {
    pub outpoint: OutPoint,
    pub txout: TxOut,
    pub is_internal: bool,
}

/// Mathematical view of a `UTXO`.
#[verifier::ext_equal]
pub struct UTXOV {
    pub outpoint: OutPoint,
    pub txout: TxOutV,
    pub is_internal: bool,
}

impl View for UTXO {
    type V = UTXOV;

    open spec fn view(&self) -> UTXOV {
        UTXOV { outpoint: self.outpoint, txout: self.txout@, is_internal: self.is_internal }
    }
}

impl Clone for UTXO {
    /// A clone carries the same outpoint, output and chain marker.
    fn clone(&self) -> (r: UTXO)
        ensures
            r@ == self@,
    {
        UTXO { outpoint: self.outpoint, txout: self.txout.clone(), is_internal: self.is_internal }
    }
}

/// The phase of a sync pass in which an error surfaced.
#[derive(Debug, Clone, Copy, PartialEq, Eq, Structural)]
pub enum SyncPhase {
    Scan,
    Download,
    ResolveTimestamps,
    Reconcile,
}

/// Failure reported by an implementation of the remote query capability.
#[derive(Debug, Clone, Copy, PartialEq, Eq, Structural)]
pub struct RemoteError;

/// Failure reported by an implementation of the persistent store.
#[derive(Debug, Clone, Copy, PartialEq, Eq, Structural)]
pub struct StoreError;

/// Everything that can abort a sync pass, tagged with enough context for a
/// caller to decide whether a retry is useful.
#[derive(Debug, Clone, Copy, PartialEq, Eq, Structural)]
pub enum Error {
    /// The remote capability failed during the named phase.
    Remote(SyncPhase),
    /// The store failed during the named phase.
    Store(SyncPhase),
    /// A raw transaction that should have been present could not be found.
    MissingRawTx(Txid),
    /// A previous output referenced by an input could not be resolved.
    MissingPreviousOutput(OutPoint),
    /// Summing transaction amounts exceeded the representable range.
    ValueOverflow(Txid),
}

} // verus!
