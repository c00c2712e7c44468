//! The persistent store the engine commits to: derived scripts, per-chain
//! derivation high-water-marks, raw transactions, summaries and unspent
//! outputs, with an explicit atomic batch as the unit of every write.
//!
//! An implementation (a database backend) may fail any call; a batch that
//! fails to commit counts as not having happened.

use vstd::prelude::*;

use crate::types::{OutPoint, ScriptType, StoreError, Transaction, TransactionDetails,
    TransactionDetailsV, TransactionV, TxOut, TxOutV, Txid, UTXO, UTXOV};

verus! {

/// Mathematical view of the store's contents.
#[verifier::ext_equal]
pub struct DbView {
    /// Derived scripts of the receive chain, in derivation order.
    pub external_scripts: Seq<Seq<u8>>,
    /// Derived scripts of the change chain, in derivation order.
    pub internal_scripts: Seq<Seq<u8>>,
    /// Derivation-index high-water-mark of the receive chain.
    pub external_index: Option<u32>,
    /// Derivation-index high-water-mark of the change chain.
    pub internal_index: Option<u32>,
    /// Raw transactions, content-addressed by identifier.
    pub raw_txs: Map<Txid, TransactionV>,
    /// Wallet-relative summaries, by transaction identifier.
    pub tx_details: Map<Txid, TransactionDetailsV>,
    /// Spendable outputs, by outpoint.
    pub utxos: Map<OutPoint, UTXOV>,
    /// Which scripts the wallet owns, each with its chain and child index.
    pub script_paths: Map<Seq<u8>, (ScriptType, u32)>,
}

impl DbView {
    /// The derived scripts of one chain.
    pub open spec fn scripts_of(self, chain: ScriptType) -> Seq<Seq<u8>> {
        match chain {
            ScriptType::External => self.external_scripts,
            ScriptType::Internal => self.internal_scripts,
        }
    }

    /// The derivation high-water-mark of one chain.
    pub open spec fn index_of(self, chain: ScriptType) -> Option<u32> {
        match chain {
            ScriptType::External => self.external_index,
            ScriptType::Internal => self.internal_index,
        }
    }

    /// The store with one chain's high-water-mark set.
    pub open spec fn with_index(self, chain: ScriptType, value: u32) -> DbView {
        match chain {
            ScriptType::External => DbView { external_index: Some(value), ..self },
            ScriptType::Internal => DbView { internal_index: Some(value), ..self },
        }
    }

    /// Whether a script was derived by this wallet.
    pub open spec fn is_mine(self, script: Seq<u8>) -> bool {
        self.script_paths.dom().contains(script)
    }

    /// Records are keyed consistently: every raw transaction, summary and
    /// unspent output sits under its own identifier.
    pub open spec fn wf(self) -> bool {
        &&& forall|t: Txid| #[trigger]
            self.raw_txs.dom().contains(t) ==> self.raw_txs[t].txid == t
        &&& forall|t: Txid| #[trigger]
            self.tx_details.dom().contains(t) ==> self.tx_details[t].txid == t
        &&& forall|o: OutPoint| #[trigger]
            self.utxos.dom().contains(o) ==> self.utxos[o].outpoint == o
    }
}

/// One deferred write of an atomic batch.
#[derive(Debug)]
pub enum BatchOp {
    SetRawTx(Transaction),
    SetTx(TransactionDetails),
    DelTx(Txid),
    SetUtxo(UTXO),
    DelUtxo(OutPoint),
}

/// Mathematical view of one deferred write.
pub enum BatchOpV {
    SetRawTx(TransactionV),
    SetTx(TransactionDetailsV),
    DelTx(Txid),
    SetUtxo(UTXOV),
    DelUtxo(OutPoint),
}

impl View for BatchOp {
    type V = BatchOpV;

    open spec fn view(&self) -> BatchOpV {
        match self {
            BatchOp::SetRawTx(t) => BatchOpV::SetRawTx(t@),
            BatchOp::SetTx(d) => BatchOpV::SetTx(d@),
            BatchOp::DelTx(t) => BatchOpV::DelTx(*t),
            BatchOp::SetUtxo(u) => BatchOpV::SetUtxo(u@),
            BatchOp::DelUtxo(o) => BatchOpV::DelUtxo(*o),
        }
    }
}

/// The store after one deferred write.
pub open spec fn apply_op(v: DbView, op: BatchOpV) -> DbView {
    match op {
        BatchOpV::SetRawTx(t) => DbView { raw_txs: v.raw_txs.insert(t.txid, t), ..v },
        BatchOpV::SetTx(d) => DbView { tx_details: v.tx_details.insert(d.txid, d), ..v },
        BatchOpV::DelTx(t) => DbView { tx_details: v.tx_details.remove(t), ..v },
        BatchOpV::SetUtxo(u) => DbView { utxos: v.utxos.insert(u.outpoint, u), ..v },
        BatchOpV::DelUtxo(o) => DbView { utxos: v.utxos.remove(o), ..v },
    }
}

/// The store after a run of deferred writes, applied in order.
pub open spec fn apply_batch(v: DbView, ops: Seq<BatchOpV>) -> DbView
    decreases ops.len(),
{
    if ops.len() == 0 {
        v
    } else {
        apply_op(apply_batch(v, ops.drop_last()), ops.last())
    }
}

/// Applying a concatenation applies the two runs one after the other.
pub proof fn lemma_apply_batch_add(v: DbView, a: Seq<BatchOpV>, b: Seq<BatchOpV>)
    ensures
        apply_batch(v, a + b) == apply_batch(apply_batch(v, a), b),
    decreases b.len(),
{
    if b.len() == 0 {
        assert(a + b =~= a);
    } else {
        lemma_apply_batch_add(v, a, b.drop_last());
        assert((a + b).drop_last() =~= a + b.drop_last());
        assert((a + b).last() == b.last());
    }
}

/// An atomic batch under construction: deferred writes that become visible
/// all at once when the batch commits.
pub struct Batch {
    ops: Vec<BatchOp>,
}

impl View for Batch {
    type V = Seq<BatchOpV>;

    closed spec fn view(&self) -> Seq<BatchOpV> {
        self.ops@.map_values(|op: BatchOp| op@)
    }
}

impl Batch {
    /// The deferred writes, in order; a store implementation applies them
    /// when the batch commits.
    pub fn operations(&self) -> (r: &Vec<BatchOp>)
        ensures
            r@.map_values(|op: BatchOp| op@) == self@,
    {
        &self.ops
    }

    /// Begins an empty batch.
    pub fn begin() -> (r: Batch)
        ensures
            r@ == Seq::<BatchOpV>::empty(),
    {
        let r = Batch { ops: Vec::new() };
        proof {
            assert(r@ =~= Seq::<BatchOpV>::empty());
        }
        r
    }

    /// Defers a raw-transaction write.
    pub fn set_raw_tx(&mut self, tx: &Transaction)
        ensures
            final(self)@ == old(self)@.push(BatchOpV::SetRawTx(tx@)),
    {
        self.ops.push(BatchOp::SetRawTx(tx.clone()));
        proof {
            assert(final(self)@ =~= old(self)@.push(BatchOpV::SetRawTx(tx@)));
        }
    }

    /// Defers a summary write.
    pub fn set_tx(&mut self, details: &TransactionDetails)
        ensures
            final(self)@ == old(self)@.push(BatchOpV::SetTx(details@)),
    {
        self.ops.push(BatchOp::SetTx(details.clone()));
        proof {
            assert(final(self)@ =~= old(self)@.push(BatchOpV::SetTx(details@)));
        }
    }

    /// Defers a summary deletion.
    pub fn del_tx(&mut self, txid: Txid)
        ensures
            final(self)@ == old(self)@.push(BatchOpV::DelTx(txid)),
    {
        self.ops.push(BatchOp::DelTx(txid));
        proof {
            assert(final(self)@ =~= old(self)@.push(BatchOpV::DelTx(txid)));
        }
    }

    /// Defers an unspent-output write.
    pub fn set_utxo(&mut self, utxo: &UTXO)
        ensures
            final(self)@ == old(self)@.push(BatchOpV::SetUtxo(utxo@)),
    {
        self.ops.push(BatchOp::SetUtxo(utxo.clone()));
        proof {
            assert(final(self)@ =~= old(self)@.push(BatchOpV::SetUtxo(utxo@)));
        }
    }

    /// Defers an unspent-output deletion.
    pub fn del_utxo(&mut self, outpoint: &OutPoint)
        ensures
            final(self)@ == old(self)@.push(BatchOpV::DelUtxo(*outpoint)),
    {
        self.ops.push(BatchOp::DelUtxo(*outpoint));
        proof {
            assert(final(self)@ =~= old(self)@.push(BatchOpV::DelUtxo(*outpoint)));
        }
    }
}

/// The persistent, batch-transactional store the sync engine reads and
/// commits to.  An implementation may fail any call; a successful answer
/// must agree with the store view, and a failed mutation leaves it unchanged.
pub trait BatchDatabase: Sized {
    /// The current contents of the store.
    spec fn db(&self) -> DbView;

    /// The derived scripts of one chain (or of both, receive chain first),
    /// in derivation order.
    fn iter_script_pubkeys(&self, chain: Option<ScriptType>) -> (r: Result<
        Vec<Vec<u8>>,
        StoreError,
    >)
        ensures
            r matches Ok(v) ==> v.deep_view() == match chain {
                Some(c) => self.db().scripts_of(c),
                None => self.db().scripts_of(ScriptType::External)
                    + self.db().scripts_of(ScriptType::Internal),
            },
    ;

    /// The derivation high-water-mark of one chain.
    fn get_last_index(&self, chain: ScriptType) -> (r: Result<Option<u32>, StoreError>)
        ensures
            r matches Ok(v) ==> v == self.db().index_of(chain),
    ;

    /// Sets the derivation high-water-mark of one chain.
    fn set_last_index(&mut self, chain: ScriptType, value: u32) -> (r: Result<(), StoreError>)
        ensures
            r is Ok ==> final(self).db() == old(self).db().with_index(chain, value),
            r is Err ==> final(self).db() == old(self).db(),
    ;

    /// The raw transaction stored under an identifier, if any.
    fn get_raw_tx(&self, txid: &Txid) -> (r: Result<Option<Transaction>, StoreError>)
        ensures
            r matches Ok(v) ==> match v {
                Some(tx) => self.db().raw_txs.contains_pair(*txid, tx@),
                None => !self.db().raw_txs.dom().contains(*txid),
            },
    ;

    /// All stored raw transactions, one per identifier.
    fn iter_raw_txs(&self) -> (r: Result<Vec<Transaction>, StoreError>)
        ensures
            r matches Ok(v) ==> {
                &&& forall|i: int|
                    0 <= i < v@.len() ==> self.db().raw_txs.contains_pair(
                        (#[trigger] v@[i])@.txid,
                        v@[i]@,
                    )
                &&& forall|t: Txid| #[trigger]
                    self.db().raw_txs.dom().contains(t) ==> exists|i: int|
                        0 <= i < v@.len() && (#[trigger] v@[i])@.txid == t
            },
    ;

    /// All stored summaries, one per identifier.  When `include_raw` is
    /// false the embedded raw transaction may be omitted; the identifiers
    /// are authoritative either way.
    fn iter_txs(&self, include_raw: bool) -> (r: Result<Vec<TransactionDetails>, StoreError>)
        ensures
            r matches Ok(v) ==> {
                &&& forall|i: int|
                    0 <= i < v@.len() ==> self.db().tx_details.dom().contains(
                        (#[trigger] v@[i])@.txid,
                    )
                &&& forall|t: Txid| #[trigger]
                    self.db().tx_details.dom().contains(t) ==> exists|i: int|
                        0 <= i < v@.len() && (#[trigger] v@[i])@.txid == t
            },
    ;

    /// All stored unspent outputs, one per outpoint.
    fn iter_utxos(&self) -> (r: Result<Vec<UTXO>, StoreError>)
        ensures
            r matches Ok(v) ==> {
                &&& forall|i: int|
                    0 <= i < v@.len() ==> self.db().utxos.contains_pair(
                        (#[trigger] v@[i])@.outpoint,
                        v@[i]@,
                    )
                &&& forall|o: OutPoint| #[trigger]
                    self.db().utxos.dom().contains(o) ==> exists|i: int|
                        0 <= i < v@.len() && (#[trigger] v@[i])@.outpoint == o
            },
    ;

    /// The chain and child index a script was derived under, if the wallet
    /// owns it.
    fn get_path_from_script_pubkey(&self, script: &Vec<u8>) -> (r: Result<
        Option<(ScriptType, u32)>,
        StoreError,
    >)
        ensures
            r matches Ok(v) ==> v == if self.db().script_paths.dom().contains(script@) {
                Some(self.db().script_paths[script@])
            } else {
                None::<(ScriptType, u32)>
            },
    ;

    /// Commits a batch atomically: all of its writes become visible, or,
    /// on failure, none.
    fn commit_batch(&mut self, batch: Batch) -> (r: Result<(), StoreError>)
        ensures
            r is Ok ==> final(self).db() == apply_batch(old(self).db(), batch@),
            r is Err ==> final(self).db() == old(self).db(),
    ;
}

/// Resolves the output an input spends: the stored raw transaction of the
/// referenced identifier, at the referenced position.
pub fn get_previous_output<D: BatchDatabase>(database: &D, outpoint: &OutPoint) -> (r: Result<
    Option<TxOut>,
    StoreError,
>)
    ensures
        r matches Ok(v) ==> match v {
            Some(out) => spec_previous_output(database.db(), *outpoint) == Some(out@),
            None => spec_previous_output(database.db(), *outpoint) is None,
        },
{
    match database.get_raw_tx(&outpoint.txid)? {
        Some(tx) => {
            if (outpoint.vout as usize) < tx.output.len() {
                let out = tx.output[outpoint.vout as usize].clone();
                Ok(Some(out))
            } else {
                Ok(None)
            }
        },
        None => Ok(None),
    }
}

/// The output an input spends, as the store view resolves it.
pub open spec fn spec_previous_output(v: DbView, outpoint: OutPoint) -> Option<TxOutV> {
    if v.raw_txs.dom().contains(outpoint.txid)
        && outpoint.vout < v.raw_txs[outpoint.txid].output.len() {
        Some(v.raw_txs[outpoint.txid].output[outpoint.vout as int])
    } else {
        None
    }
}

/// Whether the wallet owns a script.
pub fn is_mine<D: BatchDatabase>(database: &D, script: &Vec<u8>) -> (r: Result<bool, StoreError>)
    ensures
        r matches Ok(v) ==> v == database.db().is_mine(script@),
{
    Ok(database.get_path_from_script_pubkey(script)?.is_some())
}

} // verus!
