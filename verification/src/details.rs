//! Recomputing one transaction's wallet-relative summary: amounts received
//! and sent, the fee paid, and the unspent outputs the transaction creates.

use vstd::prelude::*;

use crate::store::{get_previous_output, spec_previous_output, Batch, BatchDatabase, BatchOpV,
    DbView};
use crate::types::{Error, OutPoint, SyncPhase, Transaction, TransactionDetailsV, TransactionV,
    TxIn, Txid, UTXO, UTXOV};

verus! {

/// The value an input contributes to the fee computation: the value of the
/// output it spends, or zero for a coinbase input or an unresolvable one.
pub open spec fn spec_input_value(v: DbView, input: TxIn) -> int {
    if input.previous_output.spec_is_null() {
        0
    } else {
        match spec_previous_output(v, input.previous_output) {
            Some(out) => out.value as int,
            None => 0,
        }
    }
}

/// Whether the first `n` inputs all spend outputs the store can resolve
/// (coinbase inputs resolve trivially).
pub open spec fn spec_inputs_resolvable(v: DbView, tx: TransactionV, n: int) -> bool {
    forall|i: int|
        0 <= i < n ==> ((#[trigger] tx.input[i]).previous_output.spec_is_null()
            || spec_previous_output(v, tx.input[i].previous_output) is Some)
}

/// Sum of the values spent by the first `n` inputs.
pub open spec fn spec_inputs_sum(v: DbView, tx: TransactionV, n: int) -> int
    decreases n,
{
    if n <= 0 {
        0
    } else {
        spec_inputs_sum(v, tx, n - 1) + spec_input_value(v, tx.input[n - 1])
    }
}

/// Sum of the values spent by the first `n` inputs from wallet-owned
/// outputs: the amount the wallet sent.
pub open spec fn spec_sent_sum(v: DbView, tx: TransactionV, n: int) -> int
    decreases n,
{
    if n <= 0 {
        0
    } else {
        spec_sent_sum(v, tx, n - 1) + {
            let input = tx.input[n - 1];
            if !input.previous_output.spec_is_null() && match spec_previous_output(
                v,
                input.previous_output,
            ) {
                Some(out) => v.is_mine(out.script_pubkey),
                None => false,
            } {
                spec_input_value(v, input)
            } else {
                0
            }
        }
    }
}

/// Sum of the values of the first `n` outputs.
pub open spec fn spec_outputs_sum(tx: TransactionV, n: int) -> int
    decreases n,
{
    if n <= 0 {
        0
    } else {
        spec_outputs_sum(tx, n - 1) + tx.output[n - 1].value
    }
}

/// Sum of the values of the first `n` outputs that pay wallet-owned
/// scripts: the amount the wallet received.
pub open spec fn spec_received_sum(v: DbView, tx: TransactionV, n: int) -> int
    decreases n,
{
    if n <= 0 {
        0
    } else {
        spec_received_sum(v, tx, n - 1) + if v.is_mine(tx.output[n - 1].script_pubkey) {
            tx.output[n - 1].value as int
        } else {
            0
        }
    }
}

/// Sums over more inputs never shrink.
pub proof fn lemma_inputs_sum_mono(v: DbView, tx: TransactionV, a: int, b: int)
    requires
        a <= b,
    ensures
        spec_inputs_sum(v, tx, a) <= spec_inputs_sum(v, tx, b),
    decreases b - a,
{
    if a < b {
        lemma_inputs_sum_mono(v, tx, a, b - 1);
    }
}

/// What the wallet sent is part of what the inputs spent.
pub proof fn lemma_sent_le_inputs(v: DbView, tx: TransactionV, n: int)
    ensures
        0 <= spec_sent_sum(v, tx, n),
        spec_sent_sum(v, tx, n) <= spec_inputs_sum(v, tx, n),
    decreases n,
{
    if n > 0 {
        lemma_sent_le_inputs(v, tx, n - 1);
    }
}

/// Sums over more outputs never shrink.
pub proof fn lemma_outputs_sum_mono(tx: TransactionV, a: int, b: int)
    requires
        a <= b,
    ensures
        spec_outputs_sum(tx, a) <= spec_outputs_sum(tx, b),
    decreases b - a,
{
    if a < b {
        lemma_outputs_sum_mono(tx, a, b - 1);
    }
}

/// What the wallet received is part of what the outputs carry.
pub proof fn lemma_received_le_outputs(v: DbView, tx: TransactionV, n: int)
    ensures
        0 <= spec_received_sum(v, tx, n),
        spec_received_sum(v, tx, n) <= spec_outputs_sum(tx, n),
    decreases n,
{
    if n > 0 {
        lemma_received_le_outputs(v, tx, n - 1);
    }
}

/// The inputs on which the summary computation succeeds: the raw
/// transaction is stored, every non-coinbase input resolves, and the two
/// amount sums fit the representable range.
pub open spec fn spec_details_computable(v: DbView, txid: Txid) -> bool {
    &&& v.raw_txs.dom().contains(txid)
    &&& v.raw_txs[txid].output.len() <= u32::MAX
    &&& spec_inputs_resolvable(v, v.raw_txs[txid], v.raw_txs[txid].input.len() as int)
    &&& spec_inputs_sum(v, v.raw_txs[txid], v.raw_txs[txid].input.len() as int) <= u64::MAX
    &&& spec_outputs_sum(v.raw_txs[txid], v.raw_txs[txid].output.len() as int) <= u64::MAX
}

/// The fee a transaction paid: what the inputs spent minus what the outputs
/// carry, clamped at zero (a coinbase transaction would otherwise go
/// negative).
pub open spec fn spec_fees(v: DbView, tx: TransactionV) -> int {
    let ins = spec_inputs_sum(v, tx, tx.input.len() as int);
    let outs = spec_outputs_sum(tx, tx.output.len() as int);
    if ins >= outs {
        ins - outs
    } else {
        0
    }
}

/// The summary the engine derives for a stored transaction.
pub open spec fn spec_details(v: DbView, txid: Txid, timestamp: u64, height: Option<u32>)
    -> TransactionDetailsV {
    let tx = v.raw_txs[txid];
    TransactionDetailsV {
        txid: tx.txid,
        transaction: Some(tx),
        received: spec_received_sum(v, tx, tx.output.len() as int) as u64,
        sent: spec_sent_sum(v, tx, tx.input.len() as int) as u64,
        height,
        timestamp,
        fees: spec_fees(v, tx) as u64,
    }
}

/// The unspent output a wallet-owned output of `tx` becomes.
pub open spec fn spec_utxo(v: DbView, tx: TransactionV, i: int) -> UTXOV {
    UTXOV {
        outpoint: OutPoint { txid: tx.txid, vout: i as u32 },
        txout: tx.output[i],
        is_internal: v.script_paths[tx.output[i].script_pubkey].0 is Internal,
    }
}

/// The deferred unspent-output writes for the first `n` outputs of `tx`:
/// one per wallet-owned output, in output order.
pub open spec fn spec_utxo_ops(v: DbView, tx: TransactionV, n: int) -> Seq<BatchOpV>
    decreases n,
{
    if n <= 0 {
        Seq::empty()
    } else {
        spec_utxo_ops(v, tx, n - 1) + if v.is_mine(tx.output[n - 1].script_pubkey) {
            seq![BatchOpV::SetUtxo(spec_utxo(v, tx, n - 1))]
        } else {
            Seq::<BatchOpV>::empty()
        }
    }
}

/// The deferred writes the summary computation appends for `txid`: its
/// unspent outputs, then the summary itself.
pub open spec fn spec_details_ops(v: DbView, txid: Txid, timestamp: u64, height: Option<u32>)
    -> Seq<BatchOpV> {
    spec_utxo_ops(v, v.raw_txs[txid], v.raw_txs[txid].output.len() as int)
        + seq![BatchOpV::SetTx(spec_details(v, txid, timestamp, height))]
}

/// Recomputes the summary of one stored transaction and defers its writes:
/// an unspent-output record per wallet-owned output, then the summary.
///
/// Succeeds exactly on the inputs `spec_details_computable` admits, unless
/// the store itself fails.
pub fn save_transaction_details_and_utxos<D: BatchDatabase>(
    txid: Txid,
    database: &D,
    timestamp: u64,
    height: Option<u32>,
    updates: &mut Batch,
) -> (r: Result<(), Error>)
    ensures
        r is Ok ==> {
            &&& spec_details_computable(database.db(), txid)
            &&& final(updates)@ == old(updates)@ + spec_details_ops(
                database.db(),
                txid,
                timestamp,
                height,
            )
        },
        r matches Err(e) ==> {
            &&& (e == Error::Store(SyncPhase::Reconcile) || !spec_details_computable(
                database.db(),
                txid,
            ))
            &&& (e == Error::Store(SyncPhase::Reconcile) || (e matches Error::MissingRawTx(_))
                || (e matches Error::MissingPreviousOutput(_)) || (e matches Error::ValueOverflow(
                _,
            )))
        },
{
    let ghost v = database.db();
    let tx: Transaction = match database.get_raw_tx(&txid) {
        Ok(Some(tx)) => tx,
        Ok(None) => {
            return Err(Error::MissingRawTx(txid));
        },
        Err(_) => {
            return Err(Error::Store(SyncPhase::Reconcile));
        },
    };
    proof {
        assert(v.raw_txs.contains_pair(txid, tx@));
    }
    let ghost txv = tx@;
    let n_inputs = tx.input.len();
    let n_outputs = tx.output.len();
    if n_outputs > u32::MAX as usize {
        return Err(Error::ValueOverflow(txid));
    }

    let mut incoming: u64 = 0;
    let mut outgoing: u64 = 0;
    let mut inputs_sum: u64 = 0;
    let mut outputs_sum: u64 = 0;

    let mut i: usize = 0;
    while i < n_inputs
        invariant
            v == database.db(),
            v.raw_txs.contains_pair(txid, txv),
            txv == tx@,
            n_inputs == txv.input.len(),
            i <= n_inputs,
            spec_inputs_resolvable(v, txv, i as int),
            inputs_sum == spec_inputs_sum(v, txv, i as int),
            outgoing == spec_sent_sum(v, txv, i as int),
        decreases n_inputs - i,
    {
        let input = tx.input[i];
        if input.previous_output.is_null() {
            i += 1;
            continue;
        }
        let prev = match get_previous_output(database, &input.previous_output) {
            Ok(Some(prev)) => prev,
            Ok(None) => {
                proof {
                    assert(!spec_inputs_resolvable(v, txv, txv.input.len() as int));
                }
                return Err(Error::MissingPreviousOutput(input.previous_output));
            },
            Err(_) => {
                return Err(Error::Store(SyncPhase::Reconcile));
            },
        };
        inputs_sum = match inputs_sum.checked_add(prev.value) {
            Some(s) => s,
            None => {
                proof {
                    lemma_inputs_sum_mono(v, txv, i + 1, txv.input.len() as int);
                }
                return Err(Error::ValueOverflow(txid));
            },
        };
        let mine = match crate::store::is_mine(database, &prev.script_pubkey) {
            Ok(m) => m,
            Err(_) => {
                return Err(Error::Store(SyncPhase::Reconcile));
            },
        };
        if mine {
            proof {
                lemma_sent_le_inputs(v, txv, i as int);
            }
            outgoing = outgoing + prev.value;
        }
        i += 1;
    }
    proof {
        lemma_sent_le_inputs(v, txv, n_inputs as int);
    }

    let ghost entry_ops = updates@;
    let mut j: usize = 0;
    while j < n_outputs
        invariant
            v == database.db(),
            v.raw_txs.contains_pair(txid, txv),
            txv == tx@,
            n_outputs == txv.output.len(),
            j <= n_outputs,
            outputs_sum == spec_outputs_sum(txv, j as int),
            incoming == spec_received_sum(v, txv, j as int),
            updates@ == entry_ops + spec_utxo_ops(v, txv, j as int),
        decreases n_outputs - j,
    {
        let value = tx.output[j].value;
        outputs_sum = match outputs_sum.checked_add(value) {
            Some(s) => s,
            None => {
                proof {
                    lemma_outputs_sum_mono(txv, j + 1, txv.output.len() as int);
                }
                return Err(Error::ValueOverflow(txid));
            },
        };
        let path = match database.get_path_from_script_pubkey(&tx.output[j].script_pubkey) {
            Ok(p) => p,
            Err(_) => {
                return Err(Error::Store(SyncPhase::Reconcile));
            },
        };
        if let Some((script_type, _child)) = path {
            let utxo = UTXO {
                outpoint: OutPoint::new(tx.txid, #[verifier::truncate] (j as u32)),
                txout: tx.output[j].clone(),
                is_internal: script_type.is_internal(),
            };
            updates.set_utxo(&utxo);
            proof {
                lemma_received_le_outputs(v, txv, j as int);
                assert(utxo@ == spec_utxo(v, txv, j as int));
                assert(updates@ =~= entry_ops + spec_utxo_ops(v, txv, j + 1));
            }
            incoming = incoming + value;
        } else {
            proof {
                assert(updates@ =~= entry_ops + spec_utxo_ops(v, txv, j + 1));
            }
        }
        j += 1;
    }
    proof {
        lemma_received_le_outputs(v, txv, n_outputs as int);
    }

    let fees = if inputs_sum >= outputs_sum {
        inputs_sum - outputs_sum
    } else {
        0
    };
    let details = crate::types::TransactionDetails {
        txid: tx.txid,
        transaction: Some(tx),
        received: incoming,
        sent: outgoing,
        height,
        timestamp,
        fees,
    };
    updates.set_tx(&details);
    proof {
        assert(details@ == spec_details(v, txid, timestamp, height));
        assert(updates@ =~= entry_ops + spec_details_ops(v, txid, timestamp, height));
    }
    Ok(())
}

/// The position of the last listing with a non-empty history, if any.
pub open spec fn spec_find_max_index(rows: Seq<Seq<crate::types::ELSGetHistoryRes>>) -> Option<
    int,
>
    decreases rows.len(),
{
    if rows.len() == 0 {
        None
    } else if rows.last().len() != 0 {
        Some(rows.len() - 1)
    } else {
        spec_find_max_index(rows.drop_last())
    }
}

/// A reported position is in range and names a non-empty history.
pub proof fn lemma_find_max_bounds(rows: Seq<Seq<crate::types::ELSGetHistoryRes>>)
    ensures
        match spec_find_max_index(rows) {
            Some(p) => 0 <= p < rows.len() && rows[p].len() != 0,
            None => true,
        },
    decreases rows.len(),
{
    if rows.len() > 0 && rows.last().len() == 0 {
        lemma_find_max_bounds(rows.drop_last());
        if spec_find_max_index(rows.drop_last()) is Some {
            let p = spec_find_max_index(rows.drop_last())->0;
            assert(rows.drop_last()[p] == rows[p]);
        }
    }
}

/// Per-script view of a batched history answer.
pub open spec fn rows_view(rows: Seq<Vec<crate::types::ELSGetHistoryRes>>) -> Seq<
    Seq<crate::types::ELSGetHistoryRes>,
> {
    rows.map_values(|r: Vec<crate::types::ELSGetHistoryRes>| r@)
}

/// The highest position in a batched history answer whose script has any
/// activity.
pub fn find_max_index(vec: &Vec<Vec<crate::types::ELSGetHistoryRes>>) -> (r: Option<u32>)
    requires
        vec@.len() <= u32::MAX,
    ensures
        r == match spec_find_max_index(rows_view(vec@)) {
            Some(p) => Some(p as u32),
            None => None::<u32>,
        },
{
    let mut i: usize = vec.len();
    proof {
        assert(rows_view(vec@).take(vec@.len() as int) =~= rows_view(vec@));
    }
    while i > 0
        invariant
            i <= vec@.len() <= u32::MAX,
            spec_find_max_index(rows_view(vec@)) == spec_find_max_index(
                rows_view(vec@).take(i as int),
            ),
        decreases i,
    {
        i = i - 1;
        if vec[i].len() > 0 {
            proof {
                assert(rows_view(vec@).take(i + 1).last() == vec@[i as int]@);
                assert(spec_find_max_index(rows_view(vec@).take(i + 1)) == Some(i as int));
            }
            return Some(i as u32);
        }
        proof {
            assert(rows_view(vec@).take(i + 1).last() == vec@[i as int]@);
            assert(rows_view(vec@).take(i + 1).drop_last() =~= rows_view(vec@).take(i as int));
        }
    }
    proof {
        assert(rows_view(vec@).take(0) =~= Seq::<Seq<crate::types::ELSGetHistoryRes>>::empty());
    }
    None
}

} // verus!
