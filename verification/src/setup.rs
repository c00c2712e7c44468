//! The reconciliation and commit engine: one sync pass.
//!
//! A pass scans both derivation chains, raises the per-chain high-water
//! marks, downloads the missing transaction graph, resolves timestamps,
//! recomputes the summaries and unspent outputs of every touched
//! transaction, deletes the summaries of transactions that vanished from
//! history, and deletes every unspent output consumed by a downloaded
//! transaction — each step in one atomic batch.
//!
//! `spec_sync_result` is the whole pass as a function of the store's and
//! the remote's views; `electrum_like_setup` commits exactly that.

use vstd::prelude::*;

use crate::client::{ElectrumLikeSync, RemoteView};
use crate::collections::{IdMap, TxidSet};
use crate::details::{save_transaction_details_and_utxos, spec_details, spec_details_ops,
    spec_utxo, spec_utxo_ops};
use crate::download::{download_needed_raw_txs, spec_download_ids};
use crate::headers::{download_needed_headers, spec_txid_timestamps};
use crate::scan::{heights_prefix, hist_heights_prefix, hist_txids_prefix, scan_chain,
    spec_chain_heights, spec_chain_max_active, spec_chain_touched, spec_covered, touched_prefix};
use crate::store::{apply_batch, apply_op, Batch, BatchDatabase, BatchOpV, DbView};
use crate::types::{ELSGetHistoryRes, Error, OutPoint, ScriptType, SyncPhase, TransactionV,
    Txid};

verus! {

/// The stop-gap a pass runs with: the caller's, or the wallet-standard 20.
pub open spec fn spec_gap(stop_gap: Option<usize>) -> int {
    match stop_gap {
        Some(s) => s as int,
        None => 20,
    }
}

/// The chain that is not `c`.
pub open spec fn other_chain(c: ScriptType) -> ScriptType {
    match c {
        ScriptType::External => ScriptType::Internal,
        ScriptType::Internal => ScriptType::External,
    }
}

/// The high-water-mark one chain scan proposes: one past the highest script
/// index with activity, or nothing when the whole scan saw none.
pub open spec fn spec_chain_candidate(r: RemoteView, s: Seq<Seq<u8>>, g: int) -> Option<u32> {
    match spec_chain_max_active(r, s, g) {
        Some(i) => Some((i + 1) as u32),
        None => None,
    }
}

/// A high-water-mark is only ever raised, never lowered.
pub open spec fn spec_new_index(old_index: Option<u32>, candidate: Option<u32>) -> Option<u32> {
    match candidate {
        Some(c) => match old_index {
            Some(o) => if c > o {
                Some(c)
            } else {
                Some(o)
            },
            None => Some(c),
        },
        None => old_index,
    }
}

/// The store after both chains' high-water-marks are raised.
pub open spec fn spec_indexes_updated(v: DbView, r: RemoteView, g: int) -> DbView {
    DbView {
        external_index: spec_new_index(
            v.external_index,
            spec_chain_candidate(r, v.external_scripts, g),
        ),
        internal_index: spec_new_index(
            v.internal_index,
            spec_chain_candidate(r, v.internal_scripts, g),
        ),
        ..v
    }
}

/// Every transaction identifier either chain scan touches.
pub open spec fn spec_touched(v: DbView, r: RemoteView, g: int) -> Set<Txid> {
    spec_chain_touched(r, v.external_scripts, g).union(
        spec_chain_touched(r, v.internal_scripts, g),
    )
}

/// The accumulated height map when the chain `first` is scanned first: the
/// second chain's writes win where the two disagree.
pub open spec fn spec_pass_heights(v: DbView, r: RemoteView, g: int, first: ScriptType) -> Map<
    Txid,
    Option<u32>,
> {
    spec_chain_heights(r, v.scripts_of(first), g).union_prefer_right(
        spec_chain_heights(r, v.scripts_of(other_chain(first)), g),
    )
}

/// The unspent outputs created by summarizing the transactions in
/// `new_keys`: one record per wallet-owned output of each.
pub open spec fn spec_created_utxos(v2: DbView, new_keys: Set<Txid>) -> Map<
    OutPoint,
    crate::types::UTXOV,
> {
    Map::new(
        |op: OutPoint|
            {
                &&& new_keys.contains(op.txid)
                &&& v2.raw_txs.dom().contains(op.txid)
                &&& v2.raw_txs[op.txid].txid == op.txid
                &&& op.vout < v2.raw_txs[op.txid].output.len()
                &&& v2.is_mine(v2.raw_txs[op.txid].output[op.vout as int].script_pubkey)
            },
        |op: OutPoint| spec_utxo(v2, v2.raw_txs[op.txid], op.vout as int),
    )
}

/// Every outpoint consumed by an input of a downloaded transaction.
pub open spec fn spec_spent_outpoints(r: RemoteView, dl: Set<Txid>) -> Set<OutPoint> {
    Set::new(
        |op: OutPoint|
            exists|t: Txid|
                #[trigger] dl.contains(t) && r.txs.dom().contains(t) && exists|i: int|
                    0 <= i < r.txs[t].input.len() && (#[trigger] r.txs[t].input[i]).previous_output
                        == op,
    )
}

/// The store after one chain's high-water-mark has been raised and the
/// other's not yet touched: the state a pass commits first.
pub open spec fn spec_one_index_raised(v: DbView, r: RemoteView, g: int, chain: ScriptType)
    -> DbView {
    match chain {
        ScriptType::External => DbView {
            external_index: spec_new_index(
                v.external_index,
                spec_chain_candidate(r, v.external_scripts, g),
            ),
            ..v
        },
        ScriptType::Internal => DbView {
            internal_index: spec_new_index(
                v.internal_index,
                spec_chain_candidate(r, v.internal_scripts, g),
            ),
            ..v
        },
    }
}

/// The store after the downloaded raw transactions are committed.
pub open spec fn spec_after_download(v: DbView, r: RemoteView, g: int) -> DbView {
    let touched = spec_touched(v, r, g);
    let dl = spec_download_ids(r, touched, v.raw_txs.dom());
    let raw2 = v.raw_txs.union_prefer_right(Map::new(|t: Txid| dl.contains(t), |t: Txid| r.txs[t]));
    DbView { raw_txs: raw2, ..spec_indexes_updated(v, r, g) }
}

/// The store after the new summaries and their unspent outputs are
/// committed.
pub open spec fn spec_after_summaries(v: DbView, r: RemoteView, g: int, first: ScriptType)
    -> DbView {
    let touched = spec_touched(v, r, g);
    let hm = spec_pass_heights(v, r, g, first);
    let v2 = spec_after_download(v, r, g);
    let ts = spec_txid_timestamps(r, hm, v.tx_details.dom());
    let new_keys = touched.difference(v.tx_details.dom());
    let new_details = Map::new(
        |t: Txid| new_keys.contains(t),
        |t: Txid|
            spec_details(
                v2,
                t,
                if ts.dom().contains(t) {
                    ts[t]
                } else {
                    0
                },
                hm[t],
            ),
    );
    DbView {
        tx_details: v2.tx_details.union_prefer_right(new_details),
        utxos: v2.utxos.union_prefer_right(spec_created_utxos(v2, new_keys)),
        ..v2
    }
}

/// The store after the vanished summaries and their unspent outputs are
/// deleted.
pub open spec fn spec_after_deletions(v: DbView, r: RemoteView, g: int, first: ScriptType)
    -> DbView {
    let touched = spec_touched(v, r, g);
    let v3 = spec_after_summaries(v, r, g, first);
    let stale = v3.tx_details.dom().difference(touched);
    DbView {
        tx_details: v3.tx_details.remove_keys(stale),
        utxos: v3.utxos.remove_keys(Set::new(|op: OutPoint| stale.contains(op.txid))),
        ..v3
    }
}

/// The store after one whole sync pass against remote view `r` with
/// stop-gap `g`, scanning the chain `first` first.
pub open spec fn spec_sync_result(v: DbView, r: RemoteView, g: int, first: ScriptType) -> DbView {
    let touched = spec_touched(v, r, g);
    let dl = spec_download_ids(r, touched, v.raw_txs.dom());
    let v4 = spec_after_deletions(v, r, g, first);
    DbView { utxos: v4.utxos.remove_keys(spec_spent_outpoints(r, dl)), ..v4 }
}

/// The phase a propagated error belongs to; a data fault (a missing record
/// or an amount out of range) surfaces while reconciling.
pub open spec fn spec_error_phase(e: Error) -> SyncPhase {
    match e {
        Error::Remote(p) => p,
        Error::Store(p) => p,
        Error::MissingRawTx(_) => SyncPhase::Reconcile,
        Error::MissingPreviousOutput(_) => SyncPhase::Reconcile,
        Error::ValueOverflow(_) => SyncPhase::Reconcile,
    }
}

/// Where a failing pass leaves the store: exactly the state after the last
/// batch that committed — never a partially visible batch — and the error's
/// phase names the step that failed.
pub open spec fn spec_err_state(
    db: DbView,
    v: DbView,
    r: RemoteView,
    g: int,
    e: Error,
    first: ScriptType,
) -> bool {
    ||| ((db == v || db == spec_one_index_raised(v, r, g, first)) && spec_error_phase(e)
        is Scan)
    ||| (db == spec_indexes_updated(v, r, g) && (spec_error_phase(e) is Download
        || spec_error_phase(e) is ResolveTimestamps))
    ||| (db == spec_after_download(v, r, g) && spec_error_phase(e) is Reconcile)
    ||| (db == spec_after_summaries(v, r, g, first) && spec_error_phase(e) is Reconcile)
    ||| (db == spec_after_deletions(v, r, g, first) && spec_error_phase(e) is Reconcile)
}

/// Entry identifiers and entry heights cover the same identifiers.
proof fn lemma_hist_dom(es: Seq<ELSGetHistoryRes>, n: int)
    ensures
        hist_heights_prefix(es, n).dom() == hist_txids_prefix(es, n),
    decreases n,
{
    if n <= 0 {
        assert(hist_heights_prefix(es, n).dom() =~= hist_txids_prefix(es, n));
    } else {
        lemma_hist_dom(es, n - 1);
        assert(hist_heights_prefix(es, n).dom() =~= hist_txids_prefix(es, n));
    }
}

/// A chain scan records a height for exactly the identifiers it touches.
pub proof fn lemma_heights_dom(r: RemoteView, s: Seq<Seq<u8>>, m: int)
    ensures
        heights_prefix(r, s, m).dom() == touched_prefix(r, s, m),
    decreases m,
{
    if m > 0 {
        lemma_heights_dom(r, s, m - 1);
        let es = r.history_of(s[m - 1]);
        lemma_hist_dom(es, es.len() as int);
        assert(heights_prefix(r, s, m).dom() =~= touched_prefix(r, s, m));
    } else {
        assert(heights_prefix(r, s, m).dom() =~= touched_prefix(r, s, m));
    }
}

/// Applying the deferred unspent-output writes of one transaction's first
/// `n` outputs adds exactly its wallet-owned outpoints below `n`.
proof fn lemma_utxo_ops_apply(v: DbView, w: DbView, tx: TransactionV, n: int)
    requires
        0 <= n <= tx.output.len() <= u32::MAX,
    ensures
        apply_batch(w, spec_utxo_ops(v, tx, n)) == (DbView {
            utxos: w.utxos.union_prefer_right(
                Map::new(
                    |op: OutPoint|
                        op.txid == tx.txid && op.vout < n && v.is_mine(
                            tx.output[op.vout as int].script_pubkey,
                        ),
                    |op: OutPoint| spec_utxo(v, tx, op.vout as int),
                ),
            ),
            ..w
        }),
    decreases n,
{
    let target = DbView {
        utxos: w.utxos.union_prefer_right(
            Map::new(
                |op: OutPoint|
                    op.txid == tx.txid && op.vout < n && v.is_mine(
                        tx.output[op.vout as int].script_pubkey,
                    ),
                |op: OutPoint| spec_utxo(v, tx, op.vout as int),
            ),
        ),
        ..w
    };
    if n == 0 {
        assert(target.utxos =~= w.utxos);
        assert(apply_batch(w, spec_utxo_ops(v, tx, 0)) =~= target);
    } else {
        lemma_utxo_ops_apply(v, w, tx, n - 1);
        let prev = apply_batch(w, spec_utxo_ops(v, tx, n - 1));
        crate::store::lemma_apply_batch_add(
            w,
            spec_utxo_ops(v, tx, n - 1),
            if v.is_mine(tx.output[n - 1].script_pubkey) {
                seq![BatchOpV::SetUtxo(spec_utxo(v, tx, n - 1))]
            } else {
                Seq::<BatchOpV>::empty()
            },
        );
        if v.is_mine(tx.output[n - 1].script_pubkey) {
            let u = spec_utxo(v, tx, n - 1);
            let ops = seq![BatchOpV::SetUtxo(u)];
            assert(ops.drop_last() =~= Seq::<BatchOpV>::empty());
            assert(apply_batch(prev, ops) == apply_op(prev, BatchOpV::SetUtxo(u)));
            assert(u.outpoint == OutPoint { txid: tx.txid, vout: (n - 1) as u32 });
            assert(target.utxos =~= prev.utxos.insert(u.outpoint, u));
        } else {
            assert(apply_batch(prev, Seq::<BatchOpV>::empty()) == prev);
            assert(target.utxos =~= prev.utxos);
        }
    }
}

/// Applying one transaction's deferred writes adds its summary and its
/// wallet-owned outpoints.
pub proof fn lemma_details_ops_apply(
    v: DbView,
    w: DbView,
    t: Txid,
    ts: u64,
    h: Option<u32>,
)
    requires
        v.raw_txs.dom().contains(t),
        v.raw_txs[t].txid == t,
        v.raw_txs[t].output.len() <= u32::MAX,
    ensures
        apply_batch(w, spec_details_ops(v, t, ts, h)) == (DbView {
            tx_details: w.tx_details.insert(t, spec_details(v, t, ts, h)),
            utxos: w.utxos.union_prefer_right(spec_created_utxos(v, Set::empty().insert(t))),
            ..w
        }),
{
    let tx = v.raw_txs[t];
    let n = tx.output.len() as int;
    lemma_utxo_ops_apply(v, w, tx, n);
    let mid = apply_batch(w, spec_utxo_ops(v, tx, n));
    let tail = seq![BatchOpV::SetTx(spec_details(v, t, ts, h))];
    crate::store::lemma_apply_batch_add(w, spec_utxo_ops(v, tx, n), tail);
    assert(tail.drop_last() =~= Seq::<BatchOpV>::empty());
    assert(apply_batch(mid, Seq::<BatchOpV>::empty()) == mid);
    assert(apply_batch(mid, tail) == apply_op(mid, tail.last()));
    assert(spec_details(v, t, ts, h).txid == t);
    assert(mid.utxos =~= w.utxos.union_prefer_right(spec_created_utxos(v, Set::empty().insert(t))));
}

/// Relies on rand::random::<bool>: one random bit decides which chain is
/// scanned first, so the remote cannot tell the two apart.  Nothing is
/// promised of the value.
#[verifier::external_body]
fn random_chain_order() -> bool {
    rand::random::<bool>()
}

/// Reads the derived scripts of one chain.
fn chain_scripts<D: BatchDatabase>(database: &D, chain: ScriptType) -> (r: Result<
    Vec<Vec<u8>>,
    Error,
>)
    ensures
        r matches Ok(s) ==> s.deep_view() == database.db().scripts_of(chain),
        r is Err ==> r == Err::<Vec<Vec<u8>>, Error>(Error::Store(SyncPhase::Scan)),
{
    match database.iter_script_pubkeys(Some(chain)) {
        Ok(s) => Ok(s),
        Err(_) => Err(Error::Store(SyncPhase::Scan)),
    }
}

/// Raises one chain's high-water-mark to one past the highest active index,
/// never lowering it.
fn save_chain_index<D: BatchDatabase>(
    database: &mut D,
    chain: ScriptType,
    max_active: Option<u32>,
    Ghost(bound): Ghost<int>,
) -> (r: Result<(), Error>)
    requires
        max_active matches Some(m) ==> m < bound <= u32::MAX,
    ensures
        r is Ok ==> final(database).db() == (DbView {
            external_index: if chain is External {
                spec_new_index(
                    old(database).db().external_index,
                    match max_active {
                        Some(m) => Some((m + 1) as u32),
                        None => None,
                    },
                )
            } else {
                old(database).db().external_index
            },
            internal_index: if chain is Internal {
                spec_new_index(
                    old(database).db().internal_index,
                    match max_active {
                        Some(m) => Some((m + 1) as u32),
                        None => None,
                    },
                )
            } else {
                old(database).db().internal_index
            },
            ..old(database).db()
        }),
        r is Err ==> r == Err::<(), Error>(Error::Store(SyncPhase::Scan)),
        r is Err ==> final(database).db() == old(database).db(),
{
    let ghost v = old(database).db();
    if let Some(m) = max_active {
        let candidate = m + 1;
        let current = match database.get_last_index(chain) {
            Ok(c) => c,
            Err(_) => {
                return Err(Error::Store(SyncPhase::Scan));
            },
        };
        let raise = match current {
            Some(o) => candidate > o,
            None => true,
        };
        if raise {
            if database.set_last_index(chain, candidate).is_err() {
                return Err(Error::Store(SyncPhase::Scan));
            }
            proof {
                assert(final(database).db() == v.with_index(chain, candidate));
            }
        }
    }
    proof {
        match chain {
            ScriptType::External => {
                assert(final(database).db().internal_index == v.internal_index);
            },
            ScriptType::Internal => {
                assert(final(database).db().external_index == v.external_index);
            },
        }
    }
    Ok(())
}

/// One whole sync pass: scan, raise high-water-marks, download, resolve
/// timestamps, recompute summaries and unspent outputs, drop vanished
/// summaries and spent outputs — each commit atomic, in this order.
///
/// On success the store holds exactly `spec_sync_result` of its old view
/// and the remote's view, for whichever chain happened to be scanned first.
/// On failure the store sits exactly at the state after the last batch
/// that committed — no partially visible batch, no mutation beyond it —
/// and the error's phase names the step that failed (`spec_err_state`).
#[verifier::loop_isolation(false)]
#[verifier::rlimit(100)]
#[verifier::spinoff_prover]
pub fn electrum_like_setup<S: ElectrumLikeSync, D: BatchDatabase>(
    client: &S,
    stop_gap: Option<usize>,
    database: &mut D,
) -> (r: Result<(), Error>)
    requires
        old(database).db().wf(),
        old(database).db().external_scripts.len() < u32::MAX,
        old(database).db().internal_scripts.len() < u32::MAX,
        stop_gap matches Some(s) ==> s >= 1,
    ensures
        r is Ok ==> exists|first: ScriptType|
            final(database).db() == #[trigger] spec_sync_result(
                old(database).db(),
                client.remote(),
                spec_gap(stop_gap),
                first,
            ),
        r matches Err(e) ==> exists|first: ScriptType| #[trigger] spec_err_state(
            final(database).db(),
            old(database).db(),
            client.remote(),
            spec_gap(stop_gap),
            e,
            first,
        ),
{
    let ghost v0 = old(database).db();
    let ghost rv = client.remote();
    let stop_gap_v: usize = match stop_gap {
        Some(s) => s,
        None => 20,
    };
    let chunk_size = stop_gap_v;
    let ghost g = stop_gap_v as int;
    proof {
        assert(g == spec_gap(stop_gap));
    }

    // Scan order is randomized for query-pattern privacy; it carries no
    // correctness weight.
    let internal_first = random_chain_order();
    let (first, second) = if internal_first {
        (ScriptType::Internal, ScriptType::External)
    } else {
        (ScriptType::External, ScriptType::Internal)
    };
    proof {
        assert(other_chain(first) == second);
    }

    // Scan both chains, accumulating touched identifiers and heights.
    let mut history_txs_id = TxidSet::new();
    let mut txid_height: IdMap<Option<u32>> = IdMap::new();

    let scripts_first = match chain_scripts(database, first) {
        Ok(sc) => sc,
        Err(e) => {
            proof {
                assert(spec_err_state(database.db(), old(database).db(), client.remote(),
                    spec_gap(stop_gap), e, first));
                assert(exists|f: ScriptType| #[trigger] spec_err_state(database.db(),
                    old(database).db(), client.remote(), spec_gap(stop_gap), e, f));
            }
            return Err(e);
        },
    };
    let (max_first, _requests_first) = match scan_chain(
        client,
        &scripts_first,
        stop_gap_v,
        &mut history_txs_id,
        &mut txid_height,
    ) {
        Ok(res) => res,
        Err(e) => {
            proof {
                assert(spec_err_state(database.db(), old(database).db(), client.remote(),
                    spec_gap(stop_gap), e, first));
                assert(exists|f: ScriptType| #[trigger] spec_err_state(database.db(),
                    old(database).db(), client.remote(), spec_gap(stop_gap), e, f));
            }
            return Err(e);
        },
    };
    let scripts_second = match chain_scripts(database, second) {
        Ok(sc) => sc,
        Err(e) => {
            proof {
                assert(spec_err_state(database.db(), old(database).db(), client.remote(),
                    spec_gap(stop_gap), e, first));
                assert(exists|f: ScriptType| #[trigger] spec_err_state(database.db(),
                    old(database).db(), client.remote(), spec_gap(stop_gap), e, f));
            }
            return Err(e);
        },
    };
    let (max_second, _requests_second) = match scan_chain(
        client,
        &scripts_second,
        stop_gap_v,
        &mut history_txs_id,
        &mut txid_height,
    ) {
        Ok(res) => res,
        Err(e) => {
            proof {
                assert(spec_err_state(database.db(), old(database).db(), client.remote(),
                    spec_gap(stop_gap), e, first));
                assert(exists|f: ScriptType| #[trigger] spec_err_state(database.db(),
                    old(database).db(), client.remote(), spec_gap(stop_gap), e, f));
            }
            return Err(e);
        },
    };

    let ghost touched = spec_touched(v0, rv, g);
    let ghost hm = spec_pass_heights(v0, rv, g, first);
    proof {
        assert(history_txs_id@ =~= touched);
        assert(txid_height@ =~= hm);
        crate::scan::lemma_max_active_bounds(rv, v0.scripts_of(first), crate::scan::spec_covered(rv, v0.scripts_of(first), g));
        crate::scan::lemma_max_active_bounds(rv, v0.scripts_of(second), spec_covered(rv, v0.scripts_of(second), g));
        crate::scan::lemma_scan_stop_bounds(rv, v0.scripts_of(first), g, 0);
        crate::scan::lemma_scan_stop_bounds(rv, v0.scripts_of(second), g, 0);
    }

    // Persist the derivation high-water-marks, raising only.
    if let Err(e) = save_chain_index(
        database,
        first,
        max_first,
        Ghost(v0.scripts_of(first).len() as int),
    ) {
        proof {
            assert(spec_err_state(database.db(), old(database).db(), client.remote(),
                spec_gap(stop_gap), e, first));
            assert(exists|f: ScriptType| #[trigger] spec_err_state(database.db(),
                old(database).db(), client.remote(), spec_gap(stop_gap), e, f));
        }
        return Err(e);
    }
    proof {
        assert(match max_first {
            Some(m) => Some((m + 1) as u32),
            None => None::<u32>,
        } == spec_chain_candidate(rv, v0.scripts_of(first), g));
        assert(database.db() =~= spec_one_index_raised(v0, rv, g, first));
    }
    if let Err(e) = save_chain_index(
        database,
        second,
        max_second,
        Ghost(v0.scripts_of(second).len() as int),
    ) {
        proof {
            assert(spec_err_state(database.db(), old(database).db(), client.remote(),
                spec_gap(stop_gap), e, first));
            assert(exists|f: ScriptType| #[trigger] spec_err_state(database.db(),
                old(database).db(), client.remote(), spec_gap(stop_gap), e, f));
        }
        return Err(e);
    }
    let ghost v1 = spec_indexes_updated(v0, rv, g);
    proof {
        assert(database.db() =~= v1);
    }

    // Snapshot which summaries and raw transactions the store already has.
    let details_vec = match database.iter_txs(false) {
        Ok(d) => d,
        Err(_) => {
            proof {
                assert(spec_err_state(database.db(), old(database).db(), client.remote(),
                    spec_gap(stop_gap), Error::Store(SyncPhase::Download), first));
                assert(exists|f: ScriptType| #[trigger] spec_err_state(database.db(),
                    old(database).db(), client.remote(), spec_gap(stop_gap), Error::Store(SyncPhase::Download), f));
            }
            return Err(Error::Store(SyncPhase::Download));
        },
    };
    let mut txids_details_in_db = TxidSet::new();
    let mut di: usize = 0;
    while di < details_vec.len()
        invariant
            di <= details_vec@.len(),
            forall|t: Txid| #[trigger]
                txids_details_in_db@.contains(t) <==> exists|j: int|
                    0 <= j < di && (#[trigger] details_vec@[j])@.txid == t,
        decreases details_vec@.len() - di,
    {
        let t = details_vec[di].txid;
        txids_details_in_db.insert(t);
        di += 1;
        proof {
            assert(details_vec@[di - 1]@.txid == t);
            assert forall|t2: Txid| #[trigger] txids_details_in_db@.contains(t2)
                implies exists|j: int|
                0 <= j < di && (#[trigger] details_vec@[j])@.txid == t2 by {
                if t2 == t {
                    assert(details_vec@[di - 1]@.txid == t2);
                }
            }
        }
    }
    proof {
        assert forall|t: Txid| #[trigger] txids_details_in_db@.contains(t)
            implies v0.tx_details.dom().contains(t) by {}
        assert forall|t: Txid| #[trigger] v0.tx_details.dom().contains(t)
            implies txids_details_in_db@.contains(t) by {
            let j = choose|j: int|
                0 <= j < details_vec@.len() && (#[trigger] details_vec@[j])@.txid == t;
        }
        assert(txids_details_in_db@ =~= v0.tx_details.dom());
    }

    let raw_vec = match database.iter_raw_txs() {
        Ok(d) => d,
        Err(_) => {
            proof {
                assert(spec_err_state(database.db(), old(database).db(), client.remote(),
                    spec_gap(stop_gap), Error::Store(SyncPhase::Download), first));
                assert(exists|f: ScriptType| #[trigger] spec_err_state(database.db(),
                    old(database).db(), client.remote(), spec_gap(stop_gap), Error::Store(SyncPhase::Download), f));
            }
            return Err(Error::Store(SyncPhase::Download));
        },
    };
    let mut txids_raw_in_db = TxidSet::new();
    let mut ri: usize = 0;
    while ri < raw_vec.len()
        invariant
            ri <= raw_vec@.len(),
            forall|t: Txid| #[trigger]
                txids_raw_in_db@.contains(t) <==> exists|j: int|
                    0 <= j < ri && (#[trigger] raw_vec@[j])@.txid == t,
        decreases raw_vec@.len() - ri,
    {
        let t = raw_vec[ri].txid;
        txids_raw_in_db.insert(t);
        ri += 1;
        proof {
            assert(raw_vec@[ri - 1]@.txid == t);
            assert forall|t2: Txid| #[trigger] txids_raw_in_db@.contains(t2)
                implies exists|j: int|
                0 <= j < ri && (#[trigger] raw_vec@[j])@.txid == t2 by {
                if t2 == t {
                    assert(raw_vec@[ri - 1]@.txid == t2);
                }
            }
        }
    }
    proof {
        assert forall|t: Txid| #[trigger] txids_raw_in_db@.contains(t)
            implies v0.raw_txs.dom().contains(t) by {}
        assert forall|t: Txid| #[trigger] v0.raw_txs.dom().contains(t)
            implies txids_raw_in_db@.contains(t) by {
            let j = choose|j: int|
                0 <= j < raw_vec@.len() && (#[trigger] raw_vec@[j])@.txid == t;
        }
        assert(txids_raw_in_db@ =~= v0.raw_txs.dom());
    }

    // Download the missing transaction graph and the needed timestamps.
    let new_txs = match download_needed_raw_txs(
        client,
        &history_txs_id,
        &txids_raw_in_db,
        chunk_size,
    ) {
        Ok(txs) => txs,
        Err(e) => {
            proof {
                assert(spec_err_state(database.db(), old(database).db(), client.remote(),
                    spec_gap(stop_gap), e, first));
                assert(exists|f: ScriptType| #[trigger] spec_err_state(database.db(),
                    old(database).db(), client.remote(), spec_gap(stop_gap), e, f));
            }
            return Err(e);
        },
    };
    let new_timestamps = match download_needed_headers(
        client,
        &txid_height,
        &txids_details_in_db,
        chunk_size,
    ) {
        Ok(m) => m,
        Err(e) => {
            proof {
                assert(spec_err_state(database.db(), old(database).db(), client.remote(),
                    spec_gap(stop_gap), e, first));
                assert(exists|f: ScriptType| #[trigger] spec_err_state(database.db(),
                    old(database).db(), client.remote(), spec_gap(stop_gap), e, f));
            }
            return Err(e);
        },
    };
    let ghost dl = spec_download_ids(rv, touched, v0.raw_txs.dom());
    let ghost ts = spec_txid_timestamps(rv, hm, v0.tx_details.dom());
    let ghost raw2 = v0.raw_txs.union_prefer_right(
        Map::new(|t: Txid| dl.contains(t), |t: Txid| rv.txs[t]),
    );
    let ghost v2 = DbView { raw_txs: raw2, ..v1 };
    proof {
        assert(v2 =~= spec_after_download(v0, rv, g));
    }

    // Commit the new raw transactions first: summary computation reads
    // previous-output values from the store.
    if new_txs.len() > 0 {
        let mut batch = Batch::begin();
        let mut bi: usize = 0;
        proof {
            assert(apply_batch(v1, batch@) == v1);
            assert(v1.raw_txs.union_prefer_right(
                Map::new(
                    |t: Txid| exists|j: int| 0 <= j < 0 && (#[trigger] new_txs@[j])@.txid == t,
                    |t: Txid| rv.txs[t],
                ),
            ) =~= v1.raw_txs);
            assert(apply_batch(v1, batch@) =~= (DbView {
                raw_txs: v1.raw_txs.union_prefer_right(
                    Map::new(
                        |t: Txid| exists|j: int| 0 <= j < 0 && (#[trigger] new_txs@[j])@.txid == t,
                        |t: Txid| rv.txs[t],
                    ),
                ),
                ..v1
            }));
        }
        while bi < new_txs.len()
            invariant
                bi <= new_txs@.len(),
                apply_batch(v1, batch@) == (DbView {
                    raw_txs: v1.raw_txs.union_prefer_right(
                        Map::new(
                            |t: Txid|
                                exists|j: int|
                                    0 <= j < bi && (#[trigger] new_txs@[j])@.txid == t,
                            |t: Txid| rv.txs[t],
                        ),
                    ),
                    ..v1
                }),
            decreases new_txs@.len() - bi,
        {
            let ghost pre = batch@;
            batch.set_raw_tx(&new_txs[bi]);
            bi += 1;
            proof {
                assert(batch@.drop_last() =~= pre);
                assert(apply_batch(v1, batch@) == apply_op(
                    apply_batch(v1, pre),
                    batch@.last(),
                ));
                assert(new_txs@[bi - 1]@.txid == (new_txs@[bi - 1])@.txid);
                assert(rv.txs.contains_pair((new_txs@[bi - 1])@.txid, new_txs@[bi - 1]@));
                assert(apply_batch(v1, batch@).raw_txs =~= v1.raw_txs.union_prefer_right(
                    Map::new(
                        |t: Txid|
                            exists|j: int| 0 <= j < bi && (#[trigger] new_txs@[j])@.txid == t,
                        |t: Txid| rv.txs[t],
                    ),
                ));
            }
        }
        if database.commit_batch(batch).is_err() {
            proof {
                assert(spec_err_state(database.db(), old(database).db(), client.remote(),
                    spec_gap(stop_gap), Error::Store(SyncPhase::Download), first));
                assert(exists|f: ScriptType| #[trigger] spec_err_state(database.db(),
                    old(database).db(), client.remote(), spec_gap(stop_gap), Error::Store(SyncPhase::Download), f));
            }
            return Err(Error::Store(SyncPhase::Download));
        }
        proof {
            assert forall|t: Txid|
                (exists|j: int|
                    0 <= j < new_txs@.len() && (#[trigger] new_txs@[j])@.txid == t)
                <==> #[trigger] dl.contains(t) by {
                assert(crate::download::seq_tx_ids(new_txs@).contains(t) <==> dl.contains(t));
            }
            assert(database.db().raw_txs =~= raw2);
            assert(database.db() =~= v2);
        }
    } else {
        proof {
            assert(crate::download::seq_tx_ids(new_txs@) =~= Set::<Txid>::empty());
            assert(dl =~= Set::<Txid>::empty());
            assert(raw2 =~= v0.raw_txs);
            assert(database.db() =~= v2);
        }
    }
    proof {
        assert(v2.wf()) by {
            assert forall|t: Txid| #[trigger] v2.raw_txs.dom().contains(t)
                implies v2.raw_txs[t].txid == t by {
                if dl.contains(t) {
                    assert(crate::download::seq_tx_ids(new_txs@).contains(t));
                    let j = choose|j: int|
                        0 <= j < new_txs@.len() && (#[trigger] new_txs@[j]).txid == t;
                    assert(rv.txs.contains_pair((new_txs@[j])@.txid, new_txs@[j]@));
                }
            }
        }
    }

    // Recompute a summary, and the unspent outputs, of every touched
    // transaction not summarized yet; one atomic batch for all of them.
    let ghost new_keys = touched.difference(v0.tx_details.dom());
    let mut batch = Batch::begin();
    let n_touched = history_txs_id.len();
    let mut k: usize = 0;
    proof {
        lemma_heights_dom(rv, v0.scripts_of(first), spec_covered(rv, v0.scripts_of(first), g));
        lemma_heights_dom(rv, v0.scripts_of(second), spec_covered(rv, v0.scripts_of(second), g));
        assert(apply_batch(v2, batch@) == v2);
        assert(v2.tx_details.union_prefer_right(
            Map::new(
                |t: Txid|
                    new_keys.contains(t) && (exists|j: int|
                        0 <= j < 0 && history_txs_id.order()[j] == t),
                |t: Txid|
                    spec_details(
                        v2,
                        t,
                        if ts.dom().contains(t) {
                            ts[t]
                        } else {
                            0
                        },
                        hm[t],
                    ),
            ),
        ) =~= v2.tx_details);
        assert(spec_created_utxos(
            v2,
            Set::new(
                |t: Txid|
                    new_keys.contains(t) && (exists|j: int|
                        0 <= j < 0 && history_txs_id.order()[j] == t),
            ),
        ) =~= Map::<OutPoint, crate::types::UTXOV>::empty());
        assert(v2.utxos.union_prefer_right(Map::<OutPoint, crate::types::UTXOV>::empty())
            =~= v2.utxos);
        assert(apply_batch(v2, batch@) =~= (DbView {
            tx_details: v2.tx_details.union_prefer_right(
                Map::new(
                    |t: Txid|
                        new_keys.contains(t) && (exists|j: int|
                            0 <= j < 0 && history_txs_id.order()[j] == t),
                    |t: Txid|
                        spec_details(
                            v2,
                            t,
                            if ts.dom().contains(t) {
                                ts[t]
                            } else {
                                0
                            },
                            hm[t],
                        ),
                ),
            ),
            utxos: v2.utxos.union_prefer_right(
                spec_created_utxos(
                    v2,
                    Set::new(
                        |t: Txid|
                            new_keys.contains(t) && (exists|j: int|
                                0 <= j < 0 && history_txs_id.order()[j] == t),
                    ),
                ),
            ),
            ..v2
        }));
    }
    while k < n_touched
        invariant
            k <= n_touched,
            n_touched == history_txs_id.order().len(),
            apply_batch(v2, batch@) == (DbView {
                tx_details: v2.tx_details.union_prefer_right(
                    Map::new(
                        |t: Txid|
                            new_keys.contains(t) && (exists|j: int|
                                0 <= j < k && history_txs_id.order()[j] == t),
                        |t: Txid|
                            spec_details(
                                v2,
                                t,
                                if ts.dom().contains(t) {
                                    ts[t]
                                } else {
                                    0
                                },
                                hm[t],
                            ),
                    ),
                ),
                utxos: v2.utxos.union_prefer_right(
                    spec_created_utxos(
                        v2,
                        Set::new(
                            |t: Txid|
                                new_keys.contains(t) && (exists|j: int|
                                    0 <= j < k && history_txs_id.order()[j] == t),
                        ),
                    ),
                ),
                ..v2
            }),
        decreases n_touched - k,
    {
        let t = history_txs_id.get(k);
        let ghost w = apply_batch(v2, batch@);
        if !txids_details_in_db.contains(t) {
            let height = match txid_height.get(t) {
                Some(h) => h,
                None => {
                    proof {
                        assert(hm.dom().contains(t));
                    }
                    return vstd::pervasive::unreached();
                },
            };
            let timestamp = match new_timestamps.get(t) {
                Some(ts_val) => ts_val,
                None => 0,
            };
            let ghost pre = batch@;
            match save_transaction_details_and_utxos(t, database, timestamp, height, &mut batch) {
                Ok(()) => {},
                Err(e) => {
                    proof {
                        assert(spec_error_phase(e) is Reconcile);
                        assert(database.db() == spec_after_download(v0, rv, g));
                    }
                    proof {
                        assert(spec_err_state(database.db(), old(database).db(), client.remote(),
                            spec_gap(stop_gap), e, first));
                        assert(exists|f: ScriptType| #[trigger] spec_err_state(database.db(),
                            old(database).db(), client.remote(), spec_gap(stop_gap), e, f));
                    }
                    return Err(e);
                },
            }
            proof {
                crate::store::lemma_apply_batch_add(
                    v2,
                    pre,
                    spec_details_ops(v2, t, timestamp, height),
                );
                lemma_details_ops_apply(v2, w, t, timestamp, height);
                assert(new_keys.contains(t));
                assert(history_txs_id.order()[k as int] == t);
                assert(apply_batch(v2, batch@).tx_details =~= v2.tx_details.union_prefer_right(
                    Map::new(
                        |t2: Txid|
                            new_keys.contains(t2) && (exists|j: int|
                                0 <= j < k + 1 && history_txs_id.order()[j] == t2),
                        |t2: Txid|
                            spec_details(
                                v2,
                                t2,
                                if ts.dom().contains(t2) {
                                    ts[t2]
                                } else {
                                    0
                                },
                                hm[t2],
                            ),
                    ),
                ));
                assert(apply_batch(v2, batch@).utxos =~= v2.utxos.union_prefer_right(
                    spec_created_utxos(
                        v2,
                        Set::new(
                            |t2: Txid|
                                new_keys.contains(t2) && (exists|j: int|
                                    0 <= j < k + 1 && history_txs_id.order()[j] == t2),
                        ),
                    ),
                ));
            }
        } else {
            proof {
                assert forall|t2: Txid|
                    new_keys.contains(t2) && (exists|j: int|
                        0 <= j < k + 1 && history_txs_id.order()[j] == t2)
                    implies new_keys.contains(t2) && (exists|j: int|
                    0 <= j < k && history_txs_id.order()[j] == t2) by {
                    let j = choose|j: int| 0 <= j < k + 1 && history_txs_id.order()[j] == t2;
                    assert(j < k);
                }
                assert(apply_batch(v2, batch@).tx_details =~= v2.tx_details.union_prefer_right(
                    Map::new(
                        |t2: Txid|
                            new_keys.contains(t2) && (exists|j: int|
                                0 <= j < k + 1 && history_txs_id.order()[j] == t2),
                        |t2: Txid|
                            spec_details(
                                v2,
                                t2,
                                if ts.dom().contains(t2) {
                                    ts[t2]
                                } else {
                                    0
                                },
                                hm[t2],
                            ),
                    ),
                ));
                assert(Set::new(
                    |t2: Txid|
                        new_keys.contains(t2) && (exists|j: int|
                            0 <= j < k + 1 && history_txs_id.order()[j] == t2),
                ) =~= Set::new(
                    |t2: Txid|
                        new_keys.contains(t2) && (exists|j: int|
                            0 <= j < k && history_txs_id.order()[j] == t2),
                ));
            }
        }
        k += 1;
    }
    if database.commit_batch(batch).is_err() {
        proof {
            assert(spec_err_state(database.db(), old(database).db(), client.remote(),
                spec_gap(stop_gap), Error::Store(SyncPhase::Reconcile), first));
            assert(exists|f: ScriptType| #[trigger] spec_err_state(database.db(),
                old(database).db(), client.remote(), spec_gap(stop_gap), Error::Store(SyncPhase::Reconcile), f));
        }
        return Err(Error::Store(SyncPhase::Reconcile));
    }
    let ghost new_details = Map::new(
        |t: Txid| new_keys.contains(t),
        |t: Txid|
            spec_details(
                v2,
                t,
                if ts.dom().contains(t) {
                    ts[t]
                } else {
                    0
                },
                hm[t],
            ),
    );
    let ghost v3 = DbView {
        tx_details: v2.tx_details.union_prefer_right(new_details),
        utxos: v2.utxos.union_prefer_right(spec_created_utxos(v2, new_keys)),
        ..v2
    };
    proof {
        assert forall|t: Txid| #[trigger] new_keys.contains(t)
            implies exists|j: int|
            0 <= j < n_touched && history_txs_id.order()[j] == t by {
            assert(history_txs_id@.contains(t));
            assert(history_txs_id.order().to_set().contains(t));
        }
        assert(Map::new(
            |t: Txid|
                new_keys.contains(t) && (exists|j: int|
                    0 <= j < n_touched && history_txs_id.order()[j] == t),
            |t: Txid|
                spec_details(
                    v2,
                    t,
                    if ts.dom().contains(t) {
                        ts[t]
                    } else {
                        0
                    },
                    hm[t],
                ),
        ) =~= new_details);
        assert(Set::new(
            |t: Txid|
                new_keys.contains(t) && (exists|j: int|
                    0 <= j < n_touched && history_txs_id.order()[j] == t),
        ) =~= new_keys);
        assert(database.db() =~= v3);
        assert(v3 =~= spec_after_summaries(v0, rv, g, first));
    }

    // Delete the summary of every stored transaction that vanished from
    // history, in one atomic batch.
    let stale_vec = match database.iter_txs(false) {
        Ok(d) => d,
        Err(_) => {
            proof {
                assert(spec_err_state(database.db(), old(database).db(), client.remote(),
                    spec_gap(stop_gap), Error::Store(SyncPhase::Reconcile), first));
                assert(exists|f: ScriptType| #[trigger] spec_err_state(database.db(),
                    old(database).db(), client.remote(), spec_gap(stop_gap), Error::Store(SyncPhase::Reconcile), f));
            }
            return Err(Error::Store(SyncPhase::Reconcile));
        },
    };
    let mut batch = Batch::begin();
    let mut si: usize = 0;
    proof {
        assert(apply_batch(v3, batch@) == v3);
        assert(v3.tx_details.remove_keys(
            Set::new(
                |t: Txid|
                    !touched.contains(t) && (exists|j: int|
                        0 <= j < 0 && (#[trigger] stale_vec@[j])@.txid == t),
            ),
        ) =~= v3.tx_details);
        assert(apply_batch(v3, batch@) =~= (DbView {
            tx_details: v3.tx_details.remove_keys(
                Set::new(
                    |t: Txid|
                        !touched.contains(t) && (exists|j: int|
                            0 <= j < 0 && (#[trigger] stale_vec@[j])@.txid == t),
                ),
            ),
            ..v3
        }));
    }
    while si < stale_vec.len()
        invariant
            si <= stale_vec@.len(),
            apply_batch(v3, batch@) == (DbView {
                tx_details: v3.tx_details.remove_keys(
                    Set::new(
                        |t: Txid|
                            !touched.contains(t) && (exists|j: int|
                                0 <= j < si && (#[trigger] stale_vec@[j])@.txid == t),
                    ),
                ),
                ..v3
            }),
        decreases stale_vec@.len() - si,
    {
        let t = stale_vec[si].txid;
        let ghost w = apply_batch(v3, batch@);
        if !history_txs_id.contains(t) {
            let ghost pre = batch@;
            batch.del_tx(t);
            proof {
                assert(batch@.drop_last() =~= pre);
                assert(apply_batch(v3, batch@) == apply_op(apply_batch(v3, pre), batch@.last()));
                assert(stale_vec@[si as int]@.txid == t);
                assert(apply_batch(v3, batch@).tx_details =~= v3.tx_details.remove_keys(
                    Set::new(
                        |t2: Txid|
                            !touched.contains(t2) && (exists|j: int|
                                0 <= j < si + 1 && (#[trigger] stale_vec@[j])@.txid == t2),
                    ),
                ));
            }
        } else {
            proof {
                assert(Set::new(
                    |t2: Txid|
                        !touched.contains(t2) && (exists|j: int|
                            0 <= j < si + 1 && (#[trigger] stale_vec@[j])@.txid == t2),
                ) =~= Set::new(
                    |t2: Txid|
                        !touched.contains(t2) && (exists|j: int|
                            0 <= j < si && (#[trigger] stale_vec@[j])@.txid == t2),
                ));
            }
        }
        si += 1;
    }
    let ghost stale = v3.tx_details.dom().difference(touched);
    proof {
        assert(Set::new(
            |t: Txid|
                !touched.contains(t) && (exists|j: int|
                    0 <= j < stale_vec@.len() && (#[trigger] stale_vec@[j])@.txid == t),
        ) =~= stale) by {
            assert forall|t: Txid| #[trigger] v3.tx_details.dom().contains(t)
                && !touched.contains(t)
                implies exists|j: int|
                0 <= j < stale_vec@.len() && (#[trigger] stale_vec@[j])@.txid == t by {}
        }
    }

    // The same batch also drops every unspent output that a vanished
    // transaction had created.
    let utxo_vec = match database.iter_utxos() {
        Ok(u) => u,
        Err(_) => {
            proof {
                assert(spec_err_state(database.db(), old(database).db(), client.remote(),
                    spec_gap(stop_gap), Error::Store(SyncPhase::Reconcile), first));
                assert(exists|f: ScriptType| #[trigger] spec_err_state(database.db(),
                    old(database).db(), client.remote(), spec_gap(stop_gap), Error::Store(SyncPhase::Reconcile), f));
            }
            return Err(Error::Store(SyncPhase::Reconcile));
        },
    };
    let mut zi: usize = 0;
    proof {
        assert(v3.utxos.remove_keys(
            Set::new(
                |op: OutPoint|
                    stale.contains(op.txid) && (exists|j: int|
                        0 <= j < 0 && (#[trigger] utxo_vec@[j])@.outpoint == op),
            ),
        ) =~= v3.utxos);
        assert(apply_batch(v3, batch@) =~= (DbView {
            tx_details: v3.tx_details.remove_keys(stale),
            utxos: v3.utxos.remove_keys(
                Set::new(
                    |op: OutPoint|
                        stale.contains(op.txid) && (exists|j: int|
                            0 <= j < 0 && (#[trigger] utxo_vec@[j])@.outpoint == op),
                ),
            ),
            ..v3
        }));
    }
    while zi < utxo_vec.len()
        invariant
            zi <= utxo_vec@.len(),
            apply_batch(v3, batch@) == (DbView {
                tx_details: v3.tx_details.remove_keys(stale),
                utxos: v3.utxos.remove_keys(
                    Set::new(
                        |op: OutPoint|
                            stale.contains(op.txid) && (exists|j: int|
                                0 <= j < zi && (#[trigger] utxo_vec@[j])@.outpoint == op),
                    ),
                ),
                ..v3
            }),
        decreases utxo_vec@.len() - zi,
    {
        let op = utxo_vec[zi].outpoint;
        let in_details = txids_details_in_db.contains(op.txid);
        let in_history = history_txs_id.contains(op.txid);
        proof {
            assert((in_details && !in_history) == stale.contains(op.txid));
        }
        if in_details && !in_history {
            let ghost pre = batch@;
            batch.del_utxo(&op);
            proof {
                assert(batch@.drop_last() =~= pre);
                assert(apply_batch(v3, batch@) == apply_op(apply_batch(v3, pre), batch@.last()));
                assert(utxo_vec@[zi as int]@.outpoint == op);
                assert(apply_batch(v3, batch@).utxos =~= v3.utxos.remove_keys(
                    Set::new(
                        |op2: OutPoint|
                            stale.contains(op2.txid) && (exists|j: int|
                                0 <= j < zi + 1 && (#[trigger] utxo_vec@[j])@.outpoint == op2),
                    ),
                ));
            }
        } else {
            proof {
                assert(Set::new(
                    |op2: OutPoint|
                        stale.contains(op2.txid) && (exists|j: int|
                            0 <= j < zi + 1 && (#[trigger] utxo_vec@[j])@.outpoint == op2),
                ) =~= Set::new(
                    |op2: OutPoint|
                        stale.contains(op2.txid) && (exists|j: int|
                            0 <= j < zi && (#[trigger] utxo_vec@[j])@.outpoint == op2),
                )) by {
                    assert forall|op2: OutPoint|
                        stale.contains(op2.txid) && (exists|j: int|
                            0 <= j < zi + 1 && (#[trigger] utxo_vec@[j])@.outpoint == op2)
                        implies (exists|j: int|
                        0 <= j < zi && (#[trigger] utxo_vec@[j])@.outpoint == op2) by {
                        let j = choose|j: int|
                            0 <= j < zi + 1 && (#[trigger] utxo_vec@[j])@.outpoint == op2;
                        assert(j < zi);
                    }
                }
            }
        }
        zi += 1;
    }
    if database.commit_batch(batch).is_err() {
        proof {
            assert(spec_err_state(database.db(), old(database).db(), client.remote(),
                spec_gap(stop_gap), Error::Store(SyncPhase::Reconcile), first));
            assert(exists|f: ScriptType| #[trigger] spec_err_state(database.db(),
                old(database).db(), client.remote(), spec_gap(stop_gap), Error::Store(SyncPhase::Reconcile), f));
        }
        return Err(Error::Store(SyncPhase::Reconcile));
    }
    let ghost v4 = DbView {
        tx_details: v3.tx_details.remove_keys(stale),
        utxos: v3.utxos.remove_keys(Set::new(|op: OutPoint| stale.contains(op.txid))),
        ..v3
    };
    proof {
        assert(v3.utxos.remove_keys(
            Set::new(
                |op: OutPoint|
                    stale.contains(op.txid) && (exists|j: int|
                        0 <= j < utxo_vec@.len() && (#[trigger] utxo_vec@[j])@.outpoint == op),
            ),
        ) =~= v3.utxos.remove_keys(Set::new(|op: OutPoint| stale.contains(op.txid)))) by {
            assert forall|op: OutPoint| #[trigger] v3.utxos.dom().contains(op)
                && stale.contains(op.txid)
                implies exists|j: int|
                0 <= j < utxo_vec@.len() && (#[trigger] utxo_vec@[j])@.outpoint == op by {}
        }
        assert(database.db() =~= v4);
        assert(v4 =~= spec_after_deletions(v0, rv, g, first));
    }

    // Delete every unspent output consumed by a downloaded transaction, in
    // one atomic batch.
    let ghost spent = spec_spent_outpoints(rv, dl);
    let mut batch = Batch::begin();
    let mut ui: usize = 0;
    proof {
        assert(apply_batch(v4, batch@) == v4);
        assert(v4.utxos.remove_keys(
            Set::new(
                |op: OutPoint|
                    exists|a: int, b: int|
                        0 <= a < 0 && 0 <= b < new_txs@[a]@.input.len()
                            && (#[trigger] new_txs@[a]@.input[b]).previous_output == op,
            ),
        ) =~= v4.utxos);
        assert(apply_batch(v4, batch@) =~= (DbView {
            utxos: v4.utxos.remove_keys(
                Set::new(
                    |op: OutPoint|
                        exists|a: int, b: int|
                            0 <= a < 0 && 0 <= b < new_txs@[a]@.input.len()
                                && (#[trigger] new_txs@[a]@.input[b]).previous_output == op,
                ),
            ),
            ..v4
        }));
    }
    while ui < new_txs.len()
        invariant
            ui <= new_txs@.len(),
            apply_batch(v4, batch@) == (DbView {
                utxos: v4.utxos.remove_keys(
                    Set::new(
                        |op: OutPoint|
                            exists|a: int, b: int|
                                0 <= a < ui && 0 <= b < new_txs@[a]@.input.len()
                                    && (#[trigger] new_txs@[a]@.input[b]).previous_output == op,
                    ),
                ),
                ..v4
            }),
        decreases new_txs@.len() - ui,
    {
        let n_in = new_txs[ui].input.len();
        let mut bi: usize = 0;
        while bi < n_in
            invariant
                ui < new_txs@.len(),
                bi <= n_in,
                n_in == new_txs@[ui as int]@.input.len(),
                apply_batch(v4, batch@) == (DbView {
                    utxos: v4.utxos.remove_keys(
                        Set::new(
                            |op: OutPoint|
                                (exists|a: int, b: int|
                                    0 <= a < ui && 0 <= b < new_txs@[a]@.input.len()
                                        && (#[trigger] new_txs@[a]@.input[b]).previous_output == op) || (
                                exists|b: int|
                                    0 <= b < bi && (#[trigger] new_txs@[ui as int]@.input[b]).previous_output
                                        == op),
                        ),
                    ),
                    ..v4
                }),
            decreases n_in - bi,
        {
            let input = new_txs[ui].input[bi];
            let ghost pre = batch@;
            batch.del_utxo(&input.previous_output);
            bi += 1;
            proof {
                assert(batch@.drop_last() =~= pre);
                assert(apply_batch(v4, batch@) == apply_op(apply_batch(v4, pre), batch@.last()));
                assert(new_txs@[ui as int]@.input[bi - 1] == input);
                assert(apply_batch(v4, batch@).utxos =~= v4.utxos.remove_keys(
                    Set::new(
                        |op: OutPoint|
                            (exists|a: int, b: int|
                                0 <= a < ui && 0 <= b < new_txs@[a]@.input.len()
                                    && (#[trigger] new_txs@[a]@.input[b]).previous_output == op) || (
                            exists|b: int|
                                0 <= b < bi && (#[trigger] new_txs@[ui as int]@.input[b]).previous_output
                                    == op),
                    ),
                ));
            }
        }
        ui += 1;
        proof {
            let s_whole = Set::new(
                |op: OutPoint|
                    exists|a: int, b: int|
                        0 <= a < ui && 0 <= b < new_txs@[a]@.input.len()
                            && (#[trigger] new_txs@[a]@.input[b]).previous_output == op,
            );
            let s_disj = Set::new(
                |op: OutPoint|
                    (exists|a: int, b: int|
                        0 <= a < ui - 1 && 0 <= b < new_txs@[a]@.input.len()
                            && (#[trigger] new_txs@[a]@.input[b]).previous_output == op) || (
                    exists|b: int|
                        0 <= b < n_in && (#[trigger] new_txs@[(ui - 1) as int]@.input[b]).previous_output
                            == op),
            );
            assert forall|op: OutPoint| #[trigger] s_whole.contains(op)
                implies s_disj.contains(op) by {
                let (a, b) = choose|a: int, b: int|
                    0 <= a < ui && 0 <= b < new_txs@[a]@.input.len()
                        && (#[trigger] new_txs@[a]@.input[b]).previous_output == op;
                if a == ui - 1 {
                    assert(new_txs@[(ui - 1) as int]@.input[b].previous_output == op);
                }
            }
            assert forall|op: OutPoint| #[trigger] s_disj.contains(op)
                implies s_whole.contains(op) by {
                if exists|b: int|
                    0 <= b < n_in && (#[trigger] new_txs@[(ui - 1) as int]@.input[b]).previous_output
                        == op {
                    let b = choose|b: int|
                        0 <= b < n_in && (#[trigger] new_txs@[(ui - 1) as int]@.input[b]).previous_output
                            == op;
                    assert(new_txs@[ui - 1]@.input[b].previous_output == op);
                }
            }
            assert(s_whole =~= s_disj);
            assert(apply_batch(v4, batch@).utxos =~= v4.utxos.remove_keys(s_whole));
        }
    }
    if database.commit_batch(batch).is_err() {
        proof {
            assert(spec_err_state(database.db(), old(database).db(), client.remote(),
                spec_gap(stop_gap), Error::Store(SyncPhase::Reconcile), first));
            assert(exists|f: ScriptType| #[trigger] spec_err_state(database.db(),
                old(database).db(), client.remote(), spec_gap(stop_gap), Error::Store(SyncPhase::Reconcile), f));
        }
        return Err(Error::Store(SyncPhase::Reconcile));
    }
    proof {
        let s_all = Set::new(
            |op: OutPoint|
                exists|a: int, b: int|
                    0 <= a < new_txs@.len() && 0 <= b < new_txs@[a]@.input.len()
                        && (#[trigger] new_txs@[a]@.input[b]).previous_output == op,
        );
        assert forall|op: OutPoint| #[trigger] spent.contains(op)
            implies s_all.contains(op) by {
            let t = choose|t: Txid|
                #[trigger] dl.contains(t) && rv.txs.dom().contains(t) && exists|i: int|
                    0 <= i < rv.txs[t].input.len() && (#[trigger] rv.txs[t].input[i]).previous_output
                        == op;
            assert(crate::download::seq_tx_ids(new_txs@).contains(t));
            let a = choose|a: int|
                0 <= a < new_txs@.len() && (#[trigger] new_txs@[a]).txid == t;
            assert(rv.txs.contains_pair((new_txs@[a])@.txid, new_txs@[a]@));
            assert(new_txs@[a]@ == rv.txs[t]);
            let b = choose|i: int|
                0 <= i < rv.txs[t].input.len() && (#[trigger] rv.txs[t].input[i]).previous_output
                    == op;
            assert(new_txs@[a]@.input[b].previous_output == op);
        }
        assert forall|op: OutPoint| #[trigger] s_all.contains(op)
            implies spent.contains(op) by {
            let (a, b) = choose|a: int, b: int|
                0 <= a < new_txs@.len() && 0 <= b < new_txs@[a]@.input.len()
                    && (#[trigger] new_txs@[a]@.input[b]).previous_output == op;
            let t = new_txs@[a]@.txid;
            assert(crate::download::seq_tx_ids(new_txs@).contains(t));
            assert(dl.contains(t));
            assert(rv.txs.contains_pair(t, new_txs@[a]@));
        }
        assert(s_all =~= spent);
        assert(database.db() =~= spec_sync_result(v0, rv, g, first));
        assert(g == spec_gap(stop_gap));
        assert(database.db() == spec_sync_result(
            old(database).db(),
            client.remote(),
            spec_gap(stop_gap),
            first,
        ));
        assert(exists|f: ScriptType|
            database.db() == #[trigger] spec_sync_result(
                old(database).db(),
                client.remote(),
                spec_gap(stop_gap),
                f,
            ));
    }
    Ok(())
}

} // verus!
