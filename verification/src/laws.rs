//! The engine's global guarantees, proved of the pass function
//! `spec_sync_result` that `electrum_like_setup`'s contract commits.

use vstd::prelude::*;

use crate::chunks::spec_num_chunks;
use crate::client::RemoteView;
use crate::details::{spec_details_computable, spec_fees, spec_inputs_sum, spec_outputs_sum};
use crate::download::{spec_download_ids, spec_first_download};
use crate::scan::{chunk_all_empty, chunk_end, spec_scan_requests};
use crate::setup::{spec_chain_candidate, spec_indexes_updated, spec_new_index,
    spec_spent_outpoints, spec_sync_result, spec_touched};
use crate::store::DbView;
use crate::types::{OutPoint, ScriptType, Txid};

verus! {

/// Monotonicity: a sync pass never lowers a chain's derivation-index
/// high-water-mark, for any store, remote view, stop-gap and scan order.
pub proof fn lemma_sync_monotonic(
    v: DbView,
    r: RemoteView,
    g: int,
    first: ScriptType,
    chain: ScriptType,
)
    ensures
        match v.index_of(chain) {
            Some(o) => spec_sync_result(v, r, g, first).index_of(chain) matches Some(n) && n >= o,
            None => true,
        },
{
    assert(spec_sync_result(v, r, g, first).index_of(chain) == spec_indexes_updated(
        v,
        r,
        g,
    ).index_of(chain));
}

/// Completeness: after a pass, the store holds exactly one summary for
/// every touched transaction identifier, and none for any other.
pub proof fn lemma_sync_completeness(v: DbView, r: RemoteView, g: int, first: ScriptType)
    ensures
        spec_sync_result(v, r, g, first).tx_details.dom() == spec_touched(v, r, g),
{
    let touched = spec_touched(v, r, g);
    let w = spec_sync_result(v, r, g, first);
    assert forall|t: Txid| #[trigger] w.tx_details.dom().contains(t)
        implies touched.contains(t) by {}
    assert forall|t: Txid| #[trigger] touched.contains(t)
        implies w.tx_details.dom().contains(t) by {}
    assert(w.tx_details.dom() =~= touched);
}

/// UTXO correctness: after a pass, no unspent-output record remains for an
/// outpoint consumed by any downloaded transaction's input.
pub proof fn lemma_sync_spent_removed(
    v: DbView,
    r: RemoteView,
    g: int,
    first: ScriptType,
    op: OutPoint,
)
    requires
        spec_spent_outpoints(
            r,
            spec_download_ids(r, spec_touched(v, r, g), v.raw_txs.dom()),
        ).contains(op),
    ensures
        !spec_sync_result(v, r, g, first).utxos.dom().contains(op),
{
}

/// Fee non-negativity: every computed summary's fee is the inputs' sum
/// minus the outputs' sum, clamped at zero.
pub proof fn lemma_fee_clamped(v: DbView, txid: Txid, ts: u64, h: Option<u32>)
    requires
        spec_details_computable(v, txid),
    ensures
        ({
            let tx = v.raw_txs[txid];
            let ins = spec_inputs_sum(v, tx, tx.input.len() as int);
            let outs = spec_outputs_sum(tx, tx.output.len() as int);
            &&& crate::details::spec_details(v, txid, ts, h).fees == if ins >= outs {
                ins - outs
            } else {
                0
            }
            &&& spec_fees(v, tx) >= 0
        }),
{
    let tx = v.raw_txs[txid];
    crate::details::lemma_sent_le_inputs(v, tx, tx.input.len() as int);
    crate::details::lemma_received_le_outputs(v, tx, tx.output.len() as int);
    crate::details::lemma_outputs_sum_mono(tx, 0, tx.output.len() as int);
}

/// Idempotence: a second pass against an unchanged remote view leaves the
/// store exactly as the first pass did, whatever order either pass scanned
/// the chains in.
pub proof fn lemma_sync_idempotent(
    v: DbView,
    r: RemoteView,
    g: int,
    f1: ScriptType,
    f2: ScriptType,
)
    ensures
        spec_sync_result(spec_sync_result(v, r, g, f1), r, g, f2) == spec_sync_result(
            v,
            r,
            g,
            f1,
        ),
{
    let w = spec_sync_result(v, r, g, f1);
    let touched = spec_touched(v, r, g);
    assert(w.external_scripts == v.external_scripts);
    assert(w.internal_scripts == v.internal_scripts);
    assert(w.script_paths == v.script_paths);
    assert(spec_touched(w, r, g) == touched);
    lemma_sync_completeness(v, r, g, f1);

    // Nothing is missing any more, so the second pass downloads nothing.
    let dl1 = spec_download_ids(r, touched, v.raw_txs.dom());
    assert forall|t: Txid| #[trigger] touched.contains(t)
        implies w.raw_txs.dom().contains(t) by {
        if !v.raw_txs.dom().contains(t) {
            assert(spec_first_download(touched, v.raw_txs.dom()).contains(t));
            assert(spec_first_download(touched, v.raw_txs.dom()) != Set::<Txid>::empty());
            assert(dl1.contains(t));
        }
    }
    let first2 = spec_first_download(touched, w.raw_txs.dom());
    assert(first2 =~= Set::<Txid>::empty());
    let dl2 = spec_download_ids(r, touched, w.raw_txs.dom());
    assert(dl2 =~= Set::<Txid>::empty());
    assert(w.raw_txs.union_prefer_right(
        Map::new(|t: Txid| dl2.contains(t), |t: Txid| r.txs[t]),
    ) =~= w.raw_txs);

    // Raising an already-raised high-water-mark changes nothing.
    let cand_e = spec_chain_candidate(r, v.external_scripts, g);
    let cand_i = spec_chain_candidate(r, v.internal_scripts, g);
    assert(w.external_index == spec_new_index(v.external_index, cand_e));
    assert(w.internal_index == spec_new_index(v.internal_index, cand_i));
    assert(spec_new_index(spec_new_index(v.external_index, cand_e), cand_e) == spec_new_index(
        v.external_index,
        cand_e,
    ));
    assert(spec_new_index(spec_new_index(v.internal_index, cand_i), cand_i) == spec_new_index(
        v.internal_index,
        cand_i,
    ));

    // Everything touched is summarized already, so nothing is recomputed,
    // created or deleted.
    let new_keys2 = touched.difference(w.tx_details.dom());
    assert(new_keys2 =~= Set::<Txid>::empty());
    let w2 = spec_sync_result(w, r, g, f2);
    assert(w2.tx_details =~= w.tx_details) by {
        assert(w.tx_details.dom().difference(touched) =~= Set::<Txid>::empty());
    }
    assert(spec_spent_outpoints(r, dl2) =~= Set::<OutPoint>::empty());
    assert(Set::new(
        |op: OutPoint| w.tx_details.dom().difference(spec_touched(w, r, g)).contains(op.txid),
    ) =~= Set::<OutPoint>::empty());
    assert(w2.utxos =~= w.utxos) by {
        assert(crate::setup::spec_created_utxos(
            DbView {
                raw_txs: w.raw_txs.union_prefer_right(
                    Map::new(|t: Txid| dl2.contains(t), |t: Txid| r.txs[t]),
                ),
                ..spec_indexes_updated(w, r, g)
            },
            new_keys2,
        ) =~= Map::<OutPoint, crate::types::UTXOV>::empty());
    }
    assert(w2 =~= w);
}

/// Gap-limit termination, from any group boundary at or before the last
/// active index: the scan spends one request per group that still holds
/// activity, then exactly one more on the empty group after it.
proof fn lemma_scan_requests_from(r: RemoteView, s: Seq<Seq<u8>>, gap: int, k: int, from: int)
    requires
        gap >= 1,
        0 <= from <= k,
        k + gap <= s.len(),
        forall|i: int|
            0 <= i < s.len() ==> (r.history_of(#[trigger] s[i]).len() != 0 <==> i < k),
    ensures
        spec_scan_requests(r, s, gap, from) == spec_num_chunks(k - from, gap) + 1,
    decreases k - from,
{
    let end = chunk_end(s.len() as int, gap, from);
    if from == k {
        assert(chunk_all_empty(r, s, from, end));
    } else {
        assert(r.history_of(s[from]).len() != 0);
        assert(!chunk_all_empty(r, s, from, end));
        assert(end == from + gap);
        if end <= k {
            lemma_scan_requests_from(r, s, gap, k, end);
        } else {
            // The next group starts past the last activity and is empty.
            let end2 = chunk_end(s.len() as int, gap, end);
            assert(end < s.len());
            assert(chunk_all_empty(r, s, end, end2));
            assert(spec_scan_requests(r, s, gap, end) == 1);
        }
    }
}

/// Gap-limit termination: when the first `k` scripts have activity and
/// everything from index `k` on is unused, a chain scan issues exactly one
/// batched request per group of `gap` active scripts, plus one for the
/// empty group that stops it.
pub proof fn lemma_gap_limit_termination(r: RemoteView, s: Seq<Seq<u8>>, gap: int, k: int)
    requires
        gap >= 1,
        0 <= k,
        k + gap <= s.len(),
        forall|i: int|
            0 <= i < s.len() ==> (r.history_of(#[trigger] s[i]).len() != 0 <==> i < k),
    ensures
        spec_scan_requests(r, s, gap, 0) == spec_num_chunks(k, gap) + 1,
{
    lemma_scan_requests_from(r, s, gap, k, 0);
}

} // verus!
