//! The transaction-graph downloader: fetches the touched transactions that
//! are missing locally, then one extra hop — the direct predecessors of
//! their inputs — so that every input's value can be resolved without
//! materializing deeper ancestry.

use vstd::prelude::*;

use crate::chunks::{chunks, spec_chunk, spec_num_chunks};
use crate::client::{ElectrumLikeSync, RemoteView};
use crate::collections::TxidSet;
use crate::types::{Error, SyncPhase, Transaction, TransactionV, Txid};

verus! {

broadcast use vstd::seq_lib::lemma_seq_contains_after_push;

/// Whether a transaction spends an output of transaction `p` (coinbase
/// inputs reference nothing).
pub open spec fn tx_references(tx: TransactionV, p: Txid) -> bool {
    exists|i: int|
        0 <= i < tx.input.len() && !(#[trigger] tx.input[i]).previous_output.spec_is_null()
            && tx.input[i].previous_output.txid == p
}

/// The identifiers referenced by the inputs of the remote transactions in
/// `ids`: the predecessors needed to resolve input values.
pub open spec fn spec_prev_ids(r: RemoteView, ids: Set<Txid>) -> Set<Txid> {
    Set::new(
        |p: Txid|
            exists|t: Txid|
                #[trigger] ids.contains(t) && r.txs.dom().contains(t) && tx_references(
                    r.txs[t],
                    p,
                ),
    )
}

/// The identifiers carried by a run of raw transactions.
pub open spec fn seq_tx_ids(txs: Seq<Transaction>) -> Set<Txid> {
    Set::new(|t: Txid| exists|i: int| 0 <= i < txs.len() && (#[trigger] txs[i]).txid == t)
}

/// What the downloader fetches first: the touched identifiers not already
/// stored.
pub open spec fn spec_first_download(history: Set<Txid>, in_db: Set<Txid>) -> Set<Txid> {
    history.difference(in_db)
}

/// What the downloader fetches second: predecessors of the first batch that
/// are in neither the first batch nor the store.
pub open spec fn spec_second_download(r: RemoteView, history: Set<Txid>, in_db: Set<Txid>)
    -> Set<Txid> {
    spec_prev_ids(r, spec_first_download(history, in_db)).difference(
        spec_first_download(history, in_db),
    ).difference(in_db)
}

/// Everything one run of the downloader returns: nothing when nothing is
/// missing, else the missing transactions and their predecessors.
pub open spec fn spec_download_ids(r: RemoteView, history: Set<Txid>, in_db: Set<Txid>) -> Set<
    Txid,
> {
    if spec_first_download(history, in_db) == Set::<Txid>::empty() {
        Set::empty()
    } else {
        spec_first_download(history, in_db).union(spec_second_download(r, history, in_db))
    }
}

/// Fetches raw transactions in fixed-size batches, one per requested
/// identifier, in request order.
#[verifier::loop_isolation(false)]
pub fn download_in_chunks<S: ElectrumLikeSync>(
    client: &S,
    to_download: &Vec<Txid>,
    chunk_size: usize,
) -> (r: Result<Vec<Transaction>, Error>)
    requires
        chunk_size >= 1,
    ensures
        r matches Ok(v) ==> {
            &&& v@.len() == to_download@.len()
            &&& forall|i: int|
                0 <= i < v@.len() ==> {
                    &&& client.remote().txs.contains_pair(to_download@[i], (#[trigger] v@[i])@)
                    &&& v@[i]@.txid == to_download@[i]
                }
        },
        r is Err ==> r == Err::<Vec<Transaction>, Error>(Error::Remote(SyncPhase::Download)),
        to_download@.len() == 0 ==> r is Ok,
{
    let groups = chunks(to_download, chunk_size);
    let total = to_download.len();
    let mut txs: Vec<Transaction> = Vec::new();
    let mut ci: usize = 0;
    let mut done: usize = 0;
    proof {
        crate::chunks::lemma_num_chunks(to_download@.len() as int, chunk_size as int, 0);
    }
    while ci < groups.len()
        invariant
            chunk_size >= 1,
            total == to_download@.len(),
            groups@.len() == spec_num_chunks(to_download@.len() as int, chunk_size as int),
            forall|i: int|
                0 <= i < groups@.len() ==> (#[trigger] groups@[i])@ == spec_chunk(
                    to_download@,
                    chunk_size as int,
                    i,
                ),
            ci <= groups@.len(),
            done <= to_download@.len(),
            ci < groups@.len() ==> done == ci * (chunk_size as int),
            ci == groups@.len() ==> done == to_download@.len(),
            txs@.len() == done,
            forall|i: int|
                0 <= i < done ==> {
                    &&& client.remote().txs.contains_pair(to_download@[i], (#[trigger] txs@[i])@)
                    &&& txs@[i]@.txid == to_download@[i]
                },
        decreases groups@.len() - ci,
    {
        let group = &groups[ci];
        let mut fetched = match client.els_batch_transaction_get(group) {
            Ok(f) => f,
            Err(_) => {
                proof {
                    crate::chunks::lemma_num_chunks(to_download@.len() as int, chunk_size as int, 0);
                    assert(to_download@.len() > 0);
                }
                return Err(Error::Remote(SyncPhase::Download));
            },
        };
        let ghost old_done = done as int;
        let ghost sz = chunk_size as int;
        proof {
            assert(group@ == spec_chunk(to_download@, sz, ci as int));
            crate::chunks::lemma_num_chunks(to_download@.len() as int, sz, ci as int);
            assert((ci as int) * sz < to_download@.len());
            assert((ci + 1) * sz == (ci as int) * sz + sz) by (nonlinear_arith);
        }
        proof {
            assert(done + fetched@.len() <= total);
        }
        done = done + fetched.len();
        txs.append(&mut fetched);
        ci += 1;
        proof {
            crate::chunks::lemma_num_chunks(to_download@.len() as int, sz, ci as int);
        }
    }
    Ok(txs)
}

/// Downloads the touched transactions that are missing locally, then their
/// direct predecessors, bounding the fetched graph to depth two from the
/// wallet's own history.
#[verifier::loop_isolation(false)]
pub fn download_needed_raw_txs<S: ElectrumLikeSync>(
    client: &S,
    history_txs_id: &TxidSet,
    txids_in_db: &TxidSet,
    chunk_size: usize,
) -> (r: Result<Vec<Transaction>, Error>)
    requires
        chunk_size >= 1,
    ensures
        r matches Ok(v) ==> {
            &&& forall|i: int|
                0 <= i < v@.len() ==> client.remote().txs.contains_pair(
                    (#[trigger] v@[i])@.txid,
                    v@[i]@,
                )
            &&& seq_tx_ids(v@) == spec_download_ids(client.remote(), history_txs_id@, txids_in_db@)
            &&& forall|i: int, j: int|
                0 <= i < j < v@.len() ==> (#[trigger] v@[i])@.txid != (#[trigger] v@[j])@.txid
        },
        r is Err ==> r == Err::<Vec<Transaction>, Error>(Error::Remote(SyncPhase::Download)),
        spec_first_download(history_txs_id@, txids_in_db@) == Set::<Txid>::empty() ==> r is Ok,
{
    let ghost rv = client.remote();
    let ghost first = spec_first_download(history_txs_id@, txids_in_db@);

    let mut to_download: Vec<Txid> = Vec::new();
    let mut idx: usize = 0;
    while idx < history_txs_id.len()
        invariant
            idx <= history_txs_id.order().len(),
            forall|j: int| 0 <= j < to_download@.len() ==> first.contains(#[trigger] to_download@[j]),
            forall|j: int|
                0 <= j < idx ==> (txids_in_db@.contains(#[trigger] history_txs_id.order()[j])
                    || to_download@.contains(history_txs_id.order()[j])),
            forall|a: int|
                0 <= a < to_download@.len() ==> exists|j: int|
                    0 <= j < idx && history_txs_id.order()[j] == #[trigger] to_download@[a],
            forall|a: int, b: int|
                0 <= a < b < to_download@.len() ==> to_download@[a] != to_download@[b],
        decreases history_txs_id.order().len() - idx,
    {
        let t = history_txs_id.get(idx);
        let in_db = txids_in_db.contains(t);
        if !in_db {
            let ghost pre = to_download@;
            to_download.push(t);
            proof {
                assert(to_download@[to_download@.len() - 1] == t);
                assert(to_download@.contains(t));
                assert(first.contains(t));
                assert forall|j: int| 0 <= j < to_download@.len()
                    implies first.contains(#[trigger] to_download@[j]) by {
                    if j < pre.len() {
                        assert(to_download@[j] == pre[j]);
                    }
                }
                assert forall|a: int|
                    0 <= a < to_download@.len()
                    implies exists|j: int|
                    0 <= j < idx + 1 && history_txs_id.order()[j] == #[trigger] to_download@[a] by {
                    if a < pre.len() {
                        assert(to_download@[a] == pre[a]);
                    } else {
                        assert(history_txs_id.order()[idx as int] == to_download@[a]);
                    }
                }
                assert forall|a: int, b: int|
                    0 <= a < b < to_download@.len()
                    implies to_download@[a] != to_download@[b] by {
                    if b == pre.len() {
                        assert(to_download@[a] == pre[a]);
                        let j = choose|j: int|
                            0 <= j < idx && history_txs_id.order()[j] == pre[a];
                        assert(history_txs_id.order()[j] != t);
                    } else {
                        assert(to_download@[a] == pre[a]);
                        assert(to_download@[b] == pre[b]);
                    }
                }
            }
        }
        idx += 1;
    }
    proof {
        assert forall|t: Txid| #[trigger] first.contains(t) implies to_download@.contains(t) by {
            assert(history_txs_id@.contains(t));
            assert(history_txs_id.order().to_set().contains(t));
            let j = choose|j: int|
                0 <= j < history_txs_id.order().len() && history_txs_id.order()[j] == t;
            assert(!txids_in_db@.contains(t));
        }
    }

    if to_download.len() == 0 {
        proof {
            assert forall|t: Txid| !(#[trigger] first.contains(t)) by {
                if first.contains(t) {
                    assert(to_download@.contains(t));
                }
            }
            assert(first =~= Set::<Txid>::empty());
            assert(seq_tx_ids(Seq::<Transaction>::empty()) =~= Set::<Txid>::empty());
        }
        return Ok(Vec::new());
    }
    proof {
        assert(first.contains(to_download@[0]));
        assert(first != Set::<Txid>::empty());
    }

    let mut txs_downloaded = download_in_chunks(client, &to_download, chunk_size)?;
    proof {
        assert forall|t: Txid| #[trigger] seq_tx_ids(txs_downloaded@).contains(t)
            implies first.contains(t) by {
            let i = choose|i: int|
                0 <= i < txs_downloaded@.len() && (#[trigger] txs_downloaded@[i]).txid == t;
            assert(to_download@[i] == t);
            assert(first.contains(to_download@[i]));
        }
        assert forall|t: Txid| #[trigger] first.contains(t)
            implies seq_tx_ids(txs_downloaded@).contains(t) by {
            assert(to_download@.contains(t));
            let j = choose|j: int| 0 <= j < to_download@.len() && to_download@[j] == t;
            assert(txs_downloaded@[j].txid == t);
        }
        assert(seq_tx_ids(txs_downloaded@) =~= first);
    }

    // Collect the predecessors referenced by the fetched transactions.
    let mut previous_txids = TxidSet::new();
    let mut k: usize = 0;
    while k < txs_downloaded.len()
        invariant
            forall|p: Txid| #[trigger]
                previous_txids@.contains(p) <==> exists|a: int|
                    0 <= a < k && tx_references((#[trigger] txs_downloaded@[a])@, p),
            k <= txs_downloaded@.len(),
            forall|i: int|
                0 <= i < txs_downloaded@.len() ==> rv.txs.contains_pair(
                    (#[trigger] txs_downloaded@[i])@.txid,
                    txs_downloaded@[i]@,
                ),
            seq_tx_ids(txs_downloaded@) == first,
            forall|j: int|
                0 <= j < to_download@.len() ==> (#[trigger] txs_downloaded@[j])@.txid
                    == to_download@[j],
            txs_downloaded@.len() == to_download@.len(),
        decreases txs_downloaded@.len() - k,
    {
        let n_in = txs_downloaded[k].input.len();
        let mut b: usize = 0;
        while b < n_in
            invariant
                k < txs_downloaded@.len(),
                n_in == txs_downloaded@[k as int]@.input.len(),
                b <= n_in,
                forall|p: Txid| #[trigger]
                    previous_txids@.contains(p) <==> (exists|a: int|
                        0 <= a < k && tx_references((#[trigger] txs_downloaded@[a])@, p)) || (
                    exists|i: int|
                        0 <= i < b && !(#[trigger] txs_downloaded@[k as int]@.input[i]).previous_output.spec_is_null()
                            && txs_downloaded@[k as int]@.input[i].previous_output.txid == p),
            decreases n_in - b,
        {
            let input = txs_downloaded[k].input[b];
            if !input.previous_output.is_null() {
                previous_txids.insert(input.previous_output.txid);
            }
            b += 1;
            proof {
                assert forall|p: Txid| #[trigger] previous_txids@.contains(p)
                    implies ((exists|a: int|
                    0 <= a < k && tx_references((#[trigger] txs_downloaded@[a])@, p)) || (
                exists|i: int|
                    0 <= i < b && !(#[trigger] txs_downloaded@[k as int]@.input[i]).previous_output.spec_is_null()
                        && txs_downloaded@[k as int]@.input[i].previous_output.txid == p)) by {
                    if !input.previous_output.spec_is_null() && p == input.previous_output.txid {
                        assert(txs_downloaded@[k as int]@.input[b - 1] == input);
                    }
                }
            }
        }
        k += 1;
        proof {
            assert forall|p: Txid| #[trigger] previous_txids@.contains(p)
                implies exists|a: int|
                0 <= a < k && tx_references((#[trigger] txs_downloaded@[a])@, p) by {}
            assert forall|p: Txid|
                (exists|a: int|
                    0 <= a < k && tx_references((#[trigger] txs_downloaded@[a])@, p))
                implies previous_txids@.contains(p) by {
                let a = choose|a: int|
                    0 <= a < k && tx_references((#[trigger] txs_downloaded@[a])@, p);
                if a == k - 1 {
                    let i = choose|i: int|
                        0 <= i < txs_downloaded@[a]@.input.len()
                            && !(#[trigger] txs_downloaded@[a]@.input[i]).previous_output.spec_is_null()
                            && txs_downloaded@[a]@.input[i].previous_output.txid == p;
                    assert(previous_txids@.contains(p));
                }
            }
        }
    }
    proof {
        assert forall|p: Txid| #[trigger] previous_txids@.contains(p) <==> spec_prev_ids(
            rv,
            first,
        ).contains(p) by {
            if previous_txids@.contains(p) {
                let a = choose|a: int|
                    0 <= a < txs_downloaded@.len() && tx_references(
                        (#[trigger] txs_downloaded@[a])@,
                        p,
                    );
                assert(first.contains(txs_downloaded@[a]@.txid));
                assert(rv.txs.contains_pair(txs_downloaded@[a]@.txid, txs_downloaded@[a]@));
            }
            if spec_prev_ids(rv, first).contains(p) {
                let t = choose|t: Txid|
                    #[trigger] first.contains(t) && rv.txs.dom().contains(t) && tx_references(
                        rv.txs[t],
                        p,
                    );
                assert(seq_tx_ids(txs_downloaded@).contains(t));
                let a = choose|a: int|
                    0 <= a < txs_downloaded@.len() && (#[trigger] txs_downloaded@[a]).txid == t;
                assert(txs_downloaded@[a]@ == rv.txs[t]);
                assert(tx_references(txs_downloaded@[a]@, p));
            }
        }
        assert(previous_txids@ =~= spec_prev_ids(rv, first));
    }

    // Keep only the predecessors that are in neither batch nor store.
    let ghost second = spec_second_download(rv, history_txs_id@, txids_in_db@);
    let mut second_vec: Vec<Txid> = Vec::new();
    let mut idx2: usize = 0;
    while idx2 < previous_txids.len()
        invariant
            idx2 <= previous_txids.order().len(),
            previous_txids@ == spec_prev_ids(rv, first),
            seq_tx_ids(txs_downloaded@) == first,
            forall|j: int|
                0 <= j < second_vec@.len() ==> second.contains(#[trigger] second_vec@[j]),
            forall|j: int|
                0 <= j < idx2 ==> (!second.contains(#[trigger] previous_txids.order()[j])
                    || second_vec@.contains(previous_txids.order()[j])),
            forall|a: int|
                0 <= a < second_vec@.len() ==> exists|j: int|
                    0 <= j < idx2 && previous_txids.order()[j] == #[trigger] second_vec@[a],
            forall|a: int, b: int|
                0 <= a < b < second_vec@.len() ==> second_vec@[a] != second_vec@[b],
            txs_downloaded@.len() == to_download@.len(),
            forall|i: int|
                0 <= i < txs_downloaded@.len() ==> rv.txs.contains_pair(
                    (#[trigger] txs_downloaded@[i])@.txid,
                    txs_downloaded@[i]@,
                ),
        decreases previous_txids.order().len() - idx2,
    {
        let p = previous_txids.get(idx2);
        let mut is_first: bool = false;
        let mut a: usize = 0;
        while a < txs_downloaded.len()
            invariant
                a <= txs_downloaded@.len(),
                is_first <==> exists|i: int|
                    0 <= i < a && (#[trigger] txs_downloaded@[i]).txid == p,
            decreases txs_downloaded@.len() - a,
        {
            if txs_downloaded[a].txid == p {
                is_first = true;
                proof {
                    assert(txs_downloaded@[a as int].txid == p);
                }
            }
            a += 1;
        }
        proof {
            assert(is_first <==> seq_tx_ids(txs_downloaded@).contains(p));
            assert(is_first <==> first.contains(p));
        }
        if !is_first && !txids_in_db.contains(p) {
            proof {
                assert(previous_txids@.contains(p));
                assert(second.contains(p));
            }
            let ghost pre = second_vec@;
            second_vec.push(p);
            proof {
                assert(second_vec@[second_vec@.len() - 1] == p);
                assert(second_vec@.contains(p));
                assert forall|j: int| 0 <= j < second_vec@.len()
                    implies second.contains(#[trigger] second_vec@[j]) by {
                    if j < pre.len() {
                        assert(second_vec@[j] == pre[j]);
                    }
                }
                assert forall|a: int|
                    0 <= a < second_vec@.len()
                    implies exists|j: int|
                    0 <= j < idx2 + 1 && previous_txids.order()[j] == #[trigger] second_vec@[a] by {
                    if a < pre.len() {
                        assert(second_vec@[a] == pre[a]);
                    } else {
                        assert(previous_txids.order()[idx2 as int] == second_vec@[a]);
                    }
                }
                assert forall|a: int, b: int|
                    0 <= a < b < second_vec@.len()
                    implies second_vec@[a] != second_vec@[b] by {
                    if b == pre.len() {
                        assert(second_vec@[a] == pre[a]);
                        let j = choose|j: int|
                            0 <= j < idx2 && previous_txids.order()[j] == pre[a];
                        assert(previous_txids.order()[j] != p);
                    } else {
                        assert(second_vec@[a] == pre[a]);
                        assert(second_vec@[b] == pre[b]);
                    }
                }
            }
        }
        idx2 += 1;
    }
    proof {
        assert forall|p: Txid| #[trigger] second.contains(p)
            implies second_vec@.contains(p) by {
            assert(previous_txids@.contains(p));
            assert(previous_txids.order().to_set().contains(p));
            let j = choose|j: int|
                0 <= j < previous_txids.order().len() && previous_txids.order()[j] == p;
        }
    }

    let mut second_txs = download_in_chunks(client, &second_vec, chunk_size)?;
    let ghost firsts = txs_downloaded@;
    let ghost seconds = second_txs@;
    txs_downloaded.append(&mut second_txs);
    proof {
        assert(txs_downloaded@ == firsts + seconds);
        assert forall|t: Txid| #[trigger] seq_tx_ids(txs_downloaded@).contains(t)
            implies first.union(second).contains(t) by {
            let i = choose|i: int|
                0 <= i < txs_downloaded@.len() && (#[trigger] txs_downloaded@[i]).txid == t;
            if i < firsts.len() {
                assert(firsts[i].txid == t);
                assert(seq_tx_ids(firsts).contains(t));
            } else {
                assert(seconds[i - firsts.len()].txid == t);
                assert(second_vec@[i - firsts.len()] == t);
                assert(second.contains(t));
            }
        }
        assert forall|t: Txid| #[trigger] first.union(second).contains(t)
            implies seq_tx_ids(txs_downloaded@).contains(t) by {
            if first.contains(t) {
                let i = choose|i: int| 0 <= i < firsts.len() && (#[trigger] firsts[i]).txid == t;
                assert(txs_downloaded@[i].txid == t);
            } else {
                assert(second_vec@.contains(t));
                let j = choose|j: int| 0 <= j < second_vec@.len() && second_vec@[j] == t;
                assert(seconds[j].txid == t);
                assert(txs_downloaded@[firsts.len() + j].txid == t);
            }
        }
        assert(seq_tx_ids(txs_downloaded@) =~= first.union(second));
        assert forall|i: int, j: int| 0 <= i < j < txs_downloaded@.len()
            implies (#[trigger] txs_downloaded@[i])@.txid != (#[trigger] txs_downloaded@[j])@.txid
            by {
            if j < firsts.len() {
                assert(firsts[i]@.txid == to_download@[i]);
                assert(firsts[j]@.txid == to_download@[j]);
            } else if i >= firsts.len() {
                assert(seconds[i - firsts.len()]@.txid == second_vec@[i - firsts.len()]);
                assert(seconds[j - firsts.len()]@.txid == second_vec@[j - firsts.len()]);
            } else {
                assert(firsts[i]@.txid == to_download@[i]);
                assert(first.contains(to_download@[i]));
                assert(seconds[j - firsts.len()]@.txid == second_vec@[j - firsts.len()]);
                assert(second.contains(second_vec@[j - firsts.len()]));
            }
        }
    }
    Ok(txs_downloaded)
}

} // verus!
