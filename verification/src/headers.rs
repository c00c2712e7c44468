//! The height-to-timestamp resolver: fetches block headers, in fixed-size
//! batches, for exactly the confirmation heights that belong to not-yet
//! summarized transactions, and maps each such transaction to its block's
//! timestamp.

use vstd::prelude::*;

use crate::chunks::{chunks, spec_chunk, spec_num_chunks};
use crate::client::{ElectrumLikeSync, RemoteView};
use crate::collections::{lemma_map_of_dom, IdMap, TxidSet};
use crate::types::{Error, SyncPhase, Txid};

verus! {

broadcast use vstd::seq_lib::lemma_seq_contains_after_push;

/// A transaction still needs a timestamp when it has a recorded height and
/// no stored summary yet.
pub open spec fn spec_needs_timestamp(
    heights: Map<Txid, Option<u32>>,
    in_db: Set<Txid>,
    t: Txid,
) -> bool {
    heights.dom().contains(t) && !in_db.contains(t) && heights[t] is Some
}

/// The heights whose headers must be fetched: one per needed, confirmed
/// transaction, deduplicated.
pub open spec fn spec_needed_heights(heights: Map<Txid, Option<u32>>, in_db: Set<Txid>) -> Set<
    u32,
> {
    Set::new(
        |h: u32|
            exists|t: Txid|
                #[trigger] heights.dom().contains(t) && !in_db.contains(t) && heights[t] == Some(h),
    )
}

/// The timestamp map the resolver produces: every needed, confirmed
/// transaction mapped to its block's header time.  An unconfirmed
/// transaction never receives a timestamp.
pub open spec fn spec_txid_timestamps(
    r: RemoteView,
    heights: Map<Txid, Option<u32>>,
    in_db: Set<Txid>,
) -> Map<Txid, u64> {
    Map::new(
        |t: Txid| spec_needs_timestamp(heights, in_db, t),
        |t: Txid| r.headers[heights[t]->0].time as u64,
    )
}

/// Fetches the block headers for the heights of the not-yet-summarized
/// confirmed transactions, in fixed-size batches, and returns the map from
/// transaction identifier to block timestamp.
#[verifier::loop_isolation(false)]
pub fn download_needed_headers<S: ElectrumLikeSync>(
    client: &S,
    txid_height: &IdMap<Option<u32>>,
    txid_details_in_db: &TxidSet,
    chunk_size: usize,
) -> (r: Result<IdMap<u64>, Error>)
    requires
        chunk_size >= 1,
    ensures
        r matches Ok(m) ==> {
            &&& m@ == spec_txid_timestamps(client.remote(), txid_height@, txid_details_in_db@)
            &&& forall|h: u32|
                spec_needed_heights(txid_height@, txid_details_in_db@).contains(h)
                    ==> #[trigger] client.remote().headers.dom().contains(h)
        },
        r is Err ==> r == Err::<IdMap<u64>, Error>(Error::Remote(SyncPhase::ResolveTimestamps)),
        spec_needed_heights(txid_height@, txid_details_in_db@) == Set::<u32>::empty() ==> r is Ok,
{
    let ghost rv = client.remote();
    let ghost hmap = txid_height@;
    let ghost in_db = txid_details_in_db@;
    let ghost needed = spec_needed_heights(hmap, in_db);

    // Collect the needed heights, deduplicated, scanning every recorded
    // (transaction, height) pair.
    let mut needed_heights: Vec<u32> = Vec::new();
    let n_pairs = txid_height.len();
    let mut i: usize = 0;
    while i < n_pairs
        invariant
            i <= n_pairs,
            forall|a: int| 0 <= a < needed_heights@.len() ==> needed.contains(
                #[trigger] needed_heights@[a],
            ),
            forall|j: int|
                0 <= j < i ==> {
                    let (t, hopt) = #[trigger] txid_height.pairs()[j];
                    (hopt matches Some(h) && !in_db.contains(t)) ==> needed_heights@.contains(
                        hopt->0,
                    )
                },
        decreases n_pairs - i,
    {
        let t = txid_height.key_at(i);
        let hopt = txid_height.value_at(i);
        if let Some(h) = hopt {
            if !txid_details_in_db.contains(t) {
                // Linear scan keeps the list free of duplicates.
                let mut seen: bool = false;
                let mut a: usize = 0;
                while a < needed_heights.len()
                    invariant
                        a <= needed_heights@.len(),
                        seen <==> exists|b: int|
                            0 <= b < a && #[trigger] needed_heights@[b] == h,
                    decreases needed_heights@.len() - a,
                {
                    if needed_heights[a] == h {
                        seen = true;
                        proof {
                            assert(needed_heights@[a as int] == h);
                        }
                    }
                    a += 1;
                }
                if !seen {
                    needed_heights.push(h);
                    proof {
                        assert(hmap.contains_pair(t, Some(h)));
                        assert(needed.contains(h));
                    }
                } else {
                    proof {
                        assert(needed_heights@.contains(h));
                    }
                }
            }
        }
        i += 1;
    }

    // Fetch the headers for those heights, one batch per group.
    let groups = chunks(&needed_heights, chunk_size);
    let total = needed_heights.len();
    let mut height_timestamp: IdMap<u64> = IdMap::new();
    let mut ci: usize = 0;
    let mut done: usize = 0;
    proof {
        crate::chunks::lemma_num_chunks(needed_heights@.len() as int, chunk_size as int, 0);
    }
    while ci < groups.len()
        invariant
            ci <= groups@.len(),
            done <= total,
            ci < groups@.len() ==> done == ci * (chunk_size as int),
            ci == groups@.len() ==> done == total,
            forall|j: int|
                0 <= j < done ==> {
                    &&& rv.headers.dom().contains(#[trigger] needed_heights@[j])
                    &&& height_timestamp@.contains_pair(
                        needed_heights@[j] as u64,
                        rv.headers[needed_heights@[j]].time as u64,
                    )
                },
        decreases groups@.len() - ci,
    {
        let group = &groups[ci];
        let fetched = match client.els_batch_block_header(group) {
            Ok(f) => f,
            Err(_) => {
                proof {
                    crate::chunks::lemma_num_chunks(
                        needed_heights@.len() as int,
                        chunk_size as int,
                        0,
                    );
                    assert(needed_heights@.len() > 0);
                    assert(needed.contains(needed_heights@[0]));
                    assert(needed != Set::<u32>::empty());
                }
                return Err(Error::Remote(SyncPhase::ResolveTimestamps));
            },
        };
        let ghost sz = chunk_size as int;
        proof {
            assert(group@ == spec_chunk(needed_heights@, sz, ci as int));
            crate::chunks::lemma_num_chunks(needed_heights@.len() as int, sz, ci as int);
            assert((ci + 1) * sz == (ci as int) * sz + sz) by (nonlinear_arith);
        }
        let mut b: usize = 0;
        while b < group.len()
            invariant
                b <= group@.len(),
                done + group@.len() <= total,
                forall|j: int|
                    0 <= j < done + b ==> {
                        &&& rv.headers.dom().contains(#[trigger] needed_heights@[j])
                        &&& height_timestamp@.contains_pair(
                            needed_heights@[j] as u64,
                            rv.headers[needed_heights@[j]].time as u64,
                        )
                    },
            decreases group@.len() - b,
        {
            let h = group[b];
            let ts = fetched[b].time as u64;
            height_timestamp.insert(h as u64, ts);
            proof {
                assert(needed_heights@[done + b] == h);
            }
            b += 1;
        }
        done = done + group.len();
        ci += 1;
        proof {
            crate::chunks::lemma_num_chunks(needed_heights@.len() as int, sz, ci as int);
        }
    }

    // Map each needed transaction to its block timestamp.
    let mut txid_timestamp: IdMap<u64> = IdMap::new();
    let mut k: usize = 0;
    while k < n_pairs
        invariant
            k <= n_pairs,
            forall|j: int|
                0 <= j < done ==> {
                    &&& rv.headers.dom().contains(#[trigger] needed_heights@[j])
                    &&& height_timestamp@.contains_pair(
                        needed_heights@[j] as u64,
                        rv.headers[needed_heights@[j]].time as u64,
                    )
                },
            txid_timestamp@ == Map::new(
                |t: Txid| spec_needs_timestamp(hmap, in_db, t) && exists|j: int|
                    0 <= j < k && (#[trigger] txid_height.pairs()[j]).0 == t,
                |t: Txid| rv.headers[hmap[t]->0].time as u64,
            ),
        decreases n_pairs - k,
    {
        let t = txid_height.key_at(k);
        let hopt = txid_height.value_at(k);
        let ghost pre = txid_timestamp@;
        let mut inserted: bool = false;
        if let Some(h) = hopt {
            if !txid_details_in_db.contains(t) {
                proof {
                    assert(hmap.contains_pair(t, Some(h)));
                    assert(needed_heights@.contains(h));
                    let j = choose|j: int|
                        0 <= j < needed_heights@.len() && needed_heights@[j] == h;
                    assert(height_timestamp@.contains_pair(h as u64, rv.headers[h].time as u64));
                }
                let ts = match height_timestamp.get(h as u64) {
                    Some(ts) => ts,
                    None => {
                        return vstd::pervasive::unreached();
                    },
                };
                txid_timestamp.insert(t, ts);
                inserted = true;
                proof {
                    assert(txid_height.pairs()[k as int].0 == t);
                    assert(spec_needs_timestamp(hmap, in_db, t));
                    assert(ts == rv.headers[hmap[t]->0].time as u64);
                    assert(txid_timestamp@ =~= Map::new(
                        |t2: Txid|
                            spec_needs_timestamp(hmap, in_db, t2) && exists|j: int|
                                0 <= j < k + 1 && (#[trigger] txid_height.pairs()[j]).0 == t2,
                        |t2: Txid| rv.headers[hmap[t2]->0].time as u64,
                    ));
                }
            }
        }
        proof {
            if !inserted {
                assert(hmap.contains_pair(t, txid_height.pairs()[k as int].1));
                assert(!spec_needs_timestamp(hmap, in_db, t));
                assert forall|t2: Txid|
                    spec_needs_timestamp(hmap, in_db, t2) && (exists|j: int|
                        0 <= j < k + 1 && (#[trigger] txid_height.pairs()[j]).0 == t2)
                    implies pre.dom().contains(t2) by {
                    let j = choose|j: int|
                        0 <= j < k + 1 && (#[trigger] txid_height.pairs()[j]).0 == t2;
                    assert(j < k);
                }
                assert(txid_timestamp@ =~= Map::new(
                    |t2: Txid|
                        spec_needs_timestamp(hmap, in_db, t2) && exists|j: int|
                            0 <= j < k + 1 && (#[trigger] txid_height.pairs()[j]).0 == t2,
                    |t2: Txid| rv.headers[hmap[t2]->0].time as u64,
                ));
            }
        }
        k += 1;
    }
    proof {
        assert forall|t: Txid| #[trigger] spec_txid_timestamps(rv, hmap, in_db).dom().contains(t)
            implies txid_timestamp@.dom().contains(t) by {
            lemma_map_of_dom(txid_height.pairs(), t);
        }
        assert(txid_timestamp@ =~= spec_txid_timestamps(rv, hmap, in_db));
        assert forall|h: u32| spec_needed_heights(hmap, in_db).contains(h)
            implies #[trigger] rv.headers.dom().contains(h) by {
            let t = choose|t: Txid|
                #[trigger] hmap.dom().contains(t) && !in_db.contains(t) && hmap[t] == Some(h);
            crate::collections::lemma_map_of_pair(txid_height.pairs(), t);
            let j = choose|j: int|
                0 <= j < txid_height.pairs().len() && #[trigger] txid_height.pairs()[j] == (
                t,
                hmap[t],
                );
            assert(needed_heights@.contains(h));
            let jj = choose|jj: int|
                0 <= jj < needed_heights@.len() && needed_heights@[jj] == h;
            assert(rv.headers.dom().contains(needed_heights@[jj]));
        }
    }
    Ok(txid_timestamp)
}

} // verus!
