//! The gap-limit address scanner: walks one derivation chain's scripts in
//! fixed-size groups, fetching each group's histories in one batched call,
//! and stops as soon as one whole group comes back empty — the
//! wallet-standard rule that a run of unused addresses ends the scan.

use vstd::prelude::*;

use crate::client::{ElectrumLikeSync, RemoteView};
use crate::collections::{IdMap, TxidSet};
use crate::details::{find_max_index, rows_view, spec_find_max_index};
use crate::types::{clone_script, normalize_height, spec_normalize_height, ELSGetHistoryRes,
    Error, SyncPhase, Txid};

verus! {

/// The identifiers named by the first `n` entries of one history listing.
pub open spec fn hist_txids_prefix(es: Seq<ELSGetHistoryRes>, n: int) -> Set<Txid>
    decreases n,
{
    if n <= 0 {
        Set::empty()
    } else {
        hist_txids_prefix(es, n - 1).insert(es[n - 1].tx_hash)
    }
}

/// The identifiers named by one whole history listing.
pub open spec fn hist_txids(es: Seq<ELSGetHistoryRes>) -> Set<Txid> {
    hist_txids_prefix(es, es.len() as int)
}

/// The normalized heights recorded by the first `n` entries of one history
/// listing; a later entry for the same identifier overwrites an earlier one.
pub open spec fn hist_heights_prefix(es: Seq<ELSGetHistoryRes>, n: int) -> Map<Txid, Option<u32>>
    decreases n,
{
    if n <= 0 {
        Map::empty()
    } else {
        hist_heights_prefix(es, n - 1).insert(
            es[n - 1].tx_hash,
            spec_normalize_height(es[n - 1].height),
        )
    }
}

/// The normalized heights recorded by one whole history listing.
pub open spec fn hist_heights(es: Seq<ELSGetHistoryRes>) -> Map<Txid, Option<u32>> {
    hist_heights_prefix(es, es.len() as int)
}

/// Every identifier seen in the histories of the first `m` scripts.
pub open spec fn touched_prefix(r: RemoteView, s: Seq<Seq<u8>>, m: int) -> Set<Txid>
    decreases m,
{
    if m <= 0 {
        Set::empty()
    } else {
        touched_prefix(r, s, m - 1).union(hist_txids(r.history_of(s[m - 1])))
    }
}

/// The height every identifier was last seen at, over the histories of the
/// first `m` scripts, in scan order.
pub open spec fn heights_prefix(r: RemoteView, s: Seq<Seq<u8>>, m: int) -> Map<Txid, Option<u32>>
    decreases m,
{
    if m <= 0 {
        Map::empty()
    } else {
        heights_prefix(r, s, m - 1).union_prefer_right(hist_heights(r.history_of(s[m - 1])))
    }
}

/// The highest of the first `m` script indices whose history is non-empty.
pub open spec fn max_active_prefix(r: RemoteView, s: Seq<Seq<u8>>, m: int) -> Option<int>
    decreases m,
{
    if m <= 0 {
        None
    } else if r.history_of(s[m - 1]).len() != 0 {
        Some(m - 1)
    } else {
        max_active_prefix(r, s, m - 1)
    }
}

/// Whether every script in `s[from..to)` has an empty history.
pub open spec fn chunk_all_empty(r: RemoteView, s: Seq<Seq<u8>>, from: int, to: int) -> bool {
    forall|i: int| from <= i < to ==> r.history_of(#[trigger] s[i]).len() == 0
}

/// Where the next group of `gap` scripts ends.
pub open spec fn chunk_end(s_len: int, gap: int, from: int) -> int {
    if from + gap <= s_len {
        from + gap
    } else {
        s_len
    }
}

/// How many scripts the scan covers when it starts at `from`: it advances
/// group by group and stops at the end of the first all-empty group, or when
/// the scripts run out.
pub open spec fn spec_scan_stop(r: RemoteView, s: Seq<Seq<u8>>, gap: int, from: int) -> int
    decreases s.len() - from,
    when 0 <= from && gap >= 1
{
    if from >= s.len() {
        from
    } else {
        let end = chunk_end(s.len() as int, gap, from);
        if chunk_all_empty(r, s, from, end) {
            end
        } else {
            spec_scan_stop(r, s, gap, end)
        }
    }
}

/// How many batched history requests the scan makes from `from` on.
pub open spec fn spec_scan_requests(r: RemoteView, s: Seq<Seq<u8>>, gap: int, from: int) -> int
    decreases s.len() - from,
    when 0 <= from && gap >= 1
{
    if from >= s.len() {
        0
    } else {
        let end = chunk_end(s.len() as int, gap, from);
        if chunk_all_empty(r, s, from, end) {
            1
        } else {
            1 + spec_scan_requests(r, s, gap, end)
        }
    }
}

/// How many scripts one whole chain scan covers.
pub open spec fn spec_covered(r: RemoteView, s: Seq<Seq<u8>>, gap: int) -> int {
    spec_scan_stop(r, s, gap, 0)
}

/// Every identifier one chain scan touches.
pub open spec fn spec_chain_touched(r: RemoteView, s: Seq<Seq<u8>>, gap: int) -> Set<Txid> {
    touched_prefix(r, s, spec_covered(r, s, gap))
}

/// The height map one chain scan accumulates.
pub open spec fn spec_chain_heights(r: RemoteView, s: Seq<Seq<u8>>, gap: int) -> Map<
    Txid,
    Option<u32>,
> {
    heights_prefix(r, s, spec_covered(r, s, gap))
}

/// The highest script index one chain scan saw activity at.
pub open spec fn spec_chain_max_active(r: RemoteView, s: Seq<Seq<u8>>, gap: int) -> Option<int> {
    max_active_prefix(r, s, spec_covered(r, s, gap))
}

/// A highest-active-index is a genuine position below the prefix bound.
pub proof fn lemma_max_active_bounds(r: RemoteView, s: Seq<Seq<u8>>, m: int)
    ensures
        match max_active_prefix(r, s, m) {
            Some(i) => 0 <= i < m,
            None => true,
        },
    decreases m,
{
    if m > 0 {
        lemma_max_active_bounds(r, s, m - 1);
    }
}

/// The scan covers at least its starting point and never runs past the end.
pub proof fn lemma_scan_stop_bounds(r: RemoteView, s: Seq<Seq<u8>>, gap: int, from: int)
    requires
        gap >= 1,
        0 <= from <= s.len(),
    ensures
        from <= spec_scan_stop(r, s, gap, from) <= s.len(),
    decreases s.len() - from,
{
    if from < s.len() {
        let end = chunk_end(s.len() as int, gap, from);
        if !chunk_all_empty(r, s, from, end) {
            lemma_scan_stop_bounds(r, s, gap, end);
        }
    }
}

/// The position reported for one group of histories extends the running
/// highest-active-index over that group.
proof fn lemma_max_chunk(
    r: RemoteView,
    s: Seq<Seq<u8>>,
    from: int,
    rows: Seq<Seq<ELSGetHistoryRes>>,
)
    requires
        0 <= from,
        from + rows.len() <= s.len(),
        forall|a: int| 0 <= a < rows.len() ==> rows[a] == r.history_of(s[from + a]),
    ensures
        max_active_prefix(r, s, from + rows.len()) == match spec_find_max_index(rows) {
            Some(p) => Some(from + p),
            None => max_active_prefix(r, s, from),
        },
    decreases rows.len(),
{
    if rows.len() > 0 {
        lemma_max_chunk(r, s, from, rows.drop_last());
        assert(rows.last() == r.history_of(s[from + rows.len() - 1]));
    }
}

/// Scans one chain: requests successive groups of `stop_gap` script
/// histories, accumulates every touched identifier and its latest
/// normalized height, and stops after the first all-empty group.
///
/// Returns the highest script index with activity (if any) and the number
/// of batched requests made.
#[verifier::loop_isolation(false)]
pub fn scan_chain<S: ElectrumLikeSync>(
    client: &S,
    scripts: &Vec<Vec<u8>>,
    stop_gap: usize,
    history_txs_id: &mut TxidSet,
    txid_height: &mut IdMap<Option<u32>>,
) -> (r: Result<(Option<u32>, usize), Error>)
    requires
        stop_gap >= 1,
        scripts@.len() < u32::MAX,
    ensures
        r matches Ok((max, reqs)) ==> {
            let rv = client.remote();
            let dv = scripts.deep_view();
            let g = stop_gap as int;
            &&& final(history_txs_id)@ == old(history_txs_id)@.union(
                spec_chain_touched(rv, dv, g),
            )
            &&& final(txid_height)@ == old(txid_height)@.union_prefer_right(
                spec_chain_heights(rv, dv, g),
            )
            &&& max == match spec_chain_max_active(rv, dv, g) {
                Some(i) => Some(i as u32),
                None => None::<u32>,
            }
            &&& reqs == spec_scan_requests(rv, dv, g, 0)
        },
        r is Err ==> r == Err::<(Option<u32>, usize), Error>(Error::Remote(SyncPhase::Scan)),
        scripts@.len() == 0 ==> r is Ok,
{
    let ghost rv = client.remote();
    let ghost dv = scripts.deep_view();
    let ghost g = stop_gap as int;
    let n = scripts.len();
    proof {
        assert(dv.len() == n);
    }

    let mut max_index: Option<u32> = None;
    let mut reqs: usize = 0;
    let mut from: usize = 0;
    let mut stopped: bool = false;

    while !stopped && from < n
        invariant
            from <= n,
            stopped ==> from == spec_scan_stop(rv, dv, g, 0) && reqs == spec_scan_requests(
                rv,
                dv,
                g,
                0,
            ),
            !stopped ==> spec_scan_stop(rv, dv, g, 0) == spec_scan_stop(rv, dv, g, from as int),
            !stopped ==> spec_scan_requests(rv, dv, g, 0) == reqs + spec_scan_requests(
                rv,
                dv,
                g,
                from as int,
            ),
            reqs <= from,
            history_txs_id@ == old(history_txs_id)@.union(touched_prefix(rv, dv, from as int)),
            txid_height@ == old(txid_height)@.union_prefer_right(
                heights_prefix(rv, dv, from as int),
            ),
            max_index == match max_active_prefix(rv, dv, from as int) {
                Some(i) => Some(i as u32),
                None => None::<u32>,
            },
        decreases n - from + (if stopped { 0int } else { 1int }),
    {
        let end = if n - from < stop_gap {
            n
        } else {
            from + stop_gap
        };
        proof {
            assert(end == chunk_end(dv.len() as int, g, from as int));
        }

        // Assemble the group of scripts for one batched request.
        let mut chunk: Vec<Vec<u8>> = Vec::new();
        let mut j = from;
        while j < end
            invariant
                from <= j <= end,
                chunk@.len() == j - from,
                forall|a: int| 0 <= a < chunk@.len() ==> (#[trigger] chunk@[a])@ == dv[from + a],
            decreases end - j,
        {
            chunk.push(clone_script(&scripts[j]));
            j += 1;
        }

        let rows = match client.els_batch_script_get_history(&chunk) {
            Ok(rows) => rows,
            Err(_) => {
                proof {
                    assert(dv.len() > 0);
                }
                return Err(Error::Remote(SyncPhase::Scan));
            },
        };
        reqs = reqs + 1;
        proof {
            assert forall|a: int| 0 <= a < rows@.len()
                implies (#[trigger] rows_view(rows@)[a]) == rv.history_of(dv[from + a]) by {
                assert(rows@[a]@ == rv.history_of(chunk@[a]@));
            }
        }

        // Track the highest position with activity, chain-relative.
        let fm = find_max_index(&rows);
        proof {
            lemma_max_chunk(rv, dv, from as int, rows_view(rows@));
            crate::details::lemma_find_max_bounds(rows_view(rows@));
        }
        if let Some(p) = fm {
            proof {
                assert(spec_find_max_index(rows_view(rows@)) matches Some(pi) && p == pi as u32
                    && 0 <= pi < end - from);
            }
            max_index = Some(from as u32 + p);
        }

        // Accumulate every entry of the group's histories.
        let mut empty_chunk: bool = true;
        let mut a: usize = 0;
        while a < rows.len()
            invariant
                a <= rows@.len(),
                rows@.len() == end - from,
                from + a <= end <= n,
                forall|b: int|
                    0 <= b < rows@.len() ==> (#[trigger] rows_view(rows@)[b]) == rv.history_of(
                        dv[from + b],
                    ),
                empty_chunk <==> chunk_all_empty(rv, dv, from as int, from + a),
                history_txs_id@ == old(history_txs_id)@.union(touched_prefix(rv, dv, from + a)),
                txid_height@ == old(txid_height)@.union_prefer_right(
                    heights_prefix(rv, dv, from + a),
                ),
            decreases rows@.len() - a,
        {
            let ghost es = rv.history_of(dv[from + a]);
            let n_entries = rows[a].len();
            if n_entries > 0 {
                empty_chunk = false;
            }
            let mut e: usize = 0;
            while e < n_entries
                invariant
                    e <= n_entries,
                    a < rows@.len(),
                    n_entries == es.len(),
                    es == rv.history_of(dv[from + a]),
                    rows@[a as int]@ == es,
                    history_txs_id@ == old(history_txs_id)@.union(
                        touched_prefix(rv, dv, from + a).union(hist_txids_prefix(es, e as int)),
                    ),
                    txid_height@ == old(txid_height)@.union_prefer_right(
                        heights_prefix(rv, dv, from + a).union_prefer_right(
                            hist_heights_prefix(es, e as int),
                        ),
                    ),
                decreases n_entries - e,
            {
                let el = rows[a][e];
                proof {
                    assert(es[e as int] == el);
                }
                history_txs_id.insert(el.tx_hash);
                let h = normalize_height(el.height);
                txid_height.insert(el.tx_hash, h);
                e += 1;
                proof {
                    assert(history_txs_id@ =~= old(history_txs_id)@.union(
                        touched_prefix(rv, dv, from + a).union(hist_txids_prefix(es, e as int)),
                    ));
                    assert(txid_height@ =~= old(txid_height)@.union_prefer_right(
                        heights_prefix(rv, dv, from + a).union_prefer_right(
                            hist_heights_prefix(es, e as int),
                        ),
                    ));
                }
            }
            a += 1;
            proof {
                assert(touched_prefix(rv, dv, from + a) == touched_prefix(
                    rv,
                    dv,
                    from + a - 1,
                ).union(hist_txids(es)));
                assert(history_txs_id@ =~= old(history_txs_id)@.union(
                    touched_prefix(rv, dv, from + a),
                ));
                assert(txid_height@ =~= old(txid_height)@.union_prefer_right(
                    heights_prefix(rv, dv, from + a),
                ));
                if es.len() != 0 {
                    assert(!chunk_all_empty(rv, dv, from as int, from + a));
                } else {
                    assert(chunk_all_empty(rv, dv, from as int, from + a - 1)
                        ==> chunk_all_empty(rv, dv, from as int, from + a));
                }
            }
        }

        proof {
            assert(empty_chunk <==> chunk_all_empty(rv, dv, from as int, end as int));
        }
        from = end;
        if empty_chunk {
            stopped = true;
        }
    }

    proof {
        if !stopped {
            assert(from == n);
            assert(spec_scan_stop(rv, dv, g, n as int) == n);
            assert(spec_scan_requests(rv, dv, g, n as int) == 0);
        }
        assert(from == spec_covered(rv, dv, g));
    }
    Ok((max_index, reqs))
}

} // verus!
