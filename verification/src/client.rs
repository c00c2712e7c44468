//! The batched chain-query capability: the narrow, Electrum-style interface
//! through which the engine sees the remote chain.
//!
//! An implementation (a network client) is free to fail any call at any
//! time; what it may not do is answer inconsistently with its own view of
//! the chain, captured by the ghost function `remote`.  Within one sync pass
//! the view is fixed, which is exactly the "unchanged remote" assumption the
//! engine's idempotence rests on.

use vstd::prelude::*;

use crate::types::{BlockHeader, ELSGetHistoryRes, ELSListUnspentRes, RemoteError, Transaction,
    TransactionV, Txid};

verus! {

/// Mathematical view of the remote chain state, as far as the engine can
/// observe it: per-script histories and unspent listings, raw transactions
/// by identifier, and block headers by height.
#[verifier::ext_equal]
pub struct RemoteView {
    pub history: Map<Seq<u8>, Seq<ELSGetHistoryRes>>,
    pub unspent: Map<Seq<u8>, Seq<ELSListUnspentRes>>,
    pub txs: Map<Txid, TransactionV>,
    pub headers: Map<u32, BlockHeader>,
}

impl RemoteView {
    /// The confirmation history of a script; a script the remote has never
    /// seen has an empty history.
    pub open spec fn history_of(self, script: Seq<u8>) -> Seq<ELSGetHistoryRes> {
        if self.history.dom().contains(script) {
            self.history[script]
        } else {
            Seq::empty()
        }
    }

    /// The unspent listing of a script; empty for an unknown script.
    pub open spec fn unspent_of(self, script: Seq<u8>) -> Seq<ELSListUnspentRes> {
        if self.unspent.dom().contains(script) {
            self.unspent[script]
        } else {
            Seq::empty()
        }
    }

    /// Raw transactions are content-addressed: the remote only ever hands
    /// out a transaction under its own identifier.
    pub open spec fn wf(self) -> bool {
        forall|t: Txid| #[trigger]
            self.txs.dom().contains(t) ==> self.txs[t].txid == t
    }
}

/// The batched, Electrum-style query capability the sync engine consumes.
///
/// The five operations are implemented by the host (over a real transport);
/// each promises that a successful answer agrees with the remote view, and
/// promises nothing about failure: any call may fail transiently.
pub trait ElectrumLikeSync: Sized {
    /// The remote chain state this client answers from.
    spec fn remote(&self) -> RemoteView;

    /// One history listing per requested script, in request order.
    fn els_batch_script_get_history(&self, scripts: &Vec<Vec<u8>>) -> (r: Result<
        Vec<Vec<ELSGetHistoryRes>>,
        RemoteError,
    >)
        ensures
            r matches Ok(res) ==> {
                &&& res@.len() == scripts@.len()
                &&& forall|i: int|
                    0 <= i < res@.len()
                        ==> (#[trigger] res@[i])@ == self.remote().history_of(scripts@[i]@)
            },
    ;

    /// One unspent listing per requested script, in request order.
    fn els_batch_script_list_unspent(&self, scripts: &Vec<Vec<u8>>) -> (r: Result<
        Vec<Vec<ELSListUnspentRes>>,
        RemoteError,
    >)
        ensures
            r matches Ok(res) ==> {
                &&& res@.len() == scripts@.len()
                &&& forall|i: int|
                    0 <= i < res@.len()
                        ==> (#[trigger] res@[i])@ == self.remote().unspent_of(scripts@[i]@)
            },
    ;

    /// One raw transaction per requested identifier, in request order; the
    /// whole call fails if any identifier is unknown to the remote.
    fn els_batch_transaction_get(&self, txids: &Vec<Txid>) -> (r: Result<
        Vec<Transaction>,
        RemoteError,
    >)
        ensures
            r matches Ok(res) ==> {
                &&& res@.len() == txids@.len()
                &&& forall|i: int|
                    0 <= i < res@.len() ==> {
                        &&& self.remote().txs.dom().contains(txids@[i])
                        &&& (#[trigger] res@[i])@ == self.remote().txs[txids@[i]]
                        &&& res@[i]@.txid == txids@[i]
                    }
            },
    ;

    /// One block header per requested height, in request order; the whole
    /// call fails if any height is unknown to the remote.
    fn els_batch_block_header(&self, heights: &Vec<u32>) -> (r: Result<
        Vec<BlockHeader>,
        RemoteError,
    >)
        ensures
            r matches Ok(res) ==> {
                &&& res@.len() == heights@.len()
                &&& forall|i: int|
                    0 <= i < res@.len() ==> {
                        &&& self.remote().headers.dom().contains(heights@[i])
                        &&& (#[trigger] res@[i]) == self.remote().headers[heights@[i]]
                    }
            },
    ;

    /// Single-item convenience form of `els_batch_transaction_get`.
    fn els_transaction_get(&self, txid: &Txid) -> (r: Result<Transaction, RemoteError>)
        ensures
            r matches Ok(tx) ==> {
                &&& self.remote().txs.dom().contains(*txid)
                &&& tx@ == self.remote().txs[*txid]
                &&& tx@.txid == *txid
            },
    ;
}

} // verus!
