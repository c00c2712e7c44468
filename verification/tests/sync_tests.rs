//! End-to-end tests of the sync engine against an in-memory store and a
//! scripted remote.

use std::cell::RefCell;
use std::collections::HashMap;

use wallet_sync::client::ElectrumLikeSync;
use wallet_sync::setup::electrum_like_setup;
use wallet_sync::store::{Batch, BatchDatabase, BatchOp};
use wallet_sync::types::{BlockHeader, ELSGetHistoryRes, ELSListUnspentRes, Error, OutPoint,
    RemoteError, ScriptType, StoreError, SyncPhase, Transaction, TransactionDetails, TxIn, TxOut,
    Txid, UTXO};

/// A scripted remote: fixed histories, transactions and headers.
#[derive(Default)]
struct MockClient {
    history: HashMap<Vec<u8>, Vec<ELSGetHistoryRes>>,
    txs: HashMap<Txid, Transaction>,
    headers: HashMap<u32, BlockHeader>,
    history_calls: RefCell<usize>,
}

impl ElectrumLikeSync for MockClient {
    // The ghost view exists only for verification; nothing executes it.
    fn remote(&self) -> wallet_sync::client::RemoteView {
        panic!("ghost view");
    }

    fn els_batch_script_get_history(
        &self,
        scripts: &Vec<Vec<u8>>,
    ) -> Result<Vec<Vec<ELSGetHistoryRes>>, RemoteError> {
        *self.history_calls.borrow_mut() += 1;
        Ok(scripts
            .iter()
            .map(|s| self.history.get(s).cloned().unwrap_or_default())
            .collect())
    }

    fn els_batch_script_list_unspent(
        &self,
        scripts: &Vec<Vec<u8>>,
    ) -> Result<Vec<Vec<ELSListUnspentRes>>, RemoteError> {
        Ok(scripts.iter().map(|_| Vec::new()).collect())
    }

    fn els_batch_transaction_get(
        &self,
        txids: &Vec<Txid>,
    ) -> Result<Vec<Transaction>, RemoteError> {
        txids
            .iter()
            .map(|t| self.txs.get(t).cloned().ok_or(RemoteError))
            .collect()
    }

    fn els_batch_block_header(&self, heights: &Vec<u32>) -> Result<Vec<BlockHeader>, RemoteError> {
        heights
            .iter()
            .map(|h| self.headers.get(h).copied().ok_or(RemoteError))
            .collect()
    }

    fn els_transaction_get(&self, txid: &Txid) -> Result<Transaction, RemoteError> {
        self.txs.get(txid).cloned().ok_or(RemoteError)
    }
}

/// An in-memory store with atomic batch application.
#[derive(Default, Clone)]
struct MockDb {
    external_scripts: Vec<Vec<u8>>,
    internal_scripts: Vec<Vec<u8>>,
    external_index: Option<u32>,
    internal_index: Option<u32>,
    raw_txs: HashMap<Txid, Transaction>,
    tx_details: HashMap<Txid, TransactionDetails>,
    utxos: HashMap<OutPoint, UTXO>,
    script_paths: HashMap<Vec<u8>, (ScriptType, u32)>,
}

impl BatchDatabase for MockDb {
    // The ghost view exists only for verification; nothing executes it.
    fn db(&self) -> wallet_sync::store::DbView {
        panic!("ghost view");
    }

    fn iter_script_pubkeys(&self, chain: Option<ScriptType>) -> Result<Vec<Vec<u8>>, StoreError> {
        Ok(match chain {
            Some(ScriptType::External) => self.external_scripts.clone(),
            Some(ScriptType::Internal) => self.internal_scripts.clone(),
            None => {
                let mut all = self.external_scripts.clone();
                all.extend(self.internal_scripts.clone());
                all
            }
        })
    }

    fn get_last_index(&self, chain: ScriptType) -> Result<Option<u32>, StoreError> {
        Ok(match chain {
            ScriptType::External => self.external_index,
            ScriptType::Internal => self.internal_index,
        })
    }

    fn set_last_index(&mut self, chain: ScriptType, value: u32) -> Result<(), StoreError> {
        match chain {
            ScriptType::External => self.external_index = Some(value),
            ScriptType::Internal => self.internal_index = Some(value),
        }
        Ok(())
    }

    fn get_raw_tx(&self, txid: &Txid) -> Result<Option<Transaction>, StoreError> {
        Ok(self.raw_txs.get(txid).cloned())
    }

    fn iter_raw_txs(&self) -> Result<Vec<Transaction>, StoreError> {
        Ok(self.raw_txs.values().cloned().collect())
    }

    fn iter_txs(&self, _include_raw: bool) -> Result<Vec<TransactionDetails>, StoreError> {
        Ok(self.tx_details.values().cloned().collect())
    }

    fn iter_utxos(&self) -> Result<Vec<UTXO>, StoreError> {
        Ok(self.utxos.values().cloned().collect())
    }

    fn get_path_from_script_pubkey(
        &self,
        script: &Vec<u8>,
    ) -> Result<Option<(ScriptType, u32)>, StoreError> {
        Ok(self.script_paths.get(script).copied())
    }

    fn commit_batch(&mut self, batch: Batch) -> Result<(), StoreError> {
        for op in batch.operations() {
            match op {
                BatchOp::SetRawTx(tx) => {
                    self.raw_txs.insert(tx.txid, tx.clone());
                }
                BatchOp::SetTx(d) => {
                    self.tx_details.insert(d.txid, d.clone());
                }
                BatchOp::DelTx(t) => {
                    self.tx_details.remove(t);
                }
                BatchOp::SetUtxo(u) => {
                    self.utxos.insert(u.outpoint, u.clone());
                }
                BatchOp::DelUtxo(o) => {
                    self.utxos.remove(o);
                }
            }
        }
        Ok(())
    }
}

fn script(tag: u8) -> Vec<u8> {
    vec![tag, 0xab, 0xcd]
}

fn hist(height: i32, tx_hash: Txid) -> ELSGetHistoryRes {
    ELSGetHistoryRes { height, tx_hash }
}

fn coinbase_input() -> TxIn {
    TxIn {
        previous_output: OutPoint { txid: 0, vout: u32::MAX },
    }
}

fn txout(value: u64, spk: Vec<u8>) -> TxOut {
    TxOut { value, script_pubkey: spk }
}

/// A wallet with 40 external and 20 internal derived scripts; external
/// scripts 0 and 1 are owned (as are all the others).
fn fresh_db() -> MockDb {
    let mut db = MockDb::default();
    for i in 0..40u8 {
        let s = vec![1, i];
        db.external_scripts.push(s.clone());
        db.script_paths.insert(s, (ScriptType::External, i as u32));
    }
    for i in 0..20u8 {
        let s = vec![2, i];
        db.internal_scripts.push(s.clone());
        db.script_paths.insert(s, (ScriptType::Internal, i as u32));
    }
    db
}

/// The remote for the first scenario: two confirmed payments to external
/// indices 0 and 1.  One funding transaction spends a non-wallet parent
/// (so a real fee is computed), the other is a coinbase.
fn scenario_client() -> MockClient {
    let mut client = MockClient::default();
    let parent = Transaction {
        txid: 201,
        input: vec![coinbase_input()],
        output: vec![txout(60_000, script(0x99))],
    };
    let tx1 = Transaction {
        txid: 101,
        input: vec![TxIn { previous_output: OutPoint { txid: 201, vout: 0 } }],
        output: vec![txout(50_000, vec![1, 0])],
    };
    let tx2 = Transaction {
        txid: 102,
        input: vec![coinbase_input()],
        output: vec![txout(30_000, vec![1, 1])],
    };
    client.txs.insert(201, parent);
    client.txs.insert(101, tx1);
    client.txs.insert(102, tx2);
    client.history.insert(vec![1, 0], vec![hist(500, 101)]);
    client.history.insert(vec![1, 1], vec![hist(501, 102)]);
    client.headers.insert(500, BlockHeader { time: 1111 });
    client.headers.insert(501, BlockHeader { time: 2222 });
    client
}

#[test]
fn two_confirmed_payments() {
    let client = scenario_client();
    let mut db = fresh_db();
    electrum_like_setup(&client, Some(20), &mut db).unwrap();

    assert_eq!(db.external_index, Some(2));
    assert_eq!(db.internal_index, None);

    assert_eq!(db.tx_details.len(), 2);
    let d1 = db.tx_details.get(&101).unwrap();
    assert_eq!(d1.received, 50_000);
    assert_eq!(d1.sent, 0);
    assert_eq!(d1.fees, 10_000);
    assert_eq!(d1.height, Some(500));
    assert_eq!(d1.timestamp, 1111);
    let d2 = db.tx_details.get(&102).unwrap();
    assert_eq!(d2.received, 30_000);
    assert_eq!(d2.sent, 0);
    assert_eq!(d2.fees, 0);
    assert_eq!(d2.height, Some(501));
    assert_eq!(d2.timestamp, 2222);

    assert_eq!(db.utxos.len(), 2);
    assert!(db.utxos.contains_key(&OutPoint { txid: 101, vout: 0 }));
    assert!(db.utxos.contains_key(&OutPoint { txid: 102, vout: 0 }));

    // The parent transaction was fetched for fee computation but is not a
    // wallet transaction: raw only, no summary.
    assert!(db.raw_txs.contains_key(&201));
    assert!(!db.tx_details.contains_key(&201));
}

#[test]
fn sync_pass_is_idempotent() {
    let client = scenario_client();
    let mut db = fresh_db();
    electrum_like_setup(&client, Some(20), &mut db).unwrap();
    let details_after_one: HashMap<Txid, TransactionDetails> = db.tx_details.clone();
    let utxos_after_one: Vec<OutPoint> = {
        let mut v: Vec<OutPoint> = db.utxos.keys().copied().collect();
        v.sort_by_key(|o| (o.txid, o.vout));
        v
    };
    let index_after_one = db.external_index;

    electrum_like_setup(&client, Some(20), &mut db).unwrap();
    assert_eq!(db.tx_details, details_after_one);
    let mut utxos_after_two: Vec<OutPoint> = db.utxos.keys().copied().collect();
    utxos_after_two.sort_by_key(|o| (o.txid, o.vout));
    assert_eq!(utxos_after_two, utxos_after_one);
    assert_eq!(db.external_index, index_after_one);
}

#[test]
fn high_water_mark_is_never_lowered() {
    let client = scenario_client();
    let mut db = fresh_db();
    db.external_index = Some(7);
    db.internal_index = Some(3);
    electrum_like_setup(&client, Some(20), &mut db).unwrap();
    // The scan proposes 2 for the external chain, below the stored 7.
    assert_eq!(db.external_index, Some(7));
    assert_eq!(db.internal_index, Some(3));
}

#[test]
fn spending_a_utxo_removes_it() {
    let mut client = scenario_client();
    let mut db = fresh_db();
    electrum_like_setup(&client, Some(20), &mut db).unwrap();

    // A later transaction spends the first payment to a non-wallet address.
    let tx3 = Transaction {
        txid: 103,
        input: vec![TxIn { previous_output: OutPoint { txid: 101, vout: 0 } }],
        output: vec![txout(45_000, script(0x77))],
    };
    client.txs.insert(103, tx3);
    client
        .history
        .insert(vec![1, 0], vec![hist(500, 101), hist(502, 103)]);
    client.headers.insert(502, BlockHeader { time: 3333 });

    electrum_like_setup(&client, Some(20), &mut db).unwrap();

    assert!(!db.utxos.contains_key(&OutPoint { txid: 101, vout: 0 }));
    assert_eq!(db.utxos.len(), 1);
    assert!(db.utxos.contains_key(&OutPoint { txid: 102, vout: 0 }));
    let d3 = db.tx_details.get(&103).unwrap();
    assert_eq!(d3.sent, 50_000);
    assert_eq!(d3.received, 0);
    assert_eq!(d3.fees, 5_000);
}

#[test]
fn vanished_unconfirmed_transaction_is_dropped() {
    let mut client = scenario_client();
    // An unconfirmed payment to external index 1 (height 0: unconfirmed
    // with confirmed parents).
    let txu = Transaction {
        txid: 104,
        input: vec![coinbase_input()],
        output: vec![txout(7_000, vec![1, 1])],
    };
    client.txs.insert(104, txu);
    client
        .history
        .insert(vec![1, 1], vec![hist(501, 102), hist(0, 104)]);

    let mut db = fresh_db();
    electrum_like_setup(&client, Some(20), &mut db).unwrap();
    let du = db.tx_details.get(&104).unwrap();
    assert_eq!(du.height, None);
    assert_eq!(du.timestamp, 0);
    assert!(db.utxos.contains_key(&OutPoint { txid: 104, vout: 0 }));

    // The transaction is dropped from the mempool: it vanishes from
    // history, and the next pass forgets it.
    client.history.insert(vec![1, 1], vec![hist(501, 102)]);
    electrum_like_setup(&client, Some(20), &mut db).unwrap();
    assert!(!db.tx_details.contains_key(&104));
    assert!(!db.utxos.contains_key(&OutPoint { txid: 104, vout: 0 }));
    assert_eq!(db.tx_details.len(), 2);
    assert_eq!(db.utxos.len(), 2);
}

#[test]
fn gap_limit_request_count() {
    // Activity at external indices 0..5, nothing after: with stop-gap 4
    // the external chain takes ceil(5/4) + 1 = 3 batched history calls;
    // the empty internal chain takes exactly 1.
    let mut client = MockClient::default();
    let mut db = MockDb::default();
    for i in 0..16u8 {
        let s = vec![1, i];
        db.external_scripts.push(s.clone());
        db.script_paths.insert(s.clone(), (ScriptType::External, i as u32));
        if i < 5 {
            let t = 300 + i as Txid;
            client.history.insert(s, vec![hist(600 + i as i32, t)]);
            client.txs.insert(
                t,
                Transaction {
                    txid: t,
                    input: vec![coinbase_input()],
                    output: vec![txout(1_000, vec![1, i])],
                },
            );
            client.headers.insert(600 + i as u32, BlockHeader { time: 10 + i as u32 });
        }
    }
    for i in 0..8u8 {
        let s = vec![2, i];
        db.internal_scripts.push(s.clone());
        db.script_paths.insert(s, (ScriptType::Internal, i as u32));
    }
    electrum_like_setup(&client, Some(4), &mut db).unwrap();
    assert_eq!(*client.history_calls.borrow(), 3 + 1);
    assert_eq!(db.external_index, Some(5));
    assert_eq!(db.tx_details.len(), 5);
}

#[test]
fn unused_wallet_fetches_one_chunk_per_chain() {
    let client = MockClient::default();
    let mut db = fresh_db();
    electrum_like_setup(&client, Some(20), &mut db).unwrap();
    assert_eq!(*client.history_calls.borrow(), 2);
    assert_eq!(db.external_index, None);
    assert_eq!(db.internal_index, None);
    assert!(db.tx_details.is_empty());
    assert!(db.utxos.is_empty());
}

#[test]
fn missing_remote_transaction_aborts_the_pass() {
    let mut client = scenario_client();
    client.txs.remove(&102);
    let mut db = fresh_db();
    let err = electrum_like_setup(&client, Some(20), &mut db).unwrap_err();
    assert!(matches!(err, Error::Remote(SyncPhase::Download)));
    // Nothing was committed beyond the high-water-marks.
    assert!(db.tx_details.is_empty());
    assert!(db.utxos.is_empty());
    assert!(db.raw_txs.is_empty());
}

#[test]
fn missing_header_stops_after_the_mark_commits() {
    let mut client = scenario_client();
    client.headers.remove(&501);
    let mut db = fresh_db();
    let err = electrum_like_setup(&client, Some(20), &mut db).unwrap_err();
    assert_eq!(err, Error::Remote(SyncPhase::ResolveTimestamps));
    // The store sits exactly at the last committed step: the high-water
    // mark is raised, nothing later is visible.
    assert_eq!(db.external_index, Some(2));
    assert!(db.raw_txs.is_empty());
    assert!(db.tx_details.is_empty());
    assert!(db.utxos.is_empty());
}

#[test]
fn missing_previous_output_is_reported() {
    let mut client = scenario_client();
    // Corrupt the remote: tx1's parent now has no outputs, so the
    // referenced output cannot be resolved.
    client.txs.insert(
        201,
        Transaction { txid: 201, input: vec![coinbase_input()], output: vec![] },
    );
    let mut db = fresh_db();
    let err = electrum_like_setup(&client, Some(20), &mut db).unwrap_err();
    assert_eq!(
        err,
        Error::MissingPreviousOutput(OutPoint { txid: 201, vout: 0 })
    );
}
