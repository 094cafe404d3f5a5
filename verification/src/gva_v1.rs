//! The ledger's database: the transactions that were written, two indexes
//! over them, and the unspent outputs.

use crate::backend::{Backend, RawMap};
use crate::batch::Batch;
use crate::collection::Collection;
use crate::error::KvResult;
use crate::event::{event_views, EventView};
use crate::transaction::TxColRw;
use crate::values::hash_set::HashBTSetV2;
use crate::values::tx_db;
use crate::values::tx_db::{PublicKey, SourceAmount, TxDbV2, TxDbView};
use crate::values::utxo::{UtxoKeyV1, UtxoKeyView};
use vstd::prelude::*;

verus! {

/// The entry of a collection in a list of collections holds these three
/// names: that of the collection, of its key type and of its value type.
pub open spec fn listed_as(
    entry: (&'static str, &'static str, &'static str),
    name: Seq<char>,
    key_type: Seq<char>,
    value_type: Seq<char>,
) -> bool {
    entry.0@ == name && entry.1@ == key_type && entry.2@ == value_type
}

/// The collections of the ledger.
pub struct GvaV1Db<B: Backend> {
    /// Each written transaction under its digest.
    pub txs: Collection<B, tx_db::Hash, TxDbV2>,
    /// The digests of the transactions that each key has issued.
    pub txs_by_issuer: Collection<B, PublicKey, HashBTSetV2>,
    /// The digests of the transactions that each key has received.
    pub txs_by_recipient: Collection<B, PublicKey, HashBTSetV2>,
    /// The unspent outputs.
    pub utxos_by_script: Collection<B, UtxoKeyV1, SourceAmount>,
}

/// What the four collections hold.
pub struct GvaState {
    pub txs: RawMap,
    pub txs_by_issuer: RawMap,
    pub txs_by_recipient: RawMap,
    pub utxos_by_script: RawMap,
}

/// The events of the four collections, in the model.
pub struct GvaEvents {
    pub txs: Seq<EventView<Seq<u8>, TxDbView>>,
    pub txs_by_issuer: Seq<EventView<Seq<u8>, Seq<Seq<u8>>>>,
    pub txs_by_recipient: Seq<EventView<Seq<u8>, Seq<Seq<u8>>>>,
    pub utxos_by_script: Seq<EventView<UtxoKeyView, SourceAmount>>,
}

impl GvaEvents {
    /// No event for any collection.
    pub open spec fn none() -> GvaEvents {
        GvaEvents {
            txs: Seq::empty(),
            txs_by_issuer: Seq::empty(),
            txs_by_recipient: Seq::empty(),
            utxos_by_script: Seq::empty(),
        }
    }

    /// These events and then `more`, collection by collection.
    pub open spec fn followed_by(self, more: GvaEvents) -> GvaEvents {
        GvaEvents {
            txs: self.txs + more.txs,
            txs_by_issuer: self.txs_by_issuer + more.txs_by_issuer,
            txs_by_recipient: self.txs_by_recipient + more.txs_by_recipient,
            utxos_by_script: self.utxos_by_script + more.utxos_by_script,
        }
    }
}

/// The staging handles of the four collections inside one write
/// transaction.
pub struct GvaV1DbTx<'a, B: Backend> {
    pub txs: TxColRw<'a, B, tx_db::Hash, TxDbV2>,
    pub txs_by_issuer: TxColRw<'a, B, PublicKey, HashBTSetV2>,
    pub txs_by_recipient: TxColRw<'a, B, PublicKey, HashBTSetV2>,
    pub utxos_by_script: TxColRw<'a, B, UtxoKeyV1, SourceAmount>,
}

/// The changes that one write transaction has staged.
pub struct GvaV1DbBatch {
    pub txs: Batch<tx_db::Hash, TxDbV2>,
    pub txs_by_issuer: Batch<PublicKey, HashBTSetV2>,
    pub txs_by_recipient: Batch<PublicKey, HashBTSetV2>,
    pub utxos_by_script: Batch<UtxoKeyV1, SourceAmount>,
}

impl GvaV1DbBatch {
    /// The staged changes as the events that will tell of them.
    pub open spec fn views(self) -> GvaEvents {
        GvaEvents {
            txs: event_views(self.txs@),
            txs_by_issuer: event_views(self.txs_by_issuer@),
            txs_by_recipient: event_views(self.txs_by_recipient@),
            utxos_by_script: event_views(self.utxos_by_script@),
        }
    }

    /// What `before` becomes when the staged changes are made.
    pub open spec fn applied(self, before: GvaState) -> GvaState {
        GvaState {
            txs: crate::backend::apply_ops(before.txs, crate::batch::raw_ops(self.txs@)),
            txs_by_issuer: crate::backend::apply_ops(
                before.txs_by_issuer,
                crate::batch::raw_ops(self.txs_by_issuer@),
            ),
            txs_by_recipient: crate::backend::apply_ops(
                before.txs_by_recipient,
                crate::batch::raw_ops(self.txs_by_recipient@),
            ),
            utxos_by_script: crate::backend::apply_ops(
                before.utxos_by_script,
                crate::batch::raw_ops(self.utxos_by_script@),
            ),
        }
    }
}

impl<'a, B: Backend> GvaV1DbTx<'a, B> {
    /// What the collections under the handles hold.
    pub open spec fn base(&self) -> GvaState {
        GvaState {
            txs: self.txs.base(),
            txs_by_issuer: self.txs_by_issuer.base(),
            txs_by_recipient: self.txs_by_recipient.base(),
            utxos_by_script: self.utxos_by_script.base(),
        }
    }

    /// The changes staged so far, as the events that will tell of them.
    pub open spec fn staged_views(&self) -> GvaEvents {
        GvaEvents {
            txs: event_views(self.txs.staged()),
            txs_by_issuer: event_views(self.txs_by_issuer.staged()),
            txs_by_recipient: event_views(self.txs_by_recipient.staged()),
            utxos_by_script: event_views(self.utxos_by_script.staged()),
        }
    }

    /// What the collections will hold once the staged changes are made.
    pub open spec fn pending(&self) -> GvaState {
        GvaState {
            txs: self.txs.pending(),
            txs_by_issuer: self.txs_by_issuer.pending(),
            txs_by_recipient: self.txs_by_recipient.pending(),
            utxos_by_script: self.utxos_by_script.pending(),
        }
    }

    /// None of the four engines ever fails.
    pub open spec fn reliable(&self) -> bool {
        &&& self.txs.reliable()
        &&& self.txs_by_issuer.reliable()
        &&& self.txs_by_recipient.reliable()
        &&& self.utxos_by_script.reliable()
    }

    /// Ends the staging and hands out what was staged.
    pub fn into_batches(self) -> (batches: GvaV1DbBatch)
        ensures
            batches.applied(self.base()) == self.pending(),
            batches.txs@ == self.txs.staged(),
            batches.txs_by_issuer@ == self.txs_by_issuer.staged(),
            batches.txs_by_recipient@ == self.txs_by_recipient.staged(),
            batches.utxos_by_script@ == self.utxos_by_script.staged(),
            batches.views() == self.staged_views(),
    {
        GvaV1DbBatch {
            txs: self.txs.into_batch(),
            txs_by_issuer: self.txs_by_issuer.into_batch(),
            txs_by_recipient: self.txs_by_recipient.into_batch(),
            utxos_by_script: self.utxos_by_script.into_batch(),
        }
    }
}

impl<B: Backend> GvaV1Db<B> {
    /// What the four collections hold.
    pub open spec fn state(&self) -> GvaState {
        GvaState {
            txs: self.txs.raw(),
            txs_by_issuer: self.txs_by_issuer.raw(),
            txs_by_recipient: self.txs_by_recipient.raw(),
            utxos_by_script: self.utxos_by_script.raw(),
        }
    }

    /// None of the four engines ever fails.
    pub open spec fn reliable(&self) -> bool {
        &&& self.txs.reliable()
        &&& self.txs_by_issuer.reliable()
        &&& self.txs_by_recipient.reliable()
        &&& self.utxos_by_script.reliable()
    }

    /// The subscribers of the four collections have been told nothing
    /// since the database was `was`.
    pub open spec fn told_nothing(&self, was: &Self) -> bool {
        &&& self.txs.hub() == was.txs.hub()
        &&& self.txs_by_issuer.hub() == was.txs_by_issuer.hub()
        &&& self.txs_by_recipient.hub() == was.txs_by_recipient.hub()
        &&& self.utxos_by_script.hub() == was.utxos_by_script.hub()
    }

    /// Since the database was `was`, the subscribers of each collection
    /// have been sent, in one delivery, one event for each change that
    /// `batches` holds for it, and nothing else.
    pub open spec fn told_of(&self, was: &Self, batches: GvaV1DbBatch) -> bool {
        &&& self.txs.hub() == was.txs.hub().published(batches.txs@)
        &&& self.txs_by_issuer.hub() == was.txs_by_issuer.hub().published(batches.txs_by_issuer@)
        &&& self.txs_by_recipient.hub() == was.txs_by_recipient.hub().published(
            batches.txs_by_recipient@,
        )
        &&& self.utxos_by_script.hub() == was.utxos_by_script.hub().published(
            batches.utxos_by_script@,
        )
    }

    /// The collections of the database: the name of each with the names of
    /// its key and value types, in the order in which `commit` writes them.
    pub fn list_collections() -> (all: Vec<(&'static str, &'static str, &'static str)>)
        ensures
            all@.len() == 4,
            listed_as(all@[0], "txs_by_issuer"@, "PublicKey"@, "HashBTSetV2"@),
            listed_as(all@[1], "txs_by_recipient"@, "PublicKey"@, "HashBTSetV2"@),
            listed_as(all@[2], "utxos_by_script"@, "UtxoKeyV1"@, "SourceAmount"@),
            listed_as(all@[3], "txs"@, "Hash"@, "TxDbV2"@),
    {
        let mut all: Vec<(&'static str, &'static str, &'static str)> = Vec::new();
        all.push(("txs_by_issuer", "PublicKey", "HashBTSetV2"));
        all.push(("txs_by_recipient", "PublicKey", "HashBTSetV2"));
        all.push(("utxos_by_script", "UtxoKeyV1", "SourceAmount"));
        all.push(("txs", "Hash", "TxDbV2"));
        all
    }

    /// None of the four collections has a subscriber, and each still
    /// takes subscribers.
    pub open spec fn no_subscribers(&self) -> bool {
        &&& self.txs.hub().boxes.len() == 0 && self.txs.hub().open
        &&& self.txs_by_issuer.hub().boxes.len() == 0 && self.txs_by_issuer.hub().open
        &&& self.txs_by_recipient.hub().boxes.len() == 0 && self.txs_by_recipient.hub().open
        &&& self.utxos_by_script.hub().boxes.len() == 0 && self.utxos_by_script.hub().open
    }

    /// A database over four engines, without subscribers.
    pub fn new(txs: B, txs_by_issuer: B, txs_by_recipient: B, utxos_by_script: B) -> (db: Self)
        ensures
            db.state() == (GvaState {
                txs: txs.entries(),
                txs_by_issuer: txs_by_issuer.entries(),
                txs_by_recipient: txs_by_recipient.entries(),
                utxos_by_script: utxos_by_script.entries(),
            }),
            db.txs.reliable() == txs.reliable(),
            db.txs_by_issuer.reliable() == txs_by_issuer.reliable(),
            db.txs_by_recipient.reliable() == txs_by_recipient.reliable(),
            db.utxos_by_script.reliable() == utxos_by_script.reliable(),
            db.no_subscribers(),
    {
        GvaV1Db {
            txs: Collection::new(txs),
            txs_by_issuer: Collection::new(txs_by_issuer),
            txs_by_recipient: Collection::new(txs_by_recipient),
            utxos_by_script: Collection::new(utxos_by_script),
        }
    }

    /// Begins a write transaction: staging handles that stage nothing yet.
    pub fn begin<'a>(&'a self) -> (tx: GvaV1DbTx<'a, B>)
        ensures
            tx.base() == self.state(),
            tx.pending() == self.state(),
            tx.reliable() == self.reliable(),
            tx.txs.staged().len() == 0,
            tx.txs_by_issuer.staged().len() == 0,
            tx.txs_by_recipient.staged().len() == 0,
            tx.utxos_by_script.staged().len() == 0,
            tx.staged_views() == GvaEvents::none(),
    {
        let tx = GvaV1DbTx {
            txs: TxColRw::new(&self.txs),
            txs_by_issuer: TxColRw::new(&self.txs_by_issuer),
            txs_by_recipient: TxColRw::new(&self.txs_by_recipient),
            utxos_by_script: TxColRw::new(&self.utxos_by_script),
        };
        proof {
            let now = tx.staged_views();
            assert(now.txs =~= GvaEvents::none().txs);
            assert(now.txs_by_issuer =~= GvaEvents::none().txs_by_issuer);
            assert(now.txs_by_recipient =~= GvaEvents::none().txs_by_recipient);
            assert(now.utxos_by_script =~= GvaEvents::none().utxos_by_script);
        }
        tx
    }

    /// Writes what a transaction has staged and then tells the subscribers
    /// of each collection. With engines that never fail this always
    /// succeeds. Where an engine fails, what was written before is taken
    /// back as far as the engines allow it, nobody is told anything, and
    /// the failure is reported: each collection then holds what it held
    /// before or what was staged for it, and the transactions themselves,
    /// which are written last, are as they were.
    pub fn commit(&mut self, batches: GvaV1DbBatch) -> (r: KvResult<()>)
        ensures
            final(self).reliable() == old(self).reliable(),
            match r {
                Ok(_) => {
                    &&& final(self).state() == batches.applied(old(self).state())
                    &&& final(self).told_of(old(self), batches)
                },
                Err(e) => {
                    let done = batches.applied(old(self).state());
                    let now = final(self).state();
                    let was = old(self).state();
                    &&& e is BackendError
                    &&& !old(self).reliable()
                    &&& final(self).told_nothing(old(self))
                    &&& now.txs == was.txs
                    &&& now.txs_by_issuer == was.txs_by_issuer || now.txs_by_issuer
                        == done.txs_by_issuer
                    &&& now.txs_by_recipient == was.txs_by_recipient || now.txs_by_recipient
                        == done.txs_by_recipient
                    &&& now.utxos_by_script == was.utxos_by_script || now.utxos_by_script
                        == done.utxos_by_script
                },
            },
    {
        // what takes each batch back is read before anything is written
        let undo_issuer = match self.txs_by_issuer.undo_of(&batches.txs_by_issuer) {
            Ok(undo) => undo,
            Err(e) => {
                return Err(e);
            },
        };
        let undo_recipient = match self.txs_by_recipient.undo_of(&batches.txs_by_recipient) {
            Ok(undo) => undo,
            Err(e) => {
                return Err(e);
            },
        };
        let undo_utxos = match self.utxos_by_script.undo_of(&batches.utxos_by_script) {
            Ok(undo) => undo,
            Err(e) => {
                return Err(e);
            },
        };
        match self.txs_by_issuer.write_quietly(&batches.txs_by_issuer) {
            Ok(_) => {},
            Err(e) => {
                return Err(e);
            },
        }
        match self.txs_by_recipient.write_quietly(&batches.txs_by_recipient) {
            Ok(_) => {},
            Err(e) => {
                let _ = self.txs_by_issuer.take_back(&undo_issuer);
                return Err(e);
            },
        }
        match self.utxos_by_script.write_quietly(&batches.utxos_by_script) {
            Ok(_) => {},
            Err(e) => {
                let _ = self.txs_by_recipient.take_back(&undo_recipient);
                let _ = self.txs_by_issuer.take_back(&undo_issuer);
                return Err(e);
            },
        }
        match self.txs.write_quietly(&batches.txs) {
            Ok(_) => {},
            Err(e) => {
                let _ = self.utxos_by_script.take_back(&undo_utxos);
                let _ = self.txs_by_recipient.take_back(&undo_recipient);
                let _ = self.txs_by_issuer.take_back(&undo_issuer);
                return Err(e);
            },
        }
        self.txs_by_issuer.announce(batches.txs_by_issuer);
        self.txs_by_recipient.announce(batches.txs_by_recipient);
        self.utxos_by_script.announce(batches.utxos_by_script);
        self.txs.announce(batches.txs);
        Ok(())
    }
}

} // verus!
