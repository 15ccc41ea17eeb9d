use vstd::prelude::*;

use crate::ids::Uid;
use crate::table::{all_pending_covered, TxnTable};
use crate::wire::{encode_command, decode_reply, spec_command_frame, spec_reply_frame};

verus! {

// One connection event loop owns one physical connection, one transaction
// table and the set of context streams it has absorbed. The loop itself
// (the asynchronous select over its three event sources) lives with the
// I/O; every decision it takes is made here, one event at a time, so that
// correlation, teardown and failure fan-out are all stated and checked.
/// The life of one connection: running, closed by the peer, or failed on a
/// protocol or transport error.
#[derive(Clone, Copy, PartialEq, Eq, Structural, Debug)]
pub enum ConnStatus {
    Running,
    Closed,
    Failed,
}

/// One queued command of one context: the opaque payload, the context it
/// belongs to, and, for calls that await an answer, the sink their reply
/// must reach. A call with no sink is fire-and-forget: no reply is ever
/// awaited for it.
pub struct Envelope<S> {
    pub context: Uid,
    pub payload: Vec<u8>,
    pub reply_to: Option<S>,
}

/// What the loop must do with one inbound frame.
pub enum Inbound<S> {
    /// The frame answers the pending transaction `txn`: hand `payload` to
    /// `sink`, which was registered for exactly that transaction.
    Deliver { txn: Uid, sink: S, payload: Vec<u8> },
    /// The frame names a transaction that was never registered: the
    /// connection has failed, and every pending transaction is handed back
    /// with its sink so its caller observes the failure.
    UnknownTxn { pending: Vec<(Uid, S)> },
    /// The frame is not a well-formed reply: the connection has failed,
    /// and every pending transaction is handed back with its sink.
    Malformed { pending: Vec<(Uid, S)> },
}

/// The decision state of one connection event loop.
pub struct Connection<S> {
    table: TxnTable<S>,
    status: ConnStatus,
}

impl<S> Connection<S> {
    /// The pending transactions: ids awaiting a reply, each with its sink.
    pub closed spec fn txns(&self) -> Map<Uid, S> {
        self.table.txns()
    }

    pub closed spec fn status(&self) -> ConnStatus {
        self.status
    }

    pub closed spec fn wf(&self) -> bool {
        self.table.wf()
    }

    /// A fresh connection: running, with an empty transaction table.
    pub fn new() -> (c: Connection<S>)
        ensures
            c.wf(),
            c.status() == ConnStatus::Running,
            c.txns() == Map::<Uid, S>::empty(),
    {
        Connection { table: TxnTable::new(), status: ConnStatus::Running }
    }

    pub fn is_running(&self) -> (r: bool)
        ensures
            r == (self.status() == ConnStatus::Running),
    {
        matches!(self.status, ConnStatus::Running)
    }

    /// Number of transactions still awaiting a reply.
    pub fn pending_count(&self) -> (n: usize)
        requires
            self.wf(),
        ensures
            n == self.txns().dom().len(),
    {
        self.table.pending()
    }

    /// Takes one dequeued envelope and a freshly minted transaction id and
    /// produces the frame to write. A call that awaits a reply has its sink
    /// registered under `txn` before the frame is handed out, so no reply
    /// can race ahead of the registration; a fire-and-forget call leaves
    /// the table untouched, so a connection serving only such calls never
    /// grows state.
    pub fn on_outbound(&mut self, env: Envelope<S>, txn: Uid) -> (frame: Vec<u8>)
        requires
            old(self).wf(),
            old(self).status() == ConnStatus::Running,
        ensures
            final(self).wf(),
            final(self).status() == ConnStatus::Running,
            frame@ == spec_command_frame(env.context, txn, env.payload@),
            match env.reply_to {
                Some(sink) => final(self).txns() == old(self).txns().insert(txn, sink),
                None => final(self).txns() == old(self).txns(),
            },
    {
        let Envelope { context, payload, reply_to } = env;
        let frame = encode_command(context, txn, &payload);
        match reply_to {
            Some(sink) => self.table.register(txn, sink),
            None => {},
        }
        frame
    }

    /// Takes one inbound frame and decides its fate. A well-formed reply
    /// naming a pending transaction is delivered to exactly the sink
    /// registered for that transaction, which is consumed; a well-formed
    /// reply naming an unknown transaction, or a frame that does not parse,
    /// is a protocol error: the connection fails and every pending sink is
    /// handed back for failure fan-out. Fire-and-forget calls register no
    /// entry, so a reply to one of them — should the peer ever send one —
    /// falls under the unknown-transaction rule and fails the connection;
    /// the protocol therefore never answers such calls.
    pub fn on_inbound(&mut self, frame: &Vec<u8>) -> (act: Inbound<S>)
        requires
            old(self).wf(),
            old(self).status() == ConnStatus::Running,
        ensures
            final(self).wf(),
            match act {
                Inbound::Deliver { txn, sink, payload } => {
                    &&& frame@ == spec_reply_frame(txn, payload@)
                    &&& old(self).txns().contains_key(txn)
                    &&& sink == old(self).txns()[txn]
                    &&& final(self).txns() == old(self).txns().remove(txn)
                    &&& final(self).status() == ConnStatus::Running
                },
                Inbound::UnknownTxn { pending } => {
                    &&& exists|t: Uid, p: Seq<u8>|
                        frame@ == #[trigger] spec_reply_frame(t, p) && !old(
                            self,
                        ).txns().contains_key(t)
                    &&& final(self).status() == ConnStatus::Failed
                    &&& final(self).txns() == Map::<Uid, S>::empty()
                    &&& pending@.len() == old(self).txns().dom().len()
                    &&& forall|i: int|
                        0 <= i < pending@.len() ==> old(self).txns().contains_key(
                            #[trigger] pending@[i].0,
                        ) && old(self).txns()[pending@[i].0] == pending@[i].1
                    &&& all_pending_covered(old(self).txns(), pending@)
                },
                Inbound::Malformed { pending } => {
                    &&& forall|t: Uid, p: Seq<u8>| frame@ != spec_reply_frame(t, p)
                    &&& final(self).status() == ConnStatus::Failed
                    &&& final(self).txns() == Map::<Uid, S>::empty()
                    &&& pending@.len() == old(self).txns().dom().len()
                    &&& forall|i: int|
                        0 <= i < pending@.len() ==> old(self).txns().contains_key(
                            #[trigger] pending@[i].0,
                        ) && old(self).txns()[pending@[i].0] == pending@[i].1
                    &&& all_pending_covered(old(self).txns(), pending@)
                },
            },
    {
        match decode_reply(frame) {
            Some((txn, payload)) => {
                match self.table.take(&txn) {
                    Some(sink) => Inbound::Deliver { txn, sink, payload },
                    None => {
                        self.status = ConnStatus::Failed;
                        let pending = self.table.drain();
                        Inbound::UnknownTxn { pending }
                    },
                }
            },
            None => {
                self.status = ConnStatus::Failed;
                let pending = self.table.drain();
                Inbound::Malformed { pending }
            },
        }
    }

    /// The peer closed the connection in an orderly way: every pending sink
    /// is handed back so its caller observes the closure instead of
    /// hanging.
    pub fn on_disconnect(&mut self) -> (pending: Vec<(Uid, S)>)
        requires
            old(self).wf(),
        ensures
            final(self).wf(),
            final(self).status() == ConnStatus::Closed,
            final(self).txns() == Map::<Uid, S>::empty(),
            pending@.len() == old(self).txns().dom().len(),
            forall|i: int|
                0 <= i < pending@.len() ==> old(self).txns().contains_key(
                    #[trigger] pending@[i].0,
                ) && old(self).txns()[pending@[i].0] == pending@[i].1,
            all_pending_covered(old(self).txns(), pending@),
    {
        self.status = ConnStatus::Closed;
        self.table.drain()
    }

    /// Writing to the connection failed: the connection is failed and every
    /// pending sink is handed back.
    pub fn on_transport_error(&mut self) -> (pending: Vec<(Uid, S)>)
        requires
            old(self).wf(),
        ensures
            final(self).wf(),
            final(self).status() == ConnStatus::Failed,
            final(self).txns() == Map::<Uid, S>::empty(),
            pending@.len() == old(self).txns().dom().len(),
            forall|i: int|
                0 <= i < pending@.len() ==> old(self).txns().contains_key(
                    #[trigger] pending@[i].0,
                ) && old(self).txns()[pending@[i].0] == pending@[i].1,
            all_pending_covered(old(self).txns(), pending@),
    {
        self.status = ConnStatus::Failed;
        self.table.drain()
    }
}

} // verus!
