use vstd::prelude::*;

use crate::conn::Envelope;
use crate::ids::{fresh_uid, Uid};
use crate::reply::spec_tagged;

verus! {

// The caller-facing side of one logical context. The handle that callers
// hold does asynchronous channel work; every value it sends is built here:
// the envelope of a call that awaits a reply, the envelope of a
// fire-and-forget command, and the single teardown command that destroys
// the remote context when the handle goes away.
/// The tag of the teardown command: `Destroy2DCanvas`.
pub open spec fn destroy_tag() -> Seq<u8> {
    seq![68u8, 101, 115, 116, 114, 111, 121, 50, 68, 67, 97, 110, 118, 97, 115]
}

/// The full teardown payload: `{"Destroy2DCanvas":{}}`.
pub open spec fn destroy_payload() -> Seq<u8> {
    spec_tagged(destroy_tag(), seq![123u8, 125])
}

/// The identity and teardown state of one logical context.
pub struct SessionCore {
    id: Uid,
    destroyed: bool,
}

impl SessionCore {
    /// The context id stamped on every envelope of this session.
    pub closed spec fn spec_id(&self) -> Uid {
        self.id
    }

    /// Whether the one teardown command has already been taken.
    pub closed spec fn spec_destroyed(&self) -> bool {
        self.destroyed
    }

    /// A session for a given context id, its teardown still owed.
    pub fn new(id: Uid) -> (s: SessionCore)
        ensures
            s.spec_id() == id,
            !s.spec_destroyed(),
    {
        SessionCore { id, destroyed: false }
    }

    /// A session under a freshly minted context id.
    pub fn create() -> (s: SessionCore)
        ensures
            !s.spec_destroyed(),
    {
        SessionCore { id: fresh_uid(), destroyed: false }
    }

    pub fn id(&self) -> (r: Uid)
        ensures
            r == self.spec_id(),
    {
        self.id
    }

    /// The envelope of one call that awaits a reply on `sink`.
    pub fn call_envelope<S>(&self, payload: Vec<u8>, sink: S) -> (env: Envelope<S>)
        ensures
            env.context == self.spec_id(),
            env.payload == payload,
            env.reply_to == Some(sink),
    {
        Envelope { context: self.id, payload, reply_to: Some(sink) }
    }

    /// The envelope of one fire-and-forget command: no reply is awaited.
    pub fn fire_envelope<S>(&self, payload: Vec<u8>) -> (env: Envelope<S>)
        ensures
            env.context == self.spec_id(),
            env.payload == payload,
            env.reply_to is None,
    {
        Envelope { context: self.id, payload, reply_to: None }
    }

    /// The teardown command of this session, handed out exactly once: the
    /// first call yields the fire-and-forget destroy envelope, every later
    /// call yields nothing. Destruction paths may call this freely and the
    /// remote context is still destroyed no more than once.
    pub fn take_destroy<S>(&mut self) -> (r: Option<Envelope<S>>)
        ensures
            final(self).spec_id() == old(self).spec_id(),
            final(self).spec_destroyed(),
            old(self).spec_destroyed() ==> r is None,
            !old(self).spec_destroyed() ==> match r {
                Some(env) => env.context == old(self).spec_id() && env.payload@
                    == destroy_payload() && env.reply_to is None,
                None => false,
            },
    {
        if self.destroyed {
            None
        } else {
            self.destroyed = true;
            let mut payload: Vec<u8> = Vec::new();
            payload.push(123);
            payload.push(34);
            payload.push(68);
            payload.push(101);
            payload.push(115);
            payload.push(116);
            payload.push(114);
            payload.push(111);
            payload.push(121);
            payload.push(50);
            payload.push(68);
            payload.push(67);
            payload.push(97);
            payload.push(110);
            payload.push(118);
            payload.push(97);
            payload.push(115);
            payload.push(34);
            payload.push(58);
            payload.push(123);
            payload.push(125);
            payload.push(125);
            assert(payload@ =~= destroy_payload());
            Some(Envelope { context: self.id, payload, reply_to: None })
        }
    }
}

} // verus!
