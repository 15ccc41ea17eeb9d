//! A session-multiplexing RPC layer for a remotely rendered canvas.
//!
//! Any number of logical drawing contexts share one long-lived,
//! bidirectional text connection to the peer that renders them. Every
//! command travels in an envelope stamped with its context id; a command
//! that awaits an answer is also stamped with a fresh transaction id, and
//! the per-connection event loop keeps a table from pending transaction
//! ids to reply sinks so that each caller receives exactly the reply made
//! for its own call. When a context handle goes away it owes the peer one
//! fire-and-forget teardown command; when a connection dies, every caller
//! still waiting on it is notified rather than left hanging.
//!
//! The command payloads themselves are opaque to this layer: the wire
//! codec carries them verbatim, and the reply classifier only reads the
//! variant tag that distinguishes the peer's failure report from a
//! successful answer.
pub mod canvas_types;
pub mod conn;
pub mod ids;
pub mod queue;
pub mod reply;
pub mod result;
pub mod session;
pub mod table;
pub mod wire;
