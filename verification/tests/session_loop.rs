use remote_canvas::conn::{Connection, Inbound};
use remote_canvas::ids::Uid;
use remote_canvas::queue::CommandQueue;
use remote_canvas::reply::{classify_reply, map_js_error, map_js_error_data, CallError};
use remote_canvas::result::CanvasError;
use remote_canvas::session::SessionCore;
use remote_canvas::wire::{decode_command, encode_reply};

#[test]
fn concurrent_calls_on_one_session_correlate() {
    // Create session A, issue measure_text and, before it resolves,
    // set_fill_style; both frames are in flight on the same connection, and
    // each caller must get exactly its own reply.
    let mut conn: Connection<u32> = Connection::new();
    let session = SessionCore::new(Uid { hi: 10, lo: 20 });

    let env1 = session.call_envelope(b"{\"MeasureText\":{\"text\":\"hi\"}}".to_vec(), 1u32);
    let txn1 = Uid { hi: 0, lo: 100 };
    let frame1 = conn.on_outbound(env1, txn1);

    let env2 = session.call_envelope(
        b"{\"SetFillStyle\":{\"fill_style\":\"#fff\"}}".to_vec(),
        2u32,
    );
    let txn2 = Uid { hi: 0, lo: 200 };
    let frame2 = conn.on_outbound(env2, txn2);

    assert_eq!(conn.pending_count(), 2);
    assert_ne!(frame1, frame2);

    let (c1, t1, p1) = decode_command(&frame1).unwrap();
    assert_eq!((c1.hi, c1.lo), (10, 20));
    assert_eq!((t1.hi, t1.lo), (0, 100));
    assert_eq!(p1, b"{\"MeasureText\":{\"text\":\"hi\"}}".to_vec());
    let (c2, t2, _) = decode_command(&frame2).unwrap();
    assert_eq!((c2.hi, c2.lo), (10, 20));
    assert_eq!((t2.hi, t2.lo), (0, 200));

    // Replies arrive out of order; each reaches its own caller.
    let reply2 = encode_reply(txn2, &b"{\"Success\":{}}".to_vec());
    match conn.on_inbound(&reply2) {
        Inbound::Deliver { sink, payload, .. } => {
            assert_eq!(sink, 2);
            assert_eq!(payload, b"{\"Success\":{}}".to_vec());
        }
        _ => panic!("expected delivery"),
    }
    let metrics = b"{\"MeasureText\":{\"text_metrics\":{\"width\":9.5}}}".to_vec();
    let reply1 = encode_reply(txn1, &metrics);
    match conn.on_inbound(&reply1) {
        Inbound::Deliver { sink, payload, .. } => {
            assert_eq!(sink, 1);
            assert_eq!(payload, metrics);
        }
        _ => panic!("expected delivery"),
    }
    assert_eq!(conn.pending_count(), 0);

    // Dropping the session afterwards triggers the destroy exactly once,
    // with no outstanding call needed.
    let mut session = session;
    let destroy = session.take_destroy::<u32>().unwrap();
    assert!(destroy.reply_to.is_none());
    assert_eq!((destroy.context.hi, destroy.context.lo), (10, 20));
    assert!(session.take_destroy::<u32>().is_none());
}

#[test]
fn fire_and_forget_destroy_leaves_loop_untouched() {
    // A session created and destroyed without any call must not disturb
    // the connection loop, even though no acknowledgement ever comes.
    let mut conn: Connection<u32> = Connection::new();
    let mut session = SessionCore::new(Uid { hi: 1, lo: 1 });
    let destroy = session.take_destroy::<u32>().unwrap();
    assert_eq!(
        destroy.payload,
        b"{\"Destroy2DCanvas\":{}}".to_vec()
    );
    let txn = Uid { hi: 5, lo: 5 };
    let frame = conn.on_outbound(destroy, txn);
    assert!(!frame.is_empty());
    assert_eq!(conn.pending_count(), 0);
    assert!(conn.is_running());
}

#[test]
fn destroy_is_emitted_exactly_once() {
    let mut session = SessionCore::new(Uid { hi: 2, lo: 3 });
    assert!(session.take_destroy::<u32>().is_some());
    assert!(session.take_destroy::<u32>().is_none());
    assert!(session.take_destroy::<u32>().is_none());
}

#[test]
fn unknown_txn_kills_only_its_connection() {
    let mut conn_a: Connection<u32> = Connection::new();
    let mut conn_b: Connection<u32> = Connection::new();
    let session_a = SessionCore::new(Uid { hi: 1, lo: 0 });
    let session_b = SessionCore::new(Uid { hi: 2, lo: 0 });

    let txn_a = Uid { hi: 0, lo: 1 };
    conn_a.on_outbound(session_a.call_envelope(b"{\"Save\":{}}".to_vec(), 7u32), txn_a);
    let txn_b = Uid { hi: 0, lo: 2 };
    conn_b.on_outbound(session_b.call_envelope(b"{\"Save\":{}}".to_vec(), 8u32), txn_b);

    // A reply naming a transaction never registered on connection A.
    let bogus = encode_reply(Uid { hi: 9, lo: 9 }, &b"{\"Success\":{}}".to_vec());
    match conn_a.on_inbound(&bogus) {
        Inbound::UnknownTxn { pending } => {
            assert_eq!(pending.len(), 1);
            assert_eq!((pending[0].0.hi, pending[0].0.lo), (txn_a.hi, txn_a.lo));
            assert_eq!(pending[0].1, 7);
        }
        _ => panic!("expected unknown-transaction failure"),
    }
    assert!(!conn_a.is_running());

    // Connection B is untouched and still delivers.
    assert!(conn_b.is_running());
    assert_eq!(conn_b.pending_count(), 1);
    let reply_b = encode_reply(txn_b, &b"{\"Success\":{}}".to_vec());
    match conn_b.on_inbound(&reply_b) {
        Inbound::Deliver { sink, .. } => assert_eq!(sink, 8),
        _ => panic!("expected delivery"),
    }
}

#[test]
fn malformed_frame_fails_connection() {
    let mut conn: Connection<u32> = Connection::new();
    let session = SessionCore::new(Uid { hi: 4, lo: 4 });
    conn.on_outbound(
        session.call_envelope(b"{\"Save\":{}}".to_vec(), 3u32),
        Uid { hi: 0, lo: 3 },
    );
    match conn.on_inbound(&b"not json at all".to_vec()) {
        Inbound::Malformed { pending } => {
            assert_eq!(pending.len(), 1);
            assert_eq!(pending[0].1, 3);
        }
        _ => panic!("expected malformed-frame failure"),
    }
    assert!(!conn.is_running());
}

#[test]
fn connection_failure_fans_out_to_all_pending_calls() {
    // Terminating a connection with N pending calls notifies all N
    // waiting callers; calls pending on another connection are unaffected.
    let mut conn: Connection<u32> = Connection::new();
    let mut other: Connection<u32> = Connection::new();
    let session = SessionCore::new(Uid { hi: 6, lo: 6 });
    for i in 0..5u32 {
        let txn = Uid { hi: 1, lo: i as u64 };
        conn.on_outbound(session.call_envelope(b"{\"Save\":{}}".to_vec(), i), txn);
    }
    other.on_outbound(
        session.call_envelope(b"{\"Save\":{}}".to_vec(), 99u32),
        Uid { hi: 2, lo: 0 },
    );

    let pending = conn.on_transport_error();
    assert_eq!(pending.len(), 5);
    let mut sinks: Vec<u32> = pending.iter().map(|p| p.1).collect();
    sinks.sort();
    assert_eq!(sinks, vec![0, 1, 2, 3, 4]);
    assert!(!conn.is_running());
    assert_eq!(other.pending_count(), 1);
    assert!(other.is_running());
}

#[test]
fn peer_disconnect_discards_pending_calls() {
    let mut conn: Connection<u32> = Connection::new();
    let session = SessionCore::new(Uid { hi: 8, lo: 8 });
    conn.on_outbound(
        session.call_envelope(b"{\"Save\":{}}".to_vec(), 42u32),
        Uid { hi: 3, lo: 0 },
    );
    let pending = conn.on_disconnect();
    assert_eq!(pending.len(), 1);
    assert_eq!(pending[0].1, 42);
    assert_eq!(conn.pending_count(), 0);
}

#[test]
fn bounded_queue_refuses_when_full_and_keeps_order() {
    // Backpressure: more offers than capacity never drop or reorder; the
    // refused item is handed straight back so the producer can wait.
    let mut q: CommandQueue<u32> = CommandQueue::new(2);
    assert_eq!(q.capacity(), 2);
    assert!(q.offer(10).is_none());
    assert!(q.offer(20).is_none());
    assert_eq!(q.offer(30), Some(30));
    assert_eq!(q.len(), 2);
    assert_eq!(q.take(), Some(10));
    assert!(q.offer(30).is_none());
    assert_eq!(q.take(), Some(20));
    assert_eq!(q.take(), Some(30));
    assert_eq!(q.take(), None);
}

#[test]
fn classify_splits_tag_and_body() {
    let (tag, body) = classify_reply(&b"{\"Success\":{}}".to_vec()).unwrap();
    assert_eq!(tag, b"Success".to_vec());
    assert_eq!(body, b"{}".to_vec());
    let (tag, body) =
        classify_reply(&b"{\"LineDash\":{\"line_dash\":[1.0,2.0]}}".to_vec()).unwrap();
    assert_eq!(tag, b"LineDash".to_vec());
    assert_eq!(body, b"{\"line_dash\":[1.0,2.0]}".to_vec());
    assert!(classify_reply(&b"[1,2,3]".to_vec()).is_none());
    assert!(classify_reply(&b"{\"\":{}}".to_vec()).is_none());
}

#[test]
fn js_error_reply_maps_to_remote_failure() {
    let payload = b"{\"JsError\":{\"message\":\"boom\"}}".to_vec();
    match map_js_error(&payload) {
        Err(CallError::Remote { message }) => {
            assert_eq!(message, b"{\"message\":\"boom\"}".to_vec());
        }
        _ => panic!("expected remote failure"),
    }
    match map_js_error_data(&payload) {
        Err(CallError::Remote { message }) => {
            assert_eq!(message, b"{\"message\":\"boom\"}".to_vec());
        }
        _ => panic!("expected remote failure"),
    }
}

#[test]
fn success_reply_maps_to_ok() {
    assert!(map_js_error(&b"{\"Success\":{}}".to_vec()).is_ok());
    let (tag, body) =
        map_js_error_data(&b"{\"IsPointIn\":{\"is_in\":true}}".to_vec()).unwrap();
    assert_eq!(tag, b"IsPointIn".to_vec());
    assert_eq!(body, b"{\"is_in\":true}".to_vec());
}

#[test]
fn shapeless_reply_is_an_error() {
    match map_js_error(&b"null".to_vec()) {
        Err(CallError::UnexpectedShape) => {}
        _ => panic!("expected shape error"),
    }
}

#[test]
fn canvas_error_carries_its_message() {
    let e = CanvasError::new(String::from("context lost"));
    assert_eq!(e.message(), "context lost");
}
