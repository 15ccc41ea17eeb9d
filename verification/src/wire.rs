use vstd::prelude::*;

use crate::ids::{eq_range, parse_uuid_at, push_uuid_bytes, uuid_bytes, lemma_uuid_bytes_injective,
    Uid};

verus! {

// The wire protocol carries one JSON object per text frame. An outgoing
// command frame holds the context id, the transaction id and an opaque
// payload; an incoming reply frame holds the transaction id and an opaque
// payload. Identifiers travel in their canonical 36-byte textual form; the
// payload is carried verbatim, so the codec is agnostic to the command set.
/// The opening of a reply frame: `{"txn_uuid":"`.
pub open spec fn reply_prefix() -> Seq<u8> {
    seq![123u8, 34, 116, 120, 110, 95, 117, 117, 105, 100, 34, 58, 34]
}

/// The separator between the last identifier and the payload: `","data":`.
pub open spec fn data_sep() -> Seq<u8> {
    seq![34u8, 44, 34, 100, 97, 116, 97, 34, 58]
}

/// The opening of a command frame: `{"context":"`.
pub open spec fn command_prefix() -> Seq<u8> {
    seq![123u8, 34, 99, 111, 110, 116, 101, 120, 116, 34, 58, 34]
}

/// The separator between the context id and the transaction id:
/// `","txn_uuid":"`.
pub open spec fn txn_sep() -> Seq<u8> {
    seq![34u8, 44, 34, 116, 120, 110, 95, 117, 117, 105, 100, 34, 58, 34]
}

/// The one exact byte form of a reply frame `{"txn_uuid":"<id>","data":<p>}`.
pub open spec fn spec_reply_frame(txn: Uid, payload: Seq<u8>) -> Seq<u8> {
    reply_prefix() + uuid_bytes(txn) + data_sep() + payload + seq![125u8]
}

/// The one exact byte form of a command frame
/// `{"context":"<ctx>","txn_uuid":"<txn>","data":<p>}`.
pub open spec fn spec_command_frame(ctx: Uid, txn: Uid, payload: Seq<u8>) -> Seq<u8> {
    command_prefix() + uuid_bytes(ctx) + txn_sep() + uuid_bytes(txn) + data_sep() + payload
        + seq![125u8]
}

/// Two reply frames agree only if they were made from the same transaction
/// id and the same payload: a reply frame names its transaction uniquely.
pub proof fn lemma_reply_frame_injective(t1: Uid, p1: Seq<u8>, t2: Uid, p2: Seq<u8>)
    requires
        spec_reply_frame(t1, p1) == spec_reply_frame(t2, p2),
    ensures
        t1 == t2,
        p1 == p2,
{
    let f1 = spec_reply_frame(t1, p1);
    let f2 = spec_reply_frame(t2, p2);
    assert(f1.len() == 59 + p1.len());
    assert(f2.len() == 59 + p2.len());
    assert(f1.subrange(13, 49) =~= uuid_bytes(t1));
    assert(f2.subrange(13, 49) =~= uuid_bytes(t2));
    lemma_uuid_bytes_injective(t1, t2);
    assert(f1.subrange(58, f1.len() - 1) =~= p1);
    assert(f2.subrange(58, f2.len() - 1) =~= p2);
}

/// Two command frames agree only if they were made from the same context id,
/// transaction id and payload.
pub proof fn lemma_command_frame_injective(
    c1: Uid,
    t1: Uid,
    p1: Seq<u8>,
    c2: Uid,
    t2: Uid,
    p2: Seq<u8>,
)
    requires
        spec_command_frame(c1, t1, p1) == spec_command_frame(c2, t2, p2),
    ensures
        c1 == c2,
        t1 == t2,
        p1 == p2,
{
    let f1 = spec_command_frame(c1, t1, p1);
    let f2 = spec_command_frame(c2, t2, p2);
    assert(f1.len() == 108 + p1.len());
    assert(f2.len() == 108 + p2.len());
    assert(f1.subrange(12, 48) =~= uuid_bytes(c1));
    assert(f2.subrange(12, 48) =~= uuid_bytes(c2));
    assert(f1.subrange(62, 98) =~= uuid_bytes(t1));
    assert(f2.subrange(62, 98) =~= uuid_bytes(t2));
    lemma_uuid_bytes_injective(c1, c2);
    lemma_uuid_bytes_injective(t1, t2);
    assert(f1.subrange(107, f1.len() - 1) =~= p1);
    assert(f2.subrange(107, f2.len() - 1) =~= p2);
}

/// Correlation: the reply frames of two distinct transactions can never be
/// confused, whatever their payloads. Together with the delivery contract
/// of the connection event loop — an inbound frame reaches exactly the sink
/// registered under the transaction id the frame names — no caller can ever
/// receive another call's reply.
pub proof fn lemma_distinct_txns_distinct_frames(t1: Uid, p1: Seq<u8>, t2: Uid, p2: Seq<u8>)
    requires
        t1 != t2,
    ensures
        spec_reply_frame(t1, p1) != spec_reply_frame(t2, p2),
{
    if spec_reply_frame(t1, p1) == spec_reply_frame(t2, p2) {
        lemma_reply_frame_injective(t1, p1, t2, p2);
    }
}

fn push_reply_prefix(out: &mut Vec<u8>)
    ensures
        final(out)@ == old(out)@ + reply_prefix(),
{
    out.push(123);
    out.push(34);
    out.push(116);
    out.push(120);
    out.push(110);
    out.push(95);
    out.push(117);
    out.push(117);
    out.push(105);
    out.push(100);
    out.push(34);
    out.push(58);
    out.push(34);
    assert(out@ =~= old(out)@ + reply_prefix());
}

fn push_data_sep(out: &mut Vec<u8>)
    ensures
        final(out)@ == old(out)@ + data_sep(),
{
    out.push(34);
    out.push(44);
    out.push(34);
    out.push(100);
    out.push(97);
    out.push(116);
    out.push(97);
    out.push(34);
    out.push(58);
    assert(out@ =~= old(out)@ + data_sep());
}

fn push_command_prefix(out: &mut Vec<u8>)
    ensures
        final(out)@ == old(out)@ + command_prefix(),
{
    out.push(123);
    out.push(34);
    out.push(99);
    out.push(111);
    out.push(110);
    out.push(116);
    out.push(101);
    out.push(120);
    out.push(116);
    out.push(34);
    out.push(58);
    out.push(34);
    assert(out@ =~= old(out)@ + command_prefix());
}

fn push_txn_sep(out: &mut Vec<u8>)
    ensures
        final(out)@ == old(out)@ + txn_sep(),
{
    out.push(34);
    out.push(44);
    out.push(34);
    out.push(116);
    out.push(120);
    out.push(110);
    out.push(95);
    out.push(117);
    out.push(117);
    out.push(105);
    out.push(100);
    out.push(34);
    out.push(58);
    out.push(34);
    assert(out@ =~= old(out)@ + txn_sep());
}

fn push_all(out: &mut Vec<u8>, bytes: &Vec<u8>)
    ensures
        final(out)@ == old(out)@ + bytes@,
{
    let ghost base = out@;
    let n = bytes.len();
    let mut j: usize = 0;
    while j < n
        invariant
            n == bytes@.len(),
            j <= n,
            out@ == base + bytes@.subrange(0, j as int),
        decreases n - j,
    {
        out.push(bytes[j]);
        assert(out@ =~= base + bytes@.subrange(0, j + 1));
        j = j + 1;
    }
    assert(bytes@.subrange(0, n as int) =~= bytes@);
}

/// Serializes an outgoing command as one wire frame.
pub fn encode_command(ctx: Uid, txn: Uid, payload: &Vec<u8>) -> (frame: Vec<u8>)
    ensures
        frame@ == spec_command_frame(ctx, txn, payload@),
{
    let mut out: Vec<u8> = Vec::new();
    push_command_prefix(&mut out);
    push_uuid_bytes(&mut out, ctx);
    push_txn_sep(&mut out);
    push_uuid_bytes(&mut out, txn);
    push_data_sep(&mut out);
    push_all(&mut out, payload);
    out.push(125);
    assert(out@ =~= spec_command_frame(ctx, txn, payload@));
    out
}

/// Serializes a reply as one wire frame (the form the remote peer sends).
pub fn encode_reply(txn: Uid, payload: &Vec<u8>) -> (frame: Vec<u8>)
    ensures
        frame@ == spec_reply_frame(txn, payload@),
{
    let mut out: Vec<u8> = Vec::new();
    push_reply_prefix(&mut out);
    push_uuid_bytes(&mut out, txn);
    push_data_sep(&mut out);
    push_all(&mut out, payload);
    out.push(125);
    assert(out@ =~= spec_reply_frame(txn, payload@));
    out
}

/// Parses an inbound frame as a reply. Succeeds exactly on the byte strings
/// that `encode_reply` produces, and then recovers the very transaction id
/// and payload that were encoded: decoding inverts encoding losslessly.
pub fn decode_reply(frame: &Vec<u8>) -> (r: Option<(Uid, Vec<u8>)>)
    ensures
        match r {
            Some(d) => frame@ == spec_reply_frame(d.0, d.1@),
            None => forall|t: Uid, p: Seq<u8>| frame@ != spec_reply_frame(t, p),
        },
{
    let flen = frame.len();
    if flen < 59 {
        assert forall|t: Uid, p: Seq<u8>| frame@ != spec_reply_frame(t, p) by {
            assert(spec_reply_frame(t, p).len() == 59 + p.len());
        }
        return None;
    }
    let mut prefix: Vec<u8> = Vec::new();
    push_reply_prefix(&mut prefix);
    if !eq_range(frame, 0, &prefix) {
        assert forall|t: Uid, p: Seq<u8>| frame@ != spec_reply_frame(t, p) by {
            if frame@ == spec_reply_frame(t, p) {
                assert(frame@.subrange(0, 13) =~= reply_prefix());
            }
        }
        return None;
    }
    let txn = match parse_uuid_at(frame, 13) {
        Some(u) => u,
        None => {
            assert forall|t: Uid, p: Seq<u8>| frame@ != spec_reply_frame(t, p) by {
                if frame@ == spec_reply_frame(t, p) {
                    assert(frame@.subrange(13, 49) =~= uuid_bytes(t));
                }
            }
            return None;
        },
    };
    let mut sep: Vec<u8> = Vec::new();
    push_data_sep(&mut sep);
    if !eq_range(frame, 49, &sep) {
        assert forall|t: Uid, p: Seq<u8>| frame@ != spec_reply_frame(t, p) by {
            if frame@ == spec_reply_frame(t, p) {
                assert(frame@.subrange(49, 58) =~= data_sep());
            }
        }
        return None;
    }
    if frame[flen - 1] != 125 {
        assert forall|t: Uid, p: Seq<u8>| frame@ != spec_reply_frame(t, p) by {
            if frame@ == spec_reply_frame(t, p) {
                assert(frame@[frame@.len() - 1] == 125);
            }
        }
        return None;
    }
    let mut payload: Vec<u8> = Vec::new();
    let mut j: usize = 58;
    while j < flen - 1
        invariant
            flen == frame@.len(),
            flen >= 59,
            58 <= j <= flen - 1,
            payload@ == frame@.subrange(58, j as int),
        decreases flen - j,
    {
        payload.push(frame[j]);
        assert(payload@ =~= frame@.subrange(58, j + 1));
        j = j + 1;
    }
    assert(frame@ =~= spec_reply_frame(txn, payload@));
    Some((txn, payload))
}

/// Parses an outbound frame as a command (the form the remote peer reads).
/// Succeeds exactly on the byte strings that `encode_command` produces.
pub fn decode_command(frame: &Vec<u8>) -> (r: Option<(Uid, Uid, Vec<u8>)>)
    ensures
        match r {
            Some(d) => frame@ == spec_command_frame(d.0, d.1, d.2@),
            None => forall|c: Uid, t: Uid, p: Seq<u8>| frame@ != spec_command_frame(c, t, p),
        },
{
    let flen = frame.len();
    if flen < 108 {
        assert forall|c: Uid, t: Uid, p: Seq<u8>| frame@ != spec_command_frame(c, t, p) by {
            assert(spec_command_frame(c, t, p).len() == 108 + p.len());
        }
        return None;
    }
    let mut prefix: Vec<u8> = Vec::new();
    push_command_prefix(&mut prefix);
    if !eq_range(frame, 0, &prefix) {
        assert forall|c: Uid, t: Uid, p: Seq<u8>| frame@ != spec_command_frame(c, t, p) by {
            if frame@ == spec_command_frame(c, t, p) {
                assert(frame@.subrange(0, 12) =~= command_prefix());
            }
        }
        return None;
    }
    let ctx = match parse_uuid_at(frame, 12) {
        Some(u) => u,
        None => {
            assert forall|c: Uid, t: Uid, p: Seq<u8>| frame@ != spec_command_frame(c, t, p) by {
                if frame@ == spec_command_frame(c, t, p) {
                    assert(frame@.subrange(12, 48) =~= uuid_bytes(c));
                }
            }
            return None;
        },
    };
    let mut sep: Vec<u8> = Vec::new();
    push_txn_sep(&mut sep);
    if !eq_range(frame, 48, &sep) {
        assert forall|c: Uid, t: Uid, p: Seq<u8>| frame@ != spec_command_frame(c, t, p) by {
            if frame@ == spec_command_frame(c, t, p) {
                assert(frame@.subrange(48, 62) =~= txn_sep());
            }
        }
        return None;
    }
    let txn = match parse_uuid_at(frame, 62) {
        Some(u) => u,
        None => {
            assert forall|c: Uid, t: Uid, p: Seq<u8>| frame@ != spec_command_frame(c, t, p) by {
                if frame@ == spec_command_frame(c, t, p) {
                    assert(frame@.subrange(62, 98) =~= uuid_bytes(t));
                }
            }
            return None;
        },
    };
    let mut dsep: Vec<u8> = Vec::new();
    push_data_sep(&mut dsep);
    if !eq_range(frame, 98, &dsep) {
        assert forall|c: Uid, t: Uid, p: Seq<u8>| frame@ != spec_command_frame(c, t, p) by {
            if frame@ == spec_command_frame(c, t, p) {
                assert(frame@.subrange(98, 107) =~= data_sep());
            }
        }
        return None;
    }
    if frame[flen - 1] != 125 {
        assert forall|c: Uid, t: Uid, p: Seq<u8>| frame@ != spec_command_frame(c, t, p) by {
            if frame@ == spec_command_frame(c, t, p) {
                assert(frame@[frame@.len() - 1] == 125);
            }
        }
        return None;
    }
    let mut payload: Vec<u8> = Vec::new();
    let mut j: usize = 107;
    while j < flen - 1
        invariant
            flen == frame@.len(),
            flen >= 108,
            107 <= j <= flen - 1,
            payload@ == frame@.subrange(107, j as int),
        decreases flen - j,
    {
        payload.push(frame[j]);
        assert(payload@ =~= frame@.subrange(107, j + 1));
        j = j + 1;
    }
    assert(frame@ =~= spec_command_frame(ctx, txn, payload@));
    Some((ctx, txn, payload))
}

} // verus!
