use remote_canvas::ids::{parse_uuid_at, push_uuid_bytes, Uid};
use remote_canvas::wire::{decode_command, decode_reply, encode_command, encode_reply};

fn uuid_text(u: Uid) -> String {
    let mut out: Vec<u8> = Vec::new();
    push_uuid_bytes(&mut out, u);
    String::from_utf8(out).unwrap()
}

#[test]
fn uuid_text_of_zero() {
    let u = Uid { hi: 0, lo: 0 };
    assert_eq!(uuid_text(u), "00000000-0000-0000-0000-000000000000");
}

#[test]
fn uuid_text_of_known_value() {
    let u = Uid { hi: 0xa1a2a3a4b1b2c1c2, lo: 0xd1d2d3d4d5d6d7d8 };
    assert_eq!(uuid_text(u), "a1a2a3a4-b1b2-c1c2-d1d2-d3d4d5d6d7d8");
}

#[test]
fn uuid_parse_round_trip() {
    let u = Uid { hi: 0x0123456789abcdef, lo: 0xfedcba9876543210 };
    let mut bytes: Vec<u8> = Vec::new();
    push_uuid_bytes(&mut bytes, u);
    let parsed = parse_uuid_at(&bytes, 0).unwrap();
    assert_eq!(parsed.hi, u.hi);
    assert_eq!(parsed.lo, u.lo);
}

#[test]
fn uuid_parse_rejects_upper_case() {
    let bytes = b"A1A2A3A4-B1B2-C1C2-D1D2-D3D4D5D6D7D8".to_vec();
    assert!(parse_uuid_at(&bytes, 0).is_none());
}

#[test]
fn uuid_parse_rejects_bad_hyphens() {
    let bytes = b"a1a2a3a4b1b2-c1c2--d1d2-d3d4d5d6d7d8".to_vec();
    assert!(parse_uuid_at(&bytes, 0).is_none());
}

#[test]
fn command_frame_exact_bytes() {
    let ctx = Uid { hi: 0, lo: 1 };
    let txn = Uid { hi: 0, lo: 2 };
    let payload = b"{\"Save\":{}}".to_vec();
    let frame = encode_command(ctx, txn, &payload);
    let text = String::from_utf8(frame).unwrap();
    assert_eq!(
        text,
        "{\"context\":\"00000000-0000-0000-0000-000000000001\",\
         \"txn_uuid\":\"00000000-0000-0000-0000-000000000002\",\
         \"data\":{\"Save\":{}}}"
    );
}

#[test]
fn command_frame_round_trip() {
    let ctx = Uid { hi: 77, lo: 101 };
    let txn = Uid { hi: 0xffff_ffff_ffff_ffff, lo: 0 };
    let payload = b"{\"MeasureText\":{\"text\":\"hi\"}}".to_vec();
    let frame = encode_command(ctx, txn, &payload);
    let (c2, t2, p2) = decode_command(&frame).unwrap();
    assert_eq!((c2.hi, c2.lo), (ctx.hi, ctx.lo));
    assert_eq!((t2.hi, t2.lo), (txn.hi, txn.lo));
    assert_eq!(p2, payload);
}

#[test]
fn reply_frame_exact_bytes() {
    let txn = Uid { hi: 3, lo: 4 };
    let payload = b"{\"Success\":{}}".to_vec();
    let frame = encode_reply(txn, &payload);
    let text = String::from_utf8(frame).unwrap();
    assert_eq!(
        text,
        "{\"txn_uuid\":\"00000000-0000-0003-0000-000000000004\",\
         \"data\":{\"Success\":{}}}"
    );
}

#[test]
fn reply_frame_round_trip() {
    let txn = Uid { hi: 9, lo: 9 };
    let payload = b"{\"DataUrl\":{\"data_url\":\"data:image/png;base64,AAAA\"}}".to_vec();
    let frame = encode_reply(txn, &payload);
    let (t2, p2) = decode_reply(&frame).unwrap();
    assert_eq!((t2.hi, t2.lo), (txn.hi, txn.lo));
    assert_eq!(p2, payload);
}

#[test]
fn reply_decode_rejects_bad_prefix() {
    let frame = b"{\"txn_uid\":\"00000000-0000-0000-0000-000000000001\",\"data\":{}}".to_vec();
    assert!(decode_reply(&frame).is_none());
}

#[test]
fn reply_decode_rejects_truncated() {
    let txn = Uid { hi: 1, lo: 1 };
    let payload = b"{}".to_vec();
    let mut frame = encode_reply(txn, &payload);
    frame.truncate(50);
    assert!(decode_reply(&frame).is_none());
}

#[test]
fn reply_decode_rejects_command_frame() {
    let ctx = Uid { hi: 1, lo: 2 };
    let txn = Uid { hi: 3, lo: 4 };
    let payload = b"{}".to_vec();
    let frame = encode_command(ctx, txn, &payload);
    assert!(decode_reply(&frame).is_none());
}
