//! RPC message construction, the record framer, and their round trips.

use nfs4::rpc::{
    read_rpc_message, unframe, write_rpc_message, CallBody, OpaqueAuth, ReplyData, RpcMsg,
    RpcMsgBody, AUTH_NONE, GARBAGE_ARGS, MSG_ACCEPTED, PROG_MISMATCH, RPC_VERSION, SUCCESS,
};

#[test]
fn new_call_fields() {
    let m = RpcMsg::new_call(42, 100003, 4, 1, vec![1, 2, 3]);
    assert_eq!(m.xid, 42);
    match m.body {
        RpcMsgBody::Call(c) => {
            assert_eq!(c.rpc_vers, RPC_VERSION);
            assert_eq!(c.prog, 100003);
            assert_eq!(c.prog_vers, 4);
            assert_eq!(c.proc, 1);
            assert_eq!(c.cred.flavor, AUTH_NONE);
            assert_eq!(c.verf.flavor, AUTH_NONE);
            assert_eq!(c.data, vec![1, 2, 3]);
        },
        _ => panic!("expected a call"),
    }
}

#[test]
fn new_reply_fields() {
    let ok = RpcMsg::new_success_reply(7, vec![9]);
    let mismatch = RpcMsg::new_prog_mismatch_reply(8);
    let garbage = RpcMsg::new_garbage_args_reply(9);
    for (m, xid, stat, data) in [
        (ok, 7, SUCCESS, vec![9u8]),
        (mismatch, 8, PROG_MISMATCH, vec![]),
        (garbage, 9, GARBAGE_ARGS, vec![]),
    ] {
        assert_eq!(m.xid, xid);
        match m.body {
            RpcMsgBody::Reply(r) => {
                assert_eq!(r.reply_stat, MSG_ACCEPTED);
                match r.data {
                    ReplyData::Accepted(a) => {
                        assert_eq!(a.stat, stat);
                        assert_eq!(a.data, data);
                    },
                    _ => panic!("expected an accepted reply"),
                }
            },
            _ => panic!("expected a reply"),
        }
    }
}

#[test]
fn message_round_trip() {
    let m = RpcMsg {
        xid: 77,
        body: RpcMsgBody::Call(CallBody {
            rpc_vers: 2,
            prog: 100003,
            prog_vers: 4,
            proc: 1,
            cred: OpaqueAuth { flavor: AUTH_NONE, body: vec![] },
            verf: OpaqueAuth { flavor: 1, body: vec![5, 6] },
            data: vec![1, 2, 3, 4, 5],
        }),
    };
    let bytes = m.encode().unwrap();
    let back = RpcMsg::decode(&bytes).unwrap();
    assert_eq!(back, m);
}

#[test]
fn frame_then_unframe() {
    let m = RpcMsg::new_success_reply(1, vec![1, 2, 3]);
    let mut buf = Vec::new();
    write_rpc_message(&m, &mut buf).unwrap();
    // Single fragment: header carries the last-fragment bit.
    assert_eq!(buf[0] & 0x80, 0x80);
    let (payload, end) = unframe(&buf, 0).unwrap();
    assert_eq!(end, buf.len());
    assert_eq!(payload, m.encode().unwrap());
}

#[test]
fn read_message_round_trip() {
    let m = RpcMsg::new_call(5, 100003, 4, 0, vec![]);
    let mut buf = Vec::new();
    write_rpc_message(&m, &mut buf).unwrap();
    let got = read_rpc_message(&mut buf).unwrap().unwrap();
    assert_eq!(got, m);
    assert!(buf.is_empty());
}

#[test]
fn read_concatenated_frames_in_order() {
    let m1 = RpcMsg::new_call(1, 100003, 4, 0, vec![]);
    let m2 = RpcMsg::new_success_reply(2, vec![8, 9]);
    let mut buf = Vec::new();
    write_rpc_message(&m1, &mut buf).unwrap();
    write_rpc_message(&m2, &mut buf).unwrap();
    let got1 = read_rpc_message(&mut buf).unwrap().unwrap();
    let got2 = read_rpc_message(&mut buf).unwrap().unwrap();
    assert_eq!(got1, m1);
    assert_eq!(got2, m2);
    assert!(buf.is_empty());
}

#[test]
fn incomplete_frame_waits() {
    let m = RpcMsg::new_success_reply(3, vec![1, 2, 3, 4]);
    let mut buf = Vec::new();
    write_rpc_message(&m, &mut buf).unwrap();
    let mut partial = buf[..buf.len() - 1].to_vec();
    let before = partial.clone();
    assert!(read_rpc_message(&mut partial).is_none());
    assert_eq!(partial, before);
}

#[test]
fn multi_fragment_record_reassembled() {
    let m = RpcMsg::new_success_reply(4, vec![10, 11, 12]);
    let encoded = m.encode().unwrap();
    let (a, b) = encoded.split_at(5);
    let mut buf = Vec::new();
    // First fragment: high bit clear.
    buf.extend_from_slice(&(a.len() as u32).to_be_bytes());
    buf.extend_from_slice(a);
    // Last fragment: high bit set.
    buf.extend_from_slice(&(0x8000_0000u32 | b.len() as u32).to_be_bytes());
    buf.extend_from_slice(b);
    let (payload, end) = unframe(&buf, 0).unwrap();
    assert_eq!(end, buf.len());
    assert_eq!(payload, encoded);
    let got = read_rpc_message(&mut buf).unwrap().unwrap();
    assert_eq!(got, m);
}
