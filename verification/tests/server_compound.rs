//! End-to-end COMPOUND scenarios against the server.

use nfs4::codec::{decode_compound_response, encode_compound_request};
use nfs4::protocol::{
    AccessOperation, CloseOperation, CommitOperation, CompoundRequest, CreateOperation,
    GetAttrOperation, GetFhOperation, LookupOperation, LookuppOperation, NfsFileAttributes,
    NfsFileHandle, NfsOperation, NfsStatus, NfsTime, OpenClaim, OpenOperation,
    OpenConfirmOperation, OperationData, ReadOperation, WriteOperation, ACCESS4_EXTEND,
    ACCESS4_MODIFY, ACCESS4_READ, NF4DIR, NF4LNK, NF4REG,
};
use nfs4::fs::FsAction;
use nfs4::rpc::{ReplyData, RpcMsg, RpcMsgBody, GARBAGE_ARGS, PROG_MISMATCH, SUCCESS};
use nfs4::server::NfsServer;

fn attrs() -> NfsFileAttributes {
    NfsFileAttributes {
        type_: NF4REG,
        mode: 0o644,
        size: 0,
        space_used: 0,
        time_access: NfsTime { seconds: 0, nseconds: 0 },
        time_modify: NfsTime { seconds: 0, nseconds: 0 },
        owner: "1000".to_string(),
        group: "1000".to_string(),
    }
}

fn compound(server: &mut NfsServer, tag: &str, ops: Vec<NfsOperation>) -> nfs4::CompoundResponse {
    server.handle_compound(CompoundRequest {
        tag: tag.to_string(),
        minor_version: 0,
        operations: ops,
    })
}

fn result_handle(r: &nfs4::OperationResult) -> NfsFileHandle {
    match &r.result {
        Some(OperationData::GetFh(h)) => h.clone(),
        other => panic!("expected a filehandle, got {:?}", other),
    }
}

fn result_stateid(r: &nfs4::OperationResult) -> [u8; 16] {
    match &r.result {
        Some(OperationData::Open(sid)) => *sid,
        other => panic!("expected a stateid, got {:?}", other),
    }
}

#[test]
fn getfh_then_getattr_yields_directory() {
    let mut s = NfsServer::new_with_identity(1000, 1000);
    let resp = compound(&mut s, "t1", vec![
        NfsOperation::GetFh(GetFhOperation),
        NfsOperation::GetAttr(GetAttrOperation { attr_request: vec![] }),
    ]);
    assert_eq!(resp.tag, "t1");
    assert_eq!(resp.status, NfsStatus::Success);
    assert_eq!(resp.results.len(), 2);
    match &resp.results[1].result {
        Some(OperationData::GetAttr(a)) => assert_eq!(a.type_, NF4DIR),
        other => panic!("expected attributes, got {:?}", other),
    }
}

#[test]
fn lookup_of_missing_name_stops_the_sequence() {
    let mut s = NfsServer::new_with_identity(1000, 1000);
    let resp = compound(&mut s, "t", vec![
        NfsOperation::GetFh(GetFhOperation),
        NfsOperation::Lookup(LookupOperation { object_name: "does-not-exist".to_string() }),
        NfsOperation::GetFh(GetFhOperation),
    ]);
    assert_eq!(resp.status, NfsStatus::NoEnt);
    assert_eq!(resp.results.len(), 2);
    assert_eq!(resp.results[0].status, NfsStatus::Success);
    assert_eq!(resp.results[1].status, NfsStatus::NoEnt);
}

#[test]
fn create_write_close_open_read_returns_the_data() {
    let mut s = NfsServer::new_with_identity(1000, 1000);
    let resp = compound(&mut s, "setup", vec![
        NfsOperation::GetFh(GetFhOperation),
        NfsOperation::Create(CreateOperation {
            object_type: NF4REG,
            object_name: "a.bin".to_string(),
            attributes: attrs(),
        }),
        NfsOperation::Open(OpenOperation {
            seqid: 1,
            share_access: ACCESS4_READ | ACCESS4_MODIFY,
            share_deny: 0,
            owner: vec![1],
            open_claim: OpenClaim::Null("a.bin".to_string()),
        }),
    ]);
    assert_eq!(resp.status, NfsStatus::Success);
    let sid = result_stateid(&resp.results[2]);

    let resp = compound(&mut s, "write", vec![
        NfsOperation::Write(WriteOperation {
            stateid: sid,
            offset: 0,
            stable: 1,
            data: vec![0xDE, 0xAD, 0xBE, 0xEF],
        }),
        NfsOperation::Close(CloseOperation { seqid: 2, open_stateid: sid }),
    ]);
    assert_eq!(resp.status, NfsStatus::Success);
    match &resp.results[0].result {
        Some(OperationData::Write(n)) => assert_eq!(*n, 4),
        other => panic!("expected a write count, got {:?}", other),
    }

    let resp = compound(&mut s, "reopen", vec![
        NfsOperation::Open(OpenOperation {
            seqid: 2,
            share_access: ACCESS4_READ,
            share_deny: 0,
            owner: vec![1],
            open_claim: OpenClaim::Null("a.bin".to_string()),
        }),
    ]);
    assert_eq!(resp.status, NfsStatus::Success);
    let sid2 = result_stateid(&resp.results[0]);

    let resp = compound(&mut s, "read", vec![
        NfsOperation::Read(ReadOperation { stateid: sid2, offset: 0, count: 4 }),
    ]);
    assert_eq!(resp.status, NfsStatus::Success);
    match &resp.results[0].result {
        Some(OperationData::Read(d)) => assert_eq!(d, &vec![0xDE, 0xAD, 0xBE, 0xEF]),
        other => panic!("expected read data, got {:?}", other),
    }
}

#[test]
fn read_past_end_of_file_is_a_short_read() {
    let mut s = NfsServer::new_with_identity(1000, 1000);
    let resp = compound(&mut s, "o", vec![
        NfsOperation::Open(OpenOperation {
            seqid: 1,
            share_access: ACCESS4_READ | ACCESS4_MODIFY,
            share_deny: 0,
            owner: vec![],
            open_claim: OpenClaim::Null("short.bin".to_string()),
        }),
    ]);
    let sid = result_stateid(&resp.results[0]);
    let resp = compound(&mut s, "w", vec![
        NfsOperation::Write(WriteOperation { stateid: sid, offset: 0, stable: 0, data: vec![1, 2] }),
        NfsOperation::Read(ReadOperation { stateid: sid, offset: 100, count: 10 }),
        NfsOperation::Read(ReadOperation { stateid: sid, offset: 1, count: 10 }),
    ]);
    assert_eq!(resp.status, NfsStatus::Success);
    match &resp.results[1].result {
        Some(OperationData::Read(d)) => assert!(d.is_empty()),
        other => panic!("expected read data, got {:?}", other),
    }
    match &resp.results[2].result {
        Some(OperationData::Read(d)) => assert_eq!(d, &vec![2]),
        other => panic!("expected read data, got {:?}", other),
    }
}

#[test]
fn create_then_lookup_binds_the_same_path() {
    let mut s = NfsServer::new_with_identity(1000, 1000);
    let resp = compound(&mut s, "c", vec![
        NfsOperation::GetFh(GetFhOperation),
        NfsOperation::Create(CreateOperation {
            object_type: NF4REG,
            object_name: "f".to_string(),
            attributes: attrs(),
        }),
    ]);
    assert_eq!(resp.status, NfsStatus::Success);
    let h1 = result_handle(&resp.results[1]);
    let resp = compound(&mut s, "l", vec![
        NfsOperation::GetFh(GetFhOperation),
        NfsOperation::Lookup(LookupOperation { object_name: "f".to_string() }),
    ]);
    assert_eq!(resp.status, NfsStatus::Success);
    let h2 = result_handle(&resp.results[1]);
    assert_ne!(h1, h2);
    let p1 = s.resolve_handle(&h1).unwrap();
    let p2 = s.resolve_handle(&h2).unwrap();
    assert_eq!(p1, p2);
    assert_eq!(p1, vec!["f".to_string()]);
}

#[test]
fn traversal_names_are_rejected() {
    let mut s = NfsServer::new_with_identity(1000, 1000);
    for bad in ["..", ".", "a/b", ""] {
        let resp = compound(&mut s, "t", vec![
            NfsOperation::GetFh(GetFhOperation),
            NfsOperation::Lookup(LookupOperation { object_name: bad.to_string() }),
        ]);
        assert_eq!(resp.status, NfsStatus::BadName, "name {:?}", bad);
        let resp = compound(&mut s, "t", vec![
            NfsOperation::GetFh(GetFhOperation),
            NfsOperation::Create(CreateOperation {
                object_type: NF4REG,
                object_name: bad.to_string(),
                attributes: attrs(),
            }),
        ]);
        assert_eq!(resp.status, NfsStatus::BadName, "name {:?}", bad);
    }
    // A claim path is split on separators; each component must be a
    // valid name.
    for bad in ["..", ".", "", "d/..", "a//b"] {
        let resp = compound(&mut s, "t", vec![
            NfsOperation::Open(OpenOperation {
                seqid: 1,
                share_access: ACCESS4_READ,
                share_deny: 0,
                owner: vec![],
                open_claim: OpenClaim::Null(bad.to_string()),
            }),
        ]);
        assert_eq!(resp.status, NfsStatus::BadName, "claim {:?}", bad);
    }
    // Opening under a directory that does not exist fails as the
    // filesystem would fail it, not as a bad name.
    let resp = compound(&mut s, "t", vec![
        NfsOperation::Open(OpenOperation {
            seqid: 1,
            share_access: ACCESS4_READ,
            share_deny: 0,
            owner: vec![],
            open_claim: OpenClaim::Null("nowhere/x.bin".to_string()),
        }),
    ]);
    assert_eq!(resp.status, NfsStatus::IoError);
}

#[test]
fn open_creates_under_an_existing_directory() {
    let mut s = NfsServer::new_with_identity(1000, 1000);
    let resp = compound(&mut s, "mkdir", vec![
        NfsOperation::GetFh(GetFhOperation),
        NfsOperation::Create(CreateOperation {
            object_type: NF4DIR,
            object_name: "d".to_string(),
            attributes: attrs(),
        }),
    ]);
    assert_eq!(resp.status, NfsStatus::Success);
    let resp = compound(&mut s, "openwrite", vec![
        NfsOperation::Open(OpenOperation {
            seqid: 1,
            share_access: ACCESS4_READ | ACCESS4_MODIFY,
            share_deny: 0,
            owner: vec![],
            open_claim: OpenClaim::Null("d/x.bin".to_string()),
        }),
    ]);
    assert_eq!(resp.status, NfsStatus::Success);
    let sid = result_stateid(&resp.results[0]);
    let resp = compound(&mut s, "rw", vec![
        NfsOperation::Write(WriteOperation { stateid: sid, offset: 0, stable: 0, data: vec![9, 8] }),
        NfsOperation::Read(ReadOperation { stateid: sid, offset: 0, count: 2 }),
    ]);
    assert_eq!(resp.status, NfsStatus::Success);
    match &resp.results[1].result {
        Some(OperationData::Read(d)) => assert_eq!(d, &vec![9, 8]),
        other => panic!("expected read data, got {:?}", other),
    }
    // The file is visible from the directory by LOOKUP.
    let resp = compound(&mut s, "l", vec![
        NfsOperation::GetFh(GetFhOperation),
        NfsOperation::Lookup(LookupOperation { object_name: "d".to_string() }),
        NfsOperation::Lookup(LookupOperation { object_name: "x.bin".to_string() }),
    ]);
    assert_eq!(resp.status, NfsStatus::Success);
}

#[test]
fn create_of_unsupported_type_is_bad_type() {
    let mut s = NfsServer::new_with_identity(1000, 1000);
    let resp = compound(&mut s, "t", vec![
        NfsOperation::GetFh(GetFhOperation),
        NfsOperation::Create(CreateOperation {
            object_type: NF4LNK,
            object_name: "l".to_string(),
            attributes: attrs(),
        }),
    ]);
    assert_eq!(resp.status, NfsStatus::BadType);
}

#[test]
fn operations_without_a_cursor_fail_bad_handle() {
    let mut s = NfsServer::new_with_identity(1000, 1000);
    let resp = compound(&mut s, "t", vec![
        NfsOperation::Access(AccessOperation { access: ACCESS4_READ }),
    ]);
    assert_eq!(resp.status, NfsStatus::BadHandle);
    assert_eq!(resp.results.len(), 1);
}

#[test]
fn close_and_confirm_of_unknown_stateid_fail() {
    let mut s = NfsServer::new_with_identity(1000, 1000);
    let resp = compound(&mut s, "t", vec![
        NfsOperation::Close(CloseOperation { seqid: 1, open_stateid: [0u8; 16] }),
    ]);
    assert_eq!(resp.status, NfsStatus::BadStateid);
    let resp = compound(&mut s, "t", vec![
        NfsOperation::OpenConfirm(OpenConfirmOperation { open_stateid: [0u8; 16], seqid: 1 }),
    ]);
    assert_eq!(resp.status, NfsStatus::BadStateid);
}

#[test]
fn open_confirm_accepts_a_live_stateid() {
    let mut s = NfsServer::new_with_identity(1000, 1000);
    let resp = compound(&mut s, "t", vec![
        NfsOperation::Open(OpenOperation {
            seqid: 1,
            share_access: ACCESS4_READ,
            share_deny: 0,
            owner: vec![],
            open_claim: OpenClaim::Null("c.bin".to_string()),
        }),
    ]);
    let sid = result_stateid(&resp.results[0]);
    let resp = compound(&mut s, "t", vec![
        NfsOperation::OpenConfirm(OpenConfirmOperation { open_stateid: sid, seqid: 9 }),
    ]);
    assert_eq!(resp.status, NfsStatus::Success);
}

#[test]
fn access_reports_owner_bits() {
    let mut s = NfsServer::new_with_identity(1000, 1000);
    let resp = compound(&mut s, "t", vec![
        NfsOperation::GetFh(GetFhOperation),
        NfsOperation::Create(CreateOperation {
            object_type: NF4REG,
            object_name: "m.bin".to_string(),
            attributes: attrs(),
        }),
        NfsOperation::Access(AccessOperation { access: 0xFFFF_FFFF }),
    ]);
    assert_eq!(resp.status, NfsStatus::Success);
    match &resp.results[2].result {
        // Mode 644 grants its owner read and write.
        Some(OperationData::Access(a)) => {
            assert_eq!(*a, ACCESS4_READ | ACCESS4_MODIFY | ACCESS4_EXTEND)
        },
        other => panic!("expected access bits, got {:?}", other),
    }
}

#[test]
fn getattr_reports_size_and_owner() {
    let mut s = NfsServer::new_with_identity(1000, 1000);
    let resp = compound(&mut s, "t", vec![
        NfsOperation::Open(OpenOperation {
            seqid: 1,
            share_access: ACCESS4_READ | ACCESS4_MODIFY,
            share_deny: 0,
            owner: vec![],
            open_claim: OpenClaim::Null("sized.bin".to_string()),
        }),
    ]);
    let sid = result_stateid(&resp.results[0]);
    compound(&mut s, "t", vec![
        NfsOperation::Write(WriteOperation {
            stateid: sid,
            offset: 0,
            stable: 1,
            data: vec![0; 513],
        }),
    ]);
    let resp = compound(&mut s, "t", vec![
        NfsOperation::GetFh(GetFhOperation),
        NfsOperation::Lookup(LookupOperation { object_name: "sized.bin".to_string() }),
        NfsOperation::GetAttr(GetAttrOperation { attr_request: vec![] }),
    ]);
    assert_eq!(resp.status, NfsStatus::Success);
    match &resp.results[2].result {
        Some(OperationData::GetAttr(a)) => {
            assert_eq!(a.type_, NF4REG);
            assert_eq!(a.size, 513);
            assert_eq!(a.space_used, 1024);
            assert_eq!(a.owner, "1000");
            assert_eq!(a.group, "1000");
        },
        other => panic!("expected attributes, got {:?}", other),
    }
}

#[test]
fn lookupp_returns_to_the_parent_and_fails_at_the_root() {
    let mut s = NfsServer::new_with_identity(1000, 1000);
    let resp = compound(&mut s, "t", vec![
        NfsOperation::GetFh(GetFhOperation),
        NfsOperation::Create(CreateOperation {
            object_type: NF4DIR,
            object_name: "d".to_string(),
            attributes: attrs(),
        }),
        NfsOperation::Lookupp(LookuppOperation),
        NfsOperation::GetAttr(GetAttrOperation { attr_request: vec![] }),
    ]);
    assert_eq!(resp.status, NfsStatus::Success);
    match &resp.results[3].result {
        Some(OperationData::GetAttr(a)) => assert_eq!(a.type_, NF4DIR),
        other => panic!("expected attributes, got {:?}", other),
    }
    let resp = compound(&mut s, "t", vec![
        NfsOperation::GetFh(GetFhOperation),
        NfsOperation::Lookupp(LookuppOperation),
    ]);
    assert_eq!(resp.status, NfsStatus::NoEnt);
}

#[test]
fn commit_succeeds_on_a_live_object() {
    let mut s = NfsServer::new_with_identity(1000, 1000);
    let resp = compound(&mut s, "t", vec![
        NfsOperation::GetFh(GetFhOperation),
        NfsOperation::Commit(CommitOperation { offset: 0, count: 0 }),
    ]);
    assert_eq!(resp.status, NfsStatus::Success);
}

#[test]
fn rpc_prog_mismatch_reply() {
    let mut s = NfsServer::new_with_identity(1000, 1000);
    let call = RpcMsg::new_call(11, 100003, 3, 1, vec![]);
    let reply = s.handle_rpc_message(&call).unwrap();
    assert_eq!(reply.xid, 11);
    match reply.body {
        RpcMsgBody::Reply(r) => match r.data {
            ReplyData::Accepted(a) => {
                assert_eq!(a.stat, PROG_MISMATCH);
                assert!(a.data.is_empty());
            },
            _ => panic!("expected an accepted reply"),
        },
        _ => panic!("expected a reply"),
    }
}

#[test]
fn rpc_null_and_garbage_and_compound() {
    let mut s = NfsServer::new_with_identity(1000, 1000);

    let null_call = RpcMsg::new_call(1, 100003, 4, 0, vec![]);
    let reply = s.handle_rpc_message(&null_call).unwrap();
    match reply.body {
        RpcMsgBody::Reply(r) => match r.data {
            ReplyData::Accepted(a) => {
                assert_eq!(a.stat, SUCCESS);
                assert!(a.data.is_empty());
            },
            _ => panic!("expected an accepted reply"),
        },
        _ => panic!("expected a reply"),
    }

    let garbage_call = RpcMsg::new_call(2, 100003, 4, 1, vec![1, 2]);
    let reply = s.handle_rpc_message(&garbage_call).unwrap();
    match reply.body {
        RpcMsgBody::Reply(r) => match r.data {
            ReplyData::Accepted(a) => assert_eq!(a.stat, GARBAGE_ARGS),
            _ => panic!("expected an accepted reply"),
        },
        _ => panic!("expected a reply"),
    }

    let req = CompoundRequest {
        tag: "t9".to_string(),
        minor_version: 0,
        operations: vec![NfsOperation::GetFh(GetFhOperation)],
    };
    let payload = encode_compound_request(&req).unwrap();
    let call = RpcMsg::new_call(3, 100003, 4, 1, payload);
    let reply = s.handle_rpc_message(&call).unwrap();
    match reply.body {
        RpcMsgBody::Reply(r) => match r.data {
            ReplyData::Accepted(a) => {
                assert_eq!(a.stat, SUCCESS);
                let resp = decode_compound_response(&a.data).unwrap();
                assert_eq!(resp.tag, "t9");
                assert_eq!(resp.status, NfsStatus::Success);
                assert_eq!(resp.results.len(), 1);
            },
            _ => panic!("expected an accepted reply"),
        },
        _ => panic!("expected a reply"),
    }
}

#[test]
fn read_and_write_respect_the_open_mode() {
    let mut s = NfsServer::new_with_identity(1000, 1000);
    let resp = compound(&mut s, "ro", vec![
        NfsOperation::Open(OpenOperation {
            seqid: 1,
            share_access: ACCESS4_READ,
            share_deny: 0,
            owner: vec![],
            open_claim: OpenClaim::Null("ro.bin".to_string()),
        }),
    ]);
    let ro = result_stateid(&resp.results[0]);
    let resp = compound(&mut s, "w", vec![
        NfsOperation::Write(WriteOperation { stateid: ro, offset: 0, stable: 0, data: vec![1] }),
    ]);
    // The descriptor was not opened for writing.
    assert_eq!(resp.status, NfsStatus::IoError);

    let resp = compound(&mut s, "wo", vec![
        NfsOperation::Open(OpenOperation {
            seqid: 2,
            share_access: ACCESS4_MODIFY | ACCESS4_EXTEND,
            share_deny: 0,
            owner: vec![],
            open_claim: OpenClaim::Null("wo.bin".to_string()),
        }),
    ]);
    let wo = result_stateid(&resp.results[0]);
    let resp = compound(&mut s, "r", vec![
        NfsOperation::Read(ReadOperation { stateid: wo, offset: 0, count: 1 }),
    ]);
    // The descriptor was not opened for reading.
    assert_eq!(resp.status, NfsStatus::IoError);
}

#[test]
fn unsupported_minor_version_is_refused_whole() {
    let mut s = NfsServer::new_with_identity(1000, 1000);
    let resp = s.handle_compound(CompoundRequest {
        tag: "v1".to_string(),
        minor_version: 1,
        operations: vec![NfsOperation::GetFh(GetFhOperation)],
    });
    assert_eq!(resp.tag, "v1");
    assert_eq!(resp.status, NfsStatus::Error);
    assert!(resp.results.is_empty());
    // Nothing ran: the export root handle was never issued.
    let resp = compound(&mut s, "t", vec![
        NfsOperation::GetFh(GetFhOperation),
    ]);
    assert_eq!(resp.status, NfsStatus::Success);
}

#[test]
fn filesystem_effects_are_recorded_for_replay() {
    let mut s = NfsServer::new_with_identity(1000, 1000);
    let resp = compound(&mut s, "t", vec![
        NfsOperation::GetFh(GetFhOperation),
        NfsOperation::Create(CreateOperation {
            object_type: NF4REG,
            object_name: "log.bin".to_string(),
            attributes: attrs(),
        }),
        NfsOperation::Open(OpenOperation {
            seqid: 1,
            share_access: ACCESS4_READ | ACCESS4_MODIFY,
            share_deny: 0,
            owner: vec![],
            open_claim: OpenClaim::Null("log.bin".to_string()),
        }),
    ]);
    assert_eq!(resp.status, NfsStatus::Success);
    let sid = result_stateid(&resp.results[2]);
    let resp = compound(&mut s, "t", vec![
        NfsOperation::Write(WriteOperation { stateid: sid, offset: 0, stable: 1, data: vec![7] }),
        NfsOperation::Commit(CommitOperation { offset: 0, count: 0 }),
    ]);
    // COMMIT without a cursor fails; only the write is recorded after
    // the create.
    assert_eq!(resp.results[0].status, NfsStatus::Success);
    let actions = s.take_actions();
    assert_eq!(actions.len(), 2);
    match &actions[0] {
        FsAction::CreateFile(p) => assert_eq!(p, &vec!["log.bin".to_string()]),
        other => panic!("expected a create, got {:?}", other),
    }
    match &actions[1] {
        FsAction::WriteFile(p, offset, data, stable) => {
            assert_eq!(p, &vec!["log.bin".to_string()]);
            assert_eq!(*offset, 0);
            assert_eq!(data, &vec![7]);
            assert!(*stable);
        },
        other => panic!("expected a write, got {:?}", other),
    }
    // Draining leaves nothing behind.
    assert!(s.take_actions().is_empty());
}

#[test]
fn preloaded_objects_are_visible() {
    let mut s = NfsServer::new_with_identity(1000, 1000);
    assert!(s.preload_node(vec!["seed.bin".to_string()], false, 0o644, vec![1, 2, 3]));
    let resp = compound(&mut s, "t", vec![
        NfsOperation::GetFh(GetFhOperation),
        NfsOperation::Lookup(LookupOperation { object_name: "seed.bin".to_string() }),
        NfsOperation::GetAttr(GetAttrOperation { attr_request: vec![] }),
    ]);
    assert_eq!(resp.status, NfsStatus::Success);
    match &resp.results[2].result {
        Some(OperationData::GetAttr(a)) => {
            assert_eq!(a.type_, NF4REG);
            assert_eq!(a.size, 3);
        },
        other => panic!("expected attributes, got {:?}", other),
    }
    // A traversal name never enters the model.
    assert!(!s.preload_node(vec!["..".to_string()], true, 0o755, vec![]));
}
