//! Round trips and failure cases of the XDR codec.

use nfs4::codec::{
    decode_compound_request, decode_compound_response, encode_compound_request,
    encode_compound_response,
};
use nfs4::protocol::{
    AccessOperation, CloseOperation, CommitOperation, CompoundRequest, CompoundResponse,
    CreateOperation, GetAttrOperation, GetFhOperation, LookupOperation, LookuppOperation,
    NfsFileAttributes, NfsFileHandle, NfsOperation, NfsStatus, NfsTime, OpenClaim, OpenOperation,
    OpenConfirmOperation, OperationData, OperationResult, ReadOperation, WriteOperation, NF4REG,
};
use nfs4::xdr::{
    decode_opaque, decode_string, decode_u32, decode_u64, encode_opaque, encode_string,
    encode_u32, encode_u64,
};

fn attrs() -> NfsFileAttributes {
    NfsFileAttributes {
        type_: NF4REG,
        mode: 0o644,
        size: 4,
        space_used: 512,
        time_access: NfsTime { seconds: 5, nseconds: 6 },
        time_modify: NfsTime { seconds: 7, nseconds: 8 },
        owner: "1000".to_string(),
        group: "1000".to_string(),
    }
}

#[test]
fn u32_exact_bytes() {
    let mut out = Vec::new();
    encode_u32(&mut out, 0x01020304);
    assert_eq!(out, vec![1, 2, 3, 4]);
    let (v, end) = decode_u32(&out, 0).unwrap();
    assert_eq!(v, 0x01020304);
    assert_eq!(end, 4);
}

#[test]
fn u64_round_trip() {
    let mut out = Vec::new();
    encode_u64(&mut out, 0x1122334455667788);
    assert_eq!(out, vec![0x11, 0x22, 0x33, 0x44, 0x55, 0x66, 0x77, 0x88]);
    let (v, end) = decode_u64(&out, 0).unwrap();
    assert_eq!(v, 0x1122334455667788);
    assert_eq!(end, 8);
}

#[test]
fn u32_truncated_fails() {
    let buf = vec![1, 2, 3];
    assert!(decode_u32(&buf, 0).is_err());
}

#[test]
fn opaque_padding() {
    let mut out = Vec::new();
    encode_opaque(&mut out, &[0xAA, 0xBB, 0xCC]);
    assert_eq!(out, vec![0, 0, 0, 3, 0xAA, 0xBB, 0xCC, 0]);
    let (v, end) = decode_opaque(&out, 0).unwrap();
    assert_eq!(v, vec![0xAA, 0xBB, 0xCC]);
    assert_eq!(end, 8);
}

#[test]
fn opaque_overrun_fails() {
    // Declares eight bytes but carries three.
    let buf = vec![0, 0, 0, 8, 1, 2, 3];
    assert!(decode_opaque(&buf, 0).is_err());
}

#[test]
fn string_round_trip() {
    let mut out = Vec::new();
    encode_string(&mut out, "hi");
    assert_eq!(out, vec![0, 0, 0, 2, b'h', b'i', 0, 0]);
    let (s, end) = decode_string(&out, 0).unwrap();
    assert_eq!(s, "hi");
    assert_eq!(end, 8);
}

#[test]
fn string_rejects_bad_utf8() {
    let buf = vec![0, 0, 0, 2, 0xFF, 0xFE, 0, 0];
    assert!(decode_string(&buf, 0).is_err());
}

#[test]
fn request_round_trip_all_operations() {
    let req = CompoundRequest {
        tag: "all-ops".to_string(),
        minor_version: 0,
        operations: vec![
            NfsOperation::Access(AccessOperation { access: 0x3F }),
            NfsOperation::Close(CloseOperation { seqid: 1, open_stateid: [9u8; 16] }),
            NfsOperation::Commit(CommitOperation { offset: 10, count: 20 }),
            NfsOperation::Create(CreateOperation {
                object_type: NF4REG,
                object_name: "a.bin".to_string(),
                attributes: attrs(),
            }),
            NfsOperation::GetAttr(GetAttrOperation { attr_request: vec![1, 2, 3] }),
            NfsOperation::GetFh(GetFhOperation),
            NfsOperation::Lookup(LookupOperation { object_name: "a.bin".to_string() }),
            NfsOperation::Lookupp(LookuppOperation),
            NfsOperation::Open(OpenOperation {
                seqid: 1,
                share_access: 3,
                share_deny: 0,
                owner: vec![1, 2],
                open_claim: OpenClaim::Null("a.bin".to_string()),
            }),
            NfsOperation::OpenConfirm(OpenConfirmOperation {
                open_stateid: [7u8; 16],
                seqid: 2,
            }),
            NfsOperation::Read(ReadOperation { stateid: [7u8; 16], offset: 0, count: 4 }),
            NfsOperation::Write(WriteOperation {
                stateid: [7u8; 16],
                offset: 0,
                stable: 1,
                data: vec![0xDE, 0xAD, 0xBE, 0xEF],
            }),
        ],
    };
    let bytes = encode_compound_request(&req).unwrap();
    let back = decode_compound_request(&bytes).unwrap();
    assert_eq!(back, req);
}

#[test]
fn response_round_trip_all_results() {
    let resp = CompoundResponse {
        tag: "t".to_string(),
        status: NfsStatus::Success,
        results: vec![
            OperationResult { status: NfsStatus::Success, result: Some(OperationData::Access(5)) },
            OperationResult {
                status: NfsStatus::Success,
                result: Some(OperationData::GetAttr(attrs())),
            },
            OperationResult {
                status: NfsStatus::Success,
                result: Some(OperationData::GetFh(NfsFileHandle { data: vec![1u8; 16] })),
            },
            OperationResult {
                status: NfsStatus::Success,
                result: Some(OperationData::Read(vec![1, 2, 3])),
            },
            OperationResult { status: NfsStatus::Success, result: Some(OperationData::Write(3)) },
            OperationResult {
                status: NfsStatus::Success,
                result: Some(OperationData::Open([3u8; 16])),
            },
            OperationResult { status: NfsStatus::NoEnt, result: None },
        ],
    };
    let bytes = encode_compound_response(&resp).unwrap();
    let back = decode_compound_response(&bytes).unwrap();
    assert_eq!(back, resp);
}

#[test]
fn response_statuses_round_trip() {
    for status in [
        NfsStatus::Success,
        NfsStatus::Error,
        NfsStatus::BadHandle,
        NfsStatus::BadType,
        NfsStatus::NoEnt,
        NfsStatus::IoError,
        NfsStatus::NoSpace,
        NfsStatus::BadName,
        NfsStatus::RoFs,
        NfsStatus::StaleFileHandle,
        NfsStatus::BadStateid,
        NfsStatus::BadSeqid,
    ] {
        let resp = CompoundResponse {
            tag: String::new(),
            status,
            results: vec![OperationResult { status, result: None }],
        };
        let bytes = encode_compound_response(&resp).unwrap();
        let back = decode_compound_response(&bytes).unwrap();
        assert_eq!(back, resp);
    }
}

#[test]
fn request_unknown_operation_tag_fails() {
    let req =
        CompoundRequest { tag: String::new(), minor_version: 0, operations: vec![] };
    let mut bytes = encode_compound_request(&req).unwrap();
    // One operation with discriminant 99.
    let count_at = bytes.len() - 4;
    bytes[count_at + 3] = 1;
    bytes.extend_from_slice(&[0, 0, 0, 99]);
    assert!(decode_compound_request(&bytes).is_err());
}

#[test]
fn response_unknown_status_code_fails() {
    let resp = CompoundResponse { tag: String::new(), status: NfsStatus::Success, results: vec![] };
    let mut bytes = encode_compound_response(&resp).unwrap();
    // The status word follows the empty tag; 77 names no status.
    bytes[7] = 77;
    assert!(decode_compound_response(&bytes).is_err());
}

#[test]
fn oversized_filehandle_rejected() {
    let resp = CompoundResponse {
        tag: String::new(),
        status: NfsStatus::Success,
        results: vec![OperationResult {
            status: NfsStatus::Success,
            result: Some(OperationData::GetFh(NfsFileHandle { data: vec![0u8; 129] })),
        }],
    };
    assert!(encode_compound_response(&resp).is_err());
}
