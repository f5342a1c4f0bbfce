//! The XDR codec for the NFSv4 schema: COMPOUND requests and responses.
//!
//! For every schema type there is a specification encoder over the ghost
//! mirror, a specification decoder, and a round-trip lemma: decoding an
//! encoding yields the value back with the trailing bytes untouched, for
//! every well-formed value. The executable encoder and decoder are
//! proved to agree with the specification functions exactly.

use vstd::prelude::*;
use vstd::assert_seqs_equal;
use vstd::utf8::encode_utf8;
use crate::protocol::{
    AccessOperation, CloseOperation, CloseOperationV, CommitOperation, CompoundRequest,
    CompoundRequestV, CompoundResponse, CompoundResponseV, CreateOperation, CreateOperationV,
    GetAttrOperation, GetAttrOperationV, GetFhOperation, LookupOperation, LookupOperationV,
    LookuppOperation, NfsFileAttributes, NfsFileAttributesV, NfsFileHandle, NfsOperation,
    NfsOperationV, NfsStatus, NfsTime, OpenClaim, OpenClaimV, OpenConfirmOperation,
    OpenConfirmOperationV, OpenOperation, OpenOperationV, OperationData, OperationDataV,
    OperationResult, OperationResultV, ReadOperation, ReadOperationV, WriteOperation,
    WriteOperationV, spec_status_code, spec_status_from_code, lemma_status_code_round_trip,
    status_code, status_from_code, MAX_FILEHANDLE_LEN,
};
use crate::xdr::{
    XdrError, enc_u32, enc_u64, enc_opaque, enc_string, dec_u32, dec_u64, dec_opaque, dec_string,
    dec_fixed, lemma_rt_u32, lemma_rt_u64, lemma_rt_opaque, lemma_rt_string, lemma_rt_fixed,
    seq_assoc, encode_u32, encode_u64, encode_opaque, encode_string, encode_bytes16, decode_u32,
    decode_u64, decode_opaque, decode_string, decode_bytes16,
};

verus! {

// ---------------------------------------------------------------------------
// Well-formedness: what must hold of a value for it to fit the wire
// ---------------------------------------------------------------------------

/// A string field fits the wire when its UTF-8 byte count fits the
/// 32-bit length prefix.
pub open spec fn wf_string(s: Seq<char>) -> bool {
    encode_utf8(s).len() <= u32::MAX
}

pub open spec fn wf_attrs(a: NfsFileAttributesV) -> bool {
    wf_string(a.owner) && wf_string(a.group)
}

pub open spec fn wf_claim(c: OpenClaimV) -> bool {
    match c {
        OpenClaimV::Null(p) => wf_string(p),
        OpenClaimV::Previous(p) => wf_string(p),
        OpenClaimV::Delegate(p) => wf_string(p),
    }
}

pub open spec fn wf_op(op: NfsOperationV) -> bool {
    match op {
        NfsOperationV::Access(_) => true,
        NfsOperationV::Close(a) => a.open_stateid.len() == 16,
        NfsOperationV::Commit(_) => true,
        NfsOperationV::Create(a) => wf_string(a.object_name) && wf_attrs(a.attributes),
        NfsOperationV::GetAttr(a) => a.attr_request.len() <= u32::MAX,
        NfsOperationV::GetFh(_) => true,
        NfsOperationV::Lookup(a) => wf_string(a.object_name),
        NfsOperationV::Lookupp(_) => true,
        NfsOperationV::Open(a) => a.owner.len() <= u32::MAX && wf_claim(a.open_claim),
        NfsOperationV::OpenConfirm(a) => a.open_stateid.len() == 16,
        NfsOperationV::Read(a) => a.stateid.len() == 16,
        NfsOperationV::Write(a) => a.stateid.len() == 16 && a.data.len() <= u32::MAX,
    }
}

pub open spec fn wf_req(r: CompoundRequestV) -> bool {
    &&& wf_string(r.tag)
    &&& r.operations.len() <= u32::MAX
    &&& forall|i: int| 0 <= i < r.operations.len() ==> wf_op(#[trigger] r.operations[i])
}

pub open spec fn wf_opdata(d: OperationDataV) -> bool {
    match d {
        OperationDataV::Access(_) => true,
        OperationDataV::GetAttr(a) => wf_attrs(a),
        OperationDataV::GetFh(h) => h.len() <= MAX_FILEHANDLE_LEN,
        OperationDataV::Read(b) => b.len() <= u32::MAX,
        OperationDataV::Write(_) => true,
        OperationDataV::Open(s) => s.len() == 16,
    }
}

pub open spec fn wf_result(r: OperationResultV) -> bool {
    match r.result {
        None => true,
        Some(d) => wf_opdata(d),
    }
}

pub open spec fn wf_resp(r: CompoundResponseV) -> bool {
    &&& wf_string(r.tag)
    &&& r.results.len() <= u32::MAX
    &&& forall|i: int| 0 <= i < r.results.len() ==> wf_result(#[trigger] r.results[i])
}

// ---------------------------------------------------------------------------
// Specification encoders
// ---------------------------------------------------------------------------

pub open spec fn enc_time(t: NfsTime) -> Seq<u8> {
    enc_u64(t.seconds) + enc_u32(t.nseconds)
}

pub open spec fn enc_attrs(a: NfsFileAttributesV) -> Seq<u8> {
    enc_u32(a.type_) + enc_u32(a.mode) + enc_u64(a.size) + enc_u64(a.space_used) + enc_time(
        a.time_access,
    ) + enc_time(a.time_modify) + enc_string(a.owner) + enc_string(a.group)
}

/// The elements of a 32-bit integer array, without the count prefix.
pub open spec fn enc_u32s(s: Seq<u32>) -> Seq<u8>
    decreases s.len(),
{
    if s.len() == 0 {
        Seq::<u8>::empty()
    } else {
        enc_u32(s[0]) + enc_u32s(s.drop_first())
    }
}

pub open spec fn claim_tag(c: OpenClaimV) -> u32 {
    match c {
        OpenClaimV::Null(_) => 0,
        OpenClaimV::Previous(_) => 1,
        OpenClaimV::Delegate(_) => 2,
    }
}

pub open spec fn enc_claim(c: OpenClaimV) -> Seq<u8> {
    enc_u32(claim_tag(c)) + match c {
        OpenClaimV::Null(p) => enc_string(p),
        OpenClaimV::Previous(p) => enc_string(p),
        OpenClaimV::Delegate(p) => enc_string(p),
    }
}

pub open spec fn op_tag(op: NfsOperationV) -> u32 {
    match op {
        NfsOperationV::Access(_) => 0,
        NfsOperationV::Close(_) => 1,
        NfsOperationV::Commit(_) => 2,
        NfsOperationV::Create(_) => 3,
        NfsOperationV::GetAttr(_) => 4,
        NfsOperationV::GetFh(_) => 5,
        NfsOperationV::Lookup(_) => 6,
        NfsOperationV::Lookupp(_) => 7,
        NfsOperationV::Open(_) => 8,
        NfsOperationV::OpenConfirm(_) => 9,
        NfsOperationV::Read(_) => 10,
        NfsOperationV::Write(_) => 11,
    }
}

pub open spec fn enc_op_body(op: NfsOperationV) -> Seq<u8> {
    match op {
        NfsOperationV::Access(a) => enc_u32(a.access),
        NfsOperationV::Close(a) => enc_u32(a.seqid) + a.open_stateid,
        NfsOperationV::Commit(a) => enc_u64(a.offset) + enc_u32(a.count),
        NfsOperationV::Create(a) => enc_u32(a.object_type) + enc_string(a.object_name) + enc_attrs(
            a.attributes,
        ),
        NfsOperationV::GetAttr(a) => enc_u32(a.attr_request.len() as u32) + enc_u32s(
            a.attr_request,
        ),
        NfsOperationV::GetFh(_) => Seq::<u8>::empty(),
        NfsOperationV::Lookup(a) => enc_string(a.object_name),
        NfsOperationV::Lookupp(_) => Seq::<u8>::empty(),
        NfsOperationV::Open(a) => enc_u32(a.seqid) + enc_u32(a.share_access) + enc_u32(
            a.share_deny,
        ) + enc_opaque(a.owner) + enc_claim(a.open_claim),
        NfsOperationV::OpenConfirm(a) => a.open_stateid + enc_u32(a.seqid),
        NfsOperationV::Read(a) => a.stateid + enc_u64(a.offset) + enc_u32(a.count),
        NfsOperationV::Write(a) => a.stateid + enc_u64(a.offset) + enc_u32(a.stable) + enc_opaque(
            a.data,
        ),
    }
}

pub open spec fn enc_op(op: NfsOperationV) -> Seq<u8> {
    enc_u32(op_tag(op)) + enc_op_body(op)
}

pub open spec fn enc_ops(s: Seq<NfsOperationV>) -> Seq<u8>
    decreases s.len(),
{
    if s.len() == 0 {
        Seq::<u8>::empty()
    } else {
        enc_op(s[0]) + enc_ops(s.drop_first())
    }
}

pub open spec fn enc_req(r: CompoundRequestV) -> Seq<u8> {
    enc_string(r.tag) + enc_u32(r.minor_version) + enc_u32(r.operations.len() as u32) + enc_ops(
        r.operations,
    )
}

pub open spec fn opdata_tag(d: OperationDataV) -> u32 {
    match d {
        OperationDataV::Access(_) => 0,
        OperationDataV::GetAttr(_) => 1,
        OperationDataV::GetFh(_) => 2,
        OperationDataV::Read(_) => 3,
        OperationDataV::Write(_) => 4,
        OperationDataV::Open(_) => 5,
    }
}

pub open spec fn enc_opdata(d: OperationDataV) -> Seq<u8> {
    enc_u32(opdata_tag(d)) + match d {
        OperationDataV::Access(a) => enc_u32(a),
        OperationDataV::GetAttr(a) => enc_attrs(a),
        OperationDataV::GetFh(h) => enc_opaque(h),
        OperationDataV::Read(b) => enc_opaque(b),
        OperationDataV::Write(n) => enc_u32(n),
        OperationDataV::Open(s) => s,
    }
}

pub open spec fn enc_result(r: OperationResultV) -> Seq<u8> {
    enc_u32(spec_status_code(r.status)) + match r.result {
        None => enc_u32(0),
        Some(d) => enc_u32(1) + enc_opdata(d),
    }
}

pub open spec fn enc_results(s: Seq<OperationResultV>) -> Seq<u8>
    decreases s.len(),
{
    if s.len() == 0 {
        Seq::<u8>::empty()
    } else {
        enc_result(s[0]) + enc_results(s.drop_first())
    }
}

pub open spec fn enc_resp(r: CompoundResponseV) -> Seq<u8> {
    enc_string(r.tag) + enc_u32(spec_status_code(r.status)) + enc_u32(r.results.len() as u32)
        + enc_results(r.results)
}

// ---------------------------------------------------------------------------
// Specification decoders
// ---------------------------------------------------------------------------

pub open spec fn dec_time(s: Seq<u8>) -> Option<(NfsTime, Seq<u8>)> {
    match dec_u64(s) {
        None => None,
        Some((seconds, r)) => match dec_u32(r) {
            None => None,
            Some((nseconds, r2)) => Some((NfsTime { seconds, nseconds }, r2)),
        },
    }
}

pub open spec fn dec_attrs(s: Seq<u8>) -> Option<(NfsFileAttributesV, Seq<u8>)> {
    match dec_u32(s) {
        None => None,
        Some((type_, r1)) => match dec_u32(r1) {
            None => None,
            Some((mode, r2)) => match dec_u64(r2) {
                None => None,
                Some((size, r3)) => match dec_u64(r3) {
                    None => None,
                    Some((space_used, r4)) => match dec_time(r4) {
                        None => None,
                        Some((time_access, r5)) => match dec_time(r5) {
                            None => None,
                            Some((time_modify, r6)) => match dec_string(r6) {
                                None => None,
                                Some((owner, r7)) => match dec_string(r7) {
                                    None => None,
                                    Some((group, r8)) => Some(
                                        (
                                            NfsFileAttributesV {
                                                type_,
                                                mode,
                                                size,
                                                space_used,
                                                time_access,
                                                time_modify,
                                                owner,
                                                group,
                                            },
                                            r8,
                                        ),
                                    ),
                                },
                            },
                        },
                    },
                },
            },
        },
    }
}

pub open spec fn dec_u32s(s: Seq<u8>, n: nat) -> Option<(Seq<u32>, Seq<u8>)>
    decreases n,
{
    if n == 0 {
        Some((Seq::<u32>::empty(), s))
    } else {
        match dec_u32(s) {
            None => None,
            Some((x, r)) => match dec_u32s(r, (n - 1) as nat) {
                None => None,
                Some((xs, r2)) => Some((seq![x] + xs, r2)),
            },
        }
    }
}

pub open spec fn dec_claim(s: Seq<u8>) -> Option<(OpenClaimV, Seq<u8>)> {
    match dec_u32(s) {
        None => None,
        Some((tag, r)) => match dec_string(r) {
            None => None,
            Some((p, r2)) => {
                if tag == 0 {
                    Some((OpenClaimV::Null(p), r2))
                } else if tag == 1 {
                    Some((OpenClaimV::Previous(p), r2))
                } else if tag == 2 {
                    Some((OpenClaimV::Delegate(p), r2))
                } else {
                    None
                }
            },
        },
    }
}

pub open spec fn dec_op_access(r: Seq<u8>) -> Option<(NfsOperationV, Seq<u8>)> {
    match dec_u32(r) {
        None => None,
        Some((access, r2)) => Some((NfsOperationV::Access(AccessOperation { access }), r2)),
    }
}

pub open spec fn dec_op_close(r: Seq<u8>) -> Option<(NfsOperationV, Seq<u8>)> {
    match dec_u32(r) {
        None => None,
        Some((seqid, r2)) => match dec_fixed(r2, 16) {
            None => None,
            Some((open_stateid, r3)) => Some(
                (NfsOperationV::Close(CloseOperationV { seqid, open_stateid }), r3),
            ),
        },
    }
}

pub open spec fn dec_op_commit(r: Seq<u8>) -> Option<(NfsOperationV, Seq<u8>)> {
    match dec_u64(r) {
        None => None,
        Some((offset, r2)) => match dec_u32(r2) {
            None => None,
            Some((count, r3)) => Some((NfsOperationV::Commit(CommitOperation { offset, count }), r3)),
        },
    }
}

pub open spec fn dec_op_create(r: Seq<u8>) -> Option<(NfsOperationV, Seq<u8>)> {
    match dec_u32(r) {
        None => None,
        Some((object_type, r2)) => match dec_string(r2) {
            None => None,
            Some((object_name, r3)) => match dec_attrs(r3) {
                None => None,
                Some((attributes, r4)) => Some(
                    (
                        NfsOperationV::Create(
                            CreateOperationV { object_type, object_name, attributes },
                        ),
                        r4,
                    ),
                ),
            },
        },
    }
}

pub open spec fn dec_op_getattr(r: Seq<u8>) -> Option<(NfsOperationV, Seq<u8>)> {
    match dec_u32(r) {
        None => None,
        Some((n, r2)) => match dec_u32s(r2, n as nat) {
            None => None,
            Some((attr_request, r3)) => Some(
                (NfsOperationV::GetAttr(GetAttrOperationV { attr_request }), r3),
            ),
        },
    }
}

pub open spec fn dec_op_lookup(r: Seq<u8>) -> Option<(NfsOperationV, Seq<u8>)> {
    match dec_string(r) {
        None => None,
        Some((object_name, r2)) => Some(
            (NfsOperationV::Lookup(LookupOperationV { object_name }), r2),
        ),
    }
}

pub open spec fn dec_op_open(r: Seq<u8>) -> Option<(NfsOperationV, Seq<u8>)> {
    match dec_u32(r) {
        None => None,
        Some((seqid, r2)) => match dec_u32(r2) {
            None => None,
            Some((share_access, r3)) => match dec_u32(r3) {
                None => None,
                Some((share_deny, r4)) => match dec_opaque(r4) {
                    None => None,
                    Some((owner, r5)) => match dec_claim(r5) {
                        None => None,
                        Some((open_claim, r6)) => Some(
                            (
                                NfsOperationV::Open(
                                    OpenOperationV {
                                        seqid,
                                        share_access,
                                        share_deny,
                                        owner,
                                        open_claim,
                                    },
                                ),
                                r6,
                            ),
                        ),
                    },
                },
            },
        },
    }
}

pub open spec fn dec_op_confirm(r: Seq<u8>) -> Option<(NfsOperationV, Seq<u8>)> {
    match dec_fixed(r, 16) {
        None => None,
        Some((open_stateid, r2)) => match dec_u32(r2) {
            None => None,
            Some((seqid, r3)) => Some(
                (NfsOperationV::OpenConfirm(OpenConfirmOperationV { open_stateid, seqid }), r3),
            ),
        },
    }
}

pub open spec fn dec_op_read(r: Seq<u8>) -> Option<(NfsOperationV, Seq<u8>)> {
    match dec_fixed(r, 16) {
        None => None,
        Some((stateid, r2)) => match dec_u64(r2) {
            None => None,
            Some((offset, r3)) => match dec_u32(r3) {
                None => None,
                Some((count, r4)) => Some(
                    (NfsOperationV::Read(ReadOperationV { stateid, offset, count }), r4),
                ),
            },
        },
    }
}

pub open spec fn dec_op_write(r: Seq<u8>) -> Option<(NfsOperationV, Seq<u8>)> {
    match dec_fixed(r, 16) {
        None => None,
        Some((stateid, r2)) => match dec_u64(r2) {
            None => None,
            Some((offset, r3)) => match dec_u32(r3) {
                None => None,
                Some((stable, r4)) => match dec_opaque(r4) {
                    None => None,
                    Some((data, r5)) => Some(
                        (NfsOperationV::Write(WriteOperationV { stateid, offset, stable, data }), r5),
                    ),
                },
            },
        },
    }
}

pub open spec fn dec_op_arm(tag: u32, r: Seq<u8>) -> Option<(NfsOperationV, Seq<u8>)> {
    if tag == 0 {
        dec_op_access(r)
    } else if tag == 1 {
        dec_op_close(r)
    } else if tag == 2 {
        dec_op_commit(r)
    } else if tag == 3 {
        dec_op_create(r)
    } else if tag == 4 {
        dec_op_getattr(r)
    } else if tag == 5 {
        Some((NfsOperationV::GetFh(GetFhOperation), r))
    } else if tag == 6 {
        dec_op_lookup(r)
    } else if tag == 7 {
        Some((NfsOperationV::Lookupp(LookuppOperation), r))
    } else if tag == 8 {
        dec_op_open(r)
    } else if tag == 9 {
        dec_op_confirm(r)
    } else if tag == 10 {
        dec_op_read(r)
    } else if tag == 11 {
        dec_op_write(r)
    } else {
        None
    }
}

pub open spec fn dec_op(s: Seq<u8>) -> Option<(NfsOperationV, Seq<u8>)> {
    match dec_u32(s) {
        None => None,
        Some((tag, r)) => dec_op_arm(tag, r),
    }
}


pub open spec fn dec_ops(s: Seq<u8>, n: nat) -> Option<(Seq<NfsOperationV>, Seq<u8>)>
    decreases n,
{
    if n == 0 {
        Some((Seq::<NfsOperationV>::empty(), s))
    } else {
        match dec_op(s) {
            None => None,
            Some((op, r)) => match dec_ops(r, (n - 1) as nat) {
                None => None,
                Some((ops, r2)) => Some((seq![op] + ops, r2)),
            },
        }
    }
}

pub open spec fn dec_req(s: Seq<u8>) -> Option<(CompoundRequestV, Seq<u8>)> {
    match dec_string(s) {
        None => None,
        Some((tag, r1)) => match dec_u32(r1) {
            None => None,
            Some((minor_version, r2)) => match dec_u32(r2) {
                None => None,
                Some((n, r3)) => match dec_ops(r3, n as nat) {
                    None => None,
                    Some((operations, r4)) => Some(
                        (CompoundRequestV { tag, minor_version, operations }, r4),
                    ),
                },
            },
        },
    }
}

pub open spec fn dec_opdata(s: Seq<u8>) -> Option<(OperationDataV, Seq<u8>)> {
    match dec_u32(s) {
        None => None,
        Some((tag, r)) => {
            if tag == 0 {
                match dec_u32(r) {
                    None => None,
                    Some((a, r2)) => Some((OperationDataV::Access(a), r2)),
                }
            } else if tag == 1 {
                match dec_attrs(r) {
                    None => None,
                    Some((a, r2)) => Some((OperationDataV::GetAttr(a), r2)),
                }
            } else if tag == 2 {
                match dec_opaque(r) {
                    None => None,
                    Some((h, r2)) => {
                        if h.len() <= MAX_FILEHANDLE_LEN {
                            Some((OperationDataV::GetFh(h), r2))
                        } else {
                            None
                        }
                    },
                }
            } else if tag == 3 {
                match dec_opaque(r) {
                    None => None,
                    Some((b, r2)) => Some((OperationDataV::Read(b), r2)),
                }
            } else if tag == 4 {
                match dec_u32(r) {
                    None => None,
                    Some((n, r2)) => Some((OperationDataV::Write(n), r2)),
                }
            } else if tag == 5 {
                match dec_fixed(r, 16) {
                    None => None,
                    Some((sid, r2)) => Some((OperationDataV::Open(sid), r2)),
                }
            } else {
                None
            }
        },
    }
}

pub open spec fn dec_result(s: Seq<u8>) -> Option<(OperationResultV, Seq<u8>)> {
    match dec_u32(s) {
        None => None,
        Some((code, r1)) => match spec_status_from_code(code) {
            None => None,
            Some(status) => match dec_u32(r1) {
                None => None,
                Some((flag, r2)) => {
                    if flag == 0 {
                        Some((OperationResultV { status, result: None }, r2))
                    } else if flag == 1 {
                        match dec_opdata(r2) {
                            None => None,
                            Some((d, r3)) => Some(
                                (OperationResultV { status, result: Some(d) }, r3),
                            ),
                        }
                    } else {
                        None
                    }
                },
            },
        },
    }
}

pub open spec fn dec_results(s: Seq<u8>, n: nat) -> Option<(Seq<OperationResultV>, Seq<u8>)>
    decreases n,
{
    if n == 0 {
        Some((Seq::<OperationResultV>::empty(), s))
    } else {
        match dec_result(s) {
            None => None,
            Some((x, r)) => match dec_results(r, (n - 1) as nat) {
                None => None,
                Some((xs, r2)) => Some((seq![x] + xs, r2)),
            },
        }
    }
}

pub open spec fn dec_resp(s: Seq<u8>) -> Option<(CompoundResponseV, Seq<u8>)> {
    match dec_string(s) {
        None => None,
        Some((tag, r1)) => match dec_u32(r1) {
            None => None,
            Some((code, r2)) => match spec_status_from_code(code) {
                None => None,
                Some(status) => match dec_u32(r2) {
                    None => None,
                    Some((n, r3)) => match dec_results(r3, n as nat) {
                        None => None,
                        Some((results, r4)) => Some(
                            (CompoundResponseV { tag, status, results }, r4),
                        ),
                    },
                },
            },
        },
    }
}

// ---------------------------------------------------------------------------
// Round-trip lemmas
// ---------------------------------------------------------------------------

pub proof fn lemma_rt_time(t: NfsTime, rest: Seq<u8>)
    ensures
        dec_time(enc_time(t) + rest) == Some((t, rest)),
{
    let t1 = enc_u32(t.nseconds) + rest;
    assert_seqs_equal!(enc_time(t) + rest == enc_u64(t.seconds) + t1);
    lemma_rt_u64(t.seconds, t1);
    lemma_rt_u32(t.nseconds, rest);
}

#[verifier::rlimit(50)]
pub proof fn lemma_rt_attrs(a: NfsFileAttributesV, rest: Seq<u8>)
    requires
        wf_attrs(a),
    ensures
        dec_attrs(enc_attrs(a) + rest) == Some((a, rest)),
{
    let e1 = enc_u32(a.type_);
    let e2 = enc_u32(a.mode);
    let e3 = enc_u64(a.size);
    let e4 = enc_u64(a.space_used);
    let e5 = enc_time(a.time_access);
    let e6 = enc_time(a.time_modify);
    let e7 = enc_string(a.owner);
    let e8 = enc_string(a.group);
    let t7 = e8 + rest;
    let t6 = e7 + t7;
    let t5 = e6 + t6;
    let t4 = e5 + t5;
    let t3 = e4 + t4;
    let t2 = e3 + t3;
    let t1 = e2 + t2;
    seq_assoc(e1 + e2 + e3 + e4 + e5 + e6 + e7, e8, rest);
    seq_assoc(e1 + e2 + e3 + e4 + e5 + e6, e7, t7);
    seq_assoc(e1 + e2 + e3 + e4 + e5, e6, t6);
    seq_assoc(e1 + e2 + e3 + e4, e5, t5);
    seq_assoc(e1 + e2 + e3, e4, t4);
    seq_assoc(e1 + e2, e3, t3);
    seq_assoc(e1, e2, t2);
    assert(enc_attrs(a) + rest == e1 + t1);
    lemma_rt_u32(a.type_, t1);
    lemma_rt_u32(a.mode, t2);
    lemma_rt_u64(a.size, t3);
    lemma_rt_u64(a.space_used, t4);
    lemma_rt_time(a.time_access, t5);
    lemma_rt_time(a.time_modify, t6);
    lemma_rt_string(a.owner, t7);
    lemma_rt_string(a.group, rest);
}

pub proof fn lemma_rt_u32s(s: Seq<u32>, rest: Seq<u8>)
    ensures
        dec_u32s(enc_u32s(s) + rest, s.len()) == Some((s, rest)),
    decreases s.len(),
{
    if s.len() == 0 {
        assert_seqs_equal!(enc_u32s(s) + rest == rest);
        assert(s == Seq::<u32>::empty());
    } else {
        let tail = s.drop_first();
        assert_seqs_equal!(enc_u32s(s) + rest == enc_u32(s[0]) + (enc_u32s(tail) + rest));
        lemma_rt_u32(s[0], enc_u32s(tail) + rest);
        lemma_rt_u32s(tail, rest);
        assert_seqs_equal!(seq![s[0]] + tail == s);
    }
}

pub proof fn lemma_rt_claim(c: OpenClaimV, rest: Seq<u8>)
    requires
        wf_claim(c),
    ensures
        dec_claim(enc_claim(c) + rest) == Some((c, rest)),
{
    match c {
        OpenClaimV::Null(p) => {
            assert_seqs_equal!(enc_claim(c) + rest == enc_u32(0) + (enc_string(p) + rest));
            lemma_rt_u32(0, enc_string(p) + rest);
            lemma_rt_string(p, rest);
        },
        OpenClaimV::Previous(p) => {
            assert_seqs_equal!(enc_claim(c) + rest == enc_u32(1) + (enc_string(p) + rest));
            lemma_rt_u32(1, enc_string(p) + rest);
            lemma_rt_string(p, rest);
        },
        OpenClaimV::Delegate(p) => {
            assert_seqs_equal!(enc_claim(c) + rest == enc_u32(2) + (enc_string(p) + rest));
            lemma_rt_u32(2, enc_string(p) + rest);
            lemma_rt_string(p, rest);
        },
    }
}

proof fn lemma_rt_op_head(op: NfsOperationV, rest: Seq<u8>)
    ensures
        enc_op(op) + rest == enc_u32(op_tag(op)) + (enc_op_body(op) + rest),
        dec_u32(enc_u32(op_tag(op)) + (enc_op_body(op) + rest)) == Some(
            (op_tag(op), enc_op_body(op) + rest),
        ),
{
    assert_seqs_equal!(enc_op(op) + rest
        == enc_u32(op_tag(op)) + (enc_op_body(op) + rest));
    lemma_rt_u32(op_tag(op), enc_op_body(op) + rest);
}

proof fn lemma_rt_op_access(a: AccessOperation, rest: Seq<u8>)
    ensures
        dec_op(enc_op(NfsOperationV::Access(a)) + rest) == Some((NfsOperationV::Access(a), rest)),
{
    let op = NfsOperationV::Access(a);
    lemma_rt_op_head(op, rest);
    lemma_rt_u32(a.access, rest);
}

proof fn lemma_rt_op_close(a: CloseOperationV, rest: Seq<u8>)
    requires
        a.open_stateid.len() == 16,
    ensures
        dec_op(enc_op(NfsOperationV::Close(a)) + rest) == Some((NfsOperationV::Close(a), rest)),
{
    let op = NfsOperationV::Close(a);
    lemma_rt_op_head(op, rest);
    let t1 = a.open_stateid + rest;
    assert_seqs_equal!(enc_op_body(op) + rest == enc_u32(a.seqid) + t1);
    lemma_rt_u32(a.seqid, t1);
    lemma_rt_fixed(a.open_stateid, rest);
}

proof fn lemma_rt_op_commit(a: CommitOperation, rest: Seq<u8>)
    ensures
        dec_op(enc_op(NfsOperationV::Commit(a)) + rest) == Some((NfsOperationV::Commit(a), rest)),
{
    let op = NfsOperationV::Commit(a);
    lemma_rt_op_head(op, rest);
    let t1 = enc_u32(a.count) + rest;
    assert_seqs_equal!(enc_op_body(op) + rest == enc_u64(a.offset) + t1);
    lemma_rt_u64(a.offset, t1);
    lemma_rt_u32(a.count, rest);
}

proof fn lemma_rt_op_create(a: CreateOperationV, rest: Seq<u8>)
    requires
        wf_string(a.object_name),
        wf_attrs(a.attributes),
    ensures
        dec_op(enc_op(NfsOperationV::Create(a)) + rest) == Some((NfsOperationV::Create(a), rest)),
{
    let op = NfsOperationV::Create(a);
    lemma_rt_op_head(op, rest);
    let t2 = enc_attrs(a.attributes) + rest;
    let t1 = enc_string(a.object_name) + t2;
    assert_seqs_equal!(enc_op_body(op) + rest == enc_u32(a.object_type) + t1);
    lemma_rt_u32(a.object_type, t1);
    lemma_rt_string(a.object_name, t2);
    lemma_rt_attrs(a.attributes, rest);
}

proof fn lemma_rt_op_getattr(a: GetAttrOperationV, rest: Seq<u8>)
    requires
        a.attr_request.len() <= u32::MAX,
    ensures
        dec_op(enc_op(NfsOperationV::GetAttr(a)) + rest) == Some(
            (NfsOperationV::GetAttr(a), rest),
        ),
{
    let op = NfsOperationV::GetAttr(a);
    lemma_rt_op_head(op, rest);
    let t1 = enc_u32s(a.attr_request) + rest;
    assert_seqs_equal!(enc_op_body(op) + rest == enc_u32(a.attr_request.len() as u32) + t1);
    lemma_rt_u32(a.attr_request.len() as u32, t1);
    lemma_rt_u32s(a.attr_request, rest);
}

proof fn lemma_rt_op_getfh(rest: Seq<u8>)
    ensures
        dec_op(enc_op(NfsOperationV::GetFh(GetFhOperation)) + rest) == Some(
            (NfsOperationV::GetFh(GetFhOperation), rest),
        ),
{
    let op = NfsOperationV::GetFh(GetFhOperation);
    lemma_rt_op_head(op, rest);
    assert_seqs_equal!(enc_op_body(op) + rest == rest);
}

proof fn lemma_rt_op_lookup(a: LookupOperationV, rest: Seq<u8>)
    requires
        wf_string(a.object_name),
    ensures
        dec_op(enc_op(NfsOperationV::Lookup(a)) + rest) == Some((NfsOperationV::Lookup(a), rest)),
{
    let op = NfsOperationV::Lookup(a);
    lemma_rt_op_head(op, rest);
    assert_seqs_equal!(enc_op_body(op) + rest == enc_string(a.object_name) + rest);
    lemma_rt_string(a.object_name, rest);
}

proof fn lemma_rt_op_lookupp(rest: Seq<u8>)
    ensures
        dec_op(enc_op(NfsOperationV::Lookupp(LookuppOperation)) + rest) == Some(
            (NfsOperationV::Lookupp(LookuppOperation), rest),
        ),
{
    let op = NfsOperationV::Lookupp(LookuppOperation);
    lemma_rt_op_head(op, rest);
    assert_seqs_equal!(enc_op_body(op) + rest == rest);
}

proof fn lemma_rt_op_open(a: OpenOperationV, rest: Seq<u8>)
    requires
        a.owner.len() <= u32::MAX,
        wf_claim(a.open_claim),
    ensures
        dec_op(enc_op(NfsOperationV::Open(a)) + rest) == Some((NfsOperationV::Open(a), rest)),
{
    let op = NfsOperationV::Open(a);
    lemma_rt_op_head(op, rest);
    let e1 = enc_u32(a.seqid);
    let e2 = enc_u32(a.share_access);
    let e3 = enc_u32(a.share_deny);
    let e4 = enc_opaque(a.owner);
    let e5 = enc_claim(a.open_claim);
    let t4 = e5 + rest;
    let t3 = e4 + t4;
    let t2 = e3 + t3;
    let t1 = e2 + t2;
    seq_assoc(e1 + e2 + e3 + e4, e5, rest);
    seq_assoc(e1 + e2 + e3, e4, t4);
    seq_assoc(e1 + e2, e3, t3);
    seq_assoc(e1, e2, t2);
    assert(enc_op_body(op) + rest == e1 + t1);
    lemma_rt_u32(a.seqid, t1);
    lemma_rt_u32(a.share_access, t2);
    lemma_rt_u32(a.share_deny, t3);
    lemma_rt_opaque(a.owner, t4);
    lemma_rt_claim(a.open_claim, rest);
}

proof fn lemma_rt_op_open_confirm(a: OpenConfirmOperationV, rest: Seq<u8>)
    requires
        a.open_stateid.len() == 16,
    ensures
        dec_op(enc_op(NfsOperationV::OpenConfirm(a)) + rest) == Some(
            (NfsOperationV::OpenConfirm(a), rest),
        ),
{
    let op = NfsOperationV::OpenConfirm(a);
    lemma_rt_op_head(op, rest);
    let t1 = enc_u32(a.seqid) + rest;
    assert_seqs_equal!(enc_op_body(op) + rest == a.open_stateid + t1);
    lemma_rt_fixed(a.open_stateid, t1);
    lemma_rt_u32(a.seqid, rest);
}

proof fn lemma_rt_op_read(a: ReadOperationV, rest: Seq<u8>)
    requires
        a.stateid.len() == 16,
    ensures
        dec_op(enc_op(NfsOperationV::Read(a)) + rest) == Some((NfsOperationV::Read(a), rest)),
{
    let op = NfsOperationV::Read(a);
    lemma_rt_op_head(op, rest);
    let t2 = enc_u32(a.count) + rest;
    let t1 = enc_u64(a.offset) + t2;
    assert_seqs_equal!(enc_op_body(op) + rest == a.stateid + t1);
    lemma_rt_fixed(a.stateid, t1);
    lemma_rt_u64(a.offset, t2);
    lemma_rt_u32(a.count, rest);
}

proof fn lemma_rt_op_write(a: WriteOperationV, rest: Seq<u8>)
    requires
        a.stateid.len() == 16,
        a.data.len() <= u32::MAX,
    ensures
        dec_op(enc_op(NfsOperationV::Write(a)) + rest) == Some((NfsOperationV::Write(a), rest)),
{
    let op = NfsOperationV::Write(a);
    lemma_rt_op_head(op, rest);
    let e1 = a.stateid;
    let e2 = enc_u64(a.offset);
    let e3 = enc_u32(a.stable);
    let e4 = enc_opaque(a.data);
    let t3 = e4 + rest;
    let t2 = e3 + t3;
    let t1 = e2 + t2;
    seq_assoc(e1 + e2 + e3, e4, rest);
    seq_assoc(e1 + e2, e3, t3);
    seq_assoc(e1, e2, t2);
    assert(enc_op_body(op) + rest == e1 + t1);
    lemma_rt_fixed(a.stateid, t1);
    lemma_rt_u64(a.offset, t2);
    lemma_rt_u32(a.stable, t3);
    lemma_rt_opaque(a.data, rest);
}

pub proof fn lemma_rt_op(op: NfsOperationV, rest: Seq<u8>)
    requires
        wf_op(op),
    ensures
        dec_op(enc_op(op) + rest) == Some((op, rest)),
{
    match op {
        NfsOperationV::Access(a) => lemma_rt_op_access(a, rest),
        NfsOperationV::Close(a) => lemma_rt_op_close(a, rest),
        NfsOperationV::Commit(a) => lemma_rt_op_commit(a, rest),
        NfsOperationV::Create(a) => lemma_rt_op_create(a, rest),
        NfsOperationV::GetAttr(a) => lemma_rt_op_getattr(a, rest),
        NfsOperationV::GetFh(_) => lemma_rt_op_getfh(rest),
        NfsOperationV::Lookup(a) => lemma_rt_op_lookup(a, rest),
        NfsOperationV::Lookupp(_) => lemma_rt_op_lookupp(rest),
        NfsOperationV::Open(a) => lemma_rt_op_open(a, rest),
        NfsOperationV::OpenConfirm(a) => lemma_rt_op_open_confirm(a, rest),
        NfsOperationV::Read(a) => lemma_rt_op_read(a, rest),
        NfsOperationV::Write(a) => lemma_rt_op_write(a, rest),
    }
}


pub proof fn lemma_rt_ops(s: Seq<NfsOperationV>, rest: Seq<u8>)
    requires
        forall|i: int| 0 <= i < s.len() ==> wf_op(#[trigger] s[i]),
    ensures
        dec_ops(enc_ops(s) + rest, s.len()) == Some((s, rest)),
    decreases s.len(),
{
    if s.len() == 0 {
        assert_seqs_equal!(enc_ops(s) + rest == rest);
        assert(s == Seq::<NfsOperationV>::empty());
    } else {
        let tail = s.drop_first();
        assert_seqs_equal!(enc_ops(s) + rest == enc_op(s[0]) + (enc_ops(tail) + rest));
        lemma_rt_op(s[0], enc_ops(tail) + rest);
        lemma_rt_ops(tail, rest);
        assert_seqs_equal!(seq![s[0]] + tail == s);
    }
}

/// Decoding an encoded COMPOUND request yields the request back.
pub proof fn lemma_rt_req(r: CompoundRequestV, rest: Seq<u8>)
    requires
        wf_req(r),
    ensures
        dec_req(enc_req(r) + rest) == Some((r, rest)),
{
    let t3 = enc_ops(r.operations) + rest;
    let t2 = enc_u32(r.operations.len() as u32) + t3;
    let t1 = enc_u32(r.minor_version) + t2;
    assert_seqs_equal!(enc_req(r) + rest == enc_string(r.tag) + t1);
    lemma_rt_string(r.tag, t1);
    lemma_rt_u32(r.minor_version, t2);
    lemma_rt_u32(r.operations.len() as u32, t3);
    lemma_rt_ops(r.operations, rest);
}

pub proof fn lemma_rt_opdata(d: OperationDataV, rest: Seq<u8>)
    requires
        wf_opdata(d),
    ensures
        dec_opdata(enc_opdata(d) + rest) == Some((d, rest)),
{
    let body = match d {
        OperationDataV::Access(a) => enc_u32(a),
        OperationDataV::GetAttr(a) => enc_attrs(a),
        OperationDataV::GetFh(h) => enc_opaque(h),
        OperationDataV::Read(b) => enc_opaque(b),
        OperationDataV::Write(n) => enc_u32(n),
        OperationDataV::Open(s) => s,
    };
    assert_seqs_equal!(enc_opdata(d) + rest == enc_u32(opdata_tag(d)) + (body + rest));
    lemma_rt_u32(opdata_tag(d), body + rest);
    match d {
        OperationDataV::Access(a) => {
            lemma_rt_u32(a, rest);
        },
        OperationDataV::GetAttr(a) => {
            lemma_rt_attrs(a, rest);
        },
        OperationDataV::GetFh(h) => {
            lemma_rt_opaque(h, rest);
        },
        OperationDataV::Read(b) => {
            lemma_rt_opaque(b, rest);
        },
        OperationDataV::Write(n) => {
            lemma_rt_u32(n, rest);
        },
        OperationDataV::Open(s) => {
            lemma_rt_fixed(s, rest);
        },
    }
}

pub proof fn lemma_rt_result(r: OperationResultV, rest: Seq<u8>)
    requires
        wf_result(r),
    ensures
        dec_result(enc_result(r) + rest) == Some((r, rest)),
{
    lemma_status_code_round_trip(r.status);
    match r.result {
        None => {
            let t1 = enc_u32(0) + rest;
            assert_seqs_equal!(enc_result(r) + rest == enc_u32(spec_status_code(r.status)) + t1);
            lemma_rt_u32(spec_status_code(r.status), t1);
            lemma_rt_u32(0, rest);
        },
        Some(d) => {
            let t2 = enc_opdata(d) + rest;
            let t1 = enc_u32(1) + t2;
            assert_seqs_equal!(enc_result(r) + rest == enc_u32(spec_status_code(r.status)) + t1);
            lemma_rt_u32(spec_status_code(r.status), t1);
            lemma_rt_u32(1, t2);
            lemma_rt_opdata(d, rest);
        },
    }
}

pub proof fn lemma_rt_results(s: Seq<OperationResultV>, rest: Seq<u8>)
    requires
        forall|i: int| 0 <= i < s.len() ==> wf_result(#[trigger] s[i]),
    ensures
        dec_results(enc_results(s) + rest, s.len()) == Some((s, rest)),
    decreases s.len(),
{
    if s.len() == 0 {
        assert_seqs_equal!(enc_results(s) + rest == rest);
        assert(s == Seq::<OperationResultV>::empty());
    } else {
        let tail = s.drop_first();
        assert_seqs_equal!(enc_results(s) + rest == enc_result(s[0]) + (enc_results(tail) + rest));
        lemma_rt_result(s[0], enc_results(tail) + rest);
        lemma_rt_results(tail, rest);
        assert_seqs_equal!(seq![s[0]] + tail == s);
    }
}

/// Decoding an encoded COMPOUND response yields the response back.
pub proof fn lemma_rt_resp(r: CompoundResponseV, rest: Seq<u8>)
    requires
        wf_resp(r),
    ensures
        dec_resp(enc_resp(r) + rest) == Some((r, rest)),
{
    let t3 = enc_results(r.results) + rest;
    let t2 = enc_u32(r.results.len() as u32) + t3;
    let t1 = enc_u32(spec_status_code(r.status)) + t2;
    assert_seqs_equal!(enc_resp(r) + rest == enc_string(r.tag) + t1);
    lemma_rt_string(r.tag, t1);
    lemma_rt_u32(spec_status_code(r.status), t2);
    lemma_status_code_round_trip(r.status);
    lemma_rt_u32(r.results.len() as u32, t3);
    lemma_rt_results(r.results, rest);
}


// ---------------------------------------------------------------------------
// Appending an element to an encoded list appends its encoding
// ---------------------------------------------------------------------------

proof fn seq_add_empty<A>(a: Seq<A>)
    ensures
        a + Seq::<A>::empty() == a,
        Seq::<A>::empty() + a == a,
{
    assert_seqs_equal!(a + Seq::<A>::empty() == a);
    assert_seqs_equal!(Seq::<A>::empty() + a == a);
}

pub proof fn lemma_enc_u32s_snoc(s: Seq<u32>, x: u32)
    ensures
        enc_u32s(s.push(x)) == enc_u32s(s) + enc_u32(x),
    decreases s.len(),
{
    if s.len() == 0 {
        let p = s.push(x);
        assert(p[0] == x);
        assert_seqs_equal!(p.drop_first() == Seq::<u32>::empty());
        assert(enc_u32s(p) == enc_u32(x) + enc_u32s(Seq::<u32>::empty()));
        seq_add_empty(enc_u32(x));
    } else {
        assert_seqs_equal!(s.push(x).drop_first() == s.drop_first().push(x));
        lemma_enc_u32s_snoc(s.drop_first(), x);
        seq_assoc(enc_u32(s[0]), enc_u32s(s.drop_first()), enc_u32(x));
    }
}

pub proof fn lemma_enc_ops_snoc(s: Seq<NfsOperationV>, x: NfsOperationV)
    ensures
        enc_ops(s.push(x)) == enc_ops(s) + enc_op(x),
    decreases s.len(),
{
    if s.len() == 0 {
        let p = s.push(x);
        assert(p[0] == x);
        assert_seqs_equal!(p.drop_first() == Seq::<NfsOperationV>::empty());
        assert(enc_ops(p) == enc_op(x) + enc_ops(Seq::<NfsOperationV>::empty()));
        seq_add_empty(enc_op(x));
    } else {
        assert_seqs_equal!(s.push(x).drop_first() == s.drop_first().push(x));
        lemma_enc_ops_snoc(s.drop_first(), x);
        seq_assoc(enc_op(s[0]), enc_ops(s.drop_first()), enc_op(x));
    }
}

pub proof fn lemma_enc_results_snoc(s: Seq<OperationResultV>, x: OperationResultV)
    ensures
        enc_results(s.push(x)) == enc_results(s) + enc_result(x),
    decreases s.len(),
{
    if s.len() == 0 {
        let p = s.push(x);
        assert(p[0] == x);
        assert_seqs_equal!(p.drop_first() == Seq::<OperationResultV>::empty());
        assert(enc_results(p) == enc_result(x) + enc_results(Seq::<OperationResultV>::empty()));
        seq_add_empty(enc_result(x));
    } else {
        assert_seqs_equal!(s.push(x).drop_first() == s.drop_first().push(x));
        lemma_enc_results_snoc(s.drop_first(), x);
        seq_assoc(enc_result(s[0]), enc_results(s.drop_first()), enc_result(x));
    }
}

// ---------------------------------------------------------------------------
// Executable well-formedness checks
// ---------------------------------------------------------------------------

pub fn check_wf_string(s: &String) -> (r: bool)
    ensures
        r == wf_string(s@),
{
    s.as_str().as_bytes().len() <= u32::MAX as usize
}

pub fn check_wf_attrs(a: &NfsFileAttributes) -> (r: bool)
    ensures
        r == wf_attrs(a.deep_view()),
{
    check_wf_string(&a.owner) && check_wf_string(&a.group)
}

pub fn check_wf_claim(c: &OpenClaim) -> (r: bool)
    ensures
        r == wf_claim(c.deep_view()),
{
    match c {
        OpenClaim::Null(p) => check_wf_string(p),
        OpenClaim::Previous(p) => check_wf_string(p),
        OpenClaim::Delegate(p) => check_wf_string(p),
    }
}

pub fn check_wf_op(op: &NfsOperation) -> (r: bool)
    ensures
        r == wf_op(op.deep_view()),
{
    match op {
        NfsOperation::Access(_) => true,
        NfsOperation::Close(_) => true,
        NfsOperation::Commit(_) => true,
        NfsOperation::Create(a) => check_wf_string(&a.object_name) && check_wf_attrs(
            &a.attributes,
        ),
        NfsOperation::GetAttr(a) => a.attr_request.len() <= u32::MAX as usize,
        NfsOperation::GetFh(_) => true,
        NfsOperation::Lookup(a) => check_wf_string(&a.object_name),
        NfsOperation::Lookupp(_) => true,
        NfsOperation::Open(a) => a.owner.len() <= u32::MAX as usize && check_wf_claim(
            &a.open_claim,
        ),
        NfsOperation::OpenConfirm(_) => true,
        NfsOperation::Read(_) => true,
        NfsOperation::Write(a) => a.data.len() <= u32::MAX as usize,
    }
}

pub fn check_wf_req(r: &CompoundRequest) -> (b: bool)
    ensures
        b == wf_req(r.deep_view()),
{
    if !check_wf_string(&r.tag) {
        return false;
    }
    if r.operations.len() > u32::MAX as usize {
        return false;
    }
    let ghost dv = r.operations.deep_view();
    let mut i: usize = 0;
    while i < r.operations.len()
        invariant
            i <= r.operations@.len(),
            dv == r.operations.deep_view(),
            dv.len() == r.operations@.len(),
            forall|j: int| 0 <= j < i ==> wf_op(#[trigger] dv[j]),
        decreases r.operations@.len() - i,
    {
        proof {
            assert(dv[i as int] == r.operations@[i as int].deep_view());
        }
        if !check_wf_op(&r.operations[i]) {
            return false;
        }
        i = i + 1;
    }
    true
}

pub fn check_wf_opdata(d: &OperationData) -> (r: bool)
    ensures
        r == wf_opdata(d.deep_view()),
{
    match d {
        OperationData::Access(_) => true,
        OperationData::GetAttr(a) => check_wf_attrs(a),
        OperationData::GetFh(h) => h.data.len() <= MAX_FILEHANDLE_LEN,
        OperationData::Read(b) => b.len() <= u32::MAX as usize,
        OperationData::Write(_) => true,
        OperationData::Open(_) => true,
    }
}

pub fn check_wf_result(r: &OperationResult) -> (b: bool)
    ensures
        b == wf_result(r.deep_view()),
{
    match &r.result {
        None => true,
        Some(d) => check_wf_opdata(d),
    }
}

pub fn check_wf_resp(r: &CompoundResponse) -> (b: bool)
    ensures
        b == wf_resp(r.deep_view()),
{
    if !check_wf_string(&r.tag) {
        return false;
    }
    if r.results.len() > u32::MAX as usize {
        return false;
    }
    let ghost dv = r.results.deep_view();
    let mut i: usize = 0;
    while i < r.results.len()
        invariant
            i <= r.results@.len(),
            dv == r.results.deep_view(),
            dv.len() == r.results@.len(),
            forall|j: int| 0 <= j < i ==> wf_result(#[trigger] dv[j]),
        decreases r.results@.len() - i,
    {
        proof {
            assert(dv[i as int] == r.results@[i as int].deep_view());
        }
        if !check_wf_result(&r.results[i]) {
            return false;
        }
        i = i + 1;
    }
    true
}

// ---------------------------------------------------------------------------
// Executable encoders
// ---------------------------------------------------------------------------

pub fn encode_time(out: &mut Vec<u8>, t: &NfsTime)
    ensures
        final(out)@ == old(out)@ + enc_time(*t),
    {
    encode_u64(out, t.seconds);
    encode_u32(out, t.nseconds);
    proof {
        seq_assoc(old(out)@, enc_u64(t.seconds), enc_u32(t.nseconds));
    }
}

pub fn encode_attrs(out: &mut Vec<u8>, a: &NfsFileAttributes)
    requires
        wf_attrs(a.deep_view()),
    ensures
        final(out)@ == old(out)@ + enc_attrs(a.deep_view()),
{
    let ghost e1 = enc_u32(a.type_);
    let ghost e2 = enc_u32(a.mode);
    let ghost e3 = enc_u64(a.size);
    let ghost e4 = enc_u64(a.space_used);
    let ghost e5 = enc_time(a.time_access);
    let ghost e6 = enc_time(a.time_modify);
    let ghost e7 = enc_string(a.owner@);
    let ghost e8 = enc_string(a.group@);
    encode_u32(out, a.type_);
    encode_u32(out, a.mode);
    encode_u64(out, a.size);
    encode_u64(out, a.space_used);
    encode_time(out, &a.time_access);
    encode_time(out, &a.time_modify);
    encode_string(out, a.owner.as_str());
    encode_string(out, a.group.as_str());
    proof {
        seq_assoc(old(out)@, e1, e2);
        seq_assoc(old(out)@, e1 + e2, e3);
        seq_assoc(old(out)@, e1 + e2 + e3, e4);
        seq_assoc(old(out)@, e1 + e2 + e3 + e4, e5);
        seq_assoc(old(out)@, e1 + e2 + e3 + e4 + e5, e6);
        seq_assoc(old(out)@, e1 + e2 + e3 + e4 + e5 + e6, e7);
        seq_assoc(old(out)@, e1 + e2 + e3 + e4 + e5 + e6 + e7, e8);
    }
}

pub fn encode_u32_list(out: &mut Vec<u8>, v: &Vec<u32>)
    ensures
        final(out)@ == old(out)@ + enc_u32s(v@),
{
    let mut i: usize = 0;
    while i < v.len()
        invariant
            i <= v@.len(),
            out@ == old(out)@ + enc_u32s(v@.take(i as int)),
        decreases v@.len() - i,
    {
        let ghost pre = enc_u32s(v@.take(i as int));
        encode_u32(out, v[i]);
        proof {
            assert_seqs_equal!(v@.take(i + 1) == v@.take(i as int).push(v@[i as int]));
            lemma_enc_u32s_snoc(v@.take(i as int), v@[i as int]);
            seq_assoc(old(out)@, pre, enc_u32(v@[i as int]));
        }
        i = i + 1;
    }
    proof {
        assert(v@.take(v@.len() as int) == v@);
    }
}

pub fn encode_claim(out: &mut Vec<u8>, c: &OpenClaim)
    requires
        wf_claim(c.deep_view()),
    ensures
        final(out)@ == old(out)@ + enc_claim(c.deep_view()),
{
    match c {
        OpenClaim::Null(p) => {
            encode_u32(out, 0);
            encode_string(out, p.as_str());
            proof {
                seq_assoc(old(out)@, enc_u32(0), enc_string(p@));
            }
        },
        OpenClaim::Previous(p) => {
            encode_u32(out, 1);
            encode_string(out, p.as_str());
            proof {
                seq_assoc(old(out)@, enc_u32(1), enc_string(p@));
            }
        },
        OpenClaim::Delegate(p) => {
            encode_u32(out, 2);
            encode_string(out, p.as_str());
            proof {
                seq_assoc(old(out)@, enc_u32(2), enc_string(p@));
            }
        },
    }
}

pub fn encode_op(out: &mut Vec<u8>, op: &NfsOperation)
    requires
        wf_op(op.deep_view()),
    ensures
        final(out)@ == old(out)@ + enc_op(op.deep_view()),
{
    let ghost dv = op.deep_view();
    let ghost tag = enc_u32(op_tag(dv));
    match op {
        NfsOperation::Access(a) => {
            encode_u32(out, 0);
            encode_u32(out, a.access);
            proof {
                seq_assoc(old(out)@, tag, enc_u32(a.access));
            }
        },
        NfsOperation::Close(a) => {
            encode_u32(out, 1);
            encode_u32(out, a.seqid);
            encode_bytes16(out, &a.open_stateid);
            proof {
                seq_assoc(old(out)@, tag, enc_u32(a.seqid));
                seq_assoc(old(out)@, tag + enc_u32(a.seqid), a.open_stateid@);
                seq_assoc(tag, enc_u32(a.seqid), a.open_stateid@);
            }
        },
        NfsOperation::Commit(a) => {
            encode_u32(out, 2);
            encode_u64(out, a.offset);
            encode_u32(out, a.count);
            proof {
                seq_assoc(old(out)@, tag, enc_u64(a.offset));
                seq_assoc(old(out)@, tag + enc_u64(a.offset), enc_u32(a.count));
                seq_assoc(tag, enc_u64(a.offset), enc_u32(a.count));
            }
        },
        NfsOperation::Create(a) => {
            let ghost e1 = enc_u32(a.object_type);
            let ghost e2 = enc_string(a.object_name@);
            let ghost e3 = enc_attrs(a.attributes.deep_view());
            encode_u32(out, 3);
            encode_u32(out, a.object_type);
            encode_string(out, a.object_name.as_str());
            encode_attrs(out, &a.attributes);
            proof {
                seq_assoc(old(out)@, tag, e1);
                seq_assoc(old(out)@, tag + e1, e2);
                seq_assoc(old(out)@, tag + e1 + e2, e3);
                seq_assoc(tag, e1 + e2, e3);
                seq_assoc(tag, e1, e2);
            }
        },
        NfsOperation::GetAttr(a) => {
            let ghost e1 = enc_u32(a.attr_request@.len() as u32);
            let ghost e2 = enc_u32s(a.attr_request@);
            encode_u32(out, 4);
            encode_u32(out, a.attr_request.len() as u32);
            encode_u32_list(out, &a.attr_request);
            proof {
                seq_assoc(old(out)@, tag, e1);
                seq_assoc(old(out)@, tag + e1, e2);
                seq_assoc(tag, e1, e2);
            }
        },
        NfsOperation::GetFh(_) => {
            encode_u32(out, 5);
            proof {
                assert_seqs_equal!(old(out)@ + tag == old(out)@ + enc_op(dv));
            }
        },
        NfsOperation::Lookup(a) => {
            encode_u32(out, 6);
            encode_string(out, a.object_name.as_str());
            proof {
                seq_assoc(old(out)@, tag, enc_string(a.object_name@));
            }
        },
        NfsOperation::Lookupp(_) => {
            encode_u32(out, 7);
            proof {
                assert_seqs_equal!(old(out)@ + tag == old(out)@ + enc_op(dv));
            }
        },
        NfsOperation::Open(a) => {
            let ghost e1 = enc_u32(a.seqid);
            let ghost e2 = enc_u32(a.share_access);
            let ghost e3 = enc_u32(a.share_deny);
            let ghost e4 = enc_opaque(a.owner@);
            let ghost e5 = enc_claim(a.open_claim.deep_view());
            encode_u32(out, 8);
            encode_u32(out, a.seqid);
            encode_u32(out, a.share_access);
            encode_u32(out, a.share_deny);
            encode_opaque(out, a.owner.as_slice());
            encode_claim(out, &a.open_claim);
            proof {
                seq_assoc(old(out)@, tag, e1);
                seq_assoc(old(out)@, tag + e1, e2);
                seq_assoc(old(out)@, tag + e1 + e2, e3);
                seq_assoc(old(out)@, tag + e1 + e2 + e3, e4);
                seq_assoc(old(out)@, tag + e1 + e2 + e3 + e4, e5);
                seq_assoc(tag, e1 + e2 + e3 + e4, e5);
                seq_assoc(tag, e1 + e2 + e3, e4);
                seq_assoc(tag, e1 + e2, e3);
                seq_assoc(tag, e1, e2);
            }
        },
        NfsOperation::OpenConfirm(a) => {
            encode_u32(out, 9);
            encode_bytes16(out, &a.open_stateid);
            encode_u32(out, a.seqid);
            proof {
                seq_assoc(old(out)@, tag, a.open_stateid@);
                seq_assoc(old(out)@, tag + a.open_stateid@, enc_u32(a.seqid));
                seq_assoc(tag, a.open_stateid@, enc_u32(a.seqid));
            }
        },
        NfsOperation::Read(a) => {
            let ghost e1 = a.stateid@;
            let ghost e2 = enc_u64(a.offset);
            let ghost e3 = enc_u32(a.count);
            encode_u32(out, 10);
            encode_bytes16(out, &a.stateid);
            encode_u64(out, a.offset);
            encode_u32(out, a.count);
            proof {
                seq_assoc(old(out)@, tag, e1);
                seq_assoc(old(out)@, tag + e1, e2);
                seq_assoc(old(out)@, tag + e1 + e2, e3);
                seq_assoc(tag, e1 + e2, e3);
                seq_assoc(tag, e1, e2);
            }
        },
        NfsOperation::Write(a) => {
            let ghost e1 = a.stateid@;
            let ghost e2 = enc_u64(a.offset);
            let ghost e3 = enc_u32(a.stable);
            let ghost e4 = enc_opaque(a.data@);
            encode_u32(out, 11);
            encode_bytes16(out, &a.stateid);
            encode_u64(out, a.offset);
            encode_u32(out, a.stable);
            encode_opaque(out, a.data.as_slice());
            proof {
                seq_assoc(old(out)@, tag, e1);
                seq_assoc(old(out)@, tag + e1, e2);
                seq_assoc(old(out)@, tag + e1 + e2, e3);
                seq_assoc(old(out)@, tag + e1 + e2 + e3, e4);
                seq_assoc(tag, e1 + e2 + e3, e4);
                seq_assoc(tag, e1 + e2, e3);
                seq_assoc(tag, e1, e2);
            }
        },
    }
}

pub fn encode_ops_list(out: &mut Vec<u8>, ops: &Vec<NfsOperation>)
    requires
        forall|i: int| 0 <= i < ops.deep_view().len() ==> wf_op(#[trigger] ops.deep_view()[i]),
    ensures
        final(out)@ == old(out)@ + enc_ops(ops.deep_view()),
{
    let ghost dv = ops.deep_view();
    let mut i: usize = 0;
    while i < ops.len()
        invariant
            i <= ops@.len(),
            dv == ops.deep_view(),
            dv.len() == ops@.len(),
            forall|j: int| 0 <= j < dv.len() ==> wf_op(#[trigger] dv[j]),
            out@ == old(out)@ + enc_ops(dv.take(i as int)),
        decreases ops@.len() - i,
    {
        let ghost pre = enc_ops(dv.take(i as int));
        proof {
            assert(dv[i as int] == ops@[i as int].deep_view());
        }
        encode_op(out, &ops[i]);
        proof {
            assert_seqs_equal!(dv.take(i + 1) == dv.take(i as int).push(dv[i as int]));
            lemma_enc_ops_snoc(dv.take(i as int), dv[i as int]);
            seq_assoc(old(out)@, pre, enc_op(dv[i as int]));
        }
        i = i + 1;
    }
    proof {
        assert(dv.take(dv.len() as int) == dv);
    }
}

/// Encodes a COMPOUND request, failing exactly when some field is too
/// large for its 32-bit length prefix.
pub fn encode_compound_request(r: &CompoundRequest) -> (res: Result<Vec<u8>, XdrError>)
    ensures
        res is Ok <==> wf_req(r.deep_view()),
        res matches Ok(b) ==> b@ == enc_req(r.deep_view()),
{
    if !check_wf_req(r) {
        return Err(XdrError::BadEncoding);
    }
    let ghost e1 = enc_string(r.tag@);
    let ghost e2 = enc_u32(r.minor_version);
    let ghost e3 = enc_u32(r.operations.deep_view().len() as u32);
    let ghost e4 = enc_ops(r.operations.deep_view());
    let mut out: Vec<u8> = Vec::new();
    encode_string(&mut out, r.tag.as_str());
    encode_u32(&mut out, r.minor_version);
    encode_u32(&mut out, r.operations.len() as u32);
    encode_ops_list(&mut out, &r.operations);
    proof {
        assert(r.operations.deep_view().len() == r.operations@.len());
        assert_seqs_equal!(out@ == enc_req(r.deep_view()));
    }
    Ok(out)
}

pub fn encode_opdata(out: &mut Vec<u8>, d: &OperationData)
    requires
        wf_opdata(d.deep_view()),
    ensures
        final(out)@ == old(out)@ + enc_opdata(d.deep_view()),
{
    let ghost dv = d.deep_view();
    let ghost tag = enc_u32(opdata_tag(dv));
    match d {
        OperationData::Access(a) => {
            encode_u32(out, 0);
            encode_u32(out, *a);
            proof {
                seq_assoc(old(out)@, tag, enc_u32(*a));
            }
        },
        OperationData::GetAttr(a) => {
            encode_u32(out, 1);
            encode_attrs(out, a);
            proof {
                seq_assoc(old(out)@, tag, enc_attrs(a.deep_view()));
            }
        },
        OperationData::GetFh(h) => {
            encode_u32(out, 2);
            encode_opaque(out, h.data.as_slice());
            proof {
                seq_assoc(old(out)@, tag, enc_opaque(h.data@));
            }
        },
        OperationData::Read(b) => {
            encode_u32(out, 3);
            encode_opaque(out, b.as_slice());
            proof {
                seq_assoc(old(out)@, tag, enc_opaque(b@));
            }
        },
        OperationData::Write(n) => {
            encode_u32(out, 4);
            encode_u32(out, *n);
            proof {
                seq_assoc(old(out)@, tag, enc_u32(*n));
            }
        },
        OperationData::Open(s) => {
            encode_u32(out, 5);
            encode_bytes16(out, s);
            proof {
                seq_assoc(old(out)@, tag, s@);
            }
        },
    }
}

pub fn encode_result(out: &mut Vec<u8>, r: &OperationResult)
    requires
        wf_result(r.deep_view()),
    ensures
        final(out)@ == old(out)@ + enc_result(r.deep_view()),
{
    let code = status_code(r.status);
    encode_u32(out, code);
    match &r.result {
        None => {
            encode_u32(out, 0);
            proof {
                seq_assoc(old(out)@, enc_u32(code), enc_u32(0));
            }
        },
        Some(d) => {
            let ghost e2 = enc_u32(1);
            let ghost e3 = enc_opdata(d.deep_view());
            encode_u32(out, 1);
            encode_opdata(out, d);
            proof {
                seq_assoc(old(out)@, enc_u32(code), e2);
                seq_assoc(old(out)@, enc_u32(code) + e2, e3);
                seq_assoc(enc_u32(code), e2, e3);
            }
        },
    }
}

pub fn encode_results_list(out: &mut Vec<u8>, rs: &Vec<OperationResult>)
    requires
        forall|i: int| 0 <= i < rs.deep_view().len() ==> wf_result(#[trigger] rs.deep_view()[i]),
    ensures
        final(out)@ == old(out)@ + enc_results(rs.deep_view()),
{
    let ghost dv = rs.deep_view();
    let mut i: usize = 0;
    while i < rs.len()
        invariant
            i <= rs@.len(),
            dv == rs.deep_view(),
            dv.len() == rs@.len(),
            forall|j: int| 0 <= j < dv.len() ==> wf_result(#[trigger] dv[j]),
            out@ == old(out)@ + enc_results(dv.take(i as int)),
        decreases rs@.len() - i,
    {
        let ghost pre = enc_results(dv.take(i as int));
        proof {
            assert(dv[i as int] == rs@[i as int].deep_view());
        }
        encode_result(out, &rs[i]);
        proof {
            assert_seqs_equal!(dv.take(i + 1) == dv.take(i as int).push(dv[i as int]));
            lemma_enc_results_snoc(dv.take(i as int), dv[i as int]);
            seq_assoc(old(out)@, pre, enc_result(dv[i as int]));
        }
        i = i + 1;
    }
    proof {
        assert(dv.take(dv.len() as int) == dv);
    }
}

/// Encodes a COMPOUND response, failing exactly when some field is too
/// large for its 32-bit length prefix.
pub fn encode_compound_response(r: &CompoundResponse) -> (res: Result<Vec<u8>, XdrError>)
    ensures
        res is Ok <==> wf_resp(r.deep_view()),
        res matches Ok(b) ==> b@ == enc_resp(r.deep_view()),
{
    if !check_wf_resp(r) {
        return Err(XdrError::BadEncoding);
    }
    let mut out: Vec<u8> = Vec::new();
    encode_string(&mut out, r.tag.as_str());
    encode_u32(&mut out, status_code(r.status));
    encode_u32(&mut out, r.results.len() as u32);
    encode_results_list(&mut out, &r.results);
    proof {
        assert(r.results.deep_view().len() == r.results@.len());
        assert_seqs_equal!(out@ == enc_resp(r.deep_view()));
    }
    Ok(out)
}


// ---------------------------------------------------------------------------
// Executable decoders
// ---------------------------------------------------------------------------

pub fn decode_time(buf: &Vec<u8>, pos: usize) -> (r: Result<(NfsTime, usize), XdrError>)
    requires
        pos <= buf@.len(),
    ensures
        match r {
            Ok((v, end)) => pos <= end <= buf@.len() && dec_time(buf@.skip(pos as int)) == Some(
                (v, buf@.skip(end as int)),
            ),
            Err(_) => dec_time(buf@.skip(pos as int)) is None,
        },
{
    let (seconds, p1) = decode_u64(buf, pos)?;
    let (nseconds, end) = decode_u32(buf, p1)?;
    Ok((NfsTime { seconds, nseconds }, end))
}

pub fn decode_attrs(buf: &Vec<u8>, pos: usize) -> (r: Result<(NfsFileAttributes, usize), XdrError>)
    requires
        pos <= buf@.len(),
    ensures
        match r {
            Ok((v, end)) => pos <= end <= buf@.len() && dec_attrs(buf@.skip(pos as int)) == Some(
                (v.deep_view(), buf@.skip(end as int)),
            ),
            Err(_) => dec_attrs(buf@.skip(pos as int)) is None,
        },
{
    let (type_, p1) = decode_u32(buf, pos)?;
    let (mode, p2) = decode_u32(buf, p1)?;
    let (size, p3) = decode_u64(buf, p2)?;
    let (space_used, p4) = decode_u64(buf, p3)?;
    let (time_access, p5) = decode_time(buf, p4)?;
    let (time_modify, p6) = decode_time(buf, p5)?;
    let (owner, p7) = decode_string(buf, p6)?;
    let (group, end) = decode_string(buf, p7)?;
    Ok(
        (
            NfsFileAttributes {
                type_,
                mode,
                size,
                space_used,
                time_access,
                time_modify,
                owner,
                group,
            },
            end,
        ),
    )
}

pub fn decode_u32_list(buf: &Vec<u8>, pos: usize, n: u32) -> (r: Result<
    (Vec<u32>, usize),
    XdrError,
>)
    requires
        pos <= buf@.len(),
    ensures
        match r {
            Ok((v, end)) => pos <= end <= buf@.len() && dec_u32s(buf@.skip(pos as int), n as nat)
                == Some((v@, buf@.skip(end as int))),
            Err(_) => dec_u32s(buf@.skip(pos as int), n as nat) is None,
        },
{
    let mut acc: Vec<u32> = Vec::new();
    let mut p: usize = pos;
    let mut i: u32 = 0;
    while i < n
        invariant
            pos <= p <= buf@.len(),
            i <= n,
            ({
                let g = dec_u32s(buf@.skip(pos as int), n as nat);
                match dec_u32s(buf@.skip(p as int), (n - i) as nat) {
                    Some((tail, rem)) => g == Some((acc@ + tail, rem)),
                    None => g is None,
                }
            }),
        decreases n - i,
    {
        let ghost a0 = acc@;
        match decode_u32(buf, p) {
            Ok((x, p2)) => {
                acc.push(x);
                proof {
                    assert_seqs_equal!(acc@ == a0 + seq![x]);
                    match dec_u32s(buf@.skip(p2 as int), (n - i - 1) as nat) {
                        Some((tail2, rem2)) => {
                            seq_assoc(a0, seq![x], tail2);
                        },
                        None => {},
                    }
                }
                p = p2;
                i = i + 1;
            },
            Err(e) => {
                return Err(e);
            },
        }
    }
    proof {
        seq_add_empty(acc@);
    }
    Ok((acc, p))
}

pub fn decode_claim(buf: &Vec<u8>, pos: usize) -> (r: Result<(OpenClaim, usize), XdrError>)
    requires
        pos <= buf@.len(),
    ensures
        match r {
            Ok((v, end)) => pos <= end <= buf@.len() && dec_claim(buf@.skip(pos as int)) == Some(
                (v.deep_view(), buf@.skip(end as int)),
            ),
            Err(_) => dec_claim(buf@.skip(pos as int)) is None,
        },
{
    let (tag, p1) = decode_u32(buf, pos)?;
    let (path, end) = decode_string(buf, p1)?;
    if tag == 0 {
        Ok((OpenClaim::Null(path), end))
    } else if tag == 1 {
        Ok((OpenClaim::Previous(path), end))
    } else if tag == 2 {
        Ok((OpenClaim::Delegate(path), end))
    } else {
        Err(XdrError::BadEncoding)
    }
}

#[verifier::rlimit(100)]
#[verifier::spinoff_prover]
fn decode_op_low(buf: &Vec<u8>, p1: usize, tag: u32, Ghost(pos): Ghost<int>) -> (r: Result<
    (NfsOperation, usize),
    XdrError,
>)
    requires
        0 <= pos <= buf@.len(),
        p1 <= buf@.len(),
        tag <= 5,
        dec_u32(buf@.skip(pos)) == Some((tag, buf@.skip(p1 as int))),
    ensures
        match r {
            Ok((v, end)) => p1 <= end <= buf@.len() && dec_op(buf@.skip(pos)) == Some(
                (v.deep_view(), buf@.skip(end as int)),
            ),
            Err(_) => dec_op(buf@.skip(pos)) is None,
        },
{
    if tag == 0 {
        let (access, end) = decode_u32(buf, p1)?;
        Ok((NfsOperation::Access(AccessOperation { access }), end))
    } else if tag == 1 {
        let (seqid, p2) = decode_u32(buf, p1)?;
        let (open_stateid, end) = decode_bytes16(buf, p2)?;
        Ok((NfsOperation::Close(CloseOperation { seqid, open_stateid }), end))
    } else if tag == 2 {
        let (offset, p2) = decode_u64(buf, p1)?;
        let (count, end) = decode_u32(buf, p2)?;
        Ok((NfsOperation::Commit(CommitOperation { offset, count }), end))
    } else if tag == 3 {
        let (object_type, p2) = decode_u32(buf, p1)?;
        let (object_name, p3) = decode_string(buf, p2)?;
        let (attributes, end) = decode_attrs(buf, p3)?;
        Ok((NfsOperation::Create(CreateOperation { object_type, object_name, attributes }), end))
    } else if tag == 4 {
        let (n, p2) = decode_u32(buf, p1)?;
        let (attr_request, end) = decode_u32_list(buf, p2, n)?;
        Ok((NfsOperation::GetAttr(GetAttrOperation { attr_request }), end))
    } else {
        Ok((NfsOperation::GetFh(GetFhOperation), p1))
    }
}

#[verifier::rlimit(100)]
#[verifier::spinoff_prover]
fn decode_op_high(buf: &Vec<u8>, p1: usize, tag: u32, Ghost(pos): Ghost<int>) -> (r: Result<
    (NfsOperation, usize),
    XdrError,
>)
    requires
        0 <= pos <= buf@.len(),
        p1 <= buf@.len(),
        6 <= tag,
        dec_u32(buf@.skip(pos)) == Some((tag, buf@.skip(p1 as int))),
    ensures
        match r {
            Ok((v, end)) => p1 <= end <= buf@.len() && dec_op(buf@.skip(pos)) == Some(
                (v.deep_view(), buf@.skip(end as int)),
            ),
            Err(_) => dec_op(buf@.skip(pos)) is None,
        },
{
    if tag == 6 {
        let (object_name, end) = decode_string(buf, p1)?;
        Ok((NfsOperation::Lookup(LookupOperation { object_name }), end))
    } else if tag == 7 {
        Ok((NfsOperation::Lookupp(LookuppOperation), p1))
    } else if tag == 8 {
        let (seqid, p2) = decode_u32(buf, p1)?;
        let (share_access, p3) = decode_u32(buf, p2)?;
        let (share_deny, p4) = decode_u32(buf, p3)?;
        let (owner, p5) = decode_opaque(buf, p4)?;
        let (open_claim, end) = decode_claim(buf, p5)?;
        Ok(
            (
                NfsOperation::Open(
                    OpenOperation { seqid, share_access, share_deny, owner, open_claim },
                ),
                end,
            ),
        )
    } else if tag == 9 {
        let (open_stateid, p2) = decode_bytes16(buf, p1)?;
        let (seqid, end) = decode_u32(buf, p2)?;
        Ok((NfsOperation::OpenConfirm(OpenConfirmOperation { open_stateid, seqid }), end))
    } else if tag == 10 {
        let (stateid, p2) = decode_bytes16(buf, p1)?;
        let (offset, p3) = decode_u64(buf, p2)?;
        let (count, end) = decode_u32(buf, p3)?;
        Ok((NfsOperation::Read(ReadOperation { stateid, offset, count }), end))
    } else if tag == 11 {
        let (stateid, p2) = decode_bytes16(buf, p1)?;
        let (offset, p3) = decode_u64(buf, p2)?;
        let (stable, p4) = decode_u32(buf, p3)?;
        let (data, end) = decode_opaque(buf, p4)?;
        Ok((NfsOperation::Write(WriteOperation { stateid, offset, stable, data }), end))
    } else {
        Err(XdrError::BadEncoding)
    }
}

pub fn decode_op(buf: &Vec<u8>, pos: usize) -> (r: Result<(NfsOperation, usize), XdrError>)
    requires
        pos <= buf@.len(),
    ensures
        match r {
            Ok((v, end)) => pos <= end <= buf@.len() && dec_op(buf@.skip(pos as int)) == Some(
                (v.deep_view(), buf@.skip(end as int)),
            ),
            Err(_) => dec_op(buf@.skip(pos as int)) is None,
        },
{
    let (tag, p1) = decode_u32(buf, pos)?;
    if tag <= 5 {
        decode_op_low(buf, p1, tag, Ghost(pos as int))
    } else {
        decode_op_high(buf, p1, tag, Ghost(pos as int))
    }
}

pub fn decode_ops_list(buf: &Vec<u8>, pos: usize, n: u32) -> (r: Result<
    (Vec<NfsOperation>, usize),
    XdrError,
>)
    requires
        pos <= buf@.len(),
    ensures
        match r {
            Ok((v, end)) => pos <= end <= buf@.len() && dec_ops(buf@.skip(pos as int), n as nat)
                == Some((v.deep_view(), buf@.skip(end as int))),
            Err(_) => dec_ops(buf@.skip(pos as int), n as nat) is None,
        },
{
    let mut acc: Vec<NfsOperation> = Vec::new();
    let mut p: usize = pos;
    let mut i: u32 = 0;
    while i < n
        invariant
            pos <= p <= buf@.len(),
            i <= n,
            ({
                let g = dec_ops(buf@.skip(pos as int), n as nat);
                match dec_ops(buf@.skip(p as int), (n - i) as nat) {
                    Some((tail, rem)) => g == Some((acc.deep_view() + tail, rem)),
                    None => g is None,
                }
            }),
        decreases n - i,
    {
        let ghost a0 = acc.deep_view();
        match decode_op(buf, p) {
            Ok((op, p2)) => {
                let ghost opv = op.deep_view();
                acc.push(op);
                proof {
                    assert_seqs_equal!(acc.deep_view() == a0 + seq![opv]);
                    match dec_ops(buf@.skip(p2 as int), (n - i - 1) as nat) {
                        Some((tail2, rem2)) => {
                            seq_assoc(a0, seq![opv], tail2);
                        },
                        None => {},
                    }
                }
                p = p2;
                i = i + 1;
            },
            Err(e) => {
                return Err(e);
            },
        }
    }
    proof {
        seq_add_empty(acc.deep_view());
    }
    Ok((acc, p))
}

/// Decodes a COMPOUND request from the start of the buffer, failing
/// exactly when the bytes are not a valid encoding.
pub fn decode_compound_request(buf: &Vec<u8>) -> (r: Result<CompoundRequest, XdrError>)
    ensures
        r is Ok <==> dec_req(buf@) is Some,
        r matches Ok(v) ==> (dec_req(buf@) matches Some((w, rem)) && v.deep_view() == w),
{
    proof {
        assert_seqs_equal!(buf@.skip(0) == buf@);
    }
    let (tag, p1) = decode_string(buf, 0)?;
    let (minor_version, p2) = decode_u32(buf, p1)?;
    let (n, p3) = decode_u32(buf, p2)?;
    let (operations, _end) = decode_ops_list(buf, p3, n)?;
    Ok(CompoundRequest { tag, minor_version, operations })
}

pub fn decode_opdata(buf: &Vec<u8>, pos: usize) -> (r: Result<(OperationData, usize), XdrError>)
    requires
        pos <= buf@.len(),
    ensures
        match r {
            Ok((v, end)) => pos <= end <= buf@.len() && dec_opdata(buf@.skip(pos as int)) == Some(
                (v.deep_view(), buf@.skip(end as int)),
            ),
            Err(_) => dec_opdata(buf@.skip(pos as int)) is None,
        },
{
    let (tag, p1) = decode_u32(buf, pos)?;
    if tag == 0 {
        let (a, end) = decode_u32(buf, p1)?;
        Ok((OperationData::Access(a), end))
    } else if tag == 1 {
        let (a, end) = decode_attrs(buf, p1)?;
        Ok((OperationData::GetAttr(a), end))
    } else if tag == 2 {
        let (h, end) = decode_opaque(buf, p1)?;
        if h.len() <= MAX_FILEHANDLE_LEN {
            Ok((OperationData::GetFh(NfsFileHandle { data: h }), end))
        } else {
            Err(XdrError::BadEncoding)
        }
    } else if tag == 3 {
        let (b, end) = decode_opaque(buf, p1)?;
        Ok((OperationData::Read(b), end))
    } else if tag == 4 {
        let (n, end) = decode_u32(buf, p1)?;
        Ok((OperationData::Write(n), end))
    } else if tag == 5 {
        let (sid, end) = decode_bytes16(buf, p1)?;
        Ok((OperationData::Open(sid), end))
    } else {
        Err(XdrError::BadEncoding)
    }
}

pub fn decode_result(buf: &Vec<u8>, pos: usize) -> (r: Result<(OperationResult, usize), XdrError>)
    requires
        pos <= buf@.len(),
    ensures
        match r {
            Ok((v, end)) => pos <= end <= buf@.len() && dec_result(buf@.skip(pos as int)) == Some(
                (v.deep_view(), buf@.skip(end as int)),
            ),
            Err(_) => dec_result(buf@.skip(pos as int)) is None,
        },
{
    let (code, p1) = decode_u32(buf, pos)?;
    let status = match status_from_code(code) {
        Some(s) => s,
        None => {
            return Err(XdrError::BadEncoding);
        },
    };
    let (flag, p2) = decode_u32(buf, p1)?;
    if flag == 0 {
        Ok((OperationResult { status, result: None }, p2))
    } else if flag == 1 {
        let (d, end) = decode_opdata(buf, p2)?;
        Ok((OperationResult { status, result: Some(d) }, end))
    } else {
        Err(XdrError::BadEncoding)
    }
}

pub fn decode_results_list(buf: &Vec<u8>, pos: usize, n: u32) -> (r: Result<
    (Vec<OperationResult>, usize),
    XdrError,
>)
    requires
        pos <= buf@.len(),
    ensures
        match r {
            Ok((v, end)) => pos <= end <= buf@.len() && dec_results(
                buf@.skip(pos as int),
                n as nat,
            ) == Some((v.deep_view(), buf@.skip(end as int))),
            Err(_) => dec_results(buf@.skip(pos as int), n as nat) is None,
        },
{
    let mut acc: Vec<OperationResult> = Vec::new();
    let mut p: usize = pos;
    let mut i: u32 = 0;
    while i < n
        invariant
            pos <= p <= buf@.len(),
            i <= n,
            ({
                let g = dec_results(buf@.skip(pos as int), n as nat);
                match dec_results(buf@.skip(p as int), (n - i) as nat) {
                    Some((tail, rem)) => g == Some((acc.deep_view() + tail, rem)),
                    None => g is None,
                }
            }),
        decreases n - i,
    {
        let ghost a0 = acc.deep_view();
        match decode_result(buf, p) {
            Ok((x, p2)) => {
                let ghost xv = x.deep_view();
                acc.push(x);
                proof {
                    assert_seqs_equal!(acc.deep_view() == a0 + seq![xv]);
                    match dec_results(buf@.skip(p2 as int), (n - i - 1) as nat) {
                        Some((tail2, rem2)) => {
                            seq_assoc(a0, seq![xv], tail2);
                        },
                        None => {},
                    }
                }
                p = p2;
                i = i + 1;
            },
            Err(e) => {
                return Err(e);
            },
        }
    }
    proof {
        seq_add_empty(acc.deep_view());
    }
    Ok((acc, p))
}

/// Decodes a COMPOUND response from the start of the buffer, failing
/// exactly when the bytes are not a valid encoding.
pub fn decode_compound_response(buf: &Vec<u8>) -> (r: Result<CompoundResponse, XdrError>)
    ensures
        r is Ok <==> dec_resp(buf@) is Some,
        r matches Ok(v) ==> (dec_resp(buf@) matches Some((w, rem)) && v.deep_view() == w),
{
    proof {
        assert_seqs_equal!(buf@.skip(0) == buf@);
    }
    let (tag, p1) = decode_string(buf, 0)?;
    let (code, p2) = decode_u32(buf, p1)?;
    let status = match status_from_code(code) {
        Some(s) => s,
        None => {
            return Err(XdrError::BadEncoding);
        },
    };
    let (n, p3) = decode_u32(buf, p2)?;
    let (results, _end) = decode_results_list(buf, p3, n)?;
    Ok(CompoundResponse { tag, status, results })
}

} // verus!
