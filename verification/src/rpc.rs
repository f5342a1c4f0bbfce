//! ONC-RPC messages and record marking.
//!
//! A record on the TCP stream is one or more fragments, each preceded by
//! a 32-bit big-endian header whose high bit marks the record's last
//! fragment and whose low 31 bits give the fragment's byte length. This
//! server emits single-fragment records and accepts multi-fragment ones.

use vstd::prelude::*;
use vstd::assert_seqs_equal;
use crate::xdr::{
    XdrError, enc_u32, enc_opaque, dec_u32, dec_opaque, lemma_rt_u32, lemma_rt_opaque, seq_assoc,
    lemma_skip_skip, lemma_concat_skip, encode_u32, encode_opaque, decode_u32, decode_opaque,
    copy_range, push_bytes,
};

verus! {

// RPC message types.
pub const RPC_CALL: u32 = 0;

pub const RPC_REPLY: u32 = 1;

// RPC versions.
pub const RPC_VERSION: u32 = 2;

// Reply status.
pub const MSG_ACCEPTED: u32 = 0;

pub const MSG_DENIED: u32 = 1;

// Accept status.
pub const SUCCESS: u32 = 0;

pub const PROG_UNAVAIL: u32 = 1;

pub const PROG_MISMATCH: u32 = 2;

pub const PROC_UNAVAIL: u32 = 3;

pub const GARBAGE_ARGS: u32 = 4;

// Auth flavors.
pub const AUTH_NONE: u32 = 0;

pub const AUTH_SYS: u32 = 1;

pub const AUTH_SHORT: u32 = 2;

/// The largest record fragment the 31-bit length field can announce.
pub const MAX_FRAGMENT_LEN: u32 = 0x7FFFFFFF;

#[derive(Debug, Clone, PartialEq)]
pub struct RpcMsg {
    pub xid: u32,
    pub body: RpcMsgBody,
}

#[derive(Debug, Clone, PartialEq)]
pub enum RpcMsgBody {
    Call(CallBody),
    Reply(ReplyBody),
}

#[derive(Debug, Clone, PartialEq)]
pub struct CallBody {
    pub rpc_vers: u32,
    pub prog: u32,
    pub prog_vers: u32,
    pub proc: u32,
    pub cred: OpaqueAuth,
    pub verf: OpaqueAuth,
    pub data: Vec<u8>,
}

#[derive(Debug, Clone, PartialEq)]
pub struct ReplyBody {
    pub reply_stat: u32,
    pub data: ReplyData,
}

#[derive(Debug, Clone, PartialEq)]
pub enum ReplyData {
    Accepted(AcceptedReply),
    Rejected(RejectedReply),
}

#[derive(Debug, Clone, PartialEq)]
pub struct AcceptedReply {
    pub verf: OpaqueAuth,
    pub stat: u32,
    pub data: Vec<u8>,
}

#[derive(Debug, Clone, PartialEq)]
pub struct RejectedReply {
    pub stat: u32,
    pub data: Vec<u8>,
}

#[derive(Debug, Clone, PartialEq)]
pub struct OpaqueAuth {
    pub flavor: u32,
    pub body: Vec<u8>,
}

#[derive(Debug, Clone, PartialEq)]
pub struct AuthSys {
    pub stamp: u32,
    pub machinename: String,
    pub uid: u32,
    pub gid: u32,
    pub gids: Vec<u32>,
}

// ---------------------------------------------------------------------------
// Ghost mirrors
// ---------------------------------------------------------------------------

pub struct OpaqueAuthV {
    pub flavor: u32,
    pub body: Seq<u8>,
}

pub struct CallBodyV {
    pub rpc_vers: u32,
    pub prog: u32,
    pub prog_vers: u32,
    pub proc: u32,
    pub cred: OpaqueAuthV,
    pub verf: OpaqueAuthV,
    pub data: Seq<u8>,
}

pub struct AcceptedReplyV {
    pub verf: OpaqueAuthV,
    pub stat: u32,
    pub data: Seq<u8>,
}

pub struct RejectedReplyV {
    pub stat: u32,
    pub data: Seq<u8>,
}

pub enum ReplyDataV {
    Accepted(AcceptedReplyV),
    Rejected(RejectedReplyV),
}

pub struct ReplyBodyV {
    pub reply_stat: u32,
    pub data: ReplyDataV,
}

pub enum RpcMsgBodyV {
    Call(CallBodyV),
    Reply(ReplyBodyV),
}

pub struct RpcMsgV {
    pub xid: u32,
    pub body: RpcMsgBodyV,
}

impl DeepView for OpaqueAuth {
    type V = OpaqueAuthV;

    open spec fn deep_view(&self) -> OpaqueAuthV {
        OpaqueAuthV { flavor: self.flavor, body: self.body@ }
    }
}

impl DeepView for CallBody {
    type V = CallBodyV;

    open spec fn deep_view(&self) -> CallBodyV {
        CallBodyV {
            rpc_vers: self.rpc_vers,
            prog: self.prog,
            prog_vers: self.prog_vers,
            proc: self.proc,
            cred: self.cred.deep_view(),
            verf: self.verf.deep_view(),
            data: self.data@,
        }
    }
}

impl DeepView for AcceptedReply {
    type V = AcceptedReplyV;

    open spec fn deep_view(&self) -> AcceptedReplyV {
        AcceptedReplyV { verf: self.verf.deep_view(), stat: self.stat, data: self.data@ }
    }
}

impl DeepView for RejectedReply {
    type V = RejectedReplyV;

    open spec fn deep_view(&self) -> RejectedReplyV {
        RejectedReplyV { stat: self.stat, data: self.data@ }
    }
}

impl DeepView for ReplyData {
    type V = ReplyDataV;

    open spec fn deep_view(&self) -> ReplyDataV {
        match self {
            ReplyData::Accepted(a) => ReplyDataV::Accepted(a.deep_view()),
            ReplyData::Rejected(a) => ReplyDataV::Rejected(a.deep_view()),
        }
    }
}

impl DeepView for ReplyBody {
    type V = ReplyBodyV;

    open spec fn deep_view(&self) -> ReplyBodyV {
        ReplyBodyV { reply_stat: self.reply_stat, data: self.data.deep_view() }
    }
}

impl DeepView for RpcMsgBody {
    type V = RpcMsgBodyV;

    open spec fn deep_view(&self) -> RpcMsgBodyV {
        match self {
            RpcMsgBody::Call(c) => RpcMsgBodyV::Call(c.deep_view()),
            RpcMsgBody::Reply(r) => RpcMsgBodyV::Reply(r.deep_view()),
        }
    }
}

impl DeepView for RpcMsg {
    type V = RpcMsgV;

    open spec fn deep_view(&self) -> RpcMsgV {
        RpcMsgV { xid: self.xid, body: self.body.deep_view() }
    }
}

// ---------------------------------------------------------------------------
// Well-formedness
// ---------------------------------------------------------------------------

pub open spec fn wf_auth(a: OpaqueAuthV) -> bool {
    a.body.len() <= u32::MAX
}

pub open spec fn wf_call(c: CallBodyV) -> bool {
    wf_auth(c.cred) && wf_auth(c.verf) && c.data.len() <= u32::MAX
}

pub open spec fn wf_reply_data(d: ReplyDataV) -> bool {
    match d {
        ReplyDataV::Accepted(a) => wf_auth(a.verf) && a.data.len() <= u32::MAX,
        ReplyDataV::Rejected(a) => a.data.len() <= u32::MAX,
    }
}

pub open spec fn wf_msg(m: RpcMsgV) -> bool {
    match m.body {
        RpcMsgBodyV::Call(c) => wf_call(c),
        RpcMsgBodyV::Reply(r) => wf_reply_data(r.data),
    }
}

// ---------------------------------------------------------------------------
// Specification encoders
// ---------------------------------------------------------------------------

pub open spec fn enc_auth(a: OpaqueAuthV) -> Seq<u8> {
    enc_u32(a.flavor) + enc_opaque(a.body)
}

pub open spec fn enc_call(c: CallBodyV) -> Seq<u8> {
    enc_u32(c.rpc_vers) + enc_u32(c.prog) + enc_u32(c.prog_vers) + enc_u32(c.proc) + enc_auth(
        c.cred,
    ) + enc_auth(c.verf) + enc_opaque(c.data)
}

pub open spec fn enc_accepted(a: AcceptedReplyV) -> Seq<u8> {
    enc_auth(a.verf) + enc_u32(a.stat) + enc_opaque(a.data)
}

pub open spec fn enc_rejected(a: RejectedReplyV) -> Seq<u8> {
    enc_u32(a.stat) + enc_opaque(a.data)
}

pub open spec fn enc_reply_data(d: ReplyDataV) -> Seq<u8> {
    match d {
        ReplyDataV::Accepted(a) => enc_u32(0) + enc_accepted(a),
        ReplyDataV::Rejected(a) => enc_u32(1) + enc_rejected(a),
    }
}

pub open spec fn enc_reply(r: ReplyBodyV) -> Seq<u8> {
    enc_u32(r.reply_stat) + enc_reply_data(r.data)
}

pub open spec fn enc_body(b: RpcMsgBodyV) -> Seq<u8> {
    match b {
        RpcMsgBodyV::Call(c) => enc_u32(0) + enc_call(c),
        RpcMsgBodyV::Reply(r) => enc_u32(1) + enc_reply(r),
    }
}

pub open spec fn enc_msg(m: RpcMsgV) -> Seq<u8> {
    enc_u32(m.xid) + enc_body(m.body)
}

// ---------------------------------------------------------------------------
// Specification decoders
// ---------------------------------------------------------------------------

pub open spec fn dec_auth(s: Seq<u8>) -> Option<(OpaqueAuthV, Seq<u8>)> {
    match dec_u32(s) {
        None => None,
        Some((flavor, r)) => match dec_opaque(r) {
            None => None,
            Some((body, r2)) => Some((OpaqueAuthV { flavor, body }, r2)),
        },
    }
}

pub open spec fn dec_call(s: Seq<u8>) -> Option<(CallBodyV, Seq<u8>)> {
    match dec_u32(s) {
        None => None,
        Some((rpc_vers, r1)) => match dec_u32(r1) {
            None => None,
            Some((prog, r2)) => match dec_u32(r2) {
                None => None,
                Some((prog_vers, r3)) => match dec_u32(r3) {
                    None => None,
                    Some((proc, r4)) => match dec_auth(r4) {
                        None => None,
                        Some((cred, r5)) => match dec_auth(r5) {
                            None => None,
                            Some((verf, r6)) => match dec_opaque(r6) {
                                None => None,
                                Some((data, r7)) => Some(
                                    (
                                        CallBodyV {
                                            rpc_vers,
                                            prog,
                                            prog_vers,
                                            proc,
                                            cred,
                                            verf,
                                            data,
                                        },
                                        r7,
                                    ),
                                ),
                            },
                        },
                    },
                },
            },
        },
    }
}

pub open spec fn dec_accepted(s: Seq<u8>) -> Option<(AcceptedReplyV, Seq<u8>)> {
    match dec_auth(s) {
        None => None,
        Some((verf, r1)) => match dec_u32(r1) {
            None => None,
            Some((stat, r2)) => match dec_opaque(r2) {
                None => None,
                Some((data, r3)) => Some((AcceptedReplyV { verf, stat, data }, r3)),
            },
        },
    }
}

pub open spec fn dec_rejected(s: Seq<u8>) -> Option<(RejectedReplyV, Seq<u8>)> {
    match dec_u32(s) {
        None => None,
        Some((stat, r1)) => match dec_opaque(r1) {
            None => None,
            Some((data, r2)) => Some((RejectedReplyV { stat, data }, r2)),
        },
    }
}

pub open spec fn dec_reply_data(s: Seq<u8>) -> Option<(ReplyDataV, Seq<u8>)> {
    match dec_u32(s) {
        None => None,
        Some((tag, r)) => {
            if tag == 0 {
                match dec_accepted(r) {
                    None => None,
                    Some((a, r2)) => Some((ReplyDataV::Accepted(a), r2)),
                }
            } else if tag == 1 {
                match dec_rejected(r) {
                    None => None,
                    Some((a, r2)) => Some((ReplyDataV::Rejected(a), r2)),
                }
            } else {
                None
            }
        },
    }
}

pub open spec fn dec_reply(s: Seq<u8>) -> Option<(ReplyBodyV, Seq<u8>)> {
    match dec_u32(s) {
        None => None,
        Some((reply_stat, r)) => match dec_reply_data(r) {
            None => None,
            Some((data, r2)) => Some((ReplyBodyV { reply_stat, data }, r2)),
        },
    }
}

pub open spec fn dec_body(s: Seq<u8>) -> Option<(RpcMsgBodyV, Seq<u8>)> {
    match dec_u32(s) {
        None => None,
        Some((tag, r)) => {
            if tag == 0 {
                match dec_call(r) {
                    None => None,
                    Some((c, r2)) => Some((RpcMsgBodyV::Call(c), r2)),
                }
            } else if tag == 1 {
                match dec_reply(r) {
                    None => None,
                    Some((x, r2)) => Some((RpcMsgBodyV::Reply(x), r2)),
                }
            } else {
                None
            }
        },
    }
}

pub open spec fn dec_msg(s: Seq<u8>) -> Option<(RpcMsgV, Seq<u8>)> {
    match dec_u32(s) {
        None => None,
        Some((xid, r)) => match dec_body(r) {
            None => None,
            Some((body, r2)) => Some((RpcMsgV { xid, body }, r2)),
        },
    }
}

// ---------------------------------------------------------------------------
// Round-trip lemmas
// ---------------------------------------------------------------------------

pub proof fn lemma_rt_auth(a: OpaqueAuthV, rest: Seq<u8>)
    requires
        wf_auth(a),
    ensures
        dec_auth(enc_auth(a) + rest) == Some((a, rest)),
{
    seq_assoc(enc_u32(a.flavor), enc_opaque(a.body), rest);
    lemma_rt_u32(a.flavor, enc_opaque(a.body) + rest);
    lemma_rt_opaque(a.body, rest);
}

pub proof fn lemma_rt_call(c: CallBodyV, rest: Seq<u8>)
    requires
        wf_call(c),
    ensures
        dec_call(enc_call(c) + rest) == Some((c, rest)),
{
    let e1 = enc_u32(c.rpc_vers);
    let e2 = enc_u32(c.prog);
    let e3 = enc_u32(c.prog_vers);
    let e4 = enc_u32(c.proc);
    let e5 = enc_auth(c.cred);
    let e6 = enc_auth(c.verf);
    let e7 = enc_opaque(c.data);
    let t6 = e7 + rest;
    let t5 = e6 + t6;
    let t4 = e5 + t5;
    let t3 = e4 + t4;
    let t2 = e3 + t3;
    let t1 = e2 + t2;
    seq_assoc(e1 + e2 + e3 + e4 + e5 + e6, e7, rest);
    seq_assoc(e1 + e2 + e3 + e4 + e5, e6, t6);
    seq_assoc(e1 + e2 + e3 + e4, e5, t5);
    seq_assoc(e1 + e2 + e3, e4, t4);
    seq_assoc(e1 + e2, e3, t3);
    seq_assoc(e1, e2, t2);
    assert(enc_call(c) + rest == e1 + t1);
    lemma_rt_u32(c.rpc_vers, t1);
    lemma_rt_u32(c.prog, t2);
    lemma_rt_u32(c.prog_vers, t3);
    lemma_rt_u32(c.proc, t4);
    lemma_rt_auth(c.cred, t5);
    lemma_rt_auth(c.verf, t6);
    lemma_rt_opaque(c.data, rest);
}

pub proof fn lemma_rt_accepted(a: AcceptedReplyV, rest: Seq<u8>)
    requires
        wf_auth(a.verf),
        a.data.len() <= u32::MAX,
    ensures
        dec_accepted(enc_accepted(a) + rest) == Some((a, rest)),
{
    let e1 = enc_auth(a.verf);
    let e2 = enc_u32(a.stat);
    let e3 = enc_opaque(a.data);
    let t2 = e3 + rest;
    let t1 = e2 + t2;
    seq_assoc(e1 + e2, e3, rest);
    seq_assoc(e1, e2, t2);
    lemma_rt_auth(a.verf, t1);
    lemma_rt_u32(a.stat, t2);
    lemma_rt_opaque(a.data, rest);
}

pub proof fn lemma_rt_rejected(a: RejectedReplyV, rest: Seq<u8>)
    requires
        a.data.len() <= u32::MAX,
    ensures
        dec_rejected(enc_rejected(a) + rest) == Some((a, rest)),
{
    seq_assoc(enc_u32(a.stat), enc_opaque(a.data), rest);
    lemma_rt_u32(a.stat, enc_opaque(a.data) + rest);
    lemma_rt_opaque(a.data, rest);
}

pub proof fn lemma_rt_reply_data(d: ReplyDataV, rest: Seq<u8>)
    requires
        wf_reply_data(d),
    ensures
        dec_reply_data(enc_reply_data(d) + rest) == Some((d, rest)),
{
    match d {
        ReplyDataV::Accepted(a) => {
            seq_assoc(enc_u32(0), enc_accepted(a), rest);
            lemma_rt_u32(0, enc_accepted(a) + rest);
            lemma_rt_accepted(a, rest);
        },
        ReplyDataV::Rejected(a) => {
            seq_assoc(enc_u32(1), enc_rejected(a), rest);
            lemma_rt_u32(1, enc_rejected(a) + rest);
            lemma_rt_rejected(a, rest);
        },
    }
}

pub proof fn lemma_rt_reply(r: ReplyBodyV, rest: Seq<u8>)
    requires
        wf_reply_data(r.data),
    ensures
        dec_reply(enc_reply(r) + rest) == Some((r, rest)),
{
    seq_assoc(enc_u32(r.reply_stat), enc_reply_data(r.data), rest);
    lemma_rt_u32(r.reply_stat, enc_reply_data(r.data) + rest);
    lemma_rt_reply_data(r.data, rest);
}

pub proof fn lemma_rt_body(b: RpcMsgBodyV, rest: Seq<u8>)
    requires
        match b {
            RpcMsgBodyV::Call(c) => wf_call(c),
            RpcMsgBodyV::Reply(r) => wf_reply_data(r.data),
        },
    ensures
        dec_body(enc_body(b) + rest) == Some((b, rest)),
{
    match b {
        RpcMsgBodyV::Call(c) => {
            seq_assoc(enc_u32(0), enc_call(c), rest);
            lemma_rt_u32(0, enc_call(c) + rest);
            lemma_rt_call(c, rest);
        },
        RpcMsgBodyV::Reply(r) => {
            seq_assoc(enc_u32(1), enc_reply(r), rest);
            lemma_rt_u32(1, enc_reply(r) + rest);
            lemma_rt_reply(r, rest);
        },
    }
}

/// Decoding an encoded RPC message yields the message back.
pub proof fn lemma_rt_msg(m: RpcMsgV, rest: Seq<u8>)
    requires
        wf_msg(m),
    ensures
        dec_msg(enc_msg(m) + rest) == Some((m, rest)),
{
    seq_assoc(enc_u32(m.xid), enc_body(m.body), rest);
    lemma_rt_u32(m.xid, enc_body(m.body) + rest);
    lemma_rt_body(m.body, rest);
}

// ---------------------------------------------------------------------------
// Record marking
// ---------------------------------------------------------------------------

/// A single-fragment record: the 31-bit length with the last-fragment
/// bit set, then the payload bytes.
pub open spec fn spec_frame(p: Seq<u8>) -> Seq<u8>
    recommends
        p.len() <= MAX_FRAGMENT_LEN,
{
    enc_u32((0x80000000 + p.len()) as u32) + p
}

/// Reassembles the fragments of one record from the head of the stream:
/// the record's payload and the bytes that follow it, or nothing if the
/// record is still incomplete.
pub open spec fn spec_unframe(s: Seq<u8>) -> Option<(Seq<u8>, Seq<u8>)>
    decreases s.len(),
{
    match dec_u32(s) {
        None => None,
        Some((hdr, r)) => {
            let flen = (hdr % 0x80000000) as int;
            if r.len() >= flen {
                let payload = r.take(flen);
                let rest = r.skip(flen);
                if hdr >= 0x80000000 {
                    Some((payload, rest))
                } else {
                    match spec_unframe(rest) {
                        None => None,
                        Some((p2, rest2)) => Some((payload + p2, rest2)),
                    }
                }
            } else {
                None
            }
        },
    }
}

/// The concatenation of single-fragment records, one per payload.
pub open spec fn spec_frames(ps: Seq<Seq<u8>>) -> Seq<u8>
    decreases ps.len(),
{
    if ps.len() == 0 {
        Seq::<u8>::empty()
    } else {
        spec_frame(ps[0]) + spec_frames(ps.drop_first())
    }
}

/// Unframing a framed payload yields the payload back, whatever follows.
pub proof fn lemma_rt_frame(p: Seq<u8>, rest: Seq<u8>)
    requires
        p.len() <= MAX_FRAGMENT_LEN,
    ensures
        spec_unframe(spec_frame(p) + rest) == Some((p, rest)),
{
    let hdr = (0x80000000 + p.len()) as u32;
    seq_assoc(enc_u32(hdr), p, rest);
    lemma_rt_u32(hdr, p + rest);
    assert(hdr % 0x80000000 == p.len());
    assert_seqs_equal!((p + rest).take(p.len() as int) == p);
    lemma_concat_skip(p, rest);
}

/// On a stream that is a concatenation of well-formed records, each
/// unframe step returns the next record's payload exactly; applying it
/// repeatedly recovers every payload in order.
pub proof fn lemma_unframe_concat(ps: Seq<Seq<u8>>, rest: Seq<u8>)
    requires
        ps.len() > 0,
        forall|i: int| 0 <= i < ps.len() ==> (#[trigger] ps[i]).len() <= MAX_FRAGMENT_LEN,
    ensures
        spec_unframe(spec_frames(ps) + rest) == Some((ps[0], spec_frames(ps.drop_first()) + rest)),
{
    seq_assoc(spec_frame(ps[0]), spec_frames(ps.drop_first()), rest);
    lemma_rt_frame(ps[0], spec_frames(ps.drop_first()) + rest);
}

// ---------------------------------------------------------------------------
// Executable codec
// ---------------------------------------------------------------------------

fn check_wf_auth(a: &OpaqueAuth) -> (r: bool)
    ensures
        r == wf_auth(a.deep_view()),
{
    a.body.len() <= u32::MAX as usize
}

fn check_wf_msg(m: &RpcMsg) -> (r: bool)
    ensures
        r == wf_msg(m.deep_view()),
{
    match &m.body {
        RpcMsgBody::Call(c) => check_wf_auth(&c.cred) && check_wf_auth(&c.verf) && c.data.len()
            <= u32::MAX as usize,
        RpcMsgBody::Reply(r) => match &r.data {
            ReplyData::Accepted(a) => check_wf_auth(&a.verf) && a.data.len() <= u32::MAX as usize,
            ReplyData::Rejected(a) => a.data.len() <= u32::MAX as usize,
        },
    }
}

fn encode_auth(out: &mut Vec<u8>, a: &OpaqueAuth)
    requires
        wf_auth(a.deep_view()),
    ensures
        final(out)@ == old(out)@ + enc_auth(a.deep_view()),
{
    encode_u32(out, a.flavor);
    encode_opaque(out, a.body.as_slice());
    proof {
        seq_assoc(old(out)@, enc_u32(a.flavor), enc_opaque(a.body@));
    }
}

fn encode_call(out: &mut Vec<u8>, c: &CallBody)
    requires
        wf_call(c.deep_view()),
    ensures
        final(out)@ == old(out)@ + enc_call(c.deep_view()),
{
    let ghost e1 = enc_u32(c.rpc_vers);
    let ghost e2 = enc_u32(c.prog);
    let ghost e3 = enc_u32(c.prog_vers);
    let ghost e4 = enc_u32(c.proc);
    let ghost e5 = enc_auth(c.cred.deep_view());
    let ghost e6 = enc_auth(c.verf.deep_view());
    let ghost e7 = enc_opaque(c.data@);
    encode_u32(out, c.rpc_vers);
    encode_u32(out, c.prog);
    encode_u32(out, c.prog_vers);
    encode_u32(out, c.proc);
    encode_auth(out, &c.cred);
    encode_auth(out, &c.verf);
    encode_opaque(out, c.data.as_slice());
    proof {
        seq_assoc(old(out)@, e1, e2);
        seq_assoc(old(out)@, e1 + e2, e3);
        seq_assoc(old(out)@, e1 + e2 + e3, e4);
        seq_assoc(old(out)@, e1 + e2 + e3 + e4, e5);
        seq_assoc(old(out)@, e1 + e2 + e3 + e4 + e5, e6);
        seq_assoc(old(out)@, e1 + e2 + e3 + e4 + e5 + e6, e7);
    }
}

fn encode_reply_data(out: &mut Vec<u8>, d: &ReplyData)
    requires
        wf_reply_data(d.deep_view()),
    ensures
        final(out)@ == old(out)@ + enc_reply_data(d.deep_view()),
{
    match d {
        ReplyData::Accepted(a) => {
            let ghost e1 = enc_u32(0);
            let ghost e2 = enc_auth(a.verf.deep_view());
            let ghost e3 = enc_u32(a.stat);
            let ghost e4 = enc_opaque(a.data@);
            encode_u32(out, 0);
            encode_auth(out, &a.verf);
            encode_u32(out, a.stat);
            encode_opaque(out, a.data.as_slice());
            proof {
                seq_assoc(old(out)@, e1, e2);
                seq_assoc(old(out)@, e1 + e2, e3);
                seq_assoc(old(out)@, e1 + e2 + e3, e4);
                seq_assoc(e1, e2 + e3, e4);
                seq_assoc(e1, e2, e3);
            }
        },
        ReplyData::Rejected(a) => {
            let ghost e1 = enc_u32(1);
            let ghost e2 = enc_u32(a.stat);
            let ghost e3 = enc_opaque(a.data@);
            encode_u32(out, 1);
            encode_u32(out, a.stat);
            encode_opaque(out, a.data.as_slice());
            proof {
                seq_assoc(old(out)@, e1, e2);
                seq_assoc(old(out)@, e1 + e2, e3);
                seq_assoc(e1, e2, e3);
            }
        },
    }
}

impl RpcMsg {
    pub fn new_call(xid: u32, prog: u32, prog_vers: u32, proc: u32, data: Vec<u8>) -> (r: RpcMsg)
        ensures
            r.deep_view() == (RpcMsgV {
                xid,
                body: RpcMsgBodyV::Call(
                    CallBodyV {
                        rpc_vers: RPC_VERSION,
                        prog,
                        prog_vers,
                        proc,
                        cred: OpaqueAuthV { flavor: AUTH_NONE, body: Seq::<u8>::empty() },
                        verf: OpaqueAuthV { flavor: AUTH_NONE, body: Seq::<u8>::empty() },
                        data: data@,
                    },
                ),
            }),
            data@.len() <= u32::MAX ==> wf_msg(r.deep_view()),
    {
        RpcMsg {
            xid,
            body: RpcMsgBody::Call(
                CallBody {
                    rpc_vers: RPC_VERSION,
                    prog,
                    prog_vers,
                    proc,
                    cred: OpaqueAuth { flavor: AUTH_NONE, body: Vec::new() },
                    verf: OpaqueAuth { flavor: AUTH_NONE, body: Vec::new() },
                    data,
                },
            ),
        }
    }

    pub fn new_success_reply(xid: u32, data: Vec<u8>) -> (r: RpcMsg)
        ensures
            r.deep_view() == (RpcMsgV {
                xid,
                body: RpcMsgBodyV::Reply(
                    ReplyBodyV {
                        reply_stat: MSG_ACCEPTED,
                        data: ReplyDataV::Accepted(
                            AcceptedReplyV {
                                verf: OpaqueAuthV { flavor: AUTH_NONE, body: Seq::<u8>::empty() },
                                stat: SUCCESS,
                                data: data@,
                            },
                        ),
                    },
                ),
            }),
            data@.len() <= u32::MAX ==> wf_msg(r.deep_view()),
    {
        RpcMsg {
            xid,
            body: RpcMsgBody::Reply(
                ReplyBody {
                    reply_stat: MSG_ACCEPTED,
                    data: ReplyData::Accepted(
                        AcceptedReply {
                            verf: OpaqueAuth { flavor: AUTH_NONE, body: Vec::new() },
                            stat: SUCCESS,
                            data,
                        },
                    ),
                },
            ),
        }
    }

    pub fn new_prog_mismatch_reply(xid: u32) -> (r: RpcMsg)
        ensures
            r.deep_view() == (RpcMsgV {
                xid,
                body: RpcMsgBodyV::Reply(
                    ReplyBodyV {
                        reply_stat: MSG_ACCEPTED,
                        data: ReplyDataV::Accepted(
                            AcceptedReplyV {
                                verf: OpaqueAuthV { flavor: AUTH_NONE, body: Seq::<u8>::empty() },
                                stat: PROG_MISMATCH,
                                data: Seq::<u8>::empty(),
                            },
                        ),
                    },
                ),
            }),
            wf_msg(r.deep_view()),
    {
        RpcMsg {
            xid,
            body: RpcMsgBody::Reply(
                ReplyBody {
                    reply_stat: MSG_ACCEPTED,
                    data: ReplyData::Accepted(
                        AcceptedReply {
                            verf: OpaqueAuth { flavor: AUTH_NONE, body: Vec::new() },
                            stat: PROG_MISMATCH,
                            data: Vec::new(),
                        },
                    ),
                },
            ),
        }
    }

    pub fn new_garbage_args_reply(xid: u32) -> (r: RpcMsg)
        ensures
            r.deep_view() == (RpcMsgV {
                xid,
                body: RpcMsgBodyV::Reply(
                    ReplyBodyV {
                        reply_stat: MSG_ACCEPTED,
                        data: ReplyDataV::Accepted(
                            AcceptedReplyV {
                                verf: OpaqueAuthV { flavor: AUTH_NONE, body: Seq::<u8>::empty() },
                                stat: GARBAGE_ARGS,
                                data: Seq::<u8>::empty(),
                            },
                        ),
                    },
                ),
            }),
            wf_msg(r.deep_view()),
    {
        RpcMsg {
            xid,
            body: RpcMsgBody::Reply(
                ReplyBody {
                    reply_stat: MSG_ACCEPTED,
                    data: ReplyData::Accepted(
                        AcceptedReply {
                            verf: OpaqueAuth { flavor: AUTH_NONE, body: Vec::new() },
                            stat: GARBAGE_ARGS,
                            data: Vec::new(),
                        },
                    ),
                },
            ),
        }
    }

    /// Encodes the message, failing exactly when some field is too
    /// large for its 32-bit length prefix.
    pub fn encode(&self) -> (res: Result<Vec<u8>, XdrError>)
        ensures
            res is Ok <==> wf_msg(self.deep_view()),
            res matches Ok(b) ==> b@ == enc_msg(self.deep_view()),
    {
        if !check_wf_msg(self) {
            return Err(XdrError::BadEncoding);
        }
        let mut out: Vec<u8> = Vec::new();
        encode_u32(&mut out, self.xid);
        let ghost e1 = enc_u32(self.xid);
        match &self.body {
            RpcMsgBody::Call(c) => {
                encode_u32(&mut out, 0);
                encode_call(&mut out, c);
                proof {
                    seq_assoc(e1, enc_u32(0), enc_call(c.deep_view()));
                }
            },
            RpcMsgBody::Reply(r) => {
                let ghost e2 = enc_u32(1);
                let ghost e3 = enc_u32(r.reply_stat);
                let ghost e4 = enc_reply_data(r.data.deep_view());
                encode_u32(&mut out, 1);
                encode_u32(&mut out, r.reply_stat);
                encode_reply_data(&mut out, &r.data);
                proof {
                    seq_assoc(e1, e2, e3 + e4);
                    seq_assoc(e1 + e2, e3, e4);
                    seq_assoc(e2, e3, e4);
                }
            },
        }
        Ok(out)
    }

    /// Decodes a message from the start of the buffer, failing exactly
    /// when the bytes are not a valid encoding.
    pub fn decode(buf: &Vec<u8>) -> (r: Result<RpcMsg, XdrError>)
        ensures
            r is Ok <==> dec_msg(buf@) is Some,
            r matches Ok(m) ==> (dec_msg(buf@) matches Some((w, rem)) && m.deep_view() == w),
    {
        proof {
            assert_seqs_equal!(buf@.skip(0) == buf@);
        }
        let (xid, p1) = decode_u32(buf, 0)?;
        let (body, _end) = decode_body(buf, p1)?;
        Ok(RpcMsg { xid, body })
    }
}

fn decode_auth(buf: &Vec<u8>, pos: usize) -> (r: Result<(OpaqueAuth, usize), XdrError>)
    requires
        pos <= buf@.len(),
    ensures
        match r {
            Ok((v, end)) => pos <= end <= buf@.len() && dec_auth(buf@.skip(pos as int)) == Some(
                (v.deep_view(), buf@.skip(end as int)),
            ),
            Err(_) => dec_auth(buf@.skip(pos as int)) is None,
        },
{
    let (flavor, p1) = decode_u32(buf, pos)?;
    let (body, end) = decode_opaque(buf, p1)?;
    Ok((OpaqueAuth { flavor, body }, end))
}

#[verifier::rlimit(50)]
fn decode_call(buf: &Vec<u8>, pos: usize) -> (r: Result<(CallBody, usize), XdrError>)
    requires
        pos <= buf@.len(),
    ensures
        match r {
            Ok((v, end)) => pos <= end <= buf@.len() && dec_call(buf@.skip(pos as int)) == Some(
                (v.deep_view(), buf@.skip(end as int)),
            ),
            Err(_) => dec_call(buf@.skip(pos as int)) is None,
        },
{
    let (rpc_vers, p1) = decode_u32(buf, pos)?;
    let (prog, p2) = decode_u32(buf, p1)?;
    let (prog_vers, p3) = decode_u32(buf, p2)?;
    let (proc, p4) = decode_u32(buf, p3)?;
    let (cred, p5) = decode_auth(buf, p4)?;
    let (verf, p6) = decode_auth(buf, p5)?;
    let (data, end) = decode_opaque(buf, p6)?;
    Ok((CallBody { rpc_vers, prog, prog_vers, proc, cred, verf, data }, end))
}

fn decode_reply_data(buf: &Vec<u8>, pos: usize) -> (r: Result<(ReplyData, usize), XdrError>)
    requires
        pos <= buf@.len(),
    ensures
        match r {
            Ok((v, end)) => pos <= end <= buf@.len() && dec_reply_data(buf@.skip(pos as int))
                == Some((v.deep_view(), buf@.skip(end as int))),
            Err(_) => dec_reply_data(buf@.skip(pos as int)) is None,
        },
{
    let (tag, p1) = decode_u32(buf, pos)?;
    if tag == 0 {
        let (verf, p2) = decode_auth(buf, p1)?;
        let (stat, p3) = decode_u32(buf, p2)?;
        let (data, end) = decode_opaque(buf, p3)?;
        Ok((ReplyData::Accepted(AcceptedReply { verf, stat, data }), end))
    } else if tag == 1 {
        let (stat, p2) = decode_u32(buf, p1)?;
        let (data, end) = decode_opaque(buf, p2)?;
        Ok((ReplyData::Rejected(RejectedReply { stat, data }), end))
    } else {
        Err(XdrError::BadEncoding)
    }
}

fn decode_body(buf: &Vec<u8>, pos: usize) -> (r: Result<(RpcMsgBody, usize), XdrError>)
    requires
        pos <= buf@.len(),
    ensures
        match r {
            Ok((v, end)) => pos <= end <= buf@.len() && dec_body(buf@.skip(pos as int)) == Some(
                (v.deep_view(), buf@.skip(end as int)),
            ),
            Err(_) => dec_body(buf@.skip(pos as int)) is None,
        },
{
    let (tag, p1) = decode_u32(buf, pos)?;
    if tag == 0 {
        let (c, end) = decode_call(buf, p1)?;
        Ok((RpcMsgBody::Call(c), end))
    } else if tag == 1 {
        let (reply_stat, p2) = decode_u32(buf, p1)?;
        let (data, end) = decode_reply_data(buf, p2)?;
        Ok((RpcMsgBody::Reply(ReplyBody { reply_stat, data }), end))
    } else {
        Err(XdrError::BadEncoding)
    }
}

// ---------------------------------------------------------------------------
// Executable framer
// ---------------------------------------------------------------------------

/// Reassembles one record from `buf[pos..]`: its payload and the
/// position just past it, or nothing while the record is incomplete.
pub fn unframe(buf: &Vec<u8>, pos: usize) -> (r: Option<(Vec<u8>, usize)>)
    requires
        pos <= buf@.len(),
    ensures
        match r {
            Some((p, end)) => pos <= end <= buf@.len() && spec_unframe(buf@.skip(pos as int))
                == Some((p@, buf@.skip(end as int))),
            None => spec_unframe(buf@.skip(pos as int)) is None,
        },
    decreases buf@.len() - pos,
{
    let hdr_res = decode_u32(buf, pos);
    match hdr_res {
        Err(_) => None,
        Ok((hdr, p1)) => {
            let flen: u32 = hdr % 0x80000000;
            if ((buf.len() - p1) as u64) < flen as u64 {
                return None;
            }
            let frag_end: usize = p1 + flen as usize;
            let mut payload = copy_range(buf, p1, frag_end);
            proof {
                let s = buf@.skip(pos as int);
                let rseq = buf@.skip(p1 as int);
                assert_seqs_equal!(rseq.take(flen as int)
                    == buf@.subrange(p1 as int, frag_end as int));
                lemma_skip_skip(buf@, p1 as int, flen as int);
            }
            if hdr >= 0x80000000 {
                Some((payload, frag_end))
            } else {
                match unframe(buf, frag_end) {
                    None => None,
                    Some((p2, end)) => {
                        push_bytes(&mut payload, p2.as_slice());
                        Some((payload, end))
                    },
                }
            }
        },
    }
}

/// Writes one single-fragment record carrying the message, failing
/// exactly when the message cannot be encoded or its encoding does not
/// fit one fragment.
pub fn write_rpc_message(msg: &RpcMsg, buf: &mut Vec<u8>) -> (r: Result<(), XdrError>)
    ensures
        r is Ok <==> wf_msg(msg.deep_view()) && enc_msg(msg.deep_view()).len()
            <= MAX_FRAGMENT_LEN,
        r is Ok ==> final(buf)@ == old(buf)@ + spec_frame(enc_msg(msg.deep_view())),
        r is Err ==> final(buf)@ == old(buf)@,
{
    let encoded = match msg.encode() {
        Ok(e) => e,
        Err(e) => {
            return Err(e);
        },
    };
    if encoded.len() > MAX_FRAGMENT_LEN as usize {
        return Err(XdrError::BadEncoding);
    }
    let hdr: u32 = 0x80000000u32 + encoded.len() as u32;
    encode_u32(buf, hdr);
    push_bytes(buf, encoded.as_slice());
    proof {
        seq_assoc(old(buf)@, enc_u32(hdr), encoded@);
    }
    Ok(())
}

/// Takes one complete record off the front of the buffer and decodes
/// it; leaves the buffer unchanged while the record is incomplete.
pub fn read_rpc_message(buf: &mut Vec<u8>) -> (r: Option<Result<RpcMsg, XdrError>>)
    ensures
        spec_unframe(old(buf)@) is None ==> r is None && final(buf)@ == old(buf)@,
        spec_unframe(old(buf)@) matches Some((payload, rest)) ==> final(buf)@ == rest && (match r {
            Some(res) => {
                &&& res is Ok <==> dec_msg(payload) is Some
                &&& (res matches Ok(m) ==> (dec_msg(payload) matches Some((w, _))
                    && m.deep_view() == w))
            },
            None => false,
        }),
{
    proof {
        assert_seqs_equal!(old(buf)@.skip(0) == old(buf)@);
    }
    match unframe(buf, 0) {
        None => None,
        Some((payload, end)) => {
            let rest = copy_range(buf, end, buf.len());
            proof {
                assert_seqs_equal!(rest@ == old(buf)@.skip(end as int));
            }
            *buf = rest;
            Some(RpcMsg::decode(&payload))
        },
    }
}

} // verus!
