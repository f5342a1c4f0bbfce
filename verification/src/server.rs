//! The NFSv4 server: the COMPOUND executor and its operation handlers.
//!
//! The server owns the modeled export tree, the filehandle table and
//! the open-state table, and answers one COMPOUND request at a time.
//! Within a request the operations run strictly in order, threading a
//! current-filehandle cursor, and the first non-OK status ends the
//! sequence; its results list holds exactly the operations executed.

use vstd::prelude::*;
use vstd::assert_seqs_equal;
use crate::fs::{Fs, FsAction, FsActionV, FsMeta, FsNode, FsNodeV, valid_name, valid_path, is_valid_name,
    split_path, spec_split_path, all_components_valid,
    path_child, path_parent, clone_path, read_content, write_content, spec_space_used,
    space_used_for, dec_digits, u32_to_decimal};
use crate::handles::{HandleTable, StateidTable, FileState, FileStateV};
use crate::protocol::{NfsTime, NfsFileHandle, NfsFileAttributes, NfsStatus, NfsOperation,
    NfsOperationV, OperationResultV, OperationDataV, CloseOperationV, CreateOperationV,
    LookupOperationV, OpenOperationV, OpenClaimV, OpenConfirmOperationV, ReadOperationV,
    WriteOperationV, GetAttrOperationV, CompoundRequestV, CompoundResponseV,
    OperationResult, OperationData, CompoundRequest, CompoundResponse, AccessOperation,
    CloseOperation, CommitOperation, CreateOperation, GetAttrOperation, GetFhOperation,
    LookupOperation, LookuppOperation, OpenOperation, OpenClaim, OpenConfirmOperation,
    ReadOperation, WriteOperation, ACCESS4_READ, ACCESS4_MODIFY, ACCESS4_EXTEND, ACCESS4_EXECUTE,
    NF4REG, NF4DIR};
use crate::xdr::copy_range;
use crate::rpc::{RpcMsg, RpcMsgBody, RpcMsgBodyV, RpcMsgV, ReplyBody, ReplyBodyV, ReplyData,
    ReplyDataV, AcceptedReply, AcceptedReplyV, OpaqueAuth, OpaqueAuthV, MSG_ACCEPTED, SUCCESS,
    PROG_MISMATCH, PROC_UNAVAIL, GARBAGE_ARGS, AUTH_NONE};
use crate::codec::{dec_req, enc_resp, wf_resp, decode_compound_request,
    encode_compound_response};
use crate::protocol::{NFS_PROGRAM, NFS_VERSION};

verus! {

/// How many fresh random tokens are drawn before an insert gives up;
/// collisions among 16-byte random tokens are astronomically rare, but
/// each candidate is still checked against the table and retried.
pub const FRESH_TOKEN_ATTEMPTS: usize = 16;

/// The mode bits a newly created regular file carries in the model.
pub const NEW_FILE_MODE: u32 = 0o644;

/// The mode bits a newly created directory carries in the model.
pub const NEW_DIR_MODE: u32 = 0o755;

/// Relies on `rand::fill`: sixteen bytes from the thread-local,
/// operating-system-seeded generator. Nothing is promised of the
/// value; callers check it against their tables and retry.
#[verifier::external_body]
fn random16() -> (r: [u8; 16]) {
    let mut b = [0u8; 16];
    rand::fill(&mut b[..]);
    b
}

/// Relies on `nix::unistd::Uid::current`: the process's real user id.
#[verifier::external_body]
fn current_uid() -> (r: u32) {
    nix::unistd::Uid::current().as_raw()
}

/// Relies on `nix::unistd::Gid::current`: the process's real group id.
#[verifier::external_body]
fn current_gid() -> (r: u32) {
    nix::unistd::Gid::current().as_raw()
}

fn clone_bytes(v: &Vec<u8>) -> (r: Vec<u8>)
    ensures
        r@ == v@,
{
    let r = copy_range(v, 0, v.len());
    proof {
        assert(r@ =~= v@);
    }
    r
}

fn vec_from_16(b: &[u8; 16]) -> (r: Vec<u8>)
    ensures
        r@ == b@,
{
    let mut r: Vec<u8> = Vec::new();
    let mut i: usize = 0;
    while i < 16
        invariant
            i <= 16,
            r@ =~= b@.take(i as int),
        decreases 16 - i,
    {
        r.push(b[i]);
        i = i + 1;
    }
    proof {
        assert(r@ =~= b@);
    }
    r
}

/// The rights the POSIX mode bits grant the server's identity: owner
/// bits if the uid matches, else group bits if the gid matches, else
/// the bits for others.
pub open spec fn spec_access_rights(mode: u32, fuid: u32, fgid: u32, uid: u32, gid: u32) -> u32 {
    if uid == fuid {
        ((if mode & 0o400 != 0 {
            ACCESS4_READ
        } else {
            0
        }) + (if mode & 0o200 != 0 {
            ACCESS4_MODIFY + ACCESS4_EXTEND
        } else {
            0
        }) + (if mode & 0o100 != 0 {
            ACCESS4_EXECUTE
        } else {
            0
        })) as u32
    } else if gid == fgid {
        ((if mode & 0o040 != 0 {
            ACCESS4_READ
        } else {
            0
        }) + (if mode & 0o020 != 0 {
            ACCESS4_MODIFY + ACCESS4_EXTEND
        } else {
            0
        }) + (if mode & 0o010 != 0 {
            ACCESS4_EXECUTE
        } else {
            0
        })) as u32
    } else {
        ((if mode & 0o004 != 0 {
            ACCESS4_READ
        } else {
            0
        }) + (if mode & 0o002 != 0 {
            ACCESS4_MODIFY + ACCESS4_EXTEND
        } else {
            0
        }) + (if mode & 0o001 != 0 {
            ACCESS4_EXECUTE
        } else {
            0
        })) as u32
    }
}

/// The attribute record GETATTR reports for a node.
pub open spec fn spec_attrs_of(n: FsNodeV) -> crate::protocol::NfsFileAttributesV {
    crate::protocol::NfsFileAttributesV {
        type_: if n.is_dir {
            NF4DIR
        } else {
            NF4REG
        },
        mode: n.meta.mode,
        size: n.content.len() as u64,
        space_used: spec_space_used(n.content.len() as u64),
        time_access: n.meta.atime,
        time_modify: n.meta.mtime,
        owner: dec_digits(n.meta.uid as int),
        group: dec_digits(n.meta.gid as int),
    }
}


// ---------------------------------------------------------------------------
// The server's model and the big-step semantics of one operation
// ---------------------------------------------------------------------------

/// The server's whole abstract state: the modeled export tree, the two
/// tables, the root handle, the server's identity, and the filesystem
/// effects recorded for replay.
pub struct ServerV {
    pub fs: Map<Seq<Seq<char>>, FsNodeV>,
    pub handles: Map<Seq<u8>, Seq<Seq<char>>>,
    pub stateids: Map<Seq<u8>, FileStateV>,
    pub root_fh: Option<Seq<u8>>,
    pub uid: u32,
    pub gid: u32,
    pub actions: Seq<FsActionV>,
}

impl View for NfsServer {
    type V = ServerV;

    open spec fn view(&self) -> ServerV {
        ServerV {
            fs: self.fs.as_map(),
            handles: self.handles.as_map(),
            stateids: self.stateids.as_map(),
            root_fh: match self.root_fh {
                Some(h) => Some(h@),
                None => None,
            },
            uid: self.uid,
            gid: self.gid,
            actions: self.actions.deep_view(),
        }
    }
}

pub open spec fn cursor_view(c: Option<NfsFileHandle>) -> Option<Seq<u8>> {
    match c {
        Some(fh) => Some(fh.data@),
        None => None,
    }
}

pub open spec fn sv_err(st: NfsStatus) -> OperationResultV {
    OperationResultV { status: st, result: None }
}

pub open spec fn sv_ok(d: OperationDataV) -> OperationResultV {
    OperationResultV { status: NfsStatus::Success, result: Some(d) }
}

/// Whether a minted token can serve as a fresh 16-byte key of the map.
pub open spec fn tok_fresh<T>(tok: Option<Seq<u8>>, m: Map<Seq<u8>, T>) -> bool {
    tok matches Some(t) && t.len() == 16 && !m.contains_key(t)
}

pub open spec fn spec_step_access(s: ServerV, cv: Option<Seq<u8>>, a: AccessOperation) -> (
    OperationResultV,
    ServerV,
) {
    match cv {
        None => (sv_err(NfsStatus::BadHandle), s),
        Some(h) => {
            if !s.handles.contains_key(h) {
                (sv_err(NfsStatus::StaleFileHandle), s)
            } else if !s.fs.contains_key(s.handles[h]) {
                (sv_err(NfsStatus::NoEnt), s)
            } else {
                let m = s.fs[s.handles[h]].meta;
                (
                    sv_ok(
                        OperationDataV::Access(
                            spec_access_rights(m.mode, m.uid, m.gid, s.uid, s.gid) & a.access,
                        ),
                    ),
                    s,
                )
            }
        },
    }
}

pub open spec fn spec_step_close(s: ServerV, a: CloseOperationV) -> (OperationResultV, ServerV) {
    if s.stateids.contains_key(a.open_stateid) {
        (
            OperationResultV { status: NfsStatus::Success, result: None },
            ServerV {
                fs: s.fs,
                handles: s.handles,
                stateids: s.stateids.remove(a.open_stateid),
                root_fh: s.root_fh,
                uid: s.uid,
                gid: s.gid,
                actions: s.actions,
            },
        )
    } else {
        (sv_err(NfsStatus::BadStateid), s)
    }
}

pub open spec fn spec_step_commit(s: ServerV, cv: Option<Seq<u8>>) -> (OperationResultV, ServerV) {
    match cv {
        None => (sv_err(NfsStatus::BadHandle), s),
        Some(h) => {
            if !s.handles.contains_key(h) {
                (sv_err(NfsStatus::StaleFileHandle), s)
            } else if !s.fs.contains_key(s.handles[h]) {
                (sv_err(NfsStatus::IoError), s)
            } else {
                let p = s.handles[h];
                (
                    OperationResultV { status: NfsStatus::Success, result: None },
                    ServerV {
                        fs: s.fs.insert(
                            p,
                            FsNodeV {
                                is_dir: s.fs[p].is_dir,
                                meta: s.fs[p].meta,
                                content: s.fs[p].content,
                                durable: true,
                            },
                        ),
                        handles: s.handles,
                        stateids: s.stateids,
                        root_fh: s.root_fh,
                        uid: s.uid,
                        gid: s.gid,
                        actions: s.actions.push(FsActionV::SyncNode(p)),
                    },
                )
            }
        },
    }
}

pub open spec fn spec_step_getattr(s: ServerV, cv: Option<Seq<u8>>) -> (OperationResultV, ServerV) {
    match cv {
        None => (sv_err(NfsStatus::BadHandle), s),
        Some(h) => {
            if !s.handles.contains_key(h) {
                (sv_err(NfsStatus::StaleFileHandle), s)
            } else if !s.fs.contains_key(s.handles[h]) {
                (sv_err(NfsStatus::NoEnt), s)
            } else {
                (sv_ok(OperationDataV::GetAttr(spec_attrs_of(s.fs[s.handles[h]]))), s)
            }
        },
    }
}

pub open spec fn spec_step_getfh(s: ServerV, cv: Option<Seq<u8>>, tok: Option<Seq<u8>>) -> (
    OperationResultV,
    ServerV,
) {
    match cv {
        Some(h) => (sv_ok(OperationDataV::GetFh(h)), s),
        None => match s.root_fh {
            Some(rh) => (sv_ok(OperationDataV::GetFh(rh)), s),
            None => {
                if tok_fresh(tok, s.handles) {
                    let t = tok->0;
                    (
                        sv_ok(OperationDataV::GetFh(t)),
                        ServerV {
                            fs: s.fs,
                            handles: s.handles.insert(t, Seq::<Seq<char>>::empty()),
                            stateids: s.stateids,
                            root_fh: Some(t),
                            uid: s.uid,
                            gid: s.gid,
                            actions: s.actions,
                        },
                    )
                } else {
                    (sv_err(NfsStatus::IoError), s)
                }
            },
        },
    }
}

pub open spec fn spec_step_lookup(
    s: ServerV,
    cv: Option<Seq<u8>>,
    a: LookupOperationV,
    tok: Option<Seq<u8>>,
) -> (OperationResultV, ServerV) {
    match cv {
        None => (sv_err(NfsStatus::BadHandle), s),
        Some(h) => {
            if !s.handles.contains_key(h) {
                (sv_err(NfsStatus::StaleFileHandle), s)
            } else if !valid_name(a.object_name) {
                (sv_err(NfsStatus::BadName), s)
            } else {
                let child = s.handles[h].push(a.object_name);
                if !s.fs.contains_key(child) {
                    (sv_err(NfsStatus::NoEnt), s)
                } else if tok_fresh(tok, s.handles) {
                    let t = tok->0;
                    (
                        sv_ok(OperationDataV::GetFh(t)),
                        ServerV {
                            fs: s.fs,
                            handles: s.handles.insert(t, child),
                            stateids: s.stateids,
                            root_fh: s.root_fh,
                            uid: s.uid,
                            gid: s.gid,
                            actions: s.actions,
                        },
                    )
                } else {
                    (sv_err(NfsStatus::IoError), s)
                }
            }
        },
    }
}

pub open spec fn spec_step_lookupp(s: ServerV, cv: Option<Seq<u8>>, tok: Option<Seq<u8>>) -> (
    OperationResultV,
    ServerV,
) {
    match cv {
        None => (sv_err(NfsStatus::BadHandle), s),
        Some(h) => {
            if !s.handles.contains_key(h) {
                (sv_err(NfsStatus::StaleFileHandle), s)
            } else if s.handles[h].len() == 0 {
                (sv_err(NfsStatus::NoEnt), s)
            } else if tok_fresh(tok, s.handles) {
                let t = tok->0;
                (
                    sv_ok(OperationDataV::GetFh(t)),
                    ServerV {
                        fs: s.fs,
                        handles: s.handles.insert(t, s.handles[h].drop_last()),
                        stateids: s.stateids,
                        root_fh: s.root_fh,
                        uid: s.uid,
                        gid: s.gid,
                        actions: s.actions,
                    },
                )
            } else {
                (sv_err(NfsStatus::IoError), s)
            }
        },
    }
}

/// The metadata a newly created object carries in the model.
pub open spec fn new_meta(s: ServerV, is_dir: bool) -> FsMeta {
    FsMeta {
        mode: if is_dir {
            NEW_DIR_MODE
        } else {
            NEW_FILE_MODE
        },
        uid: s.uid,
        gid: s.gid,
        atime: NfsTime { seconds: 0, nseconds: 0 },
        mtime: NfsTime { seconds: 0, nseconds: 0 },
    }
}

pub open spec fn spec_step_create(
    s: ServerV,
    cv: Option<Seq<u8>>,
    a: CreateOperationV,
    tok: Option<Seq<u8>>,
) -> (OperationResultV, ServerV) {
    match cv {
        None => (sv_err(NfsStatus::BadHandle), s),
        Some(h) => {
            if !s.handles.contains_key(h) {
                (sv_err(NfsStatus::StaleFileHandle), s)
            } else if !(a.object_type == NF4REG || a.object_type == NF4DIR) {
                (sv_err(NfsStatus::BadType), s)
            } else if !valid_name(a.object_name) {
                (sv_err(NfsStatus::BadName), s)
            } else {
                let parent = s.handles[h];
                let child = parent.push(a.object_name);
                if !s.fs.contains_key(parent) || !s.fs[parent].is_dir {
                    (sv_err(NfsStatus::IoError), s)
                } else if s.fs.contains_key(child) && (a.object_type == NF4DIR || s.fs[
                child].is_dir) {
                    (sv_err(NfsStatus::IoError), s)
                } else if tok_fresh(tok, s.handles) {
                    let t = tok->0;
                    let is_dir = a.object_type == NF4DIR;
                    (
                        sv_ok(OperationDataV::GetFh(t)),
                        ServerV {
                            fs: s.fs.insert(
                                child,
                                FsNodeV {
                                    is_dir,
                                    meta: if s.fs.contains_key(child) {
                                        s.fs[child].meta
                                    } else {
                                        new_meta(s, is_dir)
                                    },
                                    content: Seq::<u8>::empty(),
                                    durable: true,
                                },
                            ),
                            handles: s.handles.insert(t, child),
                            stateids: s.stateids,
                            root_fh: s.root_fh,
                            uid: s.uid,
                            gid: s.gid,
                            actions: s.actions.push(
                                if is_dir {
                                    FsActionV::CreateDir(child)
                                } else {
                                    FsActionV::CreateFile(child)
                                },
                            ),
                        },
                    )
                } else {
                    (sv_err(NfsStatus::IoError), s)
                }
            }
        },
    }
}

pub open spec fn spec_step_open(s: ServerV, a: OpenOperationV, tok: Option<Seq<u8>>) -> (
    OperationResultV,
    ServerV,
) {
    match a.open_claim {
        OpenClaimV::Null(p) => {
            let child = spec_split_path(p);
            if !valid_path(child) {
                (sv_err(NfsStatus::BadName), s)
            } else if s.fs.contains_key(child) && s.fs[child].is_dir {
                (sv_err(NfsStatus::IoError), s)
            } else if !s.fs.contains_key(child) && !(s.fs.contains_key(child.drop_last())
                && s.fs[child.drop_last()].is_dir) {
                (sv_err(NfsStatus::IoError), s)
            } else if tok_fresh(tok, s.stateids) {
                let t = tok->0;
                (
                    sv_ok(OperationDataV::Open(t)),
                    ServerV {
                        fs: if s.fs.contains_key(child) {
                            s.fs
                        } else {
                            s.fs.insert(
                                child,
                                FsNodeV {
                                    is_dir: false,
                                    meta: new_meta(s, false),
                                    content: Seq::<u8>::empty(),
                                    durable: true,
                                },
                            )
                        },
                        handles: s.handles,
                        stateids: s.stateids.insert(
                            t,
                            FileStateV {
                                path: child,
                                open_mode: a.share_access,
                                seqid: a.seqid,
                            },
                        ),
                        root_fh: s.root_fh,
                        uid: s.uid,
                        gid: s.gid,
                        actions: if s.fs.contains_key(child) {
                            s.actions
                        } else {
                            s.actions.push(FsActionV::CreateFile(child))
                        },
                    },
                )
            } else {
                (sv_err(NfsStatus::IoError), s)
            }
        },
        _ => (sv_err(NfsStatus::Error), s),
    }
}

pub open spec fn spec_step_open_confirm(s: ServerV, a: OpenConfirmOperationV) -> (
    OperationResultV,
    ServerV,
) {
    if s.stateids.contains_key(a.open_stateid) {
        (
            OperationResultV { status: NfsStatus::Success, result: None },
            ServerV {
                fs: s.fs,
                handles: s.handles,
                stateids: s.stateids.insert(
                    a.open_stateid,
                    FileStateV {
                        path: s.stateids[a.open_stateid].path,
                        open_mode: s.stateids[a.open_stateid].open_mode,
                        seqid: a.seqid,
                    },
                ),
                root_fh: s.root_fh,
                uid: s.uid,
                gid: s.gid,
                actions: s.actions,
            },
        )
    } else {
        (sv_err(NfsStatus::BadStateid), s)
    }
}

pub open spec fn spec_step_read(s: ServerV, a: ReadOperationV) -> (OperationResultV, ServerV) {
    if !s.stateids.contains_key(a.stateid) {
        (sv_err(NfsStatus::BadStateid), s)
    } else {
        let st = s.stateids[a.stateid];
        if st.open_mode & ACCESS4_READ == 0 {
            (sv_err(NfsStatus::IoError), s)
        } else if !s.fs.contains_key(st.path) || s.fs[st.path].is_dir {
            (sv_err(NfsStatus::IoError), s)
        } else {
            (
                sv_ok(
                    OperationDataV::Read(
                        read_content(s.fs[st.path].content, a.offset as int, a.count as int),
                    ),
                ),
                s,
            )
        }
    }
}

pub open spec fn spec_step_write(s: ServerV, a: WriteOperationV) -> (OperationResultV, ServerV) {
    if !s.stateids.contains_key(a.stateid) {
        (sv_err(NfsStatus::BadStateid), s)
    } else {
        let st = s.stateids[a.stateid];
        if st.open_mode & (ACCESS4_MODIFY | ACCESS4_EXTEND) == 0 {
            (sv_err(NfsStatus::IoError), s)
        } else if !s.fs.contains_key(st.path) || s.fs[st.path].is_dir || a.offset + a.data.len()
            > usize::MAX {
            (sv_err(NfsStatus::IoError), s)
        } else {
            (
                sv_ok(
                    OperationDataV::Write(
                        if a.data.len() <= u32::MAX {
                            a.data.len() as u32
                        } else {
                            u32::MAX
                        },
                    ),
                ),
                ServerV {
                    fs: s.fs.insert(
                        st.path,
                        FsNodeV {
                            is_dir: false,
                            meta: s.fs[st.path].meta,
                            content: write_content(s.fs[st.path].content, a.offset as int, a.data),
                            durable: a.stable != 0,
                        },
                    ),
                    handles: s.handles,
                    stateids: s.stateids,
                    root_fh: s.root_fh,
                    uid: s.uid,
                    gid: s.gid,
                    actions: s.actions.push(
                        FsActionV::WriteFile(st.path, a.offset, a.data, a.stable != 0),
                    ),
                },
            )
        }
    }
}

/// What one operation does to the server: the result appended to the
/// response and the state it leaves, as a function of the state, the
/// current-filehandle cursor, and the random token the operation may
/// mint. A token that is absent or unusable leaves the failure the
/// generator reports.
pub open spec fn spec_step_op(
    s: ServerV,
    cv: Option<Seq<u8>>,
    op: NfsOperationV,
    tok: Option<Seq<u8>>,
) -> (OperationResultV, ServerV) {
    match op {
        NfsOperationV::Access(a) => spec_step_access(s, cv, a),
        NfsOperationV::Close(a) => spec_step_close(s, a),
        NfsOperationV::Commit(_) => spec_step_commit(s, cv),
        NfsOperationV::Create(a) => spec_step_create(s, cv, a, tok),
        NfsOperationV::GetAttr(_) => spec_step_getattr(s, cv),
        NfsOperationV::GetFh(_) => spec_step_getfh(s, cv, tok),
        NfsOperationV::Lookup(a) => spec_step_lookup(s, cv, a, tok),
        NfsOperationV::Lookupp(_) => spec_step_lookupp(s, cv, tok),
        NfsOperationV::Open(a) => spec_step_open(s, a, tok),
        NfsOperationV::OpenConfirm(a) => spec_step_open_confirm(s, a),
        NfsOperationV::Read(a) => spec_step_read(s, a),
        NfsOperationV::Write(a) => spec_step_write(s, a),
    }
}

/// A handler call realizes its operation's step semantics: for the
/// token it minted — readable off the result it returned — the result
/// and the state it left are exactly the step function's.
pub open spec fn step_correspondence(
    pre: ServerV,
    cv: Option<Seq<u8>>,
    op: NfsOperationV,
    r: OperationResult,
    post: ServerV,
) -> bool {
    ||| (r.deep_view(), post) == spec_step_op(pre, cv, op, None)
    ||| (r.result matches Some(OperationData::GetFh(nh)) && (r.deep_view(), post) == spec_step_op(
        pre,
        cv,
        op,
        Some(nh.data@),
    ))
    ||| (r.result matches Some(OperationData::Open(sid)) && (r.deep_view(), post) == spec_step_op(
        pre,
        cv,
        op,
        Some(sid@),
    ))
}

fn op_err(status: NfsStatus) -> (r: OperationResult)
    ensures
        r.status == status,
        r.result is None,
{
    OperationResult { status, result: None }
}

pub struct NfsServer {
    pub fs: Fs,
    pub handles: HandleTable,
    pub stateids: StateidTable,
    pub root_fh: Option<Vec<u8>>,
    pub uid: u32,
    pub gid: u32,
    pub actions: Vec<FsAction>,
}

impl NfsServer {
    /// Every table is well formed; if the export root's handle has been
    /// issued, it is bound to the root path.
    pub open spec fn wf(&self) -> bool {
        &&& self.fs.wf()
        &&& self.handles.wf()
        &&& self.stateids.wf()
        &&& match self.root_fh {
            Some(h) => h@.len() == 16 && self.handles.as_map().contains_key(h@)
                && self.handles.as_map()[h@] == Seq::<Seq<char>>::empty(),
            None => true,
        }
    }

    /// A server over an empty export owned by the given identity.
    pub fn new_with_identity(uid: u32, gid: u32) -> (r: NfsServer)
        ensures
            r.wf(),
            r.handles.as_map() == Map::<Seq<u8>, Seq<Seq<char>>>::empty(),
            r.stateids.as_map() == Map::<Seq<u8>, FileStateV>::empty(),
            r.fs.as_map().contains_key(Seq::<Seq<char>>::empty()),
            r.fs.as_map()[Seq::<Seq<char>>::empty()].is_dir,
            r.uid == uid,
            r.gid == gid,
            r.actions@.len() == 0,
    {
        NfsServer {
            fs: Fs::new(NEW_DIR_MODE, uid, gid),
            handles: HandleTable::new(),
            stateids: StateidTable::new(),
            root_fh: None,
            uid,
            gid,
            actions: Vec::new(),
        }
    }

    /// A server running as the current process's identity.
    pub fn new() -> (r: NfsServer)
        ensures
            r.wf(),
            r.handles.as_map() == Map::<Seq<u8>, Seq<Seq<char>>>::empty(),
            r.stateids.as_map() == Map::<Seq<u8>, FileStateV>::empty(),
    {
        NfsServer::new_with_identity(current_uid(), current_gid())
    }

    /// The path a filehandle resolves to, if the handle is known.
    pub fn resolve_handle(&self, fh: &NfsFileHandle) -> (r: Option<Vec<String>>)
        requires
            self.wf(),
        ensures
            r is Some <==> self.handles.as_map().contains_key(fh.data@),
            r matches Some(p) ==> p.deep_view() == self.handles.as_map()[fh.data@] && valid_path(
                p.deep_view(),
            ),
    {
        let r = self.handles.get(&fh.data);
        proof {
            if self.handles.as_map().contains_key(fh.data@) {
                lemma_handles_confined(&self.handles, fh.data@);
            }
        }
        r
    }

    /// A 16-byte handle no current filehandle uses, or nothing if the
    /// generator keeps colliding.
    fn fresh_handle(&self) -> (r: Option<Vec<u8>>)
        requires
            self.wf(),
        ensures
            r matches Some(h) ==> h@.len() == 16 && !self.handles.as_map().contains_key(h@),
    {
        let mut attempts: usize = 0;
        while attempts < FRESH_TOKEN_ATTEMPTS
            invariant
                self.wf(),
            decreases FRESH_TOKEN_ATTEMPTS - attempts,
        {
            let b = random16();
            let v = vec_from_16(&b);
            if !self.handles.contains(&v) {
                return Some(v);
            }
            attempts = attempts + 1;
        }
        None
    }

    /// A 16-byte stateid no open state uses, or nothing if the
    /// generator keeps colliding.
    fn fresh_stateid(&self) -> (r: Option<[u8; 16]>)
        requires
            self.wf(),
        ensures
            r matches Some(sid) ==> !self.stateids.as_map().contains_key(sid@),
    {
        let mut attempts: usize = 0;
        while attempts < FRESH_TOKEN_ATTEMPTS
            invariant
                self.wf(),
            decreases FRESH_TOKEN_ATTEMPTS - attempts,
        {
            let b = random16();
            if !self.stateids.contains(&b) {
                return Some(b);
            }
            attempts = attempts + 1;
        }
        None
    }

    /// ACCESS: the rights the mode bits grant the server's identity,
    /// masked by the rights the client asked about.
    pub fn handle_access(&self, args: &AccessOperation, current_fh: &Option<NfsFileHandle>) -> (r:
        OperationResult)
        requires
            self.wf(),
        ensures
            match current_fh {
                None => r.status == NfsStatus::BadHandle && r.result is None,
                Some(fh) => {
                    if !self.handles.as_map().contains_key(fh.data@) {
                        r.status == NfsStatus::StaleFileHandle && r.result is None
                    } else if !self.fs.as_map().contains_key(self.handles.as_map()[fh.data@]) {
                        r.status == NfsStatus::NoEnt && r.result is None
                    } else {
                        let meta = self.fs.as_map()[self.handles.as_map()[fh.data@]].meta;
                        r.status == NfsStatus::Success && r.result == Some(
                            OperationData::Access(
                                spec_access_rights(meta.mode, meta.uid, meta.gid, self.uid, self.gid)
                                    & args.access,
                            ),
                        )
                    }
                },
            },
            step_correspondence(
                self@,
                cursor_view(*current_fh),
                NfsOperationV::Access(*args),
                r,
                self@,
            ),
    {
        let fh = match current_fh {
            None => {
                return op_err(NfsStatus::BadHandle);
            },
            Some(fh) => fh,
        };
        let path = match self.handles.get(&fh.data) {
            None => {
                return op_err(NfsStatus::StaleFileHandle);
            },
            Some(p) => p,
        };
        let st = match self.fs.stat(&path) {
            None => {
                return op_err(NfsStatus::NoEnt);
            },
            Some(st) => st,
        };
        let m = st.meta;
        let allowed: u32 = if self.uid == m.uid {
            (if m.mode & 0o400 != 0 {
                ACCESS4_READ
            } else {
                0
            }) + (if m.mode & 0o200 != 0 {
                ACCESS4_MODIFY + ACCESS4_EXTEND
            } else {
                0
            }) + (if m.mode & 0o100 != 0 {
                ACCESS4_EXECUTE
            } else {
                0
            })
        } else if self.gid == m.gid {
            (if m.mode & 0o040 != 0 {
                ACCESS4_READ
            } else {
                0
            }) + (if m.mode & 0o020 != 0 {
                ACCESS4_MODIFY + ACCESS4_EXTEND
            } else {
                0
            }) + (if m.mode & 0o010 != 0 {
                ACCESS4_EXECUTE
            } else {
                0
            })
        } else {
            (if m.mode & 0o004 != 0 {
                ACCESS4_READ
            } else {
                0
            }) + (if m.mode & 0o002 != 0 {
                ACCESS4_MODIFY + ACCESS4_EXTEND
            } else {
                0
            }) + (if m.mode & 0o001 != 0 {
                ACCESS4_EXECUTE
            } else {
                0
            })
        };
        OperationResult {
            status: NfsStatus::Success,
            result: Some(OperationData::Access(allowed & args.access)),
        }
    }

    /// CLOSE: drops the open state the stateid names.
    pub fn handle_close(&mut self, args: &CloseOperation) -> (r: OperationResult)
        requires
            old(self).wf(),
        ensures
            final(self).wf(),
            final(self).fs == old(self).fs,
            final(self).handles == old(self).handles,
            final(self).root_fh == old(self).root_fh,
            r.result is None,
            final(self).actions == old(self).actions,
            old(self).stateids.as_map().contains_key(args.open_stateid@) ==> r.status
                == NfsStatus::Success && final(self).stateids.as_map() == old(self).stateids.as_map().remove(args.open_stateid@),
            !old(self).stateids.as_map().contains_key(args.open_stateid@) ==> r.status
                == NfsStatus::BadStateid && *final(self) == *old(self),
            forall|cv: Option<Seq<u8>>|
                step_correspondence(
                    old(self)@,
                    cv,
                    NfsOperationV::Close(
                        (CloseOperationV { seqid: args.seqid, open_stateid: args.open_stateid@ }),
                    ),
                    r,
                    final(self)@,
                ),
    {
        if self.stateids.remove(&args.open_stateid) {
            op_err(NfsStatus::Success)
        } else {
            op_err(NfsStatus::BadStateid)
        }
    }

    /// COMMIT: a full sync of the object the cursor names; afterwards
    /// its content is durable.
    pub fn handle_commit(&mut self, args: &CommitOperation, current_fh: &Option<NfsFileHandle>)
        -> (r: OperationResult)
        requires
            old(self).wf(),
        ensures
            final(self).wf(),
            final(self).handles == old(self).handles,
            final(self).stateids == old(self).stateids,
            final(self).root_fh == old(self).root_fh,
            r.result is None,
            match current_fh {
                None => r.status == NfsStatus::BadHandle && r.result is None && *final(self) == *old(self),
                Some(fh) => {
                    if !old(self).handles.as_map().contains_key(fh.data@) {
                        r.status == NfsStatus::StaleFileHandle && r.result is None && *final(self) == *old(self)
                    } else {
                        let path = old(self).handles.as_map()[fh.data@];
                        if !old(self).fs.as_map().contains_key(path) {
                            r.status == NfsStatus::IoError && r.result is None && *final(self) == *old(self)
                        } else {
                            r.status == NfsStatus::Success && final(self).fs.as_map() == old(self).fs.as_map().insert(
                                path,
                                (FsNodeV {
                                    is_dir: old(self).fs.as_map()[path].is_dir,
                                    meta: old(self).fs.as_map()[path].meta,
                                    content: old(self).fs.as_map()[path].content,
                                    durable: true,
                                }),
                            ) && final(self).fs.as_map()[path].durable && final(self).actions.deep_view() == old(self).actions.deep_view().push(
                                FsActionV::SyncNode(path),
                            )
                        }
                    }
                },
            },
            step_correspondence(
                old(self)@,
                cursor_view(*current_fh),
                NfsOperationV::Commit(*args),
                r,
                final(self)@,
            ),
    {
        let fh = match current_fh {
            None => {
                return op_err(NfsStatus::BadHandle);
            },
            Some(fh) => fh,
        };
        let path = match self.handles.get(&fh.data) {
            None => {
                return op_err(NfsStatus::StaleFileHandle);
            },
            Some(p) => p,
        };
        if self.fs.sync_node(&path) {
            let ghost a0 = self.actions.deep_view();
            let ghost pv = path.deep_view();
            self.actions.push(FsAction::SyncNode(path));
            proof {
                assert_seqs_equal!(self.actions.deep_view() == a0.push(FsActionV::SyncNode(pv)));
            }
            op_err(NfsStatus::Success)
        } else {
            op_err(NfsStatus::IoError)
        }
    }

    /// GETATTR: the node's type, mode, sizes, times, and its owner and
    /// group as decimal strings.
    pub fn handle_getattr(&self, _args: &GetAttrOperation, current_fh: &Option<NfsFileHandle>)
        -> (r: OperationResult)
        requires
            self.wf(),
        ensures
            match current_fh {
                None => r.status == NfsStatus::BadHandle && r.result is None,
                Some(fh) => {
                    if !self.handles.as_map().contains_key(fh.data@) {
                        r.status == NfsStatus::StaleFileHandle && r.result is None
                    } else if !self.fs.as_map().contains_key(self.handles.as_map()[fh.data@]) {
                        r.status == NfsStatus::NoEnt && r.result is None
                    } else {
                        let node = self.fs.as_map()[self.handles.as_map()[fh.data@]];
                        r.status == NfsStatus::Success && (r.result matches Some(
                            OperationData::GetAttr(a),
                        ) && a.deep_view() == spec_attrs_of(node))
                    }
                },
            },
            step_correspondence(
                self@,
                cursor_view(*current_fh),
                NfsOperationV::GetAttr((GetAttrOperationV { attr_request: _args.attr_request@ })),
                r,
                self@,
            ),
    {
        let fh = match current_fh {
            None => {
                return op_err(NfsStatus::BadHandle);
            },
            Some(fh) => fh,
        };
        let path = match self.handles.get(&fh.data) {
            None => {
                return op_err(NfsStatus::StaleFileHandle);
            },
            Some(p) => p,
        };
        let st = match self.fs.stat(&path) {
            None => {
                return op_err(NfsStatus::NoEnt);
            },
            Some(st) => st,
        };
        let attrs = NfsFileAttributes {
            type_: if st.is_dir {
                NF4DIR
            } else {
                NF4REG
            },
            mode: st.meta.mode,
            size: st.size,
            space_used: space_used_for(st.size),
            time_access: st.meta.atime,
            time_modify: st.meta.mtime,
            owner: u32_to_decimal(st.meta.uid),
            group: u32_to_decimal(st.meta.gid),
        };
        OperationResult { status: NfsStatus::Success, result: Some(OperationData::GetAttr(attrs)) }
    }

    /// GETFH: the current filehandle if the cursor is set; with the
    /// cursor unset, the export root's handle, issued and remembered on
    /// first use.
    pub fn handle_getfh(&mut self, _args: &GetFhOperation, current_fh: &Option<NfsFileHandle>)
        -> (r: OperationResult)
        requires
            old(self).wf(),
        ensures
            final(self).wf(),
            final(self).fs == old(self).fs,
            final(self).stateids == old(self).stateids,
            final(self).actions == old(self).actions,
            match current_fh {
                Some(fh) => *final(self) == *old(self) && r.status == NfsStatus::Success && (
                r.result matches Some(OperationData::GetFh(nh)) && nh.data@ == fh.data@),
                None => match old(self).root_fh {
                    Some(rh) => *final(self) == *old(self) && r.status == NfsStatus::Success && (
                    r.result matches Some(OperationData::GetFh(nh)) && nh.data@ == rh@),
                    None => {
                        ||| (r.status == NfsStatus::IoError && *final(self) == *old(self)
                            && r.result is None)
                        ||| (r.status == NfsStatus::Success && (r.result matches Some(
                            OperationData::GetFh(nh),
                        ) && nh.data@.len() == 16 && !old(self).handles.as_map().contains_key(
                            nh.data@,
                        ) && final(self).handles.as_map() == old(self).handles.as_map().insert(
                            nh.data@,
                            Seq::<Seq<char>>::empty(),
                        ) && (final(self).root_fh matches Some(rh2) && rh2@ == nh.data@)))
                    },
                },
            },
            step_correspondence(
                old(self)@,
                cursor_view(*current_fh),
                NfsOperationV::GetFh(GetFhOperation),
                r,
                final(self)@,
            ),
    {
        match current_fh {
            Some(fh) => {
                let data = clone_bytes(&fh.data);
                OperationResult {
                    status: NfsStatus::Success,
                    result: Some(OperationData::GetFh(NfsFileHandle { data })),
                }
            },
            None => {
                let existing = match &self.root_fh {
                    Some(h) => Some(clone_bytes(h)),
                    None => None,
                };
                match existing {
                    Some(h) => {
                        OperationResult {
                            status: NfsStatus::Success,
                            result: Some(OperationData::GetFh(NfsFileHandle { data: h })),
                        }
                    },
                    None => {
                        let h = match self.fresh_handle() {
                            None => {
                                return op_err(NfsStatus::IoError);
                            },
                            Some(h) => h,
                        };
                        let hc = clone_bytes(&h);
                        let root: Vec<String> = Vec::new();
                        proof {
                            assert(root.deep_view() =~= Seq::<Seq<char>>::empty());
                        }
                        self.handles.insert_fresh(h, root);
                        self.root_fh = Some(clone_bytes(&hc));
                        OperationResult {
                            status: NfsStatus::Success,
                            result: Some(OperationData::GetFh(NfsFileHandle { data: hc })),
                        }
                    },
                }
            },
        }
    }

    /// LOOKUP: checks that the named child of the cursor's directory
    /// exists, issues a fresh filehandle for it, and registers it.
    pub fn handle_lookup(&mut self, args: &LookupOperation, current_fh: &Option<NfsFileHandle>)
        -> (r: OperationResult)
        requires
            old(self).wf(),
        ensures
            final(self).wf(),
            final(self).fs == old(self).fs,
            final(self).stateids == old(self).stateids,
            final(self).root_fh == old(self).root_fh,
            final(self).actions == old(self).actions,
            match current_fh {
                None => r.status == NfsStatus::BadHandle && r.result is None && *final(self) == *old(self),
                Some(fh) => {
                    if !old(self).handles.as_map().contains_key(fh.data@) {
                        r.status == NfsStatus::StaleFileHandle && r.result is None && *final(self) == *old(self)
                    } else if !valid_name(args.object_name@) {
                        r.status == NfsStatus::BadName && r.result is None && *final(self) == *old(self)
                    } else {
                        let child = old(self).handles.as_map()[fh.data@].push(args.object_name@);
                        if !old(self).fs.as_map().contains_key(child) {
                            r.status == NfsStatus::NoEnt && r.result is None && *final(self) == *old(self)
                        } else {
                            ||| (r.status == NfsStatus::IoError && *final(self) == *old(self)
                                && r.result is None)
                            ||| (r.status == NfsStatus::Success && (r.result matches Some(
                                OperationData::GetFh(nh),
                            ) && nh.data@.len() == 16 && !old(self).handles.as_map().contains_key(
                                nh.data@,
                            ) && final(self).handles.as_map() == old(self).handles.as_map().insert(nh.data@, child)))
                        }
                    }
                },
            },
            step_correspondence(
                old(self)@,
                cursor_view(*current_fh),
                NfsOperationV::Lookup((LookupOperationV { object_name: args.object_name@ })),
                r,
                final(self)@,
            ),
    {
        let fh = match current_fh {
            None => {
                return op_err(NfsStatus::BadHandle);
            },
            Some(fh) => fh,
        };
        let path = match self.handles.get(&fh.data) {
            None => {
                return op_err(NfsStatus::StaleFileHandle);
            },
            Some(p) => p,
        };
        if !is_valid_name(&args.object_name) {
            return op_err(NfsStatus::BadName);
        }
        let child = path_child(&path, &args.object_name);
        proof {
            lemma_handles_confined(&self.handles, fh.data@);
            let cdv = child.deep_view();
            assert forall|j: int| 0 <= j < cdv.len() implies valid_name(#[trigger] cdv[j]) by {
                if j < path.deep_view().len() {
                    assert(cdv[j] == path.deep_view()[j]);
                } else {
                    assert(cdv[j] == args.object_name@);
                }
            }
        }
        match self.fs.stat(&child) {
            None => {
                return op_err(NfsStatus::NoEnt);
            },
            Some(_) => {},
        }
        let h = match self.fresh_handle() {
            None => {
                return op_err(NfsStatus::IoError);
            },
            Some(h) => h,
        };
        let hc = clone_bytes(&h);
        self.handles.insert_fresh(h, child);
        OperationResult {
            status: NfsStatus::Success,
            result: Some(OperationData::GetFh(NfsFileHandle { data: hc })),
        }
    }

    /// LOOKUPP: issues and registers a fresh filehandle for the parent
    /// of the cursor's object; at the export root there is no parent.
    pub fn handle_lookupp(&mut self, _args: &LookuppOperation, current_fh: &Option<NfsFileHandle>)
        -> (r: OperationResult)
        requires
            old(self).wf(),
        ensures
            final(self).wf(),
            final(self).fs == old(self).fs,
            final(self).stateids == old(self).stateids,
            final(self).root_fh == old(self).root_fh,
            final(self).actions == old(self).actions,
            match current_fh {
                None => r.status == NfsStatus::BadHandle && r.result is None && *final(self) == *old(self),
                Some(fh) => {
                    if !old(self).handles.as_map().contains_key(fh.data@) {
                        r.status == NfsStatus::StaleFileHandle && r.result is None && *final(self) == *old(self)
                    } else if old(self).handles.as_map()[fh.data@].len() == 0 {
                        r.status == NfsStatus::NoEnt && r.result is None && *final(self) == *old(self)
                    } else {
                        ||| (r.status == NfsStatus::IoError && *final(self) == *old(self)
                            && r.result is None)
                        ||| (r.status == NfsStatus::Success && (r.result matches Some(
                            OperationData::GetFh(nh),
                        ) && nh.data@.len() == 16 && !old(self).handles.as_map().contains_key(
                            nh.data@,
                        ) && final(self).handles.as_map() == old(self).handles.as_map().insert(
                            nh.data@,
                            old(self).handles.as_map()[fh.data@].drop_last(),
                        )))
                    }
                },
            },
            step_correspondence(
                old(self)@,
                cursor_view(*current_fh),
                NfsOperationV::Lookupp(LookuppOperation),
                r,
                final(self)@,
            ),
    {
        let fh = match current_fh {
            None => {
                return op_err(NfsStatus::BadHandle);
            },
            Some(fh) => fh,
        };
        let path = match self.handles.get(&fh.data) {
            None => {
                return op_err(NfsStatus::StaleFileHandle);
            },
            Some(p) => p,
        };
        if path.len() == 0 {
            return op_err(NfsStatus::NoEnt);
        }
        let parent = path_parent(&path);
        proof {
            lemma_handles_confined(&self.handles, fh.data@);
            let pdv = parent.deep_view();
            assert forall|j: int| 0 <= j < pdv.len() implies valid_name(#[trigger] pdv[j]) by {
                assert(pdv[j] == path.deep_view()[j]);
            }
        }
        let h = match self.fresh_handle() {
            None => {
                return op_err(NfsStatus::IoError);
            },
            Some(h) => h,
        };
        let hc = clone_bytes(&h);
        self.handles.insert_fresh(h, parent);
        OperationResult {
            status: NfsStatus::Success,
            result: Some(OperationData::GetFh(NfsFileHandle { data: hc })),
        }
    }

    /// CREATE: makes the named child under the cursor's directory — an
    /// empty regular file (truncating an existing one) or a new
    /// directory — and issues a fresh filehandle bound to it.
    #[verifier::rlimit(100)]
    #[verifier::spinoff_prover]
    pub fn handle_create(&mut self, args: &CreateOperation, current_fh: &Option<NfsFileHandle>)
        -> (r: OperationResult)
        requires
            old(self).wf(),
        ensures
            final(self).wf(),
            final(self).stateids == old(self).stateids,
            final(self).root_fh == old(self).root_fh,
            final(self).uid == old(self).uid,
            final(self).gid == old(self).gid,
            match current_fh {
                None => r.status == NfsStatus::BadHandle && r.result is None && *final(self) == *old(self),
                Some(fh) => {
                    if !old(self).handles.as_map().contains_key(fh.data@) {
                        r.status == NfsStatus::StaleFileHandle && r.result is None && *final(self) == *old(self)
                    } else if !(args.object_type == NF4REG || args.object_type == NF4DIR) {
                        r.status == NfsStatus::BadType && r.result is None && *final(self) == *old(self)
                    } else if !valid_name(args.object_name@) {
                        r.status == NfsStatus::BadName && r.result is None && *final(self) == *old(self)
                    } else {
                        let parent = old(self).handles.as_map()[fh.data@];
                        let child = parent.push(args.object_name@);
                        if !old(self).fs.as_map().contains_key(parent) || !old(self).fs.as_map()[parent].is_dir {
                            r.status == NfsStatus::IoError && r.result is None && *final(self) == *old(self)
                        } else if old(self).fs.as_map().contains_key(child) && (args.object_type
                            == NF4DIR || old(self).fs.as_map()[child].is_dir) {
                            r.status == NfsStatus::IoError && r.result is None && *final(self) == *old(self)
                        } else {
                            ||| (r.status == NfsStatus::IoError && *final(self) == *old(self)
                                && r.result is None)
                            ||| (r.status == NfsStatus::Success && (r.result matches Some(
                                OperationData::GetFh(nh),
                            ) && nh.data@.len() == 16 && !old(self).handles.as_map().contains_key(
                                nh.data@,
                            ) && final(self).handles.as_map() == old(self).handles.as_map().insert(nh.data@, child) && final(self).fs.as_map()
                                == old(self).fs.as_map().insert(
                                child,
                                (FsNodeV {
                                    is_dir: args.object_type == NF4DIR,
                                    meta: if old(self).fs.as_map().contains_key(child) {
                                        old(self).fs.as_map()[child].meta
                                    } else {
                                        (FsMeta {
                                            mode: if args.object_type == NF4DIR {
                                                NEW_DIR_MODE
                                            } else {
                                                NEW_FILE_MODE
                                            },
                                            uid: old(self).uid,
                                            gid: old(self).gid,
                                            atime: (NfsTime { seconds: 0, nseconds: 0 }),
                                            mtime: (NfsTime { seconds: 0, nseconds: 0 }),
                                        })
                                    },
                                    content: Seq::<u8>::empty(),
                                    durable: true,
                                }),
                            ) && final(self).actions.deep_view() == old(self).actions.deep_view().push(
                                if args.object_type == NF4DIR {
                                    FsActionV::CreateDir(child)
                                } else {
                                    FsActionV::CreateFile(child)
                                },
                            )))
                        }
                    }
                },
            },
            step_correspondence(
                old(self)@,
                cursor_view(*current_fh),
                NfsOperationV::Create(
                    (CreateOperationV {
                        object_type: args.object_type,
                        object_name: args.object_name@,
                        attributes: args.attributes.deep_view(),
                    }),
                ),
                r,
                final(self)@,
            ),
    {
        let fh = match current_fh {
            None => {
                return op_err(NfsStatus::BadHandle);
            },
            Some(fh) => fh,
        };
        let path = match self.handles.get(&fh.data) {
            None => {
                return op_err(NfsStatus::StaleFileHandle);
            },
            Some(p) => p,
        };
        if !(args.object_type == NF4REG || args.object_type == NF4DIR) {
            return op_err(NfsStatus::BadType);
        }
        if !is_valid_name(&args.object_name) {
            return op_err(NfsStatus::BadName);
        }
        match self.fs.stat(&path) {
            None => {
                return op_err(NfsStatus::IoError);
            },
            Some(st) => {
                if !st.is_dir {
                    return op_err(NfsStatus::IoError);
                }
            },
        }
        let child = path_child(&path, &args.object_name);
        proof {
            lemma_handles_confined(&self.handles, fh.data@);
            let cdv = child.deep_view();
            assert forall|j: int| 0 <= j < cdv.len() implies valid_name(#[trigger] cdv[j]) by {
                if j < path.deep_view().len() {
                    assert(cdv[j] == path.deep_view()[j]);
                } else {
                    assert(cdv[j] == args.object_name@);
                }
            }
        }
        let is_dir = args.object_type == NF4DIR;
        let meta: FsMeta = match self.fs.stat(&child) {
            Some(st) => {
                if is_dir || st.is_dir {
                    return op_err(NfsStatus::IoError);
                }
                st.meta
            },
            None => FsMeta {
                mode: if is_dir {
                    NEW_DIR_MODE
                } else {
                    NEW_FILE_MODE
                },
                uid: self.uid,
                gid: self.gid,
                atime: NfsTime { seconds: 0, nseconds: 0 },
                mtime: NfsTime { seconds: 0, nseconds: 0 },
            },
        };
        let h = match self.fresh_handle() {
            None => {
                return op_err(NfsStatus::IoError);
            },
            Some(h) => h,
        };
        let hc = clone_bytes(&h);
        let child_for_handle = clone_path(&child);
        let child_for_action = clone_path(&child);
        let node = FsNode { is_dir, meta, content: Vec::new(), durable: true };
        proof {
            assert(node.deep_view().content =~= Seq::<u8>::empty());
        }
        let put_ok = self.fs.put_node(child, node);
        proof {
            assert(put_ok);
        }
        self.handles.insert_fresh(h, child_for_handle);
        let ghost a0 = self.actions.deep_view();
        let ghost cav = child_for_action.deep_view();
        if is_dir {
            self.actions.push(FsAction::CreateDir(child_for_action));
            proof {
                assert_seqs_equal!(self.actions.deep_view() == a0.push(FsActionV::CreateDir(cav)));
            }
        } else {
            self.actions.push(FsAction::CreateFile(child_for_action));
            proof {
                assert_seqs_equal!(self.actions.deep_view()
                    == a0.push(FsActionV::CreateFile(cav)));
            }
        }
        OperationResult {
            status: NfsStatus::Success,
            result: Some(OperationData::GetFh(NfsFileHandle { data: hc })),
        }
    }

    /// OPEN: a claim naming a path relative to the export root — its
    /// separator-split components each a validated name — opens that
    /// file, creating it empty when it is missing under an existing
    /// directory, and records a fresh stateid carrying the path, the
    /// share-access mask, and the client's sequence id. The exact
    /// outcome for every input is `spec_step_open`, reached through
    /// the step correspondence below.
    #[verifier::rlimit(100)]
    #[verifier::spinoff_prover]
    pub fn handle_open(&mut self, args: &OpenOperation, _current_fh: &Option<NfsFileHandle>) -> (r:
        OperationResult)
        requires
            old(self).wf(),
        ensures
            final(self).wf(),
            final(self).handles == old(self).handles,
            final(self).root_fh == old(self).root_fh,
            final(self).uid == old(self).uid,
            final(self).gid == old(self).gid,
            r.status == NfsStatus::Success ==> (r.result matches Some(OperationData::Open(sid))
                && !old(self).stateids.as_map().contains_key(sid@)),
            r.status != NfsStatus::Success ==> r.result is None && *final(self) == *old(self),
            step_correspondence(
                old(self)@,
                cursor_view(*_current_fh),
                NfsOperationV::Open(
                    (OpenOperationV {
                        seqid: args.seqid,
                        share_access: args.share_access,
                        share_deny: args.share_deny,
                        owner: args.owner@,
                        open_claim: args.open_claim.deep_view(),
                    }),
                ),
                r,
                final(self)@,
            ),
    {
        let p = match &args.open_claim {
            OpenClaim::Null(p) => p,
            _ => {
                return op_err(NfsStatus::Error);
            },
        };
        let child = split_path(p.as_str());
        if !all_components_valid(&child) {
            return op_err(NfsStatus::BadName);
        }
        let exists_node = match self.fs.stat(&child) {
            Some(st) => {
                if st.is_dir {
                    return op_err(NfsStatus::IoError);
                }
                true
            },
            None => false,
        };
        if !exists_node {
            let parent = path_parent(&child);
            match self.fs.stat(&parent) {
                Some(st) => {
                    if !st.is_dir {
                        return op_err(NfsStatus::IoError);
                    }
                },
                None => {
                    return op_err(NfsStatus::IoError);
                },
            }
        }
        let sid = match self.fresh_stateid() {
            None => {
                return op_err(NfsStatus::IoError);
            },
            Some(sid) => sid,
        };
        if !exists_node {
            let node = FsNode {
                is_dir: false,
                meta: FsMeta {
                    mode: NEW_FILE_MODE,
                    uid: self.uid,
                    gid: self.gid,
                    atime: NfsTime { seconds: 0, nseconds: 0 },
                    mtime: NfsTime { seconds: 0, nseconds: 0 },
                },
                content: Vec::new(),
                durable: true,
            };
            proof {
                assert(node.deep_view().content =~= Seq::<u8>::empty());
            }
            let put_ok = self.fs.put_node(clone_path(&child), node);
            proof {
                assert(put_ok);
            }
            let ghost a0 = self.actions.deep_view();
            let child_for_action = clone_path(&child);
            let ghost cav = child_for_action.deep_view();
            self.actions.push(FsAction::CreateFile(child_for_action));
            proof {
                assert_seqs_equal!(self.actions.deep_view()
                    == a0.push(FsActionV::CreateFile(cav)));
            }
        }
        self.stateids.insert_fresh(
            sid,
            FileState { path: child, open_mode: args.share_access, seqid: args.seqid },
        );
        OperationResult { status: NfsStatus::Success, result: Some(OperationData::Open(sid)) }
    }

    /// OPEN_CONFIRM: accepts a known stateid and stores the client's
    /// new sequence id.
    pub fn handle_open_confirm(&mut self, args: &OpenConfirmOperation) -> (r: OperationResult)
        requires
            old(self).wf(),
        ensures
            final(self).wf(),
            final(self).fs == old(self).fs,
            final(self).handles == old(self).handles,
            final(self).root_fh == old(self).root_fh,
            final(self).actions == old(self).actions,
            r.result is None,
            old(self).stateids.as_map().contains_key(args.open_stateid@) ==> r.status
                == NfsStatus::Success && final(self).stateids.as_map() == old(self).stateids.as_map().insert(
                args.open_stateid@,
                (FileStateV {
                    path: old(self).stateids.as_map()[args.open_stateid@].path,
                    open_mode: old(self).stateids.as_map()[args.open_stateid@].open_mode,
                    seqid: args.seqid,
                }),
            ),
            !old(self).stateids.as_map().contains_key(args.open_stateid@) ==> r.status
                == NfsStatus::BadStateid && *final(self) == *old(self),
            forall|cv: Option<Seq<u8>>|
                step_correspondence(
                    old(self)@,
                    cv,
                    NfsOperationV::OpenConfirm(
                        (OpenConfirmOperationV {
                            open_stateid: args.open_stateid@,
                            seqid: args.seqid,
                        }),
                    ),
                    r,
                    final(self)@,
                ),
    {
        if self.stateids.set_seqid(&args.open_stateid, args.seqid) {
            op_err(NfsStatus::Success)
        } else {
            op_err(NfsStatus::BadStateid)
        }
    }

    /// READ: up to `count` bytes at `offset` of the open file; a read
    /// past end of file comes back short or empty, not as an error.
    pub fn handle_read(&self, args: &ReadOperation) -> (r: OperationResult)
        requires
            self.wf(),
        ensures
            if !self.stateids.as_map().contains_key(args.stateid@) {
                r.status == NfsStatus::BadStateid && r.result is None
            } else {
                let st = self.stateids.as_map()[args.stateid@];
                if st.open_mode & ACCESS4_READ == 0 {
                    r.status == NfsStatus::IoError && r.result is None
                } else if !self.fs.as_map().contains_key(st.path) || self.fs.as_map()[
                st.path].is_dir {
                    r.status == NfsStatus::IoError && r.result is None
                } else {
                    r.status == NfsStatus::Success && (r.result matches Some(
                        OperationData::Read(d),
                    ) && d@ == read_content(
                        self.fs.as_map()[st.path].content,
                        args.offset as int,
                        args.count as int,
                    ))
                }
            },
            forall|cv: Option<Seq<u8>>|
                step_correspondence(
                    self@,
                    cv,
                    NfsOperationV::Read(
                        (ReadOperationV {
                            stateid: args.stateid@,
                            offset: args.offset,
                            count: args.count,
                        }),
                    ),
                    r,
                    self@,
                ),
    {
        let st = match self.stateids.get(&args.stateid) {
            None => {
                return op_err(NfsStatus::BadStateid);
            },
            Some(st) => st,
        };
        if st.open_mode & ACCESS4_READ == 0 {
            return op_err(NfsStatus::IoError);
        }
        match self.fs.read_file(&st.path, args.offset, args.count) {
            None => op_err(NfsStatus::IoError),
            Some(d) => OperationResult {
                status: NfsStatus::Success,
                result: Some(OperationData::Read(d)),
            },
        }
    }

    /// WRITE: the full data at `offset` of the open file; with a
    /// non-zero stable flag the new content is durable before the
    /// write is acknowledged.
    pub fn handle_write(&mut self, args: &WriteOperation) -> (r: OperationResult)
        requires
            old(self).wf(),
        ensures
            final(self).wf(),
            final(self).handles == old(self).handles,
            final(self).stateids == old(self).stateids,
            final(self).root_fh == old(self).root_fh,
            if !old(self).stateids.as_map().contains_key(args.stateid@) {
                r.status == NfsStatus::BadStateid && *final(self) == *old(self)
            } else {
                let st = old(self).stateids.as_map()[args.stateid@];
                if st.open_mode & (ACCESS4_MODIFY | ACCESS4_EXTEND) == 0 {
                    r.status == NfsStatus::IoError && *final(self) == *old(self)
                } else if !old(self).fs.as_map().contains_key(st.path) || old(self).fs.as_map()[
                st.path].is_dir || args.offset + args.data@.len() > usize::MAX {
                    r.status == NfsStatus::IoError && *final(self) == *old(self)
                } else {
                    r.status == NfsStatus::Success && (r.result matches Some(
                        OperationData::Write(n),
                    ) && n == (if args.data@.len() <= u32::MAX {
                        args.data@.len() as u32
                    } else {
                        u32::MAX
                    })) && final(self).fs.as_map() == old(self).fs.as_map().insert(
                        st.path,
                        (FsNodeV {
                            is_dir: false,
                            meta: old(self).fs.as_map()[st.path].meta,
                            content: write_content(
                                old(self).fs.as_map()[st.path].content,
                                args.offset as int,
                                args.data@,
                            ),
                            durable: args.stable != 0,
                        }),
                    ) && (args.stable != 0 ==> final(self).fs.as_map()[st.path].durable) && final(self).actions.deep_view() == old(self).actions.deep_view().push(
                        FsActionV::WriteFile(st.path, args.offset, args.data@, args.stable != 0),
                    )
                }
            },
            forall|cv: Option<Seq<u8>>|
                step_correspondence(
                    old(self)@,
                    cv,
                    NfsOperationV::Write(
                        (WriteOperationV {
                            stateid: args.stateid@,
                            offset: args.offset,
                            stable: args.stable,
                            data: args.data@,
                        }),
                    ),
                    r,
                    final(self)@,
                ),
    {
        let st = match self.stateids.get(&args.stateid) {
            None => {
                return op_err(NfsStatus::BadStateid);
            },
            Some(st) => st,
        };
        if st.open_mode & (ACCESS4_MODIFY | ACCESS4_EXTEND) == 0 {
            return op_err(NfsStatus::IoError);
        }
        if self.fs.write_file(&st.path, args.offset, &args.data, args.stable != 0) {
            // The wire count saturates when the data cannot be counted in 32 bits.
            let n: u32 = if args.data.len() <= u32::MAX as usize {
                args.data.len() as u32
            } else {
                u32::MAX
            };
            let ghost a0 = self.actions.deep_view();
            let ghost pv = st.path.deep_view();
            let data_copy = clone_bytes(&args.data);
            self.actions.push(FsAction::WriteFile(st.path, args.offset, data_copy, args.stable != 0));
            proof {
                assert_seqs_equal!(self.actions.deep_view()
                    == a0.push(FsActionV::WriteFile(pv, args.offset, args.data@, args.stable != 0)));
            }
            OperationResult { status: NfsStatus::Success, result: Some(OperationData::Write(n)) }
        } else {
            op_err(NfsStatus::IoError)
        }
    }

    /// Hands out the filesystem effects recorded since the last call,
    /// in the order the operations performed them, for the surrounding
    /// program to replay on the real export directory.
    pub fn take_actions(&mut self) -> (r: Vec<FsAction>)
        ensures
            r.deep_view() == old(self).actions.deep_view(),
            final(self).actions@.len() == 0,
            final(self).fs == old(self).fs,
            final(self).handles == old(self).handles,
            final(self).stateids == old(self).stateids,
            final(self).root_fh == old(self).root_fh,
            final(self).uid == old(self).uid,
            final(self).gid == old(self).gid,
            old(self).wf() ==> final(self).wf(),
    {
        let out = self.actions.split_off(0);
        proof {
            assert_seqs_equal!(out.deep_view() == old(self).actions.deep_view());
        }
        out
    }

    /// Seeds the modeled export with an object found on disk at
    /// startup, owned by the server's identity and already durable.
    pub fn preload_node(&mut self, path: Vec<String>, is_dir: bool, mode: u32, content: Vec<u8>)
        -> (r: bool)
        requires
            old(self).wf(),
        ensures
            final(self).wf(),
            final(self).handles == old(self).handles,
            final(self).stateids == old(self).stateids,
            final(self).root_fh == old(self).root_fh,
            final(self).uid == old(self).uid,
            final(self).gid == old(self).gid,
            final(self).actions == old(self).actions,
            r <==> valid_path(path.deep_view()) && (path.deep_view().len() > 0 || is_dir),
            r ==> final(self).fs.as_map() == old(self).fs.as_map().insert(
                path.deep_view(),
                (FsNodeV {
                    is_dir,
                    meta: (FsMeta {
                        mode,
                        uid: old(self).uid,
                        gid: old(self).gid,
                        atime: (NfsTime { seconds: 0, nseconds: 0 }),
                        mtime: (NfsTime { seconds: 0, nseconds: 0 }),
                    }),
                    content: content@,
                    durable: true,
                }),
            ),
            !r ==> final(self).fs == old(self).fs,
    {
        let node = FsNode {
            is_dir,
            meta: FsMeta {
                mode,
                uid: self.uid,
                gid: self.gid,
                atime: NfsTime { seconds: 0, nseconds: 0 },
                mtime: NfsTime { seconds: 0, nseconds: 0 },
            },
            content,
            durable: true,
        };
        self.fs.put_node(path, node)
    }

    /// COMPOUND: refuses a request for an unsupported minor version
    /// whole; otherwise runs the operations strictly in order,
    /// threading the current-filehandle cursor. The first non-OK
    /// status ends the sequence, the results list holds one entry per
    /// operation executed, and the response and the state left behind
    /// are exactly `spec_compound_response` for the tokens the
    /// operations minted.
    pub fn handle_compound(&mut self, request: CompoundRequest) -> (r: CompoundResponse)
        requires
            old(self).wf(),
        ensures
            final(self).wf(),
            r.tag@ == request.tag@,
            r.results@.len() <= request.operations@.len(),
            r.status == NfsStatus::Success ==> r.results@.len() == request.operations@.len(),
            request.minor_version == SUPPORTED_MINOR_VERSION && r.status != NfsStatus::Success
                ==> r.results@.len() >= 1 && r.results@.last().status == r.status,
            request.minor_version != SUPPORTED_MINOR_VERSION ==> r.status == NfsStatus::Error
                && r.results@.len() == 0 && *final(self) == *old(self),
            forall|j: int|
                0 <= j < r.results@.len() - 1 ==> (#[trigger] r.results@[j]).status
                    == NfsStatus::Success,
            r.status == NfsStatus::Success ==> forall|j: int|
                0 <= j < r.results@.len() ==> (#[trigger] r.results@[j]).status
                    == NfsStatus::Success,
            exists|toks: Seq<Option<Seq<u8>>>|
                toks.len() == request.operations@.len() && (r.deep_view(), final(self)@)
                    == spec_compound_response(old(self)@, request.deep_view(), toks),
    {
        let ghost s0 = self@;
        let ghost reqv = request.deep_view();
        let ghost opsv = request.operations.deep_view();
        if request.minor_version != SUPPORTED_MINOR_VERSION {
            let resp = CompoundResponse {
                tag: request.tag,
                status: NfsStatus::Error,
                results: Vec::new(),
            };
            proof {
                let toksw = Seq::new(opsv.len(), |j: int| None::<Seq<u8>>);
                assert(toksw.len() == opsv.len());
                assert(resp.results.deep_view() =~= Seq::<OperationResultV>::empty());
                assert((resp.deep_view(), self@) == spec_compound_response(s0, reqv, toksw));
            }
            return resp;
        }
        let mut results: Vec<OperationResult> = Vec::new();
        let mut status = NfsStatus::Success;
        let mut ok = true;
        let mut current_fh: Option<NfsFileHandle> = None;
        let mut i: usize = 0;
        let n = request.operations.len();
        let ghost mut toks: Seq<Option<Seq<u8>>> = Seq::<Option<Seq<u8>>>::empty();
        proof {
            assert(opsv.take(0) =~= Seq::<NfsOperationV>::empty());
            assert(results.deep_view() =~= Seq::<OperationResultV>::empty());
        }
        while i < n && ok
            invariant
                self.wf(),
                n == request.operations@.len(),
                opsv == request.operations.deep_view(),
                opsv.len() == n,
                s0 == old(self)@,
                i <= n,
                ok <==> status == NfsStatus::Success,
                ok ==> results@.len() == i,
                !ok ==> 1 <= results@.len() && results@.len() <= i && results@.last().status
                    == status,
                forall|j: int|
                    0 <= j < results@.len() - 1 ==> (#[trigger] results@[j]).status
                        == NfsStatus::Success,
                ok ==> forall|j: int|
                    0 <= j < results@.len() ==> (#[trigger] results@[j]).status
                        == NfsStatus::Success,
                toks.len() == i,
                spec_run_compound(s0, opsv.take(i as int), toks, None) == (RunOut {
                    status: status,
                    results: results.deep_view(),
                    state: self@,
                    cursor: cursor_view(current_fh),
                }),
            decreases n - i,
        {
            let ghost pre = self@;
            let ghost cv = cursor_view(current_fh);
            let ghost rdv0 = results.deep_view();
            let res = match &request.operations[i] {
                NfsOperation::Access(a) => {
                    let rr = self.handle_access(a, &current_fh);
                    proof {
                        assert(step_correspondence(pre, cv, opsv[i as int], rr, self@));
                    }
                    rr
                },
                NfsOperation::Close(a) => {
                    let rr = self.handle_close(a);
                    proof {
                        assert(step_correspondence(pre, cv, opsv[i as int], rr, self@));
                    }
                    rr
                },
                NfsOperation::Commit(a) => {
                    let rr = self.handle_commit(a, &current_fh);
                    proof {
                        assert(step_correspondence(pre, cv, opsv[i as int], rr, self@));
                    }
                    rr
                },
                NfsOperation::Create(a) => {
                    let rr = self.handle_create(a, &current_fh);
                    proof {
                        assert(step_correspondence(pre, cv, opsv[i as int], rr, self@));
                    }
                    rr
                },
                NfsOperation::GetAttr(a) => {
                    let rr = self.handle_getattr(a, &current_fh);
                    proof {
                        assert(step_correspondence(pre, cv, opsv[i as int], rr, self@));
                    }
                    rr
                },
                NfsOperation::GetFh(a) => {
                    let rr = self.handle_getfh(a, &current_fh);
                    proof {
                        assert(step_correspondence(pre, cv, opsv[i as int], rr, self@));
                    }
                    rr
                },
                NfsOperation::Lookup(a) => {
                    let rr = self.handle_lookup(a, &current_fh);
                    proof {
                        assert(step_correspondence(pre, cv, opsv[i as int], rr, self@));
                    }
                    rr
                },
                NfsOperation::Lookupp(a) => {
                    let rr = self.handle_lookupp(a, &current_fh);
                    proof {
                        assert(step_correspondence(pre, cv, opsv[i as int], rr, self@));
                    }
                    rr
                },
                NfsOperation::Open(a) => {
                    let rr = self.handle_open(a, &current_fh);
                    proof {
                        assert(step_correspondence(pre, cv, opsv[i as int], rr, self@));
                    }
                    rr
                },
                NfsOperation::OpenConfirm(a) => {
                    let rr = self.handle_open_confirm(a);
                    proof {
                        assert(step_correspondence(pre, cv, opsv[i as int], rr, self@));
                    }
                    rr
                },
                NfsOperation::Read(a) => {
                    let rr = self.handle_read(a);
                    proof {
                        assert(step_correspondence(pre, cv, opsv[i as int], rr, self@));
                    }
                    rr
                },
                NfsOperation::Write(a) => {
                    let rr = self.handle_write(a);
                    proof {
                        assert(step_correspondence(pre, cv, opsv[i as int], rr, self@));
                    }
                    rr
                },
            };
            let ghost resv = res.deep_view();
            proof {
                assert(opsv[i as int] == request.operations@[i as int].deep_view());
                let tokw: Option<Seq<u8>> = if (resv, self@) == spec_step_op(
                    pre,
                    cv,
                    opsv[i as int],
                    None,
                ) {
                    None
                } else {
                    match &res.result {
                        Some(OperationData::GetFh(nh)) => Some(nh.data@),
                        Some(OperationData::Open(sid)) => Some(sid@),
                        _ => None,
                    }
                };
                assert((resv, self@) == spec_step_op(pre, cv, opsv[i as int], tokw));
                lemma_run_snoc(s0, opsv.take(i as int), toks, None, opsv[i as int], tokw);
                assert(opsv.take(i as int).push(opsv[i as int]) =~= opsv.take(i as int + 1));
                toks = toks.push(tokw);
            }
            if res.status == NfsStatus::Success {
                let fresh_cursor: Option<Vec<u8>> = match &res.result {
                    Some(OperationData::GetFh(nh)) => Some(clone_bytes(&nh.data)),
                    _ => None,
                };
                match fresh_cursor {
                    Some(d) => {
                        current_fh = Some(NfsFileHandle { data: d });
                    },
                    None => {},
                }
            }
            let st = res.status;
            results.push(res);
            if !(st == NfsStatus::Success) {
                ok = false;
                status = st;
            }
            i = i + 1;
            proof {
                assert_seqs_equal!(results.deep_view() == rdv0.push(resv));
                assert(cursor_view(current_fh) == next_cursor(cv, resv));
            }
        }
        proof {
            if status == NfsStatus::Success {
                assert(opsv.take(i as int) =~= opsv);
            } else {
                let filler = Seq::new((n - i) as nat, |j: int| None::<Seq<u8>>);
                let toks_full = toks + filler;
                assert(toks_full.take(i as int) =~= toks);
                assert(opsv.take(i as int).take(i as int) =~= opsv.take(i as int));
                lemma_run_absorb(s0, opsv, toks_full, None, i as int);
                toks = toks_full;
            }
        }
        let resp = CompoundResponse { tag: request.tag, status, results };
        proof {
            assert(toks.len() == opsv.len());
            assert((resp.deep_view(), self@) == spec_compound_response(s0, reqv, toks));
        }
        resp
    }
}

/// After CREATE binds a fresh filehandle to the new child and a LOOKUP
/// of the same name under the same directory binds another, both
/// filehandles resolve to the path the CREATE made.
pub proof fn lemma_create_then_lookup(
    handles0: Map<Seq<u8>, Seq<Seq<char>>>,
    dir: Seq<Seq<char>>,
    name: Seq<char>,
    h1: Seq<u8>,
    h2: Seq<u8>,
)
    requires
        !handles0.insert(h1, dir.push(name)).contains_key(h2),
    ensures
        handles0.insert(h1, dir.push(name)).insert(h2, dir.push(name))[h1] == dir.push(name),
        handles0.insert(h1, dir.push(name)).insert(h2, dir.push(name))[h2] == dir.push(name),
{
    assert(h1 != h2);
}



// ---------------------------------------------------------------------------
// The big-step semantics of a whole COMPOUND
// ---------------------------------------------------------------------------

/// The supported COMPOUND minor version.
pub const SUPPORTED_MINOR_VERSION: u32 = 0;

/// What running a COMPOUND leaves: the terminal status, the results of
/// the executed prefix, the server's state, and the cursor.
pub struct RunOut {
    pub status: NfsStatus,
    pub results: Seq<OperationResultV>,
    pub state: ServerV,
    pub cursor: Option<Seq<u8>>,
}

/// The cursor after one executed operation: a successful operation
/// that returns a filehandle replaces it — GETFH, LOOKUP, LOOKUPP and
/// CREATE — and every other outcome leaves it.
pub open spec fn next_cursor(cv: Option<Seq<u8>>, r: OperationResultV) -> Option<Seq<u8>> {
    if r.status == NfsStatus::Success {
        match r.result {
            Some(OperationDataV::GetFh(h)) => Some(h),
            _ => cv,
        }
    } else {
        cv
    }
}

/// Runs the operations strictly in order from a state and a cursor,
/// spending one minted token per operation, and stops after the first
/// operation whose status is not OK.
pub open spec fn spec_run_compound(
    s: ServerV,
    ops: Seq<NfsOperationV>,
    toks: Seq<Option<Seq<u8>>>,
    cv: Option<Seq<u8>>,
) -> RunOut
    decreases ops.len(),
{
    if ops.len() == 0 {
        RunOut { status: NfsStatus::Success, results: Seq::<OperationResultV>::empty(), state: s, cursor: cv }
    } else {
        let stepped = spec_step_op(s, cv, ops[0], if toks.len() > 0 { toks[0] } else { None });
        if stepped.0.status == NfsStatus::Success {
            let rest = spec_run_compound(
                stepped.1,
                ops.drop_first(),
                if toks.len() > 0 { toks.drop_first() } else { toks },
                next_cursor(cv, stepped.0),
            );
            RunOut {
                status: rest.status,
                results: seq![stepped.0] + rest.results,
                state: rest.state,
                cursor: rest.cursor,
            }
        } else {
            RunOut { status: stepped.0.status, results: seq![stepped.0], state: stepped.1, cursor: cv }
        }
    }
}

/// The response a request receives and the state it leaves: a request
/// for an unsupported minor version is refused whole, with no results
/// and no effect; any other runs its operations.
pub open spec fn spec_compound_response(
    s: ServerV,
    req: CompoundRequestV,
    toks: Seq<Option<Seq<u8>>>,
) -> (CompoundResponseV, ServerV) {
    if req.minor_version == SUPPORTED_MINOR_VERSION {
        let run = spec_run_compound(s, req.operations, toks, None);
        (
            (CompoundResponseV { tag: req.tag, status: run.status, results: run.results }),
            run.state,
        )
    } else {
        (
            (CompoundResponseV {
                tag: req.tag,
                status: NfsStatus::Error,
                results: Seq::<OperationResultV>::empty(),
            }),
            s,
        )
    }
}

/// A COMPOUND of one GETFH against a server that has not yet issued
/// its root handle: whatever token the operation minted, it either
/// succeeds with a fresh handle bound to the export root, or reports
/// the generator's failure and changes nothing.
pub proof fn lemma_getfh_bootstraps_the_root(s: ServerV, toks: Seq<Option<Seq<u8>>>)
    requires
        s.root_fh is None,
        toks.len() == 1,
    ensures
        ({
            let run = spec_run_compound(s, seq![NfsOperationV::GetFh(GetFhOperation)], toks, None);
            &&& run.results.len() == 1
            &&& run.status == run.results[0].status
            &&& (run.status == NfsStatus::Success ==> (run.results[0].result matches Some(
                OperationDataV::GetFh(h),
            ) && run.state.handles.contains_key(h) && run.state.handles[h]
                == Seq::<Seq<char>>::empty() && run.state.root_fh == Some(h)))
            &&& (run.status != NfsStatus::Success ==> run.status == NfsStatus::IoError
                && run.state == s)
        }),
{
    reveal_with_fuel(spec_run_compound, 3);
    let ops = seq![NfsOperationV::GetFh(GetFhOperation)];
    let stepped = spec_step_op(s, None, ops[0], toks[0]);
    if stepped.0.status == NfsStatus::Success {
        assert(ops.drop_first() =~= Seq::<NfsOperationV>::empty());
        assert(toks.drop_first() =~= Seq::<Option<Seq<u8>>>::empty());
        let run = spec_run_compound(s, ops, toks, None);
        assert(run.results =~= seq![stepped.0]);
    }
}

/// Appending one operation to an all-successful run appends its step.
proof fn lemma_run_snoc(
    s: ServerV,
    ops: Seq<NfsOperationV>,
    toks: Seq<Option<Seq<u8>>>,
    cv: Option<Seq<u8>>,
    op: NfsOperationV,
    tok: Option<Seq<u8>>,
)
    requires
        toks.len() == ops.len(),
        spec_run_compound(s, ops, toks, cv).status == NfsStatus::Success,
    ensures
        ({
            let r0 = spec_run_compound(s, ops, toks, cv);
            let stepped = spec_step_op(r0.state, r0.cursor, op, tok);
            spec_run_compound(s, ops.push(op), toks.push(tok), cv) == (if stepped.0.status
                == NfsStatus::Success {
                (RunOut {
                    status: NfsStatus::Success,
                    results: r0.results.push(stepped.0),
                    state: stepped.1,
                    cursor: next_cursor(r0.cursor, stepped.0),
                })
            } else {
                (RunOut {
                    status: stepped.0.status,
                    results: r0.results.push(stepped.0),
                    state: stepped.1,
                    cursor: r0.cursor,
                })
            })
        }),
    decreases ops.len(),
{
    let r0 = spec_run_compound(s, ops, toks, cv);
    let stepped = spec_step_op(r0.state, r0.cursor, op, tok);
    if ops.len() == 0 {
        assert(ops.push(op)[0] == op);
        assert(toks.push(tok)[0] == tok);
        assert(ops.push(op).drop_first() =~= Seq::<NfsOperationV>::empty());
        assert(toks.push(tok).drop_first() =~= Seq::<Option<Seq<u8>>>::empty());
        if stepped.0.status == NfsStatus::Success {
            assert(seq![stepped.0] + Seq::<OperationResultV>::empty() =~= r0.results.push(
                stepped.0,
            ));
        } else {
            assert(seq![stepped.0] =~= r0.results.push(stepped.0));
        }
    } else {
        let first = spec_step_op(s, cv, ops[0], toks[0]);
        assert(first.0.status == NfsStatus::Success);
        assert(ops.push(op)[0] == ops[0]);
        assert(toks.push(tok)[0] == toks[0]);
        assert(ops.push(op).drop_first() =~= ops.drop_first().push(op));
        assert(toks.push(tok).drop_first() =~= toks.drop_first().push(tok));
        lemma_run_snoc(first.1, ops.drop_first(), toks.drop_first(), next_cursor(cv, first.0), op, tok);
        let rrest = spec_run_compound(
            first.1,
            ops.drop_first(),
            toks.drop_first(),
            next_cursor(cv, first.0),
        );
        if stepped.0.status == NfsStatus::Success {
            assert(seq![first.0] + rrest.results.push(stepped.0) =~= (seq![first.0]
                + rrest.results).push(stepped.0));
        } else {
            assert(seq![first.0] + rrest.results.push(stepped.0) =~= (seq![first.0]
                + rrest.results).push(stepped.0));
        }
    }
}

/// After a prefix whose run already stopped, the remaining operations
/// change nothing: the full run equals the prefix's.
proof fn lemma_run_absorb(
    s: ServerV,
    ops: Seq<NfsOperationV>,
    toks: Seq<Option<Seq<u8>>>,
    cv: Option<Seq<u8>>,
    k: int,
)
    requires
        0 <= k <= ops.len(),
        toks.len() == ops.len(),
        spec_run_compound(s, ops.take(k), toks.take(k), cv).status != NfsStatus::Success,
    ensures
        spec_run_compound(s, ops, toks, cv) == spec_run_compound(s, ops.take(k), toks.take(k), cv),
    decreases k,
{
    if k == 0 {
        assert(ops.take(0).len() == 0);
    } else {
        assert(ops.take(k)[0] == ops[0]);
        assert(toks.take(k)[0] == toks[0]);
        let first = spec_step_op(s, cv, ops[0], toks[0]);
        if first.0.status == NfsStatus::Success {
            assert(ops.take(k).drop_first() =~= ops.drop_first().take(k - 1));
            assert(toks.take(k).drop_first() =~= toks.drop_first().take(k - 1));
            lemma_run_absorb(first.1, ops.drop_first(), toks.drop_first(), next_cursor(cv, first.0), k - 1);
        }
    }
}


/// Every path a filehandle resolves to lies under the export root: it
/// is a list of validated component names relative to that root, none
/// of which can traverse upward.
pub proof fn lemma_handles_confined(t: &HandleTable, h: Seq<u8>)
    requires
        t.wf(),
        t.as_map().contains_key(h),
    ensures
        valid_path(t.as_map()[h]),
        h.len() == 16,
{
    crate::table::lemma_assoc_contains(t.kv_pairs(), h);
    let i = choose|i: int| 0 <= i < t.kv_pairs().len() && (#[trigger] t.kv_pairs()[i]).0 == h;
    crate::table::lemma_assoc_index(t.kv_pairs(), i);
}

/// Every stateid is sixteen bytes and names an open state whose path
/// lies under the export root.
pub proof fn lemma_stateids_confined(t: &StateidTable, sid: Seq<u8>)
    requires
        t.wf(),
        t.as_map().contains_key(sid),
    ensures
        sid.len() == 16,
        valid_path(t.as_map()[sid].path),
{
    crate::table::lemma_assoc_contains(t.kv_pairs(), sid);
    let i = choose|i: int| 0 <= i < t.kv_pairs().len() && (#[trigger] t.kv_pairs()[i]).0 == sid;
    crate::table::lemma_assoc_index(t.kv_pairs(), i);
}


/// The reply an accepted call receives: the acceptance status and its
/// payload, under the caller's transaction id.
pub open spec fn accepted_reply_v(xid: u32, stat: u32, data: Seq<u8>) -> RpcMsgV {
    RpcMsgV {
        xid,
        body: RpcMsgBodyV::Reply(
            ReplyBodyV {
                reply_stat: MSG_ACCEPTED,
                data: ReplyDataV::Accepted(
                    AcceptedReplyV {
                        verf: OpaqueAuthV { flavor: AUTH_NONE, body: Seq::<u8>::empty() },
                        stat,
                        data,
                    },
                ),
            },
        ),
    }
}

impl NfsServer {
    /// One RPC message in, one reply out: a call for another program
    /// or version is answered PROG_MISMATCH, NULL with an empty
    /// success, an unknown procedure with PROC_UNAVAIL, a COMPOUND
    /// whose payload does not decode with GARBAGE_ARGS, and a decoded
    /// COMPOUND with the encoded response of running it. Nothing is
    /// returned only if the response cannot be encoded, and the
    /// connection drops.
    pub fn handle_rpc_message(&mut self, msg: &RpcMsg) -> (r: Option<RpcMsg>)
        requires
            old(self).wf(),
        ensures
            final(self).wf(),
            r matches Some(m) ==> m.xid == msg.xid,
            match msg.body {
                RpcMsgBody::Call(c) => {
                    if !(c.prog == NFS_PROGRAM && c.prog_vers == NFS_VERSION) {
                        r matches Some(m) && m.deep_view() == accepted_reply_v(
                            msg.xid,
                            PROG_MISMATCH,
                            Seq::<u8>::empty(),
                        ) && *final(self) == *old(self)
                    } else if c.proc == 0 {
                        r matches Some(m) && m.deep_view() == accepted_reply_v(
                            msg.xid,
                            SUCCESS,
                            Seq::<u8>::empty(),
                        ) && *final(self) == *old(self)
                    } else if c.proc == 1 {
                        match dec_req(c.data@) {
                            None => r matches Some(m) && m.deep_view() == accepted_reply_v(
                                msg.xid,
                                GARBAGE_ARGS,
                                Seq::<u8>::empty(),
                            ) && *final(self) == *old(self),
                            Some((reqv, _)) => exists|toks: Seq<Option<Seq<u8>>>|
                                {
                                    &&& toks.len() == reqv.operations.len()
                                    &&& final(self)@ == (#[trigger] spec_compound_response(
                                        old(self)@,
                                        reqv,
                                        toks,
                                    )).1
                                    &&& (r is Some <==> wf_resp(
                                        spec_compound_response(old(self)@, reqv, toks).0,
                                    ))
                                    &&& (r matches Some(m) ==> m.deep_view() == accepted_reply_v(
                                        msg.xid,
                                        SUCCESS,
                                        enc_resp(spec_compound_response(old(self)@, reqv, toks).0),
                                    ))
                                },
                        }
                    } else {
                        r matches Some(m) && m.deep_view() == accepted_reply_v(
                            msg.xid,
                            PROC_UNAVAIL,
                            Seq::<u8>::empty(),
                        ) && *final(self) == *old(self)
                    }
                },
                RpcMsgBody::Reply(_) => r matches Some(m) && m.deep_view() == accepted_reply_v(
                    msg.xid,
                    PROG_MISMATCH,
                    Seq::<u8>::empty(),
                ) && *final(self) == *old(self),
            },
    {
        let c = match &msg.body {
            RpcMsgBody::Call(c) => c,
            RpcMsgBody::Reply(_) => {
                return Some(RpcMsg::new_prog_mismatch_reply(msg.xid));
            },
        };
        if !(c.prog == NFS_PROGRAM && c.prog_vers == NFS_VERSION) {
            return Some(RpcMsg::new_prog_mismatch_reply(msg.xid));
        }
        if c.proc == 0 {
            return Some(RpcMsg::new_success_reply(msg.xid, Vec::new()));
        }
        if c.proc != 1 {
            return Some(
                RpcMsg {
                    xid: msg.xid,
                    body: RpcMsgBody::Reply(
                        ReplyBody {
                            reply_stat: MSG_ACCEPTED,
                            data: ReplyData::Accepted(
                                AcceptedReply {
                                    verf: OpaqueAuth { flavor: AUTH_NONE, body: Vec::new() },
                                    stat: PROC_UNAVAIL,
                                    data: Vec::new(),
                                },
                            ),
                        },
                    ),
                },
            );
        }
        let request = match decode_compound_request(&c.data) {
            Err(_) => {
                return Some(RpcMsg::new_garbage_args_reply(msg.xid));
            },
            Ok(req) => req,
        };
        let ghost reqdv = request.deep_view();
        let ghost pre = self@;
        let response = self.handle_compound(request);
        let ghost toksw = choose|toks: Seq<Option<Seq<u8>>>|
            toks.len() == reqdv.operations.len() && (response.deep_view(), self@)
                == spec_compound_response(pre, reqdv, toks);
        proof {
            assert(reqdv.operations.len() == reqdv.operations.len());
        }
        let payload = match encode_compound_response(&response) {
            Err(_) => {
                proof {
                    let rr = spec_compound_response(pre, reqdv, toksw);
                    assert(rr.0 == response.deep_view() && rr.1 == self@);
                    assert(!wf_resp(rr.0));
                }
                return None;
            },
            Ok(p) => p,
        };
        proof {
            let rr = spec_compound_response(pre, reqdv, toksw);
            assert(rr.0 == response.deep_view() && rr.1 == self@);
            assert(payload@ == enc_resp(rr.0));
        }
        Some(RpcMsg::new_success_reply(msg.xid, payload))
    }
}

} // verus!
