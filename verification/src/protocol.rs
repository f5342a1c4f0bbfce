//! The NFSv4 wire schema: COMPOUND requests and responses, the
//! operations they carry, file attributes, and status codes.
//!
//! Each data type that carries heap values (strings, byte vectors) has a
//! ghost mirror (`...V`) over sequences, reached by `deep_view`; the
//! codec's specification functions speak of the mirrors.

use vstd::prelude::*;

verus! {

// NFSv4 protocol numbers.
pub const NFS_VERSION: u32 = 4;

pub const NFS_PROGRAM: u32 = 100003;

// File types.
pub const NF4REG: u32 = 1;

pub const NF4DIR: u32 = 2;

pub const NF4BLK: u32 = 3;

pub const NF4CHR: u32 = 4;

pub const NF4LNK: u32 = 5;

pub const NF4SOCK: u32 = 6;

pub const NF4FIFO: u32 = 7;

pub const NF4ATTRDIR: u32 = 8;

pub const NF4NAMEDATTR: u32 = 9;

// Access rights.
pub const ACCESS4_READ: u32 = 0x00000001;

pub const ACCESS4_LOOKUP: u32 = 0x00000002;

pub const ACCESS4_MODIFY: u32 = 0x00000004;

pub const ACCESS4_EXTEND: u32 = 0x00000008;

pub const ACCESS4_DELETE: u32 = 0x00000010;

pub const ACCESS4_EXECUTE: u32 = 0x00000020;

/// The longest filehandle the wire format carries.
pub const MAX_FILEHANDLE_LEN: usize = 128;

// NFSv4 procedures.
#[derive(Debug, Clone, Copy)]
pub enum NfsProcedure {
    Null,
    Compound,
}

#[derive(Debug, Clone, PartialEq)]
pub struct NfsFileHandle {
    pub data: Vec<u8>,
}

#[derive(Debug, Clone, Copy, PartialEq, Eq, Structural)]
pub struct NfsTime {
    pub seconds: u64,
    pub nseconds: u32,
}

#[derive(Debug, Clone, PartialEq)]
pub struct NfsFileAttributes {
    pub type_: u32,
    pub mode: u32,
    pub size: u64,
    pub space_used: u64,
    pub time_access: NfsTime,
    pub time_modify: NfsTime,
    pub owner: String,
    pub group: String,
}

#[derive(Debug, Clone, PartialEq)]
pub enum NfsOperation {
    Access(AccessOperation),
    Close(CloseOperation),
    Commit(CommitOperation),
    Create(CreateOperation),
    GetAttr(GetAttrOperation),
    GetFh(GetFhOperation),
    Lookup(LookupOperation),
    Lookupp(LookuppOperation),
    Open(OpenOperation),
    OpenConfirm(OpenConfirmOperation),
    Read(ReadOperation),
    Write(WriteOperation),
}

#[derive(Debug, Clone, Copy, PartialEq, Eq, Structural)]
pub struct AccessOperation {
    pub access: u32,
}

#[derive(Debug, Clone, PartialEq)]
pub struct CloseOperation {
    pub seqid: u32,
    pub open_stateid: [u8; 16],
}

#[derive(Debug, Clone, Copy, PartialEq, Eq, Structural)]
pub struct CommitOperation {
    pub offset: u64,
    pub count: u32,
}

#[derive(Debug, Clone, PartialEq)]
pub struct CreateOperation {
    pub object_type: u32,
    pub object_name: String,
    pub attributes: NfsFileAttributes,
}

#[derive(Debug, Clone, PartialEq)]
pub struct GetAttrOperation {
    pub attr_request: Vec<u32>,
}

#[derive(Debug, Clone, Copy, PartialEq, Eq, Structural)]
pub struct GetFhOperation;

#[derive(Debug, Clone, PartialEq)]
pub struct LookupOperation {
    pub object_name: String,
}

#[derive(Debug, Clone, Copy, PartialEq, Eq, Structural)]
pub struct LookuppOperation;

#[derive(Debug, Clone, PartialEq)]
pub struct OpenOperation {
    pub seqid: u32,
    pub share_access: u32,
    pub share_deny: u32,
    pub owner: Vec<u8>,
    pub open_claim: OpenClaim,
}

#[derive(Debug, Clone, PartialEq)]
pub enum OpenClaim {
    Null(String),
    Previous(String),
    Delegate(String),
}

#[derive(Debug, Clone, PartialEq)]
pub struct OpenConfirmOperation {
    pub open_stateid: [u8; 16],
    pub seqid: u32,
}

#[derive(Debug, Clone, PartialEq)]
pub struct ReadOperation {
    pub stateid: [u8; 16],
    pub offset: u64,
    pub count: u32,
}

#[derive(Debug, Clone, PartialEq)]
pub struct WriteOperation {
    pub stateid: [u8; 16],
    pub offset: u64,
    pub stable: u32,
    pub data: Vec<u8>,
}

#[derive(Debug, Clone, PartialEq)]
pub struct CompoundRequest {
    pub tag: String,
    pub minor_version: u32,
    pub operations: Vec<NfsOperation>,
}

#[derive(Debug, Clone, PartialEq)]
pub struct CompoundResponse {
    pub tag: String,
    pub status: NfsStatus,
    pub results: Vec<OperationResult>,
}

#[derive(Debug, Clone, Copy, PartialEq, Eq, Structural)]
pub enum NfsStatus {
    Success,
    Error,
    BadHandle,
    BadType,
    NoEnt,
    IoError,
    NoSpace,
    BadName,
    RoFs,
    StaleFileHandle,
    BadStateid,
    BadSeqid,
}

#[derive(Debug, Clone, PartialEq)]
pub struct OperationResult {
    pub status: NfsStatus,
    pub result: Option<OperationData>,
}

#[derive(Debug, Clone, PartialEq)]
pub enum OperationData {
    Access(u32),
    GetAttr(NfsFileAttributes),
    GetFh(NfsFileHandle),
    Read(Vec<u8>),
    Write(u32),
    Open([u8; 16]),
}

// ---------------------------------------------------------------------------
// Status codes on the wire
// ---------------------------------------------------------------------------

pub open spec fn spec_status_code(s: NfsStatus) -> u32 {
    match s {
        NfsStatus::Success => 0,
        NfsStatus::Error => 1,
        NfsStatus::BadHandle => 10001,
        NfsStatus::BadType => 10002,
        NfsStatus::NoEnt => 10003,
        NfsStatus::IoError => 10004,
        NfsStatus::NoSpace => 10005,
        NfsStatus::BadName => 10006,
        NfsStatus::RoFs => 10007,
        NfsStatus::StaleFileHandle => 10008,
        NfsStatus::BadStateid => 10009,
        NfsStatus::BadSeqid => 10010,
    }
}

pub open spec fn spec_status_from_code(c: u32) -> Option<NfsStatus> {
    if c == 0 {
        Some(NfsStatus::Success)
    } else if c == 1 {
        Some(NfsStatus::Error)
    } else if c == 10001 {
        Some(NfsStatus::BadHandle)
    } else if c == 10002 {
        Some(NfsStatus::BadType)
    } else if c == 10003 {
        Some(NfsStatus::NoEnt)
    } else if c == 10004 {
        Some(NfsStatus::IoError)
    } else if c == 10005 {
        Some(NfsStatus::NoSpace)
    } else if c == 10006 {
        Some(NfsStatus::BadName)
    } else if c == 10007 {
        Some(NfsStatus::RoFs)
    } else if c == 10008 {
        Some(NfsStatus::StaleFileHandle)
    } else if c == 10009 {
        Some(NfsStatus::BadStateid)
    } else if c == 10010 {
        Some(NfsStatus::BadSeqid)
    } else {
        None
    }
}

pub fn status_code(s: NfsStatus) -> (r: u32)
    ensures
        r == spec_status_code(s),
{
    match s {
        NfsStatus::Success => 0,
        NfsStatus::Error => 1,
        NfsStatus::BadHandle => 10001,
        NfsStatus::BadType => 10002,
        NfsStatus::NoEnt => 10003,
        NfsStatus::IoError => 10004,
        NfsStatus::NoSpace => 10005,
        NfsStatus::BadName => 10006,
        NfsStatus::RoFs => 10007,
        NfsStatus::StaleFileHandle => 10008,
        NfsStatus::BadStateid => 10009,
        NfsStatus::BadSeqid => 10010,
    }
}

pub fn status_from_code(c: u32) -> (r: Option<NfsStatus>)
    ensures
        r == spec_status_from_code(c),
{
    if c == 0 {
        Some(NfsStatus::Success)
    } else if c == 1 {
        Some(NfsStatus::Error)
    } else if c == 10001 {
        Some(NfsStatus::BadHandle)
    } else if c == 10002 {
        Some(NfsStatus::BadType)
    } else if c == 10003 {
        Some(NfsStatus::NoEnt)
    } else if c == 10004 {
        Some(NfsStatus::IoError)
    } else if c == 10005 {
        Some(NfsStatus::NoSpace)
    } else if c == 10006 {
        Some(NfsStatus::BadName)
    } else if c == 10007 {
        Some(NfsStatus::RoFs)
    } else if c == 10008 {
        Some(NfsStatus::StaleFileHandle)
    } else if c == 10009 {
        Some(NfsStatus::BadStateid)
    } else if c == 10010 {
        Some(NfsStatus::BadSeqid)
    } else {
        None
    }
}

/// Wire status codes name the status they came from: decoding inverts
/// encoding on every status.
pub proof fn lemma_status_code_round_trip(s: NfsStatus)
    ensures
        spec_status_from_code(spec_status_code(s)) == Some(s),
{
}

// ---------------------------------------------------------------------------
// Ghost mirrors
// ---------------------------------------------------------------------------

pub struct NfsFileAttributesV {
    pub type_: u32,
    pub mode: u32,
    pub size: u64,
    pub space_used: u64,
    pub time_access: NfsTime,
    pub time_modify: NfsTime,
    pub owner: Seq<char>,
    pub group: Seq<char>,
}

pub struct CloseOperationV {
    pub seqid: u32,
    pub open_stateid: Seq<u8>,
}

pub struct CreateOperationV {
    pub object_type: u32,
    pub object_name: Seq<char>,
    pub attributes: NfsFileAttributesV,
}

pub struct GetAttrOperationV {
    pub attr_request: Seq<u32>,
}

pub struct LookupOperationV {
    pub object_name: Seq<char>,
}

pub enum OpenClaimV {
    Null(Seq<char>),
    Previous(Seq<char>),
    Delegate(Seq<char>),
}

pub struct OpenOperationV {
    pub seqid: u32,
    pub share_access: u32,
    pub share_deny: u32,
    pub owner: Seq<u8>,
    pub open_claim: OpenClaimV,
}

pub struct OpenConfirmOperationV {
    pub open_stateid: Seq<u8>,
    pub seqid: u32,
}

pub struct ReadOperationV {
    pub stateid: Seq<u8>,
    pub offset: u64,
    pub count: u32,
}

pub struct WriteOperationV {
    pub stateid: Seq<u8>,
    pub offset: u64,
    pub stable: u32,
    pub data: Seq<u8>,
}

pub enum NfsOperationV {
    Access(AccessOperation),
    Close(CloseOperationV),
    Commit(CommitOperation),
    Create(CreateOperationV),
    GetAttr(GetAttrOperationV),
    GetFh(GetFhOperation),
    Lookup(LookupOperationV),
    Lookupp(LookuppOperation),
    Open(OpenOperationV),
    OpenConfirm(OpenConfirmOperationV),
    Read(ReadOperationV),
    Write(WriteOperationV),
}

pub struct CompoundRequestV {
    pub tag: Seq<char>,
    pub minor_version: u32,
    pub operations: Seq<NfsOperationV>,
}

pub enum OperationDataV {
    Access(u32),
    GetAttr(NfsFileAttributesV),
    GetFh(Seq<u8>),
    Read(Seq<u8>),
    Write(u32),
    Open(Seq<u8>),
}

pub struct OperationResultV {
    pub status: NfsStatus,
    pub result: Option<OperationDataV>,
}

pub struct CompoundResponseV {
    pub tag: Seq<char>,
    pub status: NfsStatus,
    pub results: Seq<OperationResultV>,
}

impl DeepView for NfsFileAttributes {
    type V = NfsFileAttributesV;

    open spec fn deep_view(&self) -> NfsFileAttributesV {
        NfsFileAttributesV {
            type_: self.type_,
            mode: self.mode,
            size: self.size,
            space_used: self.space_used,
            time_access: self.time_access,
            time_modify: self.time_modify,
            owner: self.owner@,
            group: self.group@,
        }
    }
}

impl DeepView for OpenClaim {
    type V = OpenClaimV;

    open spec fn deep_view(&self) -> OpenClaimV {
        match self {
            OpenClaim::Null(p) => OpenClaimV::Null(p@),
            OpenClaim::Previous(p) => OpenClaimV::Previous(p@),
            OpenClaim::Delegate(p) => OpenClaimV::Delegate(p@),
        }
    }
}

impl DeepView for NfsOperation {
    type V = NfsOperationV;

    open spec fn deep_view(&self) -> NfsOperationV {
        match self {
            NfsOperation::Access(a) => NfsOperationV::Access(*a),
            NfsOperation::Close(a) => NfsOperationV::Close(
                CloseOperationV { seqid: a.seqid, open_stateid: a.open_stateid@ },
            ),
            NfsOperation::Commit(a) => NfsOperationV::Commit(*a),
            NfsOperation::Create(a) => NfsOperationV::Create(
                CreateOperationV {
                    object_type: a.object_type,
                    object_name: a.object_name@,
                    attributes: a.attributes.deep_view(),
                },
            ),
            NfsOperation::GetAttr(a) => NfsOperationV::GetAttr(
                GetAttrOperationV { attr_request: a.attr_request@ },
            ),
            NfsOperation::GetFh(a) => NfsOperationV::GetFh(*a),
            NfsOperation::Lookup(a) => NfsOperationV::Lookup(
                LookupOperationV { object_name: a.object_name@ },
            ),
            NfsOperation::Lookupp(a) => NfsOperationV::Lookupp(*a),
            NfsOperation::Open(a) => NfsOperationV::Open(
                OpenOperationV {
                    seqid: a.seqid,
                    share_access: a.share_access,
                    share_deny: a.share_deny,
                    owner: a.owner@,
                    open_claim: a.open_claim.deep_view(),
                },
            ),
            NfsOperation::OpenConfirm(a) => NfsOperationV::OpenConfirm(
                OpenConfirmOperationV { open_stateid: a.open_stateid@, seqid: a.seqid },
            ),
            NfsOperation::Read(a) => NfsOperationV::Read(
                ReadOperationV { stateid: a.stateid@, offset: a.offset, count: a.count },
            ),
            NfsOperation::Write(a) => NfsOperationV::Write(
                WriteOperationV {
                    stateid: a.stateid@,
                    offset: a.offset,
                    stable: a.stable,
                    data: a.data@,
                },
            ),
        }
    }
}

impl DeepView for CompoundRequest {
    type V = CompoundRequestV;

    open spec fn deep_view(&self) -> CompoundRequestV {
        CompoundRequestV {
            tag: self.tag@,
            minor_version: self.minor_version,
            operations: self.operations.deep_view(),
        }
    }
}

impl DeepView for OperationData {
    type V = OperationDataV;

    open spec fn deep_view(&self) -> OperationDataV {
        match self {
            OperationData::Access(a) => OperationDataV::Access(*a),
            OperationData::GetAttr(a) => OperationDataV::GetAttr(a.deep_view()),
            OperationData::GetFh(h) => OperationDataV::GetFh(h.data@),
            OperationData::Read(d) => OperationDataV::Read(d@),
            OperationData::Write(n) => OperationDataV::Write(*n),
            OperationData::Open(s) => OperationDataV::Open(s@),
        }
    }
}

impl DeepView for OperationResult {
    type V = OperationResultV;

    open spec fn deep_view(&self) -> OperationResultV {
        OperationResultV {
            status: self.status,
            result: match &self.result {
                None => None,
                Some(d) => Some(d.deep_view()),
            },
        }
    }
}

impl DeepView for CompoundResponse {
    type V = CompoundResponseV;

    open spec fn deep_view(&self) -> CompoundResponseV {
        CompoundResponseV {
            tag: self.tag@,
            status: self.status,
            results: self.results.deep_view(),
        }
    }
}

} // verus!
