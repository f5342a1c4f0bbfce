//! An NFSv4 protocol core and a virtual-network subnet manager.
//!
//! The library holds the verified logic of a small NFSv4 server: the XDR
//! wire codec, the ONC-RPC record framer, the filehandle and open-state
//! tables, the COMPOUND executor with its operation handlers, and the
//! subnet manager's validation and allocation rules.

pub mod codec;
pub mod fs;
pub mod handles;
pub mod protocol;
pub mod rpc;
pub mod server;
pub mod subnet;
pub mod table;
pub mod xdr;

pub use protocol::{
    CompoundRequest, CompoundResponse, NfsFileAttributes, NfsFileHandle, NfsOperation, NfsStatus,
    NfsTime, OperationData, OperationResult, NFS_PROGRAM, NFS_VERSION,
};
pub use server::NfsServer;

use vstd::prelude::*;

verus! {

} // verus!
