//! Verified core of the PPanel plugin SDK: the protobuf wire format of the
//! host ABI, the request and reply logic of every host function, the
//! pending-task bookkeeping of the async runtime and the export rules of the
//! plugin entry points.

pub mod wire;
pub mod proto;
pub mod abi;
pub mod host;
pub mod runtime;
pub mod entry;
pub mod inbound;
pub mod reading;
pub mod schema;
