//! Core of a minimal relational database server speaking a
//! PostgreSQL-compatible wire protocol: the startup handshake state
//! machine, the server-to-client message codec, the schema/table/row
//! store with typed column constraints, and the DDL/DML command
//! executor.  The surrounding binary transport (sockets, TLS) and the
//! SQL grammar parser are outside collaborators; this crate works on
//! plain bytes and on its own statement tree.

use vstd::prelude::*;

pub mod drop_schema;
pub mod executor;
pub mod expr;
pub mod handshake;
pub mod insert;
pub mod messages;
pub mod results;
pub mod scalar;
pub mod storage;
pub mod text;
pub mod types;

verus! {

/// Protocol version sentinel for a version 3 startup frame.
pub const VERSION_3: i32 = 196608;

/// Protocol version sentinel for a version 2 startup frame.
pub const VERSION_2: i32 = 131072;

/// Protocol version sentinel for a version 1 startup frame.
pub const VERSION_1: i32 = 65536;

/// Sentinel a client sends to ask for cancellation of a running query.
pub const VERSION_CANCEL: i32 = 80877102;

/// Sentinel a client sends to ask for a TLS-encrypted session.
pub const VERSION_SSL: i32 = 80877103;

/// Sentinel a client sends to ask for a GSSAPI-encrypted session.
pub const VERSION_GSSENC: i32 = 80877104;

} // verus!
