//! A verified cursor and iterator layer over an embedded, transactional
//! key/value table.
//!
//! The storage engine underneath this layer is modelled explicitly: a table
//! is a byte-lexicographically sorted sequence of key/value entries, possibly
//! with several sorted values per key ("duplicate groups").  Every positioning
//! opcode, every single-key operation and both iteration protocols are
//! verified against that model; the laws the layer obeys are stated and
//! proved in [`laws`].
//!
//! Returned keys and values are owned byte vectors.  The engine's zero-copy
//! views into mapped memory are only sound together with its transaction
//! lifetimes, which are a collaborator outside this layer; here every read
//! copies out of the table, so no view can outlive anything.

pub mod bytes;
pub mod cursor;
pub mod database;
pub mod error;
pub mod flags;
pub mod iter;
pub mod laws;
pub mod model;
pub mod ops;

pub use bytes::Comparison;
pub use cursor::Cursor;
pub use cursor::RoCursor;
pub use cursor::RwCursor;
pub use database::Database;
pub use database::Pair;
pub use database::ReservedValue;
pub use database::Stat;
pub use database::FREE_DBI;
pub use error::Error;
pub use flags::DatabaseFlags;
pub use flags::WriteFlags;
pub use iter::IntoIter;
pub use iter::Iter;
pub use iter::IterDup;
pub use ops::CursorOp;
pub use ops::Position;
