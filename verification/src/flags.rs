//! Table and write options consumed by this layer.
//!
//! The engine defines these as bit flags; here each option that the cursor
//! layer actually interprets is a named boolean.

use vstd::prelude::*;

verus! {

/// Options a table was opened with.
#[derive(Clone, Copy, Debug, PartialEq, Eq, Structural)]
pub struct DatabaseFlags {
    /// The table keeps several sorted values per key.
    pub dup_sort: bool,
    /// All duplicate values of the table have one fixed size
    /// (implies `dup_sort`).
    pub dup_fixed: bool,
}

impl DatabaseFlags {
    /// No options: one value per key.
    pub fn empty() -> (f: DatabaseFlags)
        ensures
            !f.dup_sort,
            !f.dup_fixed,
    {
        DatabaseFlags { dup_sort: false, dup_fixed: false }
    }
}

/// Options for a single write.
#[derive(Clone, Copy, Debug, PartialEq, Eq, Structural)]
pub struct WriteFlags {
    /// Fail with `KeyExist` instead of overwriting an existing key.
    pub no_overwrite: bool,
    /// On `put` into a duplicate-permitting table: fail with `KeyExist` if
    /// the exact key/value pair is already present.  On a cursor `del`:
    /// remove every value of the current key, not only the current one.
    pub no_dup_data: bool,
}

impl WriteFlags {
    /// No options: insert or overwrite, delete the current value only.
    pub fn empty() -> (f: WriteFlags)
        ensures
            !f.no_overwrite,
            !f.no_dup_data,
    {
        WriteFlags { no_overwrite: false, no_dup_data: false }
    }
}

} // verus!
