//! Cursor positioning opcodes and cursor positions.

use vstd::prelude::*;

verus! {

/// The engine's cursor positioning operations, exposed as a closed
/// enumeration rather than raw integer codes.
///
/// `GetMultiple` and `NextMultiple` apply to tables whose duplicate values
/// all have one fixed size; they return a whole run of duplicate values in a
/// single buffer.
#[derive(Clone, Copy, Debug)]
pub enum CursorOp {
    /// Position at the first entry of the table.
    First,
    /// Position at the last entry of the table.
    Last,
    /// Move to the next entry (first entry for a fresh cursor).
    Next,
    /// Move to the previous entry (last entry for a fresh cursor).
    Prev,
    /// Position at the first value of the given key; only the value is
    /// returned (the engine calls this opcode plain "set").
    SetValue,
    /// Position at the first value of the given key; key and value are returned.
    SetKey,
    /// Position at the first entry whose key is at least the given key.
    SetRange,
    /// Return the entry under the cursor without moving it.
    GetCurrent,
    /// Position at the first value of the current key's duplicate group.
    FirstDup,
    /// Position at the last value of the current key's duplicate group.
    LastDup,
    /// Move to the next value of the current key's duplicate group.
    NextDup,
    /// Move to the previous value of the current key's duplicate group.
    PrevDup,
    /// Move to the first value of the next distinct key.
    NextNoDup,
    /// Move to the last value of the previous distinct key.
    PrevNoDup,
    /// Position at the exact given key/value pair.
    GetBoth,
    /// Position at the given key and the first of its values that is at
    /// least the given value.
    GetBothRange,
    /// Return the run of duplicate values from the cursor to the end of the
    /// current key's group, concatenated into one buffer.
    GetMultiple,
    /// Return the next such run of the current key; the model stores each
    /// group as a single run, so this always reports the end of the group.
    NextMultiple,
}

/// A cursor's position within one table.
///
/// `At(i)` with `i` equal to the number of entries means "past the last
/// entry"; a fresh cursor, or one whose last seek failed, is `Unset`.
#[derive(Clone, Copy, Debug, PartialEq, Eq, Structural)]
pub enum Position {
    Unset,
    At(usize),
}

} // verus!
