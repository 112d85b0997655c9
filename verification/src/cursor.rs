//! Cursors: positionable iterators over one table.
//!
//! A cursor is a position into the table's sorted entries, moved by one
//! overloaded positioning call parameterized by an opcode.  Two capability
//! variants share the positioning protocol: the read-only [`RoCursor`],
//! which may be cloned, and the read-write [`RwCursor`], which alone may
//! write and is deliberately not cloneable — one mutable positioning
//! authority per table at a time.

use vstd::prelude::*;

use crate::bytes::compare;
use crate::bytes::Comparison;
use crate::database::copy_bytes;
use crate::database::opt_slice_view;
use crate::database::Database;
use crate::error::Error;
use crate::flags::WriteFlags;
use crate::iter::Iter;
use crate::iter::IterDup;
use crate::model::cursor_del_outcome;
use crate::model::cursor_outcome;
use crate::model::lemma_cursor_del_wf;
use crate::model::lemma_put_wf;
use crate::model::put_outcome;
use crate::model::PairView;
use crate::ops::CursorOp;
use crate::ops::Position;

verus! {

/// The view of an optional owned key.
pub open spec fn opt_vec_view(o: Option<Vec<u8>>) -> Option<Seq<u8>> {
    match o {
        Option::Some(v) => Option::Some(v@),
        Option::None => Option::None,
    }
}

/// The view of a positioning call's return value.
pub open spec fn kv_res_view(r: Result<(Option<Vec<u8>>, Vec<u8>), Error>) -> Result<
    (Option<Seq<u8>>, Seq<u8>),
    Error,
> {
    match r {
        Ok(kv) => Ok((opt_vec_view(kv.0), kv.1@)),
        Err(e) => Err(e),
    }
}

impl Database {
    /// The key and value of entry `i`, the key only when the opcode hands
    /// it back.
    fn read_entry(&self, i: usize, with_key: bool) -> (r: (Option<Vec<u8>>, Vec<u8>))
        requires
            i < self@.n(),
        ensures
            opt_vec_view(r.0) == (if with_key {
                Option::Some(self@.entries[i as int].key)
            } else {
                Option::None::<Seq<u8>>
            }),
            r.1@ == self@.entries[i as int].value,
    {
        proof {
            assert(self@.entries[i as int] == self.pairs@[i as int]@);
        }
        let k: Option<Vec<u8>> = if with_key {
            Option::Some(copy_bytes(self.pairs[i].key.as_slice()))
        } else {
            Option::None
        };
        (k, copy_bytes(self.pairs[i].value.as_slice()))
    }

    /// One positioning call: from `pos`, apply `op` with the optional seek
    /// key and value, and return the new position with the result.
    ///
    /// This is the executable form of [`cursor_outcome`]; every branch is
    /// verified to return exactly the model's outcome.
    pub(crate) fn seek(
        &self,
        pos: Position,
        key: Option<&[u8]>,
        data: Option<&[u8]>,
        op: CursorOp,
    ) -> (r: (Position, Result<(Option<Vec<u8>>, Vec<u8>), Error>))
        ensures
            ({
                let o = cursor_outcome(self@, pos, opt_slice_view(key), opt_slice_view(data), op);
                r.0 == o.pos && kv_res_view(r.1) == o.res
            }),
    {
        let n = self.pairs.len();
        match op {
            CursorOp::First => {
                if n == 0 {
                    (Position::Unset, Err(Error::NotFound))
                } else {
                    (Position::At(0), Ok(self.read_entry(0, true)))
                }
            },
            CursorOp::Last => {
                if n == 0 {
                    (Position::Unset, Err(Error::NotFound))
                } else {
                    (Position::At(n - 1), Ok(self.read_entry(n - 1, true)))
                }
            },
            CursorOp::Next => {
                match pos {
                    Position::Unset => {
                        if n == 0 {
                            (Position::Unset, Err(Error::NotFound))
                        } else {
                            (Position::At(0), Ok(self.read_entry(0, true)))
                        }
                    },
                    Position::At(i) => {
                        let ii = if i <= n {
                            i
                        } else {
                            n
                        };
                        if n > 0 && ii < n - 1 {
                            (Position::At(ii + 1), Ok(self.read_entry(ii + 1, true)))
                        } else {
                            (Position::At(n), Err(Error::NotFound))
                        }
                    },
                }
            },
            CursorOp::Prev => {
                match pos {
                    Position::Unset => {
                        if n == 0 {
                            (Position::Unset, Err(Error::NotFound))
                        } else {
                            (Position::At(n - 1), Ok(self.read_entry(n - 1, true)))
                        }
                    },
                    Position::At(i) => {
                        let ii = if i <= n {
                            i
                        } else {
                            n
                        };
                        if ii > 0 {
                            let j = if ii < n {
                                ii - 1
                            } else {
                                n - 1
                            };
                            (Position::At(j), Ok(self.read_entry(j, true)))
                        } else {
                            (Position::At(0), Err(Error::NotFound))
                        }
                    },
                }
            },
            CursorOp::GetCurrent => {
                match pos {
                    Position::Unset => (Position::Unset, Err(Error::NoData)),
                    Position::At(i) => {
                        let ii = if i <= n {
                            i
                        } else {
                            n
                        };
                        if ii < n {
                            (Position::At(ii), Ok(self.read_entry(ii, true)))
                        } else {
                            (Position::At(n), Err(Error::NoData))
                        }
                    },
                }
            },
            CursorOp::SetValue | CursorOp::SetKey => {
                match key {
                    Option::None => (pos, Err(Error::InvalidArgument)),
                    Option::Some(k) => {
                        let g = self.locate_ge(k);
                        proof {
                            if g < n {
                                assert(self@.entries[g as int] == self.pairs@[g as int]@);
                            }
                        }
                        if g < n && compare(self.pairs[g].key.as_slice(), k) == Comparison::Equal {
                            let with_key = match op {
                                CursorOp::SetKey => true,
                                _ => false,
                            };
                            (Position::At(g), Ok(self.read_entry(g, with_key)))
                        } else {
                            (Position::Unset, Err(Error::NotFound))
                        }
                    },
                }
            },
            CursorOp::SetRange => {
                match key {
                    Option::None => (pos, Err(Error::InvalidArgument)),
                    Option::Some(k) => {
                        let g = self.locate_ge(k);
                        if g < n {
                            (Position::At(g), Ok(self.read_entry(g, true)))
                        } else {
                            (Position::Unset, Err(Error::NotFound))
                        }
                    },
                }
            },
            CursorOp::FirstDup => {
                match pos {
                    Position::Unset => (Position::Unset, Err(Error::NoData)),
                    Position::At(i) => {
                        let ii = if i <= n {
                            i
                        } else {
                            n
                        };
                        if ii < n {
                            let gs = self.run_start(ii);
                            (Position::At(gs), Ok(self.read_entry(gs, false)))
                        } else {
                            (Position::At(n), Err(Error::NoData))
                        }
                    },
                }
            },
            CursorOp::LastDup => {
                match pos {
                    Position::Unset => (Position::Unset, Err(Error::NoData)),
                    Position::At(i) => {
                        let ii = if i <= n {
                            i
                        } else {
                            n
                        };
                        if ii < n {
                            let ge = self.run_end(ii);
                            (Position::At(ge - 1), Ok(self.read_entry(ge - 1, false)))
                        } else {
                            (Position::At(n), Err(Error::NoData))
                        }
                    },
                }
            },
            CursorOp::NextDup => {
                match pos {
                    Position::Unset => (Position::Unset, Err(Error::NoData)),
                    Position::At(i) => {
                        let ii = if i <= n {
                            i
                        } else {
                            n
                        };
                        if ii >= n {
                            (Position::At(n), Err(Error::NoData))
                        } else {
                            proof {
                                assert(self@.entries[ii as int] == self.pairs@[ii as int]@);
                                if ii + 1 < n {
                                    assert(self@.entries[ii + 1] == self.pairs@[ii + 1]@);
                                }
                            }
                            if ii + 1 < n && compare(
                                self.pairs[ii + 1].key.as_slice(),
                                self.pairs[ii].key.as_slice(),
                            ) == Comparison::Equal {
                                (Position::At(ii + 1), Ok(self.read_entry(ii + 1, true)))
                            } else {
                                (Position::At(ii), Err(Error::NotFound))
                            }
                        }
                    },
                }
            },
            CursorOp::PrevDup => {
                match pos {
                    Position::Unset => (Position::Unset, Err(Error::NoData)),
                    Position::At(i) => {
                        let ii = if i <= n {
                            i
                        } else {
                            n
                        };
                        if ii >= n {
                            (Position::At(n), Err(Error::NoData))
                        } else {
                            proof {
                                assert(self@.entries[ii as int] == self.pairs@[ii as int]@);
                                if ii > 0 {
                                    assert(self@.entries[ii - 1] == self.pairs@[ii - 1]@);
                                }
                            }
                            if ii > 0 && compare(
                                self.pairs[ii - 1].key.as_slice(),
                                self.pairs[ii].key.as_slice(),
                            ) == Comparison::Equal {
                                (Position::At(ii - 1), Ok(self.read_entry(ii - 1, true)))
                            } else {
                                (Position::At(ii), Err(Error::NotFound))
                            }
                        }
                    },
                }
            },
            CursorOp::NextNoDup => {
                match pos {
                    Position::Unset => {
                        if n == 0 {
                            (Position::Unset, Err(Error::NotFound))
                        } else {
                            (Position::At(0), Ok(self.read_entry(0, true)))
                        }
                    },
                    Position::At(i) => {
                        let ii = if i <= n {
                            i
                        } else {
                            n
                        };
                        if ii < n {
                            let ge = self.run_end(ii);
                            if ge < n {
                                (Position::At(ge), Ok(self.read_entry(ge, true)))
                            } else {
                                (Position::At(n), Err(Error::NotFound))
                            }
                        } else {
                            (Position::At(n), Err(Error::NotFound))
                        }
                    },
                }
            },
            CursorOp::PrevNoDup => {
                match pos {
                    Position::Unset => {
                        if n == 0 {
                            (Position::Unset, Err(Error::NotFound))
                        } else {
                            (Position::At(n - 1), Ok(self.read_entry(n - 1, true)))
                        }
                    },
                    Position::At(i) => {
                        let ii = if i <= n {
                            i
                        } else {
                            n
                        };
                        if ii >= n {
                            if n > 0 {
                                (Position::At(n - 1), Ok(self.read_entry(n - 1, true)))
                            } else {
                                (Position::At(0), Err(Error::NotFound))
                            }
                        } else {
                            let gs = self.run_start(ii);
                            if gs > 0 {
                                (Position::At(gs - 1), Ok(self.read_entry(gs - 1, true)))
                            } else {
                                (Position::At(ii), Err(Error::NotFound))
                            }
                        }
                    },
                }
            },
            CursorOp::GetBoth => {
                match (key, data) {
                    (Option::Some(k), Option::Some(v)) => {
                        let j = self.locate_pair_ge(k, v);
                        proof {
                            if j < n {
                                assert(self@.entries[j as int] == self.pairs@[j as int]@);
                                if self@.entries[j as int] == (PairView { key: k@, value: v@ }) {
                                    assert(self@.entries[j as int].key == k@);
                                    assert(self@.entries[j as int].value == v@);
                                }
                            }
                        }
                        if j < n && compare(self.pairs[j].key.as_slice(), k) == Comparison::Equal
                            && compare(self.pairs[j].value.as_slice(), v) == Comparison::Equal {
                            proof {
                                assert(self@.entries[j as int] =~= (PairView {
                                    key: k@,
                                    value: v@,
                                }));
                            }
                            (Position::At(j), Ok(self.read_entry(j, false)))
                        } else {
                            (Position::Unset, Err(Error::NotFound))
                        }
                    },
                    _ => (pos, Err(Error::InvalidArgument)),
                }
            },
            CursorOp::GetBothRange => {
                match (key, data) {
                    (Option::Some(k), Option::Some(v)) => {
                        let j = self.locate_pair_ge(k, v);
                        proof {
                            if j < n {
                                assert(self@.entries[j as int] == self.pairs@[j as int]@);
                            }
                        }
                        if j < n && compare(self.pairs[j].key.as_slice(), k) == Comparison::Equal {
                            (Position::At(j), Ok(self.read_entry(j, false)))
                        } else {
                            (Position::Unset, Err(Error::NotFound))
                        }
                    },
                    _ => (pos, Err(Error::InvalidArgument)),
                }
            },
            CursorOp::GetMultiple => {
                if !self.flags.dup_fixed {
                    return (pos, Err(Error::InvalidArgument));
                }
                match pos {
                    Position::Unset => (Position::Unset, Err(Error::NoData)),
                    Position::At(i) => {
                        let ii = if i <= n {
                            i
                        } else {
                            n
                        };
                        if ii < n {
                            let ge = self.run_end(ii);
                            let buf = self.collect_values(ii, ge);
                            (Position::At(ge - 1), Ok((Option::None, buf)))
                        } else {
                            (Position::At(n), Err(Error::NoData))
                        }
                    },
                }
            },
            CursorOp::NextMultiple => {
                if !self.flags.dup_fixed {
                    return (pos, Err(Error::InvalidArgument));
                }
                match pos {
                    Position::Unset => (Position::Unset, Err(Error::NoData)),
                    Position::At(i) => {
                        let ii = if i <= n {
                            i
                        } else {
                            n
                        };
                        if ii < n {
                            (Position::At(ii), Err(Error::NotFound))
                        } else {
                            (Position::At(n), Err(Error::NoData))
                        }
                    },
                }
            },
        }
    }
}

/// The operations shared by both cursor capability variants.
pub trait Cursor: Sized {
    /// The cursor's position, as the model sees it.
    spec fn pos(&self) -> Position;

    /// The cursor's current position.
    fn position(&self) -> (p: Position)
        ensures
            p == self.pos(),
    ;

    /// One positioning call with the given opcode and optional seek key and
    /// value.  The value of the reached entry is always returned; its key
    /// only when the opcode hands one back.
    fn get(
        &mut self,
        db: &Database,
        key: Option<&[u8]>,
        data: Option<&[u8]>,
        op: CursorOp,
    ) -> (r: Result<(Option<Vec<u8>>, Vec<u8>), Error>)
        ensures
            ({
                let o = cursor_outcome(
                    db@,
                    old(self).pos(),
                    opt_slice_view(key),
                    opt_slice_view(data),
                    op,
                );
                final(self).pos() == o.pos && kv_res_view(r) == o.res
            }),
    ;

    /// Iterate from the entry after the cursor to the end of the table;
    /// a fresh cursor starts at the first entry.
    fn iter(&mut self) -> (it: Iter)
        ensures
            it == (Iter::Positioned {
                pos: old(self).pos(),
                op: CursorOp::Next,
                next_op: CursorOp::Next,
            }),
            final(self).pos() == old(self).pos(),
    ;

    /// Iterate over the whole table from its first entry.
    fn iter_start(&mut self) -> (it: Iter)
        ensures
            it == (Iter::Positioned {
                pos: old(self).pos(),
                op: CursorOp::First,
                next_op: CursorOp::Next,
            }),
            final(self).pos() == old(self).pos(),
    ;

    /// Iterate from the first entry whose key is at least `key`.  A seek
    /// past the last key yields an empty sequence; any other seek failure
    /// poisons the iterator.
    fn iter_from(&mut self, db: &Database, key: &[u8]) -> (it: Iter)
        ensures
            ({
                let o = cursor_outcome(
                    db@,
                    old(self).pos(),
                    Option::Some(key@),
                    Option::None,
                    CursorOp::SetRange,
                );
                final(self).pos() == o.pos && it == (match o.res {
                    Err(e) => {
                        if e == Error::NotFound {
                            Iter::Positioned {
                                pos: o.pos,
                                op: CursorOp::GetCurrent,
                                next_op: CursorOp::Next,
                            }
                        } else {
                            Iter::Poisoned(e)
                        }
                    },
                    Ok(_) => Iter::Positioned {
                        pos: o.pos,
                        op: CursorOp::GetCurrent,
                        next_op: CursorOp::Next,
                    },
                })
            }),
    ;

    /// Iterate over duplicate groups from the entry after the cursor.
    fn iter_dup(&mut self) -> (it: IterDup)
        ensures
            it == (IterDup::Positioned { pos: old(self).pos(), op: CursorOp::Next }),
            final(self).pos() == old(self).pos(),
    ;

    /// Iterate over all duplicate groups from the start of the table.
    fn iter_dup_start(&mut self) -> (it: IterDup)
        ensures
            it == (IterDup::Positioned { pos: old(self).pos(), op: CursorOp::First }),
            final(self).pos() == old(self).pos(),
    ;

    /// Iterate over duplicate groups from the first key at least `key`.
    fn iter_dup_from(&mut self, db: &Database, key: &[u8]) -> (it: IterDup)
        ensures
            ({
                let o = cursor_outcome(
                    db@,
                    old(self).pos(),
                    Option::Some(key@),
                    Option::None,
                    CursorOp::SetRange,
                );
                final(self).pos() == o.pos && it == (match o.res {
                    Err(e) => {
                        if e == Error::NotFound {
                            IterDup::Positioned { pos: o.pos, op: CursorOp::GetCurrent }
                        } else {
                            IterDup::Poisoned(e)
                        }
                    },
                    Ok(_) => IterDup::Positioned { pos: o.pos, op: CursorOp::GetCurrent },
                })
            }),
    ;

    /// Iterate over the duplicate values of exactly `key`.  An absent key
    /// yields an empty sequence: the failed exact seek leaves the cursor
    /// unset, and the iterator ends on its first step.
    fn iter_dup_of(&mut self, db: &Database, key: &[u8]) -> (it: Iter)
        ensures
            ({
                let o = cursor_outcome(
                    db@,
                    old(self).pos(),
                    Option::Some(key@),
                    Option::None,
                    CursorOp::SetValue,
                );
                final(self).pos() == o.pos && it == (match o.res {
                    Err(e) => {
                        if e == Error::NotFound {
                            Iter::Positioned {
                                pos: o.pos,
                                op: CursorOp::GetCurrent,
                                next_op: CursorOp::NextDup,
                            }
                        } else {
                            Iter::Poisoned(e)
                        }
                    },
                    Ok(_) => Iter::Positioned {
                        pos: o.pos,
                        op: CursorOp::GetCurrent,
                        next_op: CursorOp::NextDup,
                    },
                })
            }),
    ;
}

/// A read-only cursor.  Cloning copies the position into an independent
/// cursor over the same snapshot.
#[derive(Clone, Copy, Debug)]
pub struct RoCursor {
    pub pos: Position,
}

impl RoCursor {
    /// A fresh, unpositioned read-only cursor on the given table.
    pub fn new(db: &Database) -> (r: Result<RoCursor, Error>)
        ensures
            r matches Ok(c) && c.pos == Position::Unset,
    {
        let _ = db;
        Ok(RoCursor { pos: Position::Unset })
    }

    /// A new read-only cursor placed at another cursor's position; the two
    /// are independent afterwards.
    pub fn new_at_position<C: Cursor>(other: &C) -> (r: Result<RoCursor, Error>)
        ensures
            r matches Ok(c) && c.pos == other.pos(),
    {
        Ok(RoCursor { pos: other.position() })
    }
}

impl Cursor for RoCursor {
    open spec fn pos(&self) -> Position {
        self.pos
    }

    fn position(&self) -> (p: Position) {
        self.pos
    }

    fn get(
        &mut self,
        db: &Database,
        key: Option<&[u8]>,
        data: Option<&[u8]>,
        op: CursorOp,
    ) -> (r: Result<(Option<Vec<u8>>, Vec<u8>), Error>) {
        let (p, r) = db.seek(self.pos, key, data, op);
        self.pos = p;
        r
    }

    fn iter(&mut self) -> (it: Iter) {
        Iter::Positioned { pos: self.pos, op: CursorOp::Next, next_op: CursorOp::Next }
    }

    fn iter_start(&mut self) -> (it: Iter) {
        Iter::Positioned { pos: self.pos, op: CursorOp::First, next_op: CursorOp::Next }
    }

    fn iter_from(&mut self, db: &Database, key: &[u8]) -> (it: Iter) {
        match self.get(db, Option::Some(key), Option::None, CursorOp::SetRange) {
            Ok(_) => (),
            Err(Error::NotFound) => (),
            Err(e) => {
                return Iter::Poisoned(e);
            },
        }
        Iter::Positioned { pos: self.pos, op: CursorOp::GetCurrent, next_op: CursorOp::Next }
    }

    fn iter_dup(&mut self) -> (it: IterDup) {
        IterDup::Positioned { pos: self.pos, op: CursorOp::Next }
    }

    fn iter_dup_start(&mut self) -> (it: IterDup) {
        IterDup::Positioned { pos: self.pos, op: CursorOp::First }
    }

    fn iter_dup_from(&mut self, db: &Database, key: &[u8]) -> (it: IterDup) {
        match self.get(db, Option::Some(key), Option::None, CursorOp::SetRange) {
            Ok(_) => (),
            Err(Error::NotFound) => (),
            Err(e) => {
                return IterDup::Poisoned(e);
            },
        }
        IterDup::Positioned { pos: self.pos, op: CursorOp::GetCurrent }
    }

    fn iter_dup_of(&mut self, db: &Database, key: &[u8]) -> (it: Iter) {
        match self.get(db, Option::Some(key), Option::None, CursorOp::SetValue) {
            Ok(_) => (),
            Err(Error::NotFound) => (),
            Err(e) => {
                return Iter::Poisoned(e);
            },
        }
        Iter::Positioned { pos: self.pos, op: CursorOp::GetCurrent, next_op: CursorOp::NextDup }
    }
}

/// A read-write cursor: the positioning protocol plus writes at the
/// cursor.  Not cloneable.
#[derive(Debug)]
pub struct RwCursor {
    pub pos: Position,
}

impl RwCursor {
    /// A fresh, unpositioned read-write cursor on the given table.
    pub fn new(db: &Database) -> (r: Result<RwCursor, Error>)
        ensures
            r matches Ok(c) && c.pos == Position::Unset,
    {
        let _ = db;
        Ok(RwCursor { pos: Position::Unset })
    }

    /// Stores `(key, data)` and leaves the cursor on the written entry.
    pub fn put(&mut self, db: &mut Database, key: &[u8], data: &[u8], flags: WriteFlags) -> (r:
        Result<(), Error>)
        requires
            old(db)@.wf(),
            old(db)@.n() < usize::MAX as int,
        ensures
            ({
                let o = put_outcome(old(db)@, key@, data@, flags);
                &&& final(db)@ == o.table
                &&& r == o.res
                &&& final(db)@.wf()
                &&& r is Ok ==> final(self).pos == Position::At(o.idx as usize)
                &&& r is Err ==> final(self).pos == old(self).pos
                &&& final(db).dbi == old(db).dbi
                &&& final(db).flags == old(db).flags
            }),
    {
        proof {
            lemma_put_wf(db@, key@, data@, flags);
        }
        if !db.flags.dup_sort {
            let g = db.locate_ge(key);
            let r = db.put(key, data, flags);
            if r.is_ok() {
                self.pos = Position::At(g);
            }
            r
        } else {
            let j = db.locate_pair_ge(key, data);
            let r = db.put(key, data, flags);
            if r.is_ok() {
                self.pos = Position::At(j);
            }
            r
        }
    }

    /// Deletes the entry under the cursor; with the `no_dup_data` option,
    /// every value of the current key.  The cursor is left on the entry
    /// that followed the removed ones.
    pub fn del(&mut self, db: &mut Database, flags: WriteFlags) -> (r: Result<(), Error>)
        requires
            old(db)@.wf(),
        ensures
            ({
                let o = cursor_del_outcome(old(db)@, old(self).pos, flags.no_dup_data);
                &&& final(db)@ == o.table
                &&& final(self).pos == o.pos
                &&& r == o.res
                &&& final(db)@.wf()
                &&& final(db).dbi == old(db).dbi
                &&& final(db).flags == old(db).flags
            }),
    {
        let ghost t0 = db@;
        let ghost o = cursor_del_outcome(t0, self.pos, flags.no_dup_data);
        proof {
            lemma_cursor_del_wf(db@, self.pos, flags.no_dup_data);
        }
        let n = db.pairs.len();
        match self.pos {
            Position::Unset => Err(Error::NoData),
            Position::At(i) => {
                let ii = if i <= n {
                    i
                } else {
                    n
                };
                if ii >= n {
                    self.pos = Position::At(n);
                    return Err(Error::NoData);
                }
                if flags.no_dup_data {
                    let gs = db.run_start(ii);
                    let ge = db.run_end(ii);
                    db.remove_range(gs, ge);
                    self.pos = Position::At(gs);
                    proof {
                        assert(db@ =~= o.table);
                    }
                    Ok(())
                } else {
                    db.remove_at(ii);
                    self.pos = Position::At(ii);
                    proof {
                        assert(db@ =~= o.table);
                    }
                    Ok(())
                }
            },
        }
    }
}

impl Cursor for RwCursor {
    open spec fn pos(&self) -> Position {
        self.pos
    }

    fn position(&self) -> (p: Position) {
        self.pos
    }

    fn get(
        &mut self,
        db: &Database,
        key: Option<&[u8]>,
        data: Option<&[u8]>,
        op: CursorOp,
    ) -> (r: Result<(Option<Vec<u8>>, Vec<u8>), Error>) {
        let (p, r) = db.seek(self.pos, key, data, op);
        self.pos = p;
        r
    }

    fn iter(&mut self) -> (it: Iter) {
        Iter::Positioned { pos: self.pos, op: CursorOp::Next, next_op: CursorOp::Next }
    }

    fn iter_start(&mut self) -> (it: Iter) {
        Iter::Positioned { pos: self.pos, op: CursorOp::First, next_op: CursorOp::Next }
    }

    fn iter_from(&mut self, db: &Database, key: &[u8]) -> (it: Iter) {
        match self.get(db, Option::Some(key), Option::None, CursorOp::SetRange) {
            Ok(_) => (),
            Err(Error::NotFound) => (),
            Err(e) => {
                return Iter::Poisoned(e);
            },
        }
        Iter::Positioned { pos: self.pos, op: CursorOp::GetCurrent, next_op: CursorOp::Next }
    }

    fn iter_dup(&mut self) -> (it: IterDup) {
        IterDup::Positioned { pos: self.pos, op: CursorOp::Next }
    }

    fn iter_dup_start(&mut self) -> (it: IterDup) {
        IterDup::Positioned { pos: self.pos, op: CursorOp::First }
    }

    fn iter_dup_from(&mut self, db: &Database, key: &[u8]) -> (it: IterDup) {
        match self.get(db, Option::Some(key), Option::None, CursorOp::SetRange) {
            Ok(_) => (),
            Err(Error::NotFound) => (),
            Err(e) => {
                return IterDup::Poisoned(e);
            },
        }
        IterDup::Positioned { pos: self.pos, op: CursorOp::GetCurrent }
    }

    fn iter_dup_of(&mut self, db: &Database, key: &[u8]) -> (it: Iter) {
        match self.get(db, Option::Some(key), Option::None, CursorOp::SetValue) {
            Ok(_) => (),
            Err(Error::NotFound) => (),
            Err(e) => {
                return Iter::Poisoned(e);
            },
        }
        Iter::Positioned { pos: self.pos, op: CursorOp::GetCurrent, next_op: CursorOp::NextDup }
    }
}

impl Database {
    /// Opens a new, unpositioned read-only cursor on this table.
    pub fn open_ro_cursor(&self) -> (r: Result<RoCursor, Error>)
        ensures
            r matches Ok(c) && c.pos == Position::Unset,
    {
        RoCursor::new(self)
    }

    /// Opens a new, unpositioned read-write cursor on this table.
    pub fn open_rw_cursor(&self) -> (r: Result<RwCursor, Error>)
        ensures
            r matches Ok(c) && c.pos == Position::Unset,
    {
        RwCursor::new(self)
    }
}

} // verus!
