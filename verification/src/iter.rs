//! Lazy iteration over the entries of a table.
//!
//! Iterators are infallible to construct and fallible to consume: a failed
//! seek during construction yields a poisoned iterator whose every element
//! is that error, and a failure during a step is yielded as an element.
//! The statuses `NotFound` and `NoData` are not errors here — both end the
//! sequence silently.

use vstd::prelude::*;

use crate::cursor::RoCursor;
use crate::database::Database;
use crate::error::Error;
use crate::model::cursor_outcome;
use crate::model::group_end;
use crate::model::lemma_group_end_props;
use crate::model::pos_index;
use crate::model::TableView;
use crate::ops::CursorOp;
use crate::ops::Position;

verus! {

/// An iterator over key/value pairs, holding its own cursor position.
///
/// `Positioned` carries the opcode for the next step (`op`) and the opcode
/// for every step after it (`next_op`); the swap happens unconditionally on
/// each step, so one failed step does not stall the sequence.
#[derive(Debug)]
pub enum Iter {
    /// Construction of the underlying seek failed: every step yields this
    /// error, forever.
    Poisoned(Error),
    /// A live iteration.
    Positioned { pos: Position, op: CursorOp, next_op: CursorOp },
}

/// An iterator over key/value pairs that owns its cursor; the element type
/// of [`IterDup`], walking one key's duplicate group.
#[derive(Debug)]
pub enum IntoIter {
    /// Construction failed: every step yields this error, forever.
    Poisoned(Error),
    /// A live iteration.
    Positioned { cursor: RoCursor, op: CursorOp, next_op: CursorOp },
}

/// An iterator over duplicate groups: each element is a sequential iterator
/// over one key's values.
#[derive(Debug)]
pub enum IterDup {
    /// Construction failed: every step yields a poisoned inner iterator.
    Poisoned(Error),
    /// A live iteration; after the first step the opcode is always
    /// `NextNoDup`.
    Positioned { pos: Position, op: CursorOp },
}

/// The state of a sequential iterator after one step.
pub open spec fn iter_after(db: TableView, it: Iter) -> Iter {
    match it {
        Iter::Poisoned(_) => it,
        Iter::Positioned { pos, op, next_op } => Iter::Positioned {
            pos: cursor_outcome(db, pos, Option::None, Option::None, op).pos,
            op: next_op,
            next_op,
        },
    }
}

/// What one step of a sequential iterator yields: `None` ends the
/// sequence; an entry is yielded with its key, or with an empty key for a
/// value-only opcode.
pub open spec fn iter_item(db: TableView, it: Iter) -> Option<
    Result<(Seq<u8>, Seq<u8>), Error>,
> {
    match it {
        Iter::Poisoned(e) => Option::Some(Err(e)),
        Iter::Positioned { pos, op, next_op } => {
            let o = cursor_outcome(db, pos, Option::None, Option::None, op);
            match o.res {
                Ok(kv) => Option::Some(
                    Ok(
                        (
                            match kv.0 {
                                Option::Some(k) => k,
                                Option::None => Seq::empty(),
                            },
                            kv.1,
                        ),
                    ),
                ),
                Err(e) => {
                    if e == Error::NotFound || e == Error::NoData {
                        Option::None
                    } else {
                        Option::Some(Err(e))
                    }
                },
            }
        },
    }
}

/// The view of one yielded element.
pub open spec fn item_view(r: Option<Result<(Vec<u8>, Vec<u8>), Error>>) -> Option<
    Result<(Seq<u8>, Seq<u8>), Error>,
> {
    match r {
        Option::Some(Ok(kv)) => Option::Some(Ok((kv.0@, kv.1@))),
        Option::Some(Err(e)) => Option::Some(Err(e)),
        Option::None => Option::None,
    }
}

impl Iter {
    /// One step: issue the pending opcode, advance the opcode state
    /// unconditionally, and yield the entry, the end of the sequence, or an
    /// error element.
    pub fn next(&mut self, db: &Database) -> (r: Option<Result<(Vec<u8>, Vec<u8>), Error>>)
        ensures
            *final(self) == iter_after(db@, *old(self)),
            item_view(r) == iter_item(db@, *old(self)),
    {
        let (p, o, no) = match self {
            Iter::Poisoned(e) => {
                return Option::Some(Err(*e));
            },
            Iter::Positioned { pos, op, next_op } => (*pos, *op, *next_op),
        };
        let (p2, res) = db.seek(p, Option::None, Option::None, o);
        *self = Iter::Positioned { pos: p2, op: no, next_op: no };
        match res {
            Ok((kopt, v)) => {
                let k = match kopt {
                    Option::Some(k) => k,
                    Option::None => Vec::new(),
                };
                Option::Some(Ok((k, v)))
            },
            Err(Error::NotFound) => Option::None,
            Err(Error::NoData) => Option::None,
            Err(e) => Option::Some(Err(e)),
        }
    }
}

/// The state of an owning sequential iterator after one step.
pub open spec fn into_iter_after(db: TableView, it: IntoIter) -> IntoIter {
    match it {
        IntoIter::Poisoned(_) => it,
        IntoIter::Positioned { cursor, op, next_op } => IntoIter::Positioned {
            cursor: RoCursor {
                pos: cursor_outcome(db, cursor.pos, Option::None, Option::None, op).pos,
            },
            op: next_op,
            next_op,
        },
    }
}

/// What one step of an owning sequential iterator yields.
pub open spec fn into_iter_item(db: TableView, it: IntoIter) -> Option<
    Result<(Seq<u8>, Seq<u8>), Error>,
> {
    match it {
        IntoIter::Poisoned(e) => iter_item(db, Iter::Poisoned(e)),
        IntoIter::Positioned { cursor, op, next_op } => iter_item(
            db,
            Iter::Positioned { pos: cursor.pos, op, next_op },
        ),
    }
}

impl IntoIter {
    /// One step; the same protocol as [`Iter::next`], over the owned
    /// cursor.
    pub fn next(&mut self, db: &Database) -> (r: Option<Result<(Vec<u8>, Vec<u8>), Error>>)
        ensures
            *final(self) == into_iter_after(db@, *old(self)),
            item_view(r) == into_iter_item(db@, *old(self)),
    {
        let (p, o, no) = match self {
            IntoIter::Poisoned(e) => {
                return Option::Some(Err(*e));
            },
            IntoIter::Positioned { cursor, op, next_op } => (cursor.pos, *op, *next_op),
        };
        let (p2, res) = db.seek(p, Option::None, Option::None, o);
        *self = IntoIter::Positioned { cursor: RoCursor { pos: p2 }, op: no, next_op: no };
        match res {
            Ok((kopt, v)) => {
                let k = match kopt {
                    Option::Some(k) => k,
                    Option::None => Vec::new(),
                };
                Option::Some(Ok((k, v)))
            },
            Err(Error::NotFound) => Option::None,
            Err(Error::NoData) => Option::None,
            Err(e) => Option::Some(Err(e)),
        }
    }
}

/// The state of a duplicate-group iterator after one step.
pub open spec fn iter_dup_after(db: TableView, it: IterDup) -> IterDup {
    match it {
        IterDup::Poisoned(_) => it,
        IterDup::Positioned { pos, op } => IterDup::Positioned {
            pos: cursor_outcome(db, pos, Option::None, Option::None, op).pos,
            op: CursorOp::NextNoDup,
        },
    }
}

/// What one step of a duplicate-group iterator yields: a fresh sequential
/// iterator positioned on the group's first reached entry, configured to
/// walk exactly that group.
pub open spec fn iter_dup_item(db: TableView, it: IterDup) -> Option<IntoIter> {
    match it {
        IterDup::Poisoned(e) => Option::Some(IntoIter::Poisoned(e)),
        IterDup::Positioned { pos, op } => {
            let o = cursor_outcome(db, pos, Option::None, Option::None, op);
            match o.res {
                Ok(_) => Option::Some(
                    IntoIter::Positioned {
                        cursor: RoCursor { pos: o.pos },
                        op: CursorOp::GetCurrent,
                        next_op: CursorOp::NextDup,
                    },
                ),
                Err(_) => Option::None,
            }
        },
    }
}

impl IterDup {
    /// One step: move to the next distinct key, and on success hand out a
    /// sequential iterator over that key's duplicate group, walking on a
    /// cursor of its own.
    ///
    /// In this engine model, placing a new read-only cursor at the reached
    /// position cannot fail; a failure there would be surfaced as a
    /// poisoned element rather than ending the process.
    pub fn next(&mut self, db: &Database) -> (r: Option<IntoIter>)
        ensures
            *final(self) == iter_dup_after(db@, *old(self)),
            r == iter_dup_item(db@, *old(self)),
    {
        let (p, o) = match self {
            IterDup::Poisoned(e) => {
                return Option::Some(IntoIter::Poisoned(*e));
            },
            IterDup::Positioned { pos, op } => (*pos, *op),
        };
        let (p2, res) = db.seek(p, Option::None, Option::None, o);
        *self = IterDup::Positioned { pos: p2, op: CursorOp::NextNoDup };
        match res {
            Ok(_) => Option::Some(
                IntoIter::Positioned {
                    cursor: RoCursor { pos: p2 },
                    op: CursorOp::GetCurrent,
                    next_op: CursorOp::NextDup,
                },
            ),
            Err(_) => Option::None,
        }
    }
}

// ---------------------------------------------------------------------------
// Whole iteration sequences.
// ---------------------------------------------------------------------------

/// The pairs of entries `i ..= j-1`, as an iterator yields them.
pub open spec fn scan(t: TableView, i: int, j: int) -> Seq<(Seq<u8>, Seq<u8>)> {
    Seq::new(
        if i <= j {
            (j - i) as nat
        } else {
            0
        },
        |m: int| (t.entries[i + m].key, t.entries[i + m].value),
    )
}

/// The deep view of a collected vector of pairs.
pub open spec fn pairs_deep(v: Seq<(Vec<u8>, Vec<u8>)>) -> Seq<(Seq<u8>, Seq<u8>)> {
    v.map_values(|p: (Vec<u8>, Vec<u8>)| (p.0@, p.1@))
}

/// The opcode states this crate's iteration entry points construct; only
/// for these does a whole iteration have a closed form (an arbitrary
/// opcode pair need not even terminate).
pub open spec fn combo_ok(it: Iter) -> bool {
    match it {
        Iter::Poisoned(_) => true,
        Iter::Positioned { pos, op, next_op } => {
            ||| (op is First && next_op is Next)
            ||| (op is Next && next_op is Next)
            ||| (op is GetCurrent && next_op is Next)
            ||| (op is GetCurrent && next_op is NextDup)
            ||| (op is NextDup && next_op is NextDup)
        },
    }
}

/// Every pair a live sequential iterator will yield before its sequence
/// ends, for the states of `combo_ok`.
pub open spec fn iter_yields(t: TableView, it: Iter) -> Seq<(Seq<u8>, Seq<u8>)> {
    match it {
        Iter::Poisoned(_) => Seq::empty(),
        Iter::Positioned { pos, op, next_op } => {
            let n = t.n();
            let ii = pos_index(t, pos);
            if op is First && next_op is Next {
                scan(t, 0, n)
            } else if op is Next && next_op is Next {
                if pos is Unset {
                    scan(t, 0, n)
                } else {
                    scan(t, ii + 1, n)
                }
            } else if op is GetCurrent && next_op is Next {
                if pos is Unset || ii >= n {
                    Seq::empty()
                } else {
                    scan(t, ii, n)
                }
            } else if op is GetCurrent && next_op is NextDup {
                if pos is Unset || ii >= n {
                    Seq::empty()
                } else {
                    scan(t, ii, group_end(t.entries, ii))
                }
            } else if op is NextDup && next_op is NextDup {
                if pos is Unset || ii >= n {
                    Seq::empty()
                } else {
                    scan(t, ii + 1, group_end(t.entries, ii))
                }
            } else {
                Seq::empty()
            }
        },
    }
}

/// One step of a live iterator either ends an empty sequence, or yields
/// the head of `iter_yields` and leaves a state that will yield its tail.
pub proof fn lemma_iter_step(t: TableView, it: Iter)
    requires
        it is Positioned,
        combo_ok(it),
        t.n() <= usize::MAX as int,
    ensures
        iter_item(t, it) is None ==> iter_yields(t, it) == Seq::<(Seq<u8>, Seq<u8>)>::empty(),
        iter_item(t, it) matches Option::Some(x) ==> (x matches Ok(kv) && iter_yields(t, it)
            == seq![kv] + iter_yields(t, iter_after(t, it)) && combo_ok(iter_after(t, it))
            && iter_after(t, it) is Positioned && iter_yields(t, iter_after(t, it)).len()
            == iter_yields(t, it).len() - 1),
{
    let pos = it->Positioned_pos;
    let op = it->Positioned_op;
    let next_op = it->Positioned_next_op;
    let n = t.n();
    let ii = pos_index(t, pos);
    let o = cursor_outcome(t, pos, Option::None, Option::None, op);
    let after = iter_after(t, it);
    if op is First || (op is Next && pos is Unset) {
        if n == 0 {
            assert(iter_yields(t, it) =~= Seq::<(Seq<u8>, Seq<u8>)>::empty());
        } else {
            assert(iter_yields(t, it) =~= seq![(t.entries[0].key, t.entries[0].value)]
                + iter_yields(t, after));
        }
    } else if op is Next {
        if ii + 1 < n {
            assert(iter_yields(t, it) =~= seq![(t.entries[ii + 1].key, t.entries[ii + 1].value)]
                + iter_yields(t, after));
        } else {
            assert(iter_yields(t, it) =~= Seq::<(Seq<u8>, Seq<u8>)>::empty());
        }
    } else if op is GetCurrent && next_op is Next {
        if pos is Unset || ii >= n {
        } else {
            assert(iter_yields(t, it) =~= seq![(t.entries[ii].key, t.entries[ii].value)]
                + iter_yields(t, after));
        }
    } else if op is GetCurrent && next_op is NextDup {
        if pos is Unset || ii >= n {
        } else {
            lemma_group_end_props(t.entries, ii);
            assert(iter_yields(t, it) =~= seq![(t.entries[ii].key, t.entries[ii].value)]
                + iter_yields(t, after));
        }
    } else {
        // op is NextDup
        if pos is Unset || ii >= n {
        } else if ii + 1 < n && t.entries[ii + 1].key == t.entries[ii].key {
            lemma_group_end_props(t.entries, ii + 1);
            assert(group_end(t.entries, ii) == group_end(t.entries, ii + 1));
            assert(iter_yields(t, it) =~= seq![(t.entries[ii + 1].key, t.entries[ii + 1].value)]
                + iter_yields(t, after));
        } else {
            assert(group_end(t.entries, ii) == ii + 1);
            assert(iter_yields(t, it) =~= Seq::<(Seq<u8>, Seq<u8>)>::empty());
        }
    }
}

impl Iter {
    /// Drains the iterator, collecting every yielded pair; a poisoned
    /// iterator gives its error.  Callers construct the state through this
    /// crate's entry points, whose opcode pairs are exactly those of
    /// `combo_ok`.
    pub fn collect_all(&mut self, db: &Database) -> (r: Result<Vec<(Vec<u8>, Vec<u8>)>, Error>)
        requires
            combo_ok(*old(self)),
        ensures
            *old(self) matches Iter::Poisoned(e) ==> r == Err::<Vec<(Vec<u8>, Vec<u8>)>, Error>(e),
            *old(self) is Positioned ==> (r matches Ok(v) && pairs_deep(v@) == iter_yields(
                db@,
                *old(self),
            )),
    {
        if let Iter::Poisoned(e) = self {
            return Err(*e);
        }
        let ghost it0 = *self;
        let n = db.pairs.len();
        let mut out: Vec<(Vec<u8>, Vec<u8>)> = Vec::new();
        loop
            invariant_except_break
                *self is Positioned,
                combo_ok(*self),
                db@.n() <= usize::MAX as int,
                pairs_deep(out@) + iter_yields(db@, *self) == iter_yields(db@, it0),
            ensures
                pairs_deep(out@) == iter_yields(db@, it0),
            decreases iter_yields(db@, *self).len(),
        {
            proof {
                lemma_iter_step(db@, *self);
            }
            match self.next(db) {
                Option::None => {
                    proof {
                        assert(pairs_deep(out@) =~= iter_yields(db@, it0));
                    }
                    break;
                },
                Option::Some(Ok(kv)) => {
                    out.push(kv);
                    proof {
                        assert(pairs_deep(out@) + iter_yields(db@, *self) =~= iter_yields(
                            db@,
                            it0,
                        ));
                    }
                },
                Option::Some(Err(e)) => {
                    // a live iterator of these opcode states never yields an
                    // error element, so this path is unreachable
                    return Err(e);
                },
            }
        }
        Ok(out)
    }
}

/// The sequential iterator equivalent to an owning one.
pub open spec fn as_seq_iter(it: IntoIter) -> Iter {
    match it {
        IntoIter::Poisoned(e) => Iter::Poisoned(e),
        IntoIter::Positioned { cursor, op, next_op } => Iter::Positioned {
            pos: cursor.pos,
            op,
            next_op,
        },
    }
}

impl IntoIter {
    /// Drains the iterator, collecting every yielded pair; a poisoned
    /// iterator gives its error.
    pub fn collect_all(&mut self, db: &Database) -> (r: Result<Vec<(Vec<u8>, Vec<u8>)>, Error>)
        requires
            combo_ok(as_seq_iter(*old(self))),
        ensures
            *old(self) matches IntoIter::Poisoned(e) ==> r == Err::<
                Vec<(Vec<u8>, Vec<u8>)>,
                Error,
            >(e),
            *old(self) is Positioned ==> (r matches Ok(v) && pairs_deep(v@) == iter_yields(
                db@,
                as_seq_iter(*old(self)),
            )),
    {
        let mut it = match self {
            IntoIter::Poisoned(e) => Iter::Poisoned(*e),
            IntoIter::Positioned { cursor, op, next_op } => Iter::Positioned {
                pos: cursor.pos,
                op: *op,
                next_op: *next_op,
            },
        };
        let r = it.collect_all(db);
        *self = match it {
            Iter::Poisoned(e) => IntoIter::Poisoned(e),
            Iter::Positioned { pos, op, next_op } => IntoIter::Positioned {
                cursor: RoCursor { pos },
                op,
                next_op,
            },
        };
        r
    }
}

/// The duplicate-group iterator states this crate's entry points construct.
pub open spec fn dup_combo_ok(it: IterDup) -> bool {
    match it {
        IterDup::Poisoned(_) => true,
        IterDup::Positioned { pos, op } => {
            ||| op is First
            ||| op is Next
            ||| op is GetCurrent
            ||| op is NextNoDup
        },
    }
}

/// Every pair a duplicate-group iteration will yield across all its inner
/// iterators: the groups partition the rest of the table, so the flattened
/// sequence is a plain suffix scan.
pub open spec fn dup_remaining(t: TableView, it: IterDup) -> Seq<(Seq<u8>, Seq<u8>)> {
    match it {
        IterDup::Poisoned(_) => Seq::empty(),
        IterDup::Positioned { pos, op } => {
            let n = t.n();
            let ii = pos_index(t, pos);
            if op is First {
                scan(t, 0, n)
            } else if op is Next {
                if pos is Unset {
                    scan(t, 0, n)
                } else {
                    scan(t, ii + 1, n)
                }
            } else if op is GetCurrent {
                if pos is Unset || ii >= n {
                    Seq::empty()
                } else {
                    scan(t, ii, n)
                }
            } else if op is NextNoDup {
                if pos is Unset {
                    scan(t, 0, n)
                } else if ii < n {
                    scan(t, group_end(t.entries, ii), n)
                } else {
                    Seq::empty()
                }
            } else {
                Seq::empty()
            }
        },
    }
}

/// One outer step either ends an exhausted duplicate-group iteration, or
/// hands out an inner iterator over exactly the next group.
pub proof fn lemma_dup_step(t: TableView, it: IterDup)
    requires
        it is Positioned,
        dup_combo_ok(it),
        t.n() <= usize::MAX as int,
    ensures
        iter_dup_item(t, it) is None ==> dup_remaining(t, it) == Seq::<(Seq<u8>, Seq<u8>)>::empty(),
        iter_dup_item(t, it) matches Option::Some(inner) ==> (combo_ok(as_seq_iter(inner))
            && inner is Positioned && dup_remaining(t, it) == iter_yields(t, as_seq_iter(inner))
            + dup_remaining(t, iter_dup_after(t, it)) && dup_combo_ok(iter_dup_after(t, it))
            && iter_dup_after(t, it) is Positioned && iter_yields(t, as_seq_iter(inner)).len() >= 1
            && dup_remaining(t, iter_dup_after(t, it)).len() < dup_remaining(t, it).len()),
{
    let pos = it->Positioned_pos;
    let op = it->Positioned_op;
    let n = t.n();
    let ii = pos_index(t, pos);
    let o = cursor_outcome(t, pos, Option::None, Option::None, op);
    let after = iter_dup_after(t, it);
    if o.res is Ok {
        let j = pos_index(t, o.pos);
        assert(o.pos is At);
        if op is First || ((op is Next || op is NextNoDup) && pos is Unset) {
            assert(j == 0);
        } else if op is Next {
            assert(j == ii + 1);
        } else if op is GetCurrent {
            assert(j == ii);
        } else {
            lemma_group_end_props(t.entries, ii);
            assert(j == group_end(t.entries, ii));
        }
        assert(0 <= j < n);
        lemma_group_end_props(t.entries, j);
        let ge = group_end(t.entries, j);
        let inner = iter_dup_item(t, it)->Some_0;
        assert(iter_yields(t, as_seq_iter(inner)) == scan(t, j, ge));
        assert(dup_remaining(t, after) == scan(t, ge, n));
        assert(dup_remaining(t, it) =~= scan(t, j, ge) + scan(t, ge, n));
        assert(iter_yields(t, as_seq_iter(inner)).len() >= 1);
    } else {
        if op is First || ((op is Next || op is NextNoDup) && pos is Unset) {
            assert(n == 0);
            assert(dup_remaining(t, it) =~= Seq::<(Seq<u8>, Seq<u8>)>::empty());
        } else if op is Next {
            assert(ii + 1 >= n);
            assert(dup_remaining(t, it) =~= Seq::<(Seq<u8>, Seq<u8>)>::empty());
        } else if op is GetCurrent {
            assert(dup_remaining(t, it) =~= Seq::<(Seq<u8>, Seq<u8>)>::empty());
        } else {
            if ii < n {
                lemma_group_end_props(t.entries, ii);
                assert(group_end(t.entries, ii) >= n);
                assert(dup_remaining(t, it) =~= Seq::<(Seq<u8>, Seq<u8>)>::empty());
            }
        }
    }
}

impl IterDup {
    /// Drains the whole duplicate-group iteration, collecting the pairs of
    /// every group in order; a poisoned iteration gives its error.
    pub fn collect_flat(&mut self, db: &Database) -> (r: Result<Vec<(Vec<u8>, Vec<u8>)>, Error>)
        requires
            dup_combo_ok(*old(self)),
        ensures
            *old(self) matches IterDup::Poisoned(e) ==> r == Err::<
                Vec<(Vec<u8>, Vec<u8>)>,
                Error,
            >(e),
            *old(self) is Positioned ==> (r matches Ok(v) && pairs_deep(v@) == dup_remaining(
                db@,
                *old(self),
            )),
    {
        if let IterDup::Poisoned(e) = self {
            return Err(*e);
        }
        let ghost it0 = *self;
        let n = db.pairs.len();
        let mut out: Vec<(Vec<u8>, Vec<u8>)> = Vec::new();
        loop
            invariant_except_break
                *self is Positioned,
                dup_combo_ok(*self),
                db@.n() <= usize::MAX as int,
                pairs_deep(out@) + dup_remaining(db@, *self) == dup_remaining(db@, it0),
            ensures
                pairs_deep(out@) == dup_remaining(db@, it0),
            decreases dup_remaining(db@, *self).len(),
        {
            proof {
                lemma_dup_step(db@, *self);
            }
            match self.next(db) {
                Option::None => {
                    proof {
                        assert(pairs_deep(out@) =~= dup_remaining(db@, it0));
                    }
                    break;
                },
                Option::Some(inner) => {
                    let mut group = inner;
                    match group.collect_all(db) {
                        Ok(mut v) => {
                            let ghost outb = out@;
                            let ghost vv = v@;
                            out.append(&mut v);
                            proof {
                                assert(pairs_deep(out@) =~= pairs_deep(outb) + pairs_deep(vv));
                                assert(pairs_deep(out@) + dup_remaining(db@, *self)
                                    =~= dup_remaining(db@, it0));
                            }
                        },
                        Err(e) => {
                            // the inner iterator handed out here is never
                            // poisoned, so this path is unreachable
                            return Err(e);
                        },
                    }
                },
            }
        }
        Ok(out)
    }
}

} // verus!
