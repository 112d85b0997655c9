//! A handle to one table within one transaction snapshot, together with the
//! single-key operations.
//!
//! The engine's side of the table — the sorted entries themselves — is held
//! and maintained here, so every operation is verified against the model in
//! [`crate::model`] instead of being trusted.

use vstd::prelude::*;
use vstd::slice::slice_to_vec;

use crate::bytes::compare;
use crate::bytes::Comparison;
use crate::error::Error;
use crate::flags::DatabaseFlags;
use crate::flags::WriteFlags;
use crate::model::concat_values;
use crate::model::del_outcome;
use crate::model::entry_lt;
use crate::model::find_ge;
use crate::model::find_pair_ge;
use crate::model::group_end;
use crate::model::group_start;
use crate::model::lemma_concat_values_snoc;
use crate::model::lemma_del_wf;
use crate::model::lemma_find_ge_from_unique;
use crate::model::lemma_find_pair_ge_from_unique;
use crate::model::lemma_group_end_unique;
use crate::model::lemma_group_start_unique;
use crate::model::lemma_put_wf;
use crate::model::lookup;
use crate::model::put_outcome;
use crate::model::reserve_outcome;
use crate::model::zero_bytes;
use crate::model::PairView;
use crate::model::TableView;

verus! {

/// The reserved table id of the engine's internal free-page table; never
/// assigned to a user table.
pub const FREE_DBI: u32 = 0;

/// One stored key/value entry.
pub struct Pair {
    pub key: Vec<u8>,
    pub value: Vec<u8>,
}

impl View for Pair {
    type V = PairView;

    open spec fn view(&self) -> PairView {
        PairView { key: self.key@, value: self.value@ }
    }
}

/// The entries of a pair vector, as the model sees them.
pub open spec fn pairs_view(s: Seq<Pair>) -> Seq<PairView> {
    s.map_values(|p: Pair| p@)
}

/// Copy a byte slice into an owned vector.
pub(crate) fn copy_bytes(b: &[u8]) -> (r: Vec<u8>)
    ensures
        r@ == b@,
{
    slice_to_vec(b)
}

/// Whether a byte string holds an embedded null byte.
pub open spec fn has_nul(s: Seq<u8>) -> bool {
    exists|i: int| 0 <= i < s.len() && s[i] == 0u8
}

/// Check a table name for an embedded null byte.
fn contains_nul(s: &[u8]) -> (b: bool)
    ensures
        b == has_nul(s@),
{
    let n: usize = s.len();
    let mut i: usize = 0;
    while i < n
        invariant
            0 <= i <= n,
            n == s@.len(),
            forall|m: int| 0 <= m < i ==> s@[m] != 0u8,
        decreases n - i,
    {
        if s[i] == 0 {
            return true;
        }
        i = i + 1;
    }
    false
}

/// Statistics of one table.
#[derive(Clone, Copy, Debug, PartialEq, Eq, Structural)]
pub struct Stat {
    /// Number of stored entries; in a duplicate-permitting table every
    /// duplicate value counts.
    pub entries: usize,
}

/// A handle to an individual table in a transaction, holding the table's
/// options and its sorted entries.
pub struct Database {
    /// The table id the environment assigned when the table was opened.
    pub dbi: u32,
    /// The options the table was opened with.
    pub flags: DatabaseFlags,
    /// The entries, sorted as `TableView::wf` demands.
    pub pairs: Vec<Pair>,
}

impl View for Database {
    type V = TableView;

    open spec fn view(&self) -> TableView {
        TableView {
            dup_sort: self.flags.dup_sort,
            dup_fixed: self.flags.dup_fixed,
            entries: pairs_view(self.pairs@),
        }
    }
}

impl Database {
    /// Opens a table handle.
    ///
    /// The environment collaborator assigns the table id; this layer checks
    /// the caller-visible rules: a name must not contain an embedded null
    /// byte (the engine stores names null-terminated), the id of the
    /// internal free-page table is never given out for a user table, and
    /// fixed-size values demand a duplicate-permitting table.
    pub fn new(dbi: u32, name: Option<&[u8]>, flags: DatabaseFlags) -> (r: Result<Database, Error>)
        ensures
            ({
                let bad_name = match name {
                    Option::Some(nm) => has_nul(nm@),
                    Option::None => false,
                };
                if bad_name || dbi == FREE_DBI || (flags.dup_fixed && !flags.dup_sort) {
                    r == Err::<Database, Error>(Error::InvalidArgument)
                } else {
                    &&& r matches Ok(db)
                    &&& db@.wf()
                    &&& db@.entries.len() == 0
                    &&& db@.dup_sort == flags.dup_sort
                    &&& db@.dup_fixed == flags.dup_fixed
                    &&& db.dbi == dbi
                }
            }),
    {
        if let Option::Some(nm) = name {
            if contains_nul(nm) {
                return Err(Error::InvalidArgument);
            }
        }
        if dbi == FREE_DBI {
            return Err(Error::InvalidArgument);
        }
        if flags.dup_fixed && !flags.dup_sort {
            return Err(Error::InvalidArgument);
        }
        Ok(Database { dbi, flags, pairs: Vec::new() })
    }

    /// The handle of the engine's internal free-page table.
    pub fn freelist_db() -> (db: Database)
        ensures
            db.dbi == FREE_DBI,
            db@.wf(),
            db@.entries.len() == 0,
            !db@.dup_sort,
            !db@.dup_fixed,
    {
        Database { dbi: FREE_DBI, flags: DatabaseFlags::empty(), pairs: Vec::new() }
    }

    /// The table id of this handle.
    pub fn dbi(&self) -> (r: u32)
        ensures
            r == self.dbi,
    {
        self.dbi
    }

    /// The options the table was opened with.
    pub fn db_flags(&self) -> (r: Result<DatabaseFlags, Error>)
        ensures
            r == Ok::<DatabaseFlags, Error>(self.flags),
    {
        Ok(self.flags)
    }

    /// Table statistics.
    pub fn stat(&self) -> (r: Result<Stat, Error>)
        ensures
            r matches Ok(st) && st.entries == self@.n(),
    {
        Ok(Stat { entries: self.pairs.len() })
    }

    /// First index whose key is not below `key`; see `find_ge`.
    pub(crate) fn locate_ge(&self, key: &[u8]) -> (g: usize)
        ensures
            g == find_ge(self@.entries, key@),
            g <= self@.n(),
    {
        let n: usize = self.pairs.len();
        let mut g: usize = 0;
        while g < n && compare(self.pairs[g].key.as_slice(), key) == Comparison::Less
            invariant
                0 <= g <= n,
                n == self.pairs@.len(),
                forall|m: int|
                    0 <= m < g ==> crate::bytes::lex_lt((#[trigger] self@.entries[m]).key, key@),
            decreases n - g,
    {
            assert(self@.entries[g as int].key == self.pairs@[g as int].key@);
            g = g + 1;
        }
        proof {
            if g < n {
                assert(self@.entries[g as int].key == self.pairs@[g as int].key@);
            }
            lemma_find_ge_from_unique(self@.entries, key@, 0, g as int);
        }
        g
    }

    /// First index whose entry is not below `(key, value)`; see
    /// `find_pair_ge`.
    pub(crate) fn locate_pair_ge(&self, key: &[u8], value: &[u8]) -> (g: usize)
        ensures
            g == find_pair_ge(self@.entries, key@, value@),
            g <= self@.n(),
    {
        let n: usize = self.pairs.len();
        let mut g: usize = 0;
        while g < n && entry_before(&self.pairs[g], key, value)
            invariant
                0 <= g <= n,
                n == self.pairs@.len(),
                forall|m: int|
                    0 <= m < g ==> entry_lt(
                        #[trigger] self@.entries[m],
                        PairView { key: key@, value: value@ },
                    ),
            decreases n - g,
        {
            assert(self@.entries[g as int] == self.pairs@[g as int]@);
            g = g + 1;
        }
        proof {
            if g < n {
                assert(self@.entries[g as int] == self.pairs@[g as int]@);
            }
            lemma_find_pair_ge_from_unique(self@.entries, key@, value@, 0, g as int);
        }
        g
    }

    /// First index of the equal-key run around entry `i`; see `group_start`.
    pub(crate) fn run_start(&self, i: usize) -> (g: usize)
        requires
            i < self@.n(),
        ensures
            g == group_start(self@.entries, i as int),
            g <= i,
    {
        let mut g: usize = i;
        while g > 0 && compare(
            self.pairs[g - 1].key.as_slice(),
            self.pairs[i].key.as_slice(),
        ) == Comparison::Equal
            invariant
                0 <= g <= i < self.pairs@.len(),
                forall|m: int|
                    g <= m <= i ==> (#[trigger] self@.entries[m]).key == self@.entries[i as int].key,
            decreases g,
        {
            assert(self@.entries[g - 1].key == self.pairs@[g - 1]@.key);
            g = g - 1;
        }
        proof {
            if g > 0 {
                assert(self@.entries[g - 1].key == self.pairs@[g - 1]@.key);
            }
            lemma_group_start_unique(self@.entries, i as int, g as int);
        }
        g
    }

    /// One past the last index of the equal-key run around entry `i`; see
    /// `group_end`.
    pub(crate) fn run_end(&self, i: usize) -> (g: usize)
        requires
            i < self@.n(),
        ensures
            g == group_end(self@.entries, i as int),
            i < g <= self@.n(),
    {
        let n: usize = self.pairs.len();
        let mut g: usize = i + 1;
        while g < n && compare(
            self.pairs[g].key.as_slice(),
            self.pairs[i].key.as_slice(),
        ) == Comparison::Equal
            invariant
                i < g <= n,
                n == self.pairs@.len(),
                i < self.pairs@.len(),
                forall|m: int|
                    i <= m < g ==> (#[trigger] self@.entries[m]).key == self@.entries[i as int].key,
            decreases n - g,
        {
            assert(self@.entries[g as int].key == self.pairs@[g as int]@.key);
            g = g + 1;
        }
        proof {
            if g < n {
                assert(self@.entries[g as int].key == self.pairs@[g as int]@.key);
            }
            lemma_group_end_unique(self@.entries, i as int, g as int);
        }
        g
    }

    /// The values of entries `i ..= j-1`, concatenated into one buffer.
    pub(crate) fn collect_values(&self, i: usize, j: usize) -> (r: Vec<u8>)
        requires
            i <= j <= self@.n(),
        ensures
            r@ == concat_values(self@.entries, i as int, j as int),
    {
        let mut r: Vec<u8> = Vec::new();
        let mut m: usize = i;
        while m < j
            invariant
                i <= m <= j <= self.pairs@.len(),
                r@ == concat_values(self@.entries, i as int, m as int),
            decreases j - m,
        {
            let v: &Vec<u8> = &self.pairs[m].value;
            let mut b: usize = 0;
            while b < v.len()
                invariant
                    0 <= b <= v@.len(),
                    r@ == concat_values(self@.entries, i as int, m as int) + v@.subrange(
                        0,
                        b as int,
                    ),
                    i <= m < self.pairs@.len(),
                    v@ == self.pairs@[m as int].value@,
                decreases v@.len() - b,
            {
                r.push(v[b]);
                proof {
                    assert(v@.subrange(0, b + 1) =~= v@.subrange(0, b as int).push(v@[b as int]));
                }
                b = b + 1;
            }
            proof {
                assert(v@.subrange(0, v@.len() as int) =~= v@);
                lemma_concat_values_snoc(self@.entries, i as int, m as int);
                assert(self@.entries[m as int].value == v@);
            }
            m = m + 1;
        }
        r
    }
}

/// The view of an optional byte slice.
pub open spec fn opt_slice_view(data: Option<&[u8]>) -> Option<Seq<u8>> {
    match data {
        Option::Some(d) => Option::Some(d@),
        Option::None => Option::None,
    }
}

/// Mapping pair vectors to the model commutes with insertion.
proof fn lemma_pairs_view_insert(s: Seq<Pair>, g: int, p: Pair)
    requires
        0 <= g <= s.len(),
    ensures
        pairs_view(s.insert(g, p)) == pairs_view(s).insert(g, p@),
{
    s.insert_ensures(g, p);
    pairs_view(s).insert_ensures(g, p@);
    assert(pairs_view(s.insert(g, p)) =~= pairs_view(s).insert(g, p@));
}

/// Mapping pair vectors to the model commutes with replacement.
proof fn lemma_pairs_view_update(s: Seq<Pair>, g: int, p: Pair)
    requires
        0 <= g < s.len(),
    ensures
        pairs_view(s.update(g, p)) == pairs_view(s).update(g, p@),
{
    assert(pairs_view(s.update(g, p)) =~= pairs_view(s).update(g, p@));
}

/// Mapping pair vectors to the model commutes with removal.
proof fn lemma_pairs_view_remove(s: Seq<Pair>, g: int)
    requires
        0 <= g < s.len(),
    ensures
        pairs_view(s.remove(g)) == pairs_view(s).remove(g),
{
    s.remove_ensures(g);
    pairs_view(s).remove_ensures(g);
    assert(pairs_view(s.remove(g)) =~= pairs_view(s).remove(g));
}

/// A vector of `len` zero bytes.
fn zero_vec(len: usize) -> (v: Vec<u8>)
    ensures
        v@ == zero_bytes(len as int),
{
    let mut v: Vec<u8> = Vec::new();
    let mut i: usize = 0;
    while i < len
        invariant
            0 <= i <= len,
            v@ == zero_bytes(i as int),
        decreases len - i,
    {
        v.push(0);
        i = i + 1;
    }
    v
}

impl Database {
    /// Looks one key up.
    ///
    /// Returns the value stored under `key`; in a duplicate-permitting
    /// table, the first value of the key's group.  Fails with `NotFound`
    /// when the key is absent.
    pub fn get(&self, key: &[u8]) -> (r: Result<Vec<u8>, Error>)
        ensures
            r matches Ok(v) ==> lookup(self@, key@) == Ok::<Seq<u8>, Error>(v@),
            r matches Err(e) ==> lookup(self@, key@) == Err::<Seq<u8>, Error>(e),
    {
        let g = self.locate_ge(key);
        if g < self.pairs.len() && compare(self.pairs[g].key.as_slice(), key) == Comparison::Equal {
            proof {
                assert(self@.entries[g as int] == self.pairs@[g as int]@);
            }
            Ok(copy_bytes(self.pairs[g].value.as_slice()))
        } else {
            proof {
                if g < self.pairs.len() {
                    assert(self@.entries[g as int] == self.pairs@[g as int]@);
                }
            }
            Err(Error::NotFound)
        }
    }

    /// Stores `(key, data)`.
    ///
    /// Without options this inserts the pair, overwriting an existing key
    /// (or, in a duplicate-permitting table, adding one more value for it);
    /// the options make an existing key or an existing exact pair an error
    /// instead.
    pub fn put(&mut self, key: &[u8], data: &[u8], flags: WriteFlags) -> (r: Result<(), Error>)
        requires
            old(self)@.wf(),
            old(self)@.n() < usize::MAX as int,
        ensures
            final(self)@ == put_outcome(old(self)@, key@, data@, flags).table,
            r == put_outcome(old(self)@, key@, data@, flags).res,
            final(self)@.wf(),
            final(self).dbi == old(self).dbi,
            final(self).flags == old(self).flags,
    {
        proof {
            lemma_put_wf(self@, key@, data@, flags);
        }
        let ghost t0 = self@;
        if self.flags.dup_fixed && self.pairs.len() > 0 && data.len() != self.pairs[0].value.len() {
            proof {
                assert(t0.entries[0] == self.pairs@[0]@);
            }
            return Err(Error::InvalidArgument);
        }
        proof {
            if self.pairs.len() > 0 {
                assert(t0.entries[0] == self.pairs@[0]@);
            }
        }
        if !self.flags.dup_sort {
            let g = self.locate_ge(key);
            proof {
                if g < self.pairs.len() {
                    assert(t0.entries[g as int] == self.pairs@[g as int]@);
                }
            }
            if g < self.pairs.len() && compare(self.pairs[g].key.as_slice(), key)
                == Comparison::Equal {
                if flags.no_overwrite {
                    return Err(Error::KeyExist);
                }
                let p = Pair { key: copy_bytes(key), value: copy_bytes(data) };
                let ghost pv = p@;
                let ghost s0 = self.pairs@;
                self.pairs[g] = p;
                proof {
                    lemma_pairs_view_update(s0, g as int, self.pairs@[g as int]);
                    assert(pv =~= (PairView { key: key@, value: data@ }));
                    assert(self@ =~= put_outcome(t0, key@, data@, flags).table);
                }
                Ok(())
            } else {
                let p = Pair { key: copy_bytes(key), value: copy_bytes(data) };
                let ghost pv = p@;
                let ghost s0 = self.pairs@;
                self.pairs.insert(g, p);
                proof {
                    lemma_pairs_view_insert(s0, g as int, self.pairs@[g as int]);
                    assert(pv =~= (PairView { key: key@, value: data@ }));
                    assert(self@ =~= put_outcome(t0, key@, data@, flags).table);
                }
                Ok(())
            }
        } else {
            if flags.no_overwrite {
                let g = self.locate_ge(key);
                if g < self.pairs.len() && compare(self.pairs[g].key.as_slice(), key)
                    == Comparison::Equal {
                    proof {
                        assert(t0.entries[g as int] == self.pairs@[g as int]@);
                    }
                    return Err(Error::KeyExist);
                }
                proof {
                    if g < self.pairs.len() {
                        assert(t0.entries[g as int] == self.pairs@[g as int]@);
                    }
                }
            }
            let j = self.locate_pair_ge(key, data);
            proof {
                if j < self.pairs.len() {
                    assert(t0.entries[j as int] == self.pairs@[j as int]@);
                }
            }
            if j < self.pairs.len() && compare(self.pairs[j].key.as_slice(), key)
                == Comparison::Equal && compare(self.pairs[j].value.as_slice(), data)
                == Comparison::Equal {
                proof {
                    assert(t0.entries[j as int] =~= (PairView { key: key@, value: data@ }));
                }
                if flags.no_dup_data {
                    Err(Error::KeyExist)
                } else {
                    Ok(())
                }
            } else {
                proof {
                    if j < self.pairs.len() {
                        if t0.entries[j as int] == (PairView { key: key@, value: data@ }) {
                            assert(t0.entries[j as int].key == key@);
                            assert(t0.entries[j as int].value == data@);
                        }
                    }
                }
                let p = Pair { key: copy_bytes(key), value: copy_bytes(data) };
                let ghost pv = p@;
                let ghost s0 = self.pairs@;
                self.pairs.insert(j, p);
                proof {
                    lemma_pairs_view_insert(s0, j as int, self.pairs@[j as int]);
                    assert(pv =~= (PairView { key: key@, value: data@ }));
                    assert(self@ =~= put_outcome(t0, key@, data@, flags).table);
                }
                Ok(())
            }
        }
    }

    /// Reserves in-place storage of exactly `len` bytes under `key`.
    ///
    /// The reservation writes `len` zero bytes; the caller must fill the
    /// whole buffer through [`ReservedValue::fill`].  Refused on
    /// duplicate-permitting tables.
    pub fn reserve(&mut self, key: &[u8], len: usize, flags: WriteFlags) -> (r: Result<
        ReservedValue,
        Error,
    >)
        requires
            old(self)@.wf(),
            old(self)@.n() < usize::MAX as int,
        ensures
            final(self)@ == reserve_outcome(old(self)@, key@, len as int, flags).table,
            final(self)@.wf(),
            r matches Ok(rv) ==> (reserve_outcome(old(self)@, key@, len as int, flags).res is Ok
                && rv.key@ == key@ && rv.len == len),
            r matches Err(e) ==> reserve_outcome(old(self)@, key@, len as int, flags).res
                == Err::<(), Error>(e),
            final(self).dbi == old(self).dbi,
            final(self).flags == old(self).flags,
    {
        if self.flags.dup_sort {
            return Err(Error::InvalidArgument);
        }
        let zeros = zero_vec(len);
        match self.put(key, zeros.as_slice(), flags) {
            Ok(()) => Ok(ReservedValue { key: copy_bytes(key), len }),
            Err(e) => Err(e),
        }
    }

    /// Deletes entries of one key.
    ///
    /// With a value, only the exactly matching pair is removed; without
    /// one, every value stored under the key is.  Fails with `NotFound`
    /// when nothing matches.
    pub fn del(&mut self, key: &[u8], data: Option<&[u8]>) -> (r: Result<(), Error>)
        requires
            old(self)@.wf(),
        ensures
            final(self)@ == del_outcome(old(self)@, key@, opt_slice_view(data)).table,
            r == del_outcome(old(self)@, key@, opt_slice_view(data)).res,
            final(self)@.wf(),
            final(self).dbi == old(self).dbi,
            final(self).flags == old(self).flags,
    {
        proof {
            lemma_del_wf(self@, key@, opt_slice_view(data));
        }
        let ghost t0 = self@;
        let g = self.locate_ge(key);
        proof {
            if g < self.pairs.len() {
                assert(t0.entries[g as int] == self.pairs@[g as int]@);
            }
        }
        if !(g < self.pairs.len() && compare(self.pairs[g].key.as_slice(), key)
            == Comparison::Equal) {
            return Err(Error::NotFound);
        }
        match data {
            Option::None => {
                let ge = self.run_end(g);
                self.remove_range(g, ge);
                proof {
                    assert(self@ =~= del_outcome(t0, key@, opt_slice_view(data)).table);
                }
                Ok(())
            },
            Option::Some(d) => {
                let j = self.locate_pair_ge(key, d);
                proof {
                    if j < self.pairs.len() {
                        assert(t0.entries[j as int] == self.pairs@[j as int]@);
                        if t0.entries[j as int] == (PairView { key: key@, value: d@ }) {
                            assert(t0.entries[j as int].key == key@);
                            assert(t0.entries[j as int].value == d@);
                        }
                    }
                }
                if j < self.pairs.len() && compare(self.pairs[j].key.as_slice(), key)
                    == Comparison::Equal && compare(self.pairs[j].value.as_slice(), d)
                    == Comparison::Equal {
                    proof {
                        assert(t0.entries[j as int] =~= (PairView { key: key@, value: d@ }));
                    }
                    let ghost s0 = self.pairs@;
                    self.pairs.remove(j);
                    proof {
                        lemma_pairs_view_remove(s0, j as int);
                    }
                    Ok(())
                } else {
                    Err(Error::NotFound)
                }
            },
        }
    }

    /// Removes the contiguous run of entries `lo ..= hi-1`.
    pub(crate) fn remove_range(&mut self, lo: usize, hi: usize)
        requires
            lo <= hi <= old(self)@.n(),
        ensures
            final(self)@.entries == old(self)@.entries.subrange(0, lo as int) + old(
                self,
            )@.entries.subrange(hi as int, old(self)@.n()),
            final(self).dbi == old(self).dbi,
            final(self).flags == old(self).flags,
    {
        let ghost t0 = self@;
        let ghost s0 = self.pairs@;
        let cnt = hi - lo;
        let mut steps: usize = 0;
        while steps < cnt
            invariant
                0 <= steps <= cnt,
                lo + cnt <= s0.len(),
                self.pairs@ == s0.subrange(0, lo as int) + s0.subrange(
                    lo + steps,
                    s0.len() as int,
                ),
                self.dbi == old(self).dbi,
                self.flags == old(self).flags,
            decreases cnt - steps,
        {
            self.pairs.remove(lo);
            proof {
                assert(self.pairs@ =~= s0.subrange(0, lo as int) + s0.subrange(
                    lo + steps + 1,
                    s0.len() as int,
                ));
            }
            steps = steps + 1;
        }
        proof {
            assert(pairs_view(self.pairs@) =~= t0.entries.subrange(0, lo as int)
                + t0.entries.subrange(hi as int, t0.entries.len() as int));
        }
    }

    /// Removes the entry at index `i`.
    pub(crate) fn remove_at(&mut self, i: usize)
        requires
            i < old(self)@.n(),
        ensures
            final(self)@.entries == old(self)@.entries.remove(i as int),
            final(self).dbi == old(self).dbi,
            final(self).flags == old(self).flags,
    {
        let ghost s0 = self.pairs@;
        self.pairs.remove(i);
        proof {
            lemma_pairs_view_remove(s0, i as int);
        }
    }

    /// Empties the table: every entry is removed, the handle stays usable.
    pub fn clear_db(&mut self) -> (r: Result<(), Error>)
        requires
            old(self)@.wf(),
        ensures
            final(self)@.entries.len() == 0,
            final(self)@.wf(),
            r is Ok,
            final(self).dbi == old(self).dbi,
            final(self).flags == old(self).flags,
    {
        self.pairs.clear();
        Ok(())
    }

    /// Removes the table definition entirely, consuming the handle.
    ///
    /// Taking the handle by value makes a later use of it impossible, so
    /// no other operation of this crate can observe the dropped table.
    pub fn drop_db(self) -> (r: Result<(), Error>)
        ensures
            r is Ok,
    {
        Ok(())
    }
}

/// A reservation of in-place storage, handed out by [`Database::reserve`]:
/// `len` bytes under `key`, to be filled completely in one step.
#[derive(Debug)]
pub struct ReservedValue {
    pub key: Vec<u8>,
    pub len: usize,
}

impl ReservedValue {
    /// Number of reserved bytes.
    pub fn len(&self) -> (r: usize)
        ensures
            r == self.len,
    {
        self.len
    }

    /// Fills the reserved storage with `data`.
    ///
    /// The buffer must be filled exactly: `data` must hold `len` bytes,
    /// else the fill is refused and the table keeps the zero bytes the
    /// reservation wrote.
    pub fn fill(self, db: &mut Database, data: &[u8]) -> (r: Result<(), Error>)
        requires
            old(db)@.wf(),
            old(db)@.n() < usize::MAX as int,
        ensures
            data@.len() != self.len ==> (r == Err::<(), Error>(Error::InvalidArgument)
                && final(db)@ == old(db)@),
            data@.len() == self.len ==> (final(db)@ == put_outcome(
                old(db)@,
                self.key@,
                data@,
                (WriteFlags { no_overwrite: false, no_dup_data: false }),
            ).table && r == put_outcome(
                old(db)@,
                self.key@,
                data@,
                (WriteFlags { no_overwrite: false, no_dup_data: false }),
            ).res),
            final(db)@.wf(),
            final(db).dbi == old(db).dbi,
            final(db).flags == old(db).flags,
    {
        if data.len() != self.len {
            return Err(Error::InvalidArgument);
        }
        db.put(self.key.as_slice(), data, WriteFlags::empty())
    }
}

/// Whether entry `p` is strictly below `(key, value)` in entry order.
fn entry_before(p: &Pair, key: &[u8], value: &[u8]) -> (b: bool)
    ensures
        b == entry_lt(p@, PairView { key: key@, value: value@ }),
{
    match compare(p.key.as_slice(), key) {
        Comparison::Less => true,
        Comparison::Greater => false,
        Comparison::Equal => compare(p.value.as_slice(), value) == Comparison::Less,
    }
}

} // verus!
