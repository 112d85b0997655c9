//! The mathematical model of one table and of the engine's cursor
//! positioning semantics.
//!
//! A table is a sequence of key/value entries, sorted by key and — in a
//! duplicate-permitting table — by value within each key's group.  Every
//! operation of the crate is specified as a pure function over this model:
//! the executable code in the other modules is verified to return exactly
//! these outcomes.

use vstd::prelude::*;

use crate::bytes::lex_lt;
use crate::bytes::lemma_lex_lt_irreflexive;
use crate::bytes::lemma_lex_lt_total;
use crate::bytes::lemma_lex_lt_transitive;
use crate::error::Error;
use crate::flags::WriteFlags;
use crate::ops::CursorOp;
use crate::ops::Position;

verus! {

/// One key/value entry, as the model sees it.
#[verifier::ext_equal]
pub struct PairView {
    pub key: Seq<u8>,
    pub value: Seq<u8>,
}

/// The model of one table: its options and its sorted entries.
#[verifier::ext_equal]
pub struct TableView {
    /// The table keeps several sorted values per key.
    pub dup_sort: bool,
    /// All values of the table have one fixed size (implies `dup_sort`).
    pub dup_fixed: bool,
    /// All entries, sorted as `wf` demands.
    pub entries: Seq<PairView>,
}

/// Entry order: by key, then — within equal keys — by value.
pub open spec fn entry_lt(a: PairView, b: PairView) -> bool {
    lex_lt(a.key, b.key) || (a.key == b.key && lex_lt(a.value, b.value))
}

impl TableView {
    /// Number of entries.
    pub open spec fn n(self) -> int {
        self.entries.len() as int
    }

    /// Well-formedness: entries strictly sorted in entry order, keys unique
    /// unless duplicates are permitted, and value sizes uniform in a
    /// fixed-size table.
    pub open spec fn wf(self) -> bool {
        &&& forall|i: int, j: int|
            0 <= i < j < self.n() ==> entry_lt(#[trigger] self.entries[i], #[trigger] self.entries[j])
        &&& !self.dup_sort ==> forall|i: int, j: int|
            0 <= i < j < self.n() ==> (#[trigger] self.entries[i]).key != (#[trigger] self.entries[j]).key
        &&& self.dup_fixed ==> self.dup_sort
        &&& self.dup_fixed ==> forall|i: int, j: int|
            0 <= i < self.n() && 0 <= j < self.n()
                ==> (#[trigger] self.entries[i]).value.len() == (#[trigger] self.entries[j]).value.len()
        &&& self.n() <= usize::MAX as int
    }

    /// Whether some entry has the given key.
    pub open spec fn contains_key(self, k: Seq<u8>) -> bool {
        exists|i: int| 0 <= i < self.n() && (#[trigger] self.entries[i]).key == k
    }

    /// Whether the exact key/value pair is an entry.
    pub open spec fn contains_pair(self, k: Seq<u8>, v: Seq<u8>) -> bool {
        exists|i: int|
            0 <= i < self.n() && (#[trigger] self.entries[i]).key == k && self.entries[i].value == v
    }
}

/// First index at or after `i` whose key is not below `k` (or the length,
/// if every later key is below `k`).
pub open spec fn find_ge_from(es: Seq<PairView>, k: Seq<u8>, i: int) -> int
    decreases es.len() - i,
{
    if i >= es.len() {
        es.len() as int
    } else if !lex_lt(es[i].key, k) {
        i
    } else {
        find_ge_from(es, k, i + 1)
    }
}

/// First index whose key is not below `k`.
pub open spec fn find_ge(es: Seq<PairView>, k: Seq<u8>) -> int {
    find_ge_from(es, k, 0)
}

/// First index at or after `i` whose entry is not below `(k, v)` in entry
/// order.
pub open spec fn find_pair_ge_from(es: Seq<PairView>, k: Seq<u8>, v: Seq<u8>, i: int) -> int
    decreases es.len() - i,
{
    if i >= es.len() {
        es.len() as int
    } else if !entry_lt(es[i], PairView { key: k, value: v }) {
        i
    } else {
        find_pair_ge_from(es, k, v, i + 1)
    }
}

/// First index whose entry is not below `(k, v)` in entry order.
pub open spec fn find_pair_ge(es: Seq<PairView>, k: Seq<u8>, v: Seq<u8>) -> int {
    find_pair_ge_from(es, k, v, 0)
}

/// First index of the run of entries that share the key of entry `i`.
pub open spec fn group_start(es: Seq<PairView>, i: int) -> int
    decreases i,
{
    if 0 < i <= es.len() && i < es.len() && es[i - 1].key == es[i].key {
        group_start(es, i - 1)
    } else {
        i
    }
}

/// One past the last index of the run of entries that share the key of
/// entry `i`.
pub open spec fn group_end(es: Seq<PairView>, i: int) -> int
    decreases es.len() - i,
{
    if 0 <= i < es.len() && i + 1 < es.len() && es[i + 1].key == es[i].key {
        group_end(es, i + 1)
    } else {
        i + 1
    }
}

/// The values of entries `i ..= j-1`, concatenated.
pub open spec fn concat_values(es: Seq<PairView>, i: int, j: int) -> Seq<u8>
    decreases j - i,
{
    if i >= j {
        Seq::empty()
    } else {
        es[i].value + concat_values(es, i + 1, j)
    }
}

/// A byte string of `len` zero bytes, the initial contents of a reserved
/// value.
pub open spec fn zero_bytes(len: int) -> Seq<u8> {
    Seq::new(len as nat, |i: int| 0u8)
}

/// Concatenated values grow one value at a time at the back.
pub proof fn lemma_concat_values_snoc(es: Seq<PairView>, i: int, m: int)
    requires
        i <= m,
    ensures
        concat_values(es, i, m + 1) == concat_values(es, i, m) + es[m].value,
    decreases m - i,
{
    if i == m {
        assert(concat_values(es, i + 1, m + 1) == Seq::<u8>::empty());
        assert(concat_values(es, i, m) == Seq::<u8>::empty());
        assert(concat_values(es, i, m + 1) =~= concat_values(es, i, m) + es[m].value);
    } else {
        lemma_concat_values_snoc(es, i + 1, m);
        assert(concat_values(es, i, m + 1) =~= concat_values(es, i, m) + es[m].value);
    }
}

// ---------------------------------------------------------------------------
// Facts about the search and group functions.
// ---------------------------------------------------------------------------

/// Entry order is total: two entries are equal or one is strictly below the
/// other, and never both.
pub proof fn lemma_entry_lt_total(a: PairView, b: PairView)
    ensures
        entry_lt(a, b) || entry_lt(b, a) || a == b,
        entry_lt(a, b) ==> !entry_lt(b, a),
        entry_lt(a, b) ==> a != b,
        entry_lt(b, a) ==> a != b,
{
    lemma_lex_lt_total(a.key, b.key);
    lemma_lex_lt_total(a.value, b.value);
    if !entry_lt(a, b) && !entry_lt(b, a) && a.key == b.key && a.value == b.value {
        assert(a =~= b);
    }
}

/// Entry order is transitive.
pub proof fn lemma_entry_lt_transitive(a: PairView, b: PairView, c: PairView)
    requires
        entry_lt(a, b),
        entry_lt(b, c),
    ensures
        entry_lt(a, c),
{
    if lex_lt(a.key, b.key) && lex_lt(b.key, c.key) {
        lemma_lex_lt_transitive(a.key, b.key, c.key);
    } else if a.key == b.key && b.key == c.key {
        lemma_lex_lt_transitive(a.value, b.value, c.value);
    }
}

/// What `find_ge_from` returns: the first index at or after `i` whose key is
/// not below `k`.
pub proof fn lemma_find_ge_from_props(es: Seq<PairView>, k: Seq<u8>, i: int)
    requires
        0 <= i <= es.len(),
    ensures
        i <= find_ge_from(es, k, i) <= es.len(),
        forall|m: int| i <= m < find_ge_from(es, k, i) ==> lex_lt((#[trigger] es[m]).key, k),
        find_ge_from(es, k, i) < es.len() ==> !lex_lt(es[find_ge_from(es, k, i)].key, k),
    decreases es.len() - i,
{
    if i < es.len() && lex_lt(es[i].key, k) {
        lemma_find_ge_from_props(es, k, i + 1);
    }
}

/// `find_ge_from` is the only index with those properties.
pub proof fn lemma_find_ge_from_unique(es: Seq<PairView>, k: Seq<u8>, i: int, r: int)
    requires
        0 <= i <= r <= es.len(),
        forall|m: int| i <= m < r ==> lex_lt((#[trigger] es[m]).key, k),
        r < es.len() ==> !lex_lt(es[r].key, k),
    ensures
        find_ge_from(es, k, i) == r,
    decreases es.len() - i,
{
    if i < es.len() && lex_lt(es[i].key, k) {
        lemma_find_ge_from_unique(es, k, i + 1, r);
    }
}

/// What `find_pair_ge_from` returns, in the same way.
pub proof fn lemma_find_pair_ge_from_props(es: Seq<PairView>, k: Seq<u8>, v: Seq<u8>, i: int)
    requires
        0 <= i <= es.len(),
    ensures
        i <= find_pair_ge_from(es, k, v, i) <= es.len(),
        forall|m: int|
            i <= m < find_pair_ge_from(es, k, v, i)
                ==> entry_lt(#[trigger] es[m], PairView { key: k, value: v }),
        find_pair_ge_from(es, k, v, i) < es.len()
            ==> !entry_lt(es[find_pair_ge_from(es, k, v, i)], PairView { key: k, value: v }),
    decreases es.len() - i,
{
    if i < es.len() && entry_lt(es[i], PairView { key: k, value: v }) {
        lemma_find_pair_ge_from_props(es, k, v, i + 1);
    }
}

/// `find_pair_ge_from` is the only index with those properties.
pub proof fn lemma_find_pair_ge_from_unique(es: Seq<PairView>, k: Seq<u8>, v: Seq<u8>, i: int, r: int)
    requires
        0 <= i <= r <= es.len(),
        forall|m: int| i <= m < r ==> entry_lt(#[trigger] es[m], PairView { key: k, value: v }),
        r < es.len() ==> !entry_lt(es[r], PairView { key: k, value: v }),
    ensures
        find_pair_ge_from(es, k, v, i) == r,
    decreases es.len() - i,
{
    if i < es.len() && entry_lt(es[i], PairView { key: k, value: v }) {
        lemma_find_pair_ge_from_unique(es, k, v, i + 1, r);
    }
}

/// What `group_start` returns: the first index of entry `i`'s equal-key run.
pub proof fn lemma_group_start_props(es: Seq<PairView>, i: int)
    requires
        0 <= i < es.len(),
    ensures
        0 <= group_start(es, i) <= i,
        forall|m: int| group_start(es, i) <= m <= i ==> (#[trigger] es[m]).key == es[i].key,
        group_start(es, i) > 0 ==> es[group_start(es, i) - 1].key != es[i].key,
    decreases i,
{
    if 0 < i && es[i - 1].key == es[i].key {
        lemma_group_start_props(es, i - 1);
    }
}

/// `group_start` is the only index with those properties.
pub proof fn lemma_group_start_unique(es: Seq<PairView>, i: int, g: int)
    requires
        0 <= g <= i < es.len(),
        forall|m: int| g <= m <= i ==> (#[trigger] es[m]).key == es[i].key,
        g > 0 ==> es[g - 1].key != es[i].key,
    ensures
        group_start(es, i) == g,
    decreases i,
{
    if 0 < i && es[i - 1].key == es[i].key {
        lemma_group_start_unique(es, i - 1, g);
    }
}

/// What `group_end` returns: one past the last index of entry `i`'s
/// equal-key run.
pub proof fn lemma_group_end_props(es: Seq<PairView>, i: int)
    requires
        0 <= i < es.len(),
    ensures
        i < group_end(es, i) <= es.len(),
        forall|m: int| i <= m < group_end(es, i) ==> (#[trigger] es[m]).key == es[i].key,
        group_end(es, i) < es.len() ==> es[group_end(es, i)].key != es[i].key,
    decreases es.len() - i,
{
    if i + 1 < es.len() && es[i + 1].key == es[i].key {
        lemma_group_end_props(es, i + 1);
    }
}

/// `group_end` is the only index with those properties.
pub proof fn lemma_group_end_unique(es: Seq<PairView>, i: int, g: int)
    requires
        0 <= i < g <= es.len(),
        forall|m: int| i <= m < g ==> (#[trigger] es[m]).key == es[i].key,
        g < es.len() ==> es[g].key != es[i].key,
    ensures
        group_end(es, i) == g,
    decreases es.len() - i,
{
    if i + 1 < es.len() && es[i + 1].key == es[i].key {
        lemma_group_end_unique(es, i + 1, g);
    }
}

/// In a well-formed table, `find_ge` finds the key if and only if the table
/// contains it, and then points at the first entry of its group.
pub proof fn lemma_find_ge_locates_key(t: TableView, k: Seq<u8>)
    requires
        t.wf(),
    ensures
        t.contains_key(k) <==> (find_ge(t.entries, k) < t.n()
            && t.entries[find_ge(t.entries, k)].key == k),
        find_ge(t.entries, k) < t.n() && t.entries[find_ge(t.entries, k)].key == k
            ==> group_start(t.entries, find_ge(t.entries, k)) == find_ge(t.entries, k),
{
    let es = t.entries;
    let g = find_ge(es, k);
    lemma_find_ge_from_props(es, k, 0);
    if g < t.n() && es[g].key == k {
        assert(t.contains_key(k));
        if g > 0 {
            assert(lex_lt(es[g - 1].key, k));
            lemma_lex_lt_irreflexive(k);
        }
        lemma_group_start_unique(es, g, g);
    }
    if t.contains_key(k) {
        let x = choose|i: int| 0 <= i < t.n() && (#[trigger] es[i]).key == k;
        lemma_lex_lt_irreflexive(k);
        if g > x {
            assert(lex_lt(es[x].key, k));
            assert(false);
        }
        if g < x {
            assert(!lex_lt(es[g].key, k));
            assert(entry_lt(es[g], es[x]));
            lemma_lex_lt_total(es[g].key, k);
            if lex_lt(k, es[g].key) {
                lemma_lex_lt_transitive(k, es[g].key, es[x].key);
            }
        }
    }
}

/// In a well-formed table, `find_pair_ge` finds the exact pair if and only
/// if the table contains it.
pub proof fn lemma_find_pair_ge_locates_pair(t: TableView, k: Seq<u8>, v: Seq<u8>)
    requires
        t.wf(),
    ensures
        t.contains_pair(k, v) <==> (find_pair_ge(t.entries, k, v) < t.n()
            && t.entries[find_pair_ge(t.entries, k, v)] == (PairView { key: k, value: v })),
{
    let es = t.entries;
    let p = PairView { key: k, value: v };
    let g = find_pair_ge(es, k, v);
    lemma_find_pair_ge_from_props(es, k, v, 0);
    if g < t.n() && es[g] == p {
        assert(t.contains_pair(k, v));
    }
    if t.contains_pair(k, v) {
        let x = choose|i: int| 0 <= i < t.n() && (#[trigger] es[i]).key == k && es[i].value == v;
        assert(es[x] =~= p);
        lemma_entry_lt_total(es[x], p);
        if g > x {
            assert(entry_lt(es[x], p));
            assert(false);
        }
        if g < x {
            assert(!entry_lt(es[g], p));
            assert(entry_lt(es[g], es[x]));
            lemma_entry_lt_total(es[g], p);
            if entry_lt(p, es[g]) {
                lemma_entry_lt_transitive(p, es[g], es[x]);
                lemma_entry_lt_total(p, es[x]);
            }
        }
    }
}

// ---------------------------------------------------------------------------
// Preservation of well-formedness.
// ---------------------------------------------------------------------------

/// Inserting an entry between its strict neighbours keeps a table
/// well-formed.
pub proof fn lemma_insert_wf(t: TableView, r: int, p: PairView)
    requires
        t.wf(),
        t.n() < usize::MAX as int,
        0 <= r <= t.n(),
        forall|m: int| 0 <= m < r ==> entry_lt(#[trigger] t.entries[m], p),
        forall|m: int| r <= m < t.n() ==> entry_lt(p, #[trigger] t.entries[m]),
        !t.dup_sort ==> forall|m: int| 0 <= m < t.n() ==> (#[trigger] t.entries[m]).key != p.key,
        t.dup_fixed && t.n() > 0 ==> p.value.len() == t.entries[0].value.len(),
    ensures
        (TableView { entries: t.entries.insert(r, p), ..t }).wf(),
{
    let es = t.entries;
    let es2 = es.insert(r, p);
    es.insert_ensures(r, p);
    assert forall|i: int, j: int| 0 <= i < j < es2.len() implies entry_lt(
        #[trigger] es2[i],
        #[trigger] es2[j],
    ) by {
        if i < r && j > r {
            assert(es2[i] == es[i]);
            assert(es2[j] == es[j - 1]);
        }
    }
    if !t.dup_sort {
        assert forall|i: int, j: int| 0 <= i < j < es2.len() implies (#[trigger] es2[i]).key != (
        #[trigger] es2[j]).key by {
            lemma_entry_lt_total(es2[i], es2[j]);
        }
    }
}

/// Replacing the value of one entry of a table without duplicate keys keeps
/// it well-formed.
pub proof fn lemma_update_value_wf(t: TableView, g: int, v: Seq<u8>)
    requires
        t.wf(),
        !t.dup_sort,
        0 <= g < t.n(),
    ensures
        (TableView {
            entries: t.entries.update(g, PairView { key: t.entries[g].key, value: v }),
            ..t
        }).wf(),
{
    let es = t.entries;
    let p = PairView { key: es[g].key, value: v };
    let es2 = es.update(g, p);
    assert forall|i: int, j: int| 0 <= i < j < es2.len() implies entry_lt(
        #[trigger] es2[i],
        #[trigger] es2[j],
    ) by {
        if j == g && i != g {
            assert(es[i].key != es[g].key);
        }
        if i == g && j != g {
            assert(es[g].key != es[j].key);
        }
    }
}

/// Removing a contiguous run of entries keeps a table well-formed.
pub proof fn lemma_remove_range_wf(t: TableView, lo: int, hi: int)
    requires
        t.wf(),
        0 <= lo <= hi <= t.n(),
    ensures
        (TableView {
            entries: t.entries.subrange(0, lo) + t.entries.subrange(hi, t.n()),
            ..t
        }).wf(),
{
    let es = t.entries;
    let es2 = es.subrange(0, lo) + es.subrange(hi, t.n());
    assert(forall|m: int|
        0 <= m < es2.len() ==> #[trigger] es2[m] == (if m < lo {
            es[m]
        } else {
            es[m + (hi - lo)]
        }));
}

/// A write leaves the table well-formed.
pub proof fn lemma_put_wf(t: TableView, k: Seq<u8>, v: Seq<u8>, f: WriteFlags)
    requires
        t.wf(),
        t.n() < usize::MAX as int,
    ensures
        put_outcome(t, k, v, f).table.wf(),
        0 <= put_outcome(t, k, v, f).idx <= t.n(),
{
    let es = t.entries;
    let n = t.n();
    let p = PairView { key: k, value: v };
    if t.dup_fixed && n > 0 && v.len() != es[0].value.len() {
    } else if !t.dup_sort {
        let g = find_ge(es, k);
        lemma_find_ge_from_props(es, k, 0);
        if g < n && es[g].key == k {
            if !f.no_overwrite {
                assert(es.update(g, p) =~= es.update(g, PairView { key: es[g].key, value: v }));
                lemma_update_value_wf(t, g, v);
            }
        } else {
            assert forall|m: int| 0 <= m < g implies entry_lt(#[trigger] es[m], p) by {}
            assert forall|m: int| g <= m < n implies entry_lt(p, #[trigger] es[m]) by {
                lemma_lex_lt_total(es[g].key, k);
                if m > g {
                    if lex_lt(es[g].key, es[m].key) {
                        lemma_lex_lt_transitive(k, es[g].key, es[m].key);
                    }
                }
            }
            assert forall|m: int| 0 <= m < n implies (#[trigger] es[m]).key != k by {
                lemma_lex_lt_total(es[m].key, k);
            }
            lemma_insert_wf(t, g, p);
        }
    } else {
        let g = find_ge(es, k);
        lemma_find_ge_from_props(es, k, 0);
        if f.no_overwrite && g < n && es[g].key == k {
        } else {
            let j = find_pair_ge(es, k, v);
            lemma_find_pair_ge_from_props(es, k, v, 0);
            if j < n && es[j] == p {
            } else {
                assert forall|m: int| j <= m < n implies entry_lt(p, #[trigger] es[m]) by {
                    lemma_entry_lt_total(es[j], p);
                    if m > j {
                        lemma_entry_lt_transitive(p, es[j], es[m]);
                    }
                }
                lemma_insert_wf(t, j, p);
            }
        }
    }
}

/// A single-key delete leaves the table well-formed.
pub proof fn lemma_del_wf(t: TableView, k: Seq<u8>, data: Option<Seq<u8>>)
    requires
        t.wf(),
    ensures
        del_outcome(t, k, data).table.wf(),
{
    let es = t.entries;
    let n = t.n();
    let g = find_ge(es, k);
    lemma_find_ge_from_props(es, k, 0);
    if g < n && es[g].key == k {
        match data {
            Option::None => {
                lemma_group_end_props(es, g);
                lemma_remove_range_wf(t, g, group_end(es, g));
            },
            Option::Some(v) => {
                let j = find_pair_ge(es, k, v);
                lemma_find_pair_ge_from_props(es, k, v, 0);
                if j < n && es[j] == (PairView { key: k, value: v }) {
                    assert(es.remove(j) =~= es.subrange(0, j) + es.subrange(j + 1, n));
                    lemma_remove_range_wf(t, j, j + 1);
                }
            },
        }
    }
}

/// A delete at the cursor leaves the table well-formed.
pub proof fn lemma_cursor_del_wf(t: TableView, pos: Position, all_dups: bool)
    requires
        t.wf(),
    ensures
        cursor_del_outcome(t, pos, all_dups).table.wf(),
{
    let es = t.entries;
    let n = t.n();
    let ii = pos_index(t, pos);
    if !(pos is Unset) && ii < n {
        if all_dups {
            lemma_group_start_props(es, ii);
            lemma_group_end_props(es, ii);
            lemma_remove_range_wf(t, group_start(es, ii), group_end(es, ii));
        } else {
            assert(es.remove(ii) =~= es.subrange(0, ii) + es.subrange(ii + 1, n));
            lemma_remove_range_wf(t, ii, ii + 1);
        }
    }
}

// ---------------------------------------------------------------------------
// Outcomes of the operations.
// ---------------------------------------------------------------------------

/// Outcome of one positioning call: the cursor position afterwards and the
/// returned key (when the engine hands one back) and value.
pub struct GetOutcome {
    pub pos: Position,
    pub res: Result<(Option<Seq<u8>>, Seq<u8>), Error>,
}

/// Outcome of a write: the table afterwards, the index of the written entry
/// (meaningful on success) and the result.
pub struct PutOutcome {
    pub table: TableView,
    pub idx: int,
    pub res: Result<(), Error>,
}

/// Outcome of a single-key delete.
pub struct DelOutcome {
    pub table: TableView,
    pub res: Result<(), Error>,
}

/// Outcome of a delete at the cursor.
pub struct CursorDelOutcome {
    pub table: TableView,
    pub pos: Position,
    pub res: Result<(), Error>,
}

/// The entry index a position denotes, clamped to `n`; `-1` for `Unset`.
pub open spec fn pos_index(t: TableView, pos: Position) -> int {
    match pos {
        Position::Unset => -1,
        Position::At(i) => if i as int <= t.n() {
            i as int
        } else {
            t.n()
        },
    }
}

/// Success at entry `i`, returning its key only when `with_key` holds.
pub open spec fn at_entry(t: TableView, i: int, with_key: bool) -> GetOutcome {
    GetOutcome {
        pos: Position::At(i as usize),
        res: Ok(
            (
                if with_key {
                    Some(t.entries[i].key)
                } else {
                    None
                },
                t.entries[i].value,
            ),
        ),
    }
}

/// A failed call that leaves the cursor at index `i` (clamped positions
/// only).
pub open spec fn fail_at(i: int, e: Error) -> GetOutcome {
    GetOutcome { pos: Position::At(i as usize), res: Err(e) }
}

/// A failed call that leaves the cursor unset.
pub open spec fn fail_unset(e: Error) -> GetOutcome {
    GetOutcome { pos: Position::Unset, res: Err(e) }
}

/// Outcome of `First`: the first entry, or `NotFound` on an empty table.
pub open spec fn outcome_first(t: TableView) -> GetOutcome {
    if t.n() == 0 {
        fail_unset(Error::NotFound)
    } else {
        at_entry(t, 0, true)
    }
}

/// Outcome of `Last`: the last entry, or `NotFound` on an empty table.
pub open spec fn outcome_last(t: TableView) -> GetOutcome {
    if t.n() == 0 {
        fail_unset(Error::NotFound)
    } else {
        at_entry(t, t.n() - 1, true)
    }
}

/// The outcome of one positioning call, by opcode.
///
/// This is the heart of the model.  A fresh (`Unset`) cursor treats the
/// forward and backward step opcodes as `First` and `Last`; opcodes that
/// read the current entry fail on it with `NoData`.  A failed exact or
/// range seek leaves the cursor unset, so that a following `GetCurrent`
/// reports `NoData` rather than an entry.
pub open spec fn cursor_outcome(
    t: TableView,
    pos: Position,
    key: Option<Seq<u8>>,
    data: Option<Seq<u8>>,
    op: CursorOp,
) -> GetOutcome {
    let n = t.n();
    let ii = pos_index(t, pos);
    match op {
        CursorOp::First => outcome_first(t),
        CursorOp::Last => outcome_last(t),
        CursorOp::Next => {
            if pos is Unset {
                outcome_first(t)
            } else if ii + 1 < n {
                at_entry(t, ii + 1, true)
            } else {
                fail_at(n, Error::NotFound)
            }
        },
        CursorOp::Prev => {
            if pos is Unset {
                outcome_last(t)
            } else if 0 < ii && n > 0 {
                at_entry(t, if ii < n { ii - 1 } else { n - 1 }, true)
            } else {
                fail_at(0, Error::NotFound)
            }
        },
        CursorOp::GetCurrent => {
            if pos is Unset {
                fail_unset(Error::NoData)
            } else if ii < n {
                at_entry(t, ii, true)
            } else {
                fail_at(n, Error::NoData)
            }
        },
        CursorOp::SetValue | CursorOp::SetKey => {
            if key is None {
                GetOutcome { pos, res: Err(Error::InvalidArgument) }
            } else {
                let g = find_ge(t.entries, key->0);
                if g < n && t.entries[g].key == key->0 {
                    at_entry(t, g, op is SetKey)
                } else {
                    fail_unset(Error::NotFound)
                }
            }
        },
        CursorOp::SetRange => {
            if key is None {
                GetOutcome { pos, res: Err(Error::InvalidArgument) }
            } else {
                let g = find_ge(t.entries, key->0);
                if g < n {
                    at_entry(t, g, true)
                } else {
                    fail_unset(Error::NotFound)
                }
            }
        },
        CursorOp::FirstDup => {
            if pos is Unset {
                fail_unset(Error::NoData)
            } else if ii < n {
                GetOutcome {
                    pos: Position::At(group_start(t.entries, ii) as usize),
                    res: Ok((None, t.entries[group_start(t.entries, ii)].value)),
                }
            } else {
                fail_at(n, Error::NoData)
            }
        },
        CursorOp::LastDup => {
            if pos is Unset {
                fail_unset(Error::NoData)
            } else if ii < n {
                GetOutcome {
                    pos: Position::At((group_end(t.entries, ii) - 1) as usize),
                    res: Ok((None, t.entries[group_end(t.entries, ii) - 1].value)),
                }
            } else {
                fail_at(n, Error::NoData)
            }
        },
        CursorOp::NextDup => {
            if pos is Unset {
                fail_unset(Error::NoData)
            } else if ii >= n {
                fail_at(n, Error::NoData)
            } else if ii + 1 < n && t.entries[ii + 1].key == t.entries[ii].key {
                at_entry(t, ii + 1, true)
            } else {
                fail_at(ii, Error::NotFound)
            }
        },
        CursorOp::PrevDup => {
            if pos is Unset {
                fail_unset(Error::NoData)
            } else if ii >= n {
                fail_at(n, Error::NoData)
            } else if 0 < ii && t.entries[ii - 1].key == t.entries[ii].key {
                at_entry(t, ii - 1, true)
            } else {
                fail_at(ii, Error::NotFound)
            }
        },
        CursorOp::NextNoDup => {
            if pos is Unset {
                outcome_first(t)
            } else if ii < n && group_end(t.entries, ii) < n {
                at_entry(t, group_end(t.entries, ii), true)
            } else {
                fail_at(n, Error::NotFound)
            }
        },
        CursorOp::PrevNoDup => {
            if pos is Unset {
                outcome_last(t)
            } else if ii >= n {
                if n > 0 {
                    at_entry(t, n - 1, true)
                } else {
                    fail_at(0, Error::NotFound)
                }
            } else if group_start(t.entries, ii) > 0 {
                at_entry(t, group_start(t.entries, ii) - 1, true)
            } else {
                fail_at(ii, Error::NotFound)
            }
        },
        CursorOp::GetBoth => {
            if key is None || data is None {
                GetOutcome { pos, res: Err(Error::InvalidArgument) }
            } else {
                let j = find_pair_ge(t.entries, key->0, data->0);
                if j < n && t.entries[j] == (PairView { key: key->0, value: data->0 }) {
                    GetOutcome { pos: Position::At(j as usize), res: Ok((None, t.entries[j].value)) }
                } else {
                    fail_unset(Error::NotFound)
                }
            }
        },
        CursorOp::GetBothRange => {
            if key is None || data is None {
                GetOutcome { pos, res: Err(Error::InvalidArgument) }
            } else {
                let j = find_pair_ge(t.entries, key->0, data->0);
                if j < n && t.entries[j].key == key->0 {
                    GetOutcome { pos: Position::At(j as usize), res: Ok((None, t.entries[j].value)) }
                } else {
                    fail_unset(Error::NotFound)
                }
            }
        },
        CursorOp::GetMultiple => {
            if !t.dup_fixed {
                GetOutcome { pos, res: Err(Error::InvalidArgument) }
            } else if pos is Unset {
                fail_unset(Error::NoData)
            } else if ii < n {
                GetOutcome {
                    pos: Position::At((group_end(t.entries, ii) - 1) as usize),
                    res: Ok((None, concat_values(t.entries, ii, group_end(t.entries, ii)))),
                }
            } else {
                fail_at(n, Error::NoData)
            }
        },
        CursorOp::NextMultiple => {
            if !t.dup_fixed {
                GetOutcome { pos, res: Err(Error::InvalidArgument) }
            } else if pos is Unset {
                fail_unset(Error::NoData)
            } else if ii < n {
                // the model keeps each duplicate group in a single run, so
                // there is never a further run of the current key
                fail_at(ii, Error::NotFound)
            } else {
                fail_at(n, Error::NoData)
            }
        },
    }
}

/// Outcome of a single-key lookup: the first value of the key's group.
pub open spec fn lookup(t: TableView, k: Seq<u8>) -> Result<Seq<u8>, Error> {
    let g = find_ge(t.entries, k);
    if g < t.n() && t.entries[g].key == k {
        Ok(t.entries[g].value)
    } else {
        Err(Error::NotFound)
    }
}

/// Outcome of a write of `(k, v)` under the given options.
pub open spec fn put_outcome(t: TableView, k: Seq<u8>, v: Seq<u8>, f: WriteFlags) -> PutOutcome {
    let es = t.entries;
    let n = t.n();
    if t.dup_fixed && n > 0 && v.len() != es[0].value.len() {
        PutOutcome { table: t, idx: 0, res: Err(Error::InvalidArgument) }
    } else if !t.dup_sort {
        let g = find_ge(es, k);
        if g < n && es[g].key == k {
            if f.no_overwrite {
                PutOutcome { table: t, idx: g, res: Err(Error::KeyExist) }
            } else {
                PutOutcome {
                    table: TableView { entries: es.update(g, PairView { key: k, value: v }), ..t },
                    idx: g,
                    res: Ok(()),
                }
            }
        } else {
            PutOutcome {
                table: TableView { entries: es.insert(g, PairView { key: k, value: v }), ..t },
                idx: g,
                res: Ok(()),
            }
        }
    } else {
        let g = find_ge(es, k);
        if f.no_overwrite && g < n && es[g].key == k {
            PutOutcome { table: t, idx: g, res: Err(Error::KeyExist) }
        } else {
            let j = find_pair_ge(es, k, v);
            if j < n && es[j] == (PairView { key: k, value: v }) {
                if f.no_dup_data {
                    PutOutcome { table: t, idx: j, res: Err(Error::KeyExist) }
                } else {
                    PutOutcome { table: t, idx: j, res: Ok(()) }
                }
            } else {
                PutOutcome {
                    table: TableView { entries: es.insert(j, PairView { key: k, value: v }), ..t },
                    idx: j,
                    res: Ok(()),
                }
            }
        }
    }
}

/// Outcome of an in-place reservation: a write of `len` zero bytes, to be
/// filled by the caller.  Reservations are refused on duplicate-permitting
/// tables, whose values live inside sorted runs.
pub open spec fn reserve_outcome(t: TableView, k: Seq<u8>, len: int, f: WriteFlags) -> PutOutcome {
    if t.dup_sort {
        PutOutcome { table: t, idx: 0, res: Err(Error::InvalidArgument) }
    } else {
        put_outcome(t, k, zero_bytes(len), f)
    }
}

/// Outcome of a single-key delete: with a value, remove exactly that pair;
/// without one, remove the key's whole group.
pub open spec fn del_outcome(t: TableView, k: Seq<u8>, data: Option<Seq<u8>>) -> DelOutcome {
    let es = t.entries;
    let n = t.n();
    let g = find_ge(es, k);
    if !(g < n && es[g].key == k) {
        DelOutcome { table: t, res: Err(Error::NotFound) }
    } else {
        match data {
            Option::None => {
                let ge = group_end(es, g);
                DelOutcome {
                    table: TableView {
                        entries: es.subrange(0, g) + es.subrange(ge, n),
                        ..t
                    },
                    res: Ok(()),
                }
            },
            Option::Some(v) => {
                let j = find_pair_ge(es, k, v);
                if j < n && es[j] == (PairView { key: k, value: v }) {
                    DelOutcome { table: TableView { entries: es.remove(j), ..t }, res: Ok(()) }
                } else {
                    DelOutcome { table: t, res: Err(Error::NotFound) }
                }
            },
        }
    }
}

/// Outcome of a delete at the cursor: the current entry, or — when
/// `all_dups` holds — the current key's whole group.  Afterwards the cursor
/// rests on the entry that followed the removed ones.
pub open spec fn cursor_del_outcome(t: TableView, pos: Position, all_dups: bool) -> CursorDelOutcome {
    let es = t.entries;
    let n = t.n();
    let ii = pos_index(t, pos);
    if pos is Unset {
        CursorDelOutcome { table: t, pos, res: Err(Error::NoData) }
    } else if ii >= n {
        CursorDelOutcome { table: t, pos: Position::At(n as usize), res: Err(Error::NoData) }
    } else if all_dups {
        let gs = group_start(es, ii);
        let ge = group_end(es, ii);
        CursorDelOutcome {
            table: TableView { entries: es.subrange(0, gs) + es.subrange(ge, n), ..t },
            pos: Position::At(gs as usize),
            res: Ok(()),
        }
    } else {
        CursorDelOutcome {
            table: TableView { entries: es.remove(ii), ..t },
            pos: Position::At(ii as usize),
            res: Ok(()),
        }
    }
}

} // verus!
