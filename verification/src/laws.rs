//! The laws of the cursor layer, stated and proved over the model.
//!
//! Each proof function here is a public statement of one behavioural
//! guarantee of this crate, phrased over the spec functions that the
//! executable functions' contracts use.

use vstd::prelude::*;
use vstd::seq_lib::group_to_multiset_ensures;

use crate::bytes::lex_lt;
use crate::bytes::lemma_lex_lt_irreflexive;
use crate::error::Error;
use crate::flags::WriteFlags;
use crate::iter::dup_remaining;
use crate::iter::iter_yields;
use crate::iter::scan;
use crate::iter::Iter;
use crate::iter::IterDup;
use crate::model::cursor_del_outcome;
use crate::model::cursor_outcome;
use crate::model::find_ge;
use crate::model::group_end;
use crate::model::lemma_cursor_del_wf;
use crate::model::lemma_find_ge_from_props;
use crate::model::lemma_find_ge_from_unique;
use crate::model::lemma_find_ge_locates_key;
use crate::model::lemma_group_end_props;
use crate::model::lemma_put_wf;
use crate::model::lookup;
use crate::model::pos_index;
use crate::model::put_outcome;
use crate::model::reserve_outcome;
use crate::model::zero_bytes;
use crate::model::PairView;
use crate::model::TableView;
use crate::ops::CursorOp;
use crate::ops::Position;

verus! {

/// The write options of a plain insert-or-overwrite.
pub open spec fn plain_write() -> WriteFlags {
    WriteFlags { no_overwrite: false, no_dup_data: false }
}

/// The table after a sequence of plain writes, applied first to last.
pub open spec fn table_after_puts(t: TableView, ps: Seq<PairView>) -> TableView
    decreases ps.len(),
{
    if ps.len() == 0 {
        t
    } else {
        table_after_puts(
            put_outcome(t, ps[0].key, ps[0].value, plain_write()).table,
            ps.drop_first(),
        )
    }
}

/// Writing pairs whose keys are fresh and pairwise distinct adds exactly
/// those pairs to a table without duplicate keys.
pub proof fn lemma_distinct_puts_build(t: TableView, ps: Seq<PairView>)
    requires
        t.wf(),
        !t.dup_sort,
        t.n() + ps.len() <= usize::MAX as int,
        forall|i: int, j: int|
            0 <= i < j < ps.len() ==> (#[trigger] ps[i]).key != (#[trigger] ps[j]).key,
        forall|i: int| 0 <= i < ps.len() ==> !t.contains_key((#[trigger] ps[i]).key),
    ensures
        table_after_puts(t, ps).wf(),
        !table_after_puts(t, ps).dup_sort,
        table_after_puts(t, ps).entries.to_multiset() == t.entries.to_multiset().add(
            ps.to_multiset(),
        ),
    decreases ps.len(),
{
    broadcast use group_to_multiset_ensures;

    let t2 = table_after_puts(t, ps);
    if ps.len() == 0 {
        assert(ps.to_multiset().len() == 0);
        assert(t2.entries.to_multiset() =~= t.entries.to_multiset().add(ps.to_multiset()));
    } else {
        let p0 = ps[0];
        let k0 = p0.key;
        let rest = ps.drop_first();
        let o = put_outcome(t, k0, p0.value, plain_write());
        let t1 = o.table;
        lemma_put_wf(t, k0, p0.value, plain_write());
        lemma_find_ge_locates_key(t, k0);
        let g = find_ge(t.entries, k0);
        lemma_find_ge_from_props(t.entries, k0, 0);
        // the key is fresh, so the write is an insertion
        assert(!(g < t.n() && t.entries[g].key == k0));
        assert(t1.entries == t.entries.insert(g, PairView { key: k0, value: p0.value }));
        t.entries.insert_ensures(g, PairView { key: k0, value: p0.value });
        assert(PairView { key: k0, value: p0.value } =~= p0);
        // freshness carries over: the new table holds the old keys and k0
        assert forall|i: int| 0 <= i < rest.len() implies !t1.contains_key(
            (#[trigger] rest[i]).key,
        ) by {
            assert(rest[i] == ps[i + 1]);
            if t1.contains_key(rest[i].key) {
                let x = choose|m: int|
                    0 <= m < t1.n() && (#[trigger] t1.entries[m]).key == rest[i].key;
                if x < g {
                    assert(t1.entries[x] == t.entries[x]);
                    assert(t.contains_key(rest[i].key));
                } else if x == g {
                    assert(t1.entries[x] == p0);
                } else {
                    assert(t1.entries[x] == t.entries[x - 1]);
                    assert(t.contains_key(rest[i].key));
                }
            }
        }
        assert(forall|i: int, j: int|
            0 <= i < j < rest.len() ==> (#[trigger] rest[i]).key != (#[trigger] rest[j]).key);
        lemma_distinct_puts_build(t1, rest);
        // multiset bookkeeping: inserting p0 then adding the rest is the
        // same as adding all of ps
        assert(t1.entries.to_multiset() =~= t.entries.to_multiset().insert(p0));
        assert(rest =~= ps.remove(0));
        assert(rest.to_multiset() =~= ps.to_multiset().remove(p0));
        assert(ps.to_multiset().count(p0) > 0);
        assert(t2.entries.to_multiset() =~= t.entries.to_multiset().add(ps.to_multiset()));
    }
}

/// Order preservation: writing any pairs with pairwise distinct keys into
/// an empty table without duplicates, then iterating from the start, yields
/// exactly those pairs, sorted in strictly ascending byte order of keys.
pub proof fn lemma_order_preservation(t: TableView, ps: Seq<PairView>)
    requires
        t.wf(),
        !t.dup_sort,
        t.n() == 0,
        ps.len() <= usize::MAX as int,
        forall|i: int, j: int|
            0 <= i < j < ps.len() ==> (#[trigger] ps[i]).key != (#[trigger] ps[j]).key,
    ensures
        table_after_puts(t, ps).wf(),
        iter_yields(
            table_after_puts(t, ps),
            (Iter::Positioned { pos: Position::Unset, op: CursorOp::First, next_op: CursorOp::Next }),
        ) == scan(table_after_puts(t, ps), 0, table_after_puts(t, ps).n()),
        table_after_puts(t, ps).entries.to_multiset() == ps.to_multiset(),
        table_after_puts(t, ps).n() == ps.len(),
        forall|i: int, j: int|
            0 <= i < j < table_after_puts(t, ps).n() ==> lex_lt(
                (#[trigger] table_after_puts(t, ps).entries[i]).key,
                (#[trigger] table_after_puts(t, ps).entries[j]).key,
            ),
{
    broadcast use group_to_multiset_ensures;

    let t2 = table_after_puts(t, ps);
    lemma_distinct_puts_build(t, ps);
    assert(t.entries.to_multiset().len() == 0);
    assert(t2.entries.to_multiset() =~= ps.to_multiset());
    assert(t2.entries.to_multiset().len() == ps.to_multiset().len());
    assert forall|i: int, j: int| 0 <= i < j < t2.n() implies lex_lt(
        (#[trigger] t2.entries[i]).key,
        (#[trigger] t2.entries[j]).key,
    ) by {
        assert(crate::model::entry_lt(t2.entries[i], t2.entries[j]));
        assert(t2.entries[i].key != t2.entries[j].key);
    }
}

/// The pair sequences of the table's duplicate groups, from entry `i` on.
pub open spec fn group_seqs_from(t: TableView, i: int) -> Seq<Seq<(Seq<u8>, Seq<u8>)>>
    decreases t.n() - i,
{
    if 0 <= i < t.n() {
        proof {
            lemma_group_end_props(t.entries, i);
        }
        seq![scan(t, i, group_end(t.entries, i))] + group_seqs_from(t, group_end(t.entries, i))
    } else {
        Seq::empty()
    }
}

/// The duplicate groups from entry `i` on partition the remaining entries.
pub proof fn lemma_group_seqs_cover(t: TableView, i: int)
    requires
        0 <= i <= t.n(),
    ensures
        group_seqs_from(t, i).flatten() == scan(t, i, t.n()),
    decreases t.n() - i,
{
    if i == t.n() {
        assert(group_seqs_from(t, i).flatten() =~= scan(t, i, t.n()));
    } else {
        lemma_group_end_props(t.entries, i);
        let ge = group_end(t.entries, i);
        lemma_group_seqs_cover(t, ge);
        let s = group_seqs_from(t, i);
        assert(s.first() == scan(t, i, ge));
        assert(s.drop_first() =~= group_seqs_from(t, ge));
        assert(s.flatten() == scan(t, i, ge) + group_seqs_from(t, ge).flatten());
        assert(scan(t, i, ge) + scan(t, ge, t.n()) =~= scan(t, i, t.n()));
    }
}

/// Duplicate grouping: iterating group by group and flattening yields the
/// whole table in entry order — the same sequence that plain sequential
/// iteration from the start yields.
pub proof fn lemma_duplicate_grouping(t: TableView)
    requires
        t.n() <= usize::MAX as int,
    ensures
        group_seqs_from(t, 0).flatten() == scan(t, 0, t.n()),
        dup_remaining(
            t,
            (IterDup::Positioned { pos: Position::Unset, op: CursorOp::First }),
        ) == scan(t, 0, t.n()),
        iter_yields(
            t,
            (Iter::Positioned { pos: Position::Unset, op: CursorOp::First, next_op: CursorOp::Next }),
        ) == scan(t, 0, t.n()),
{
    lemma_group_seqs_cover(t, 0);
}

/// The duplicate groups are key runs: every group is non-empty, all pairs
/// of one group carry one key, and consecutive groups carry distinct keys.
pub proof fn lemma_groups_are_key_runs(t: TableView, i: int)
    requires
        0 <= i <= t.n(),
    ensures
        forall|g: int| 0 <= g < group_seqs_from(t, i).len() ==> (#[trigger] group_seqs_from(
            t,
            i,
        )[g]).len() >= 1,
        forall|g: int, a: int|
            0 <= g < group_seqs_from(t, i).len() && 0 <= a < group_seqs_from(t, i)[g].len()
                ==> (#[trigger] group_seqs_from(t, i)[g][a]).0 == group_seqs_from(t, i)[g][0].0,
        forall|g: int|
            0 <= g < group_seqs_from(t, i).len() - 1 ==> (#[trigger] group_seqs_from(t, i)[g][0]).0
                != group_seqs_from(t, i)[g + 1][0].0,
    decreases t.n() - i,
{
    let gs = group_seqs_from(t, i);
    if 0 <= i < t.n() {
        lemma_group_end_props(t.entries, i);
        let ge = group_end(t.entries, i);
        lemma_groups_are_key_runs(t, ge);
        let rest = group_seqs_from(t, ge);
        assert(gs[0] == scan(t, i, ge));
        assert(forall|g: int| 1 <= g < gs.len() ==> #[trigger] gs[g] == rest[g - 1]);
        assert forall|g: int, a: int| 0 <= g < gs.len() && 0 <= a < gs[g].len() implies (
        #[trigger] gs[g][a]).0 == gs[g][0].0 by {
            if g >= 1 {
                assert(gs[g] == rest[g - 1]);
                assert(rest[g - 1][a].0 == rest[g - 1][0].0);
            }
        }
        assert forall|g: int| 0 <= g < gs.len() - 1 implies (#[trigger] gs[g][0]).0 != gs[g
            + 1][0].0 by {
            if g == 0 {
                if ge < t.n() {
                    assert(rest[0] == scan(t, ge, group_end(t.entries, ge)));
                    assert(gs[1][0].0 == t.entries[ge].key);
                    assert(gs[0][0].0 == t.entries[i].key);
                }
            } else {
                assert(gs[g] == rest[g - 1]);
                assert(gs[g + 1] == rest[g]);
            }
        }
    }
}

/// When a write succeeds, and which error it reports otherwise: a size
/// mismatch in a fixed-size table is rejected outright; under the
/// exclusivity options an existing key (or, in a duplicate-permitting
/// table, an existing exact pair) reports `KeyExist`; every other write
/// succeeds.
pub proof fn lemma_put_success_conditions(t: TableView, k: Seq<u8>, v: Seq<u8>, f: WriteFlags)
    requires
        t.wf(),
        t.n() < usize::MAX as int,
    ensures
        ({
            let res = put_outcome(t, k, v, f).res;
            let size_mismatch = t.dup_fixed && t.n() > 0 && v.len() != t.entries[0].value.len();
            let exclusivity = (f.no_overwrite && t.contains_key(k)) || (t.dup_sort
                && f.no_dup_data && t.contains_pair(k, v));
            &&& (res == Err::<(), Error>(Error::InvalidArgument) <==> size_mismatch)
            &&& (res == Err::<(), Error>(Error::KeyExist) <==> (!size_mismatch && exclusivity))
            &&& (res is Ok <==> (!size_mismatch && !exclusivity))
        }),
{
    lemma_find_ge_locates_key(t, k);
    crate::model::lemma_find_pair_ge_locates_pair(t, k, v);
    if t.dup_sort && t.contains_pair(k, v) && !t.contains_key(k) {
        let x = choose|i: int|
            0 <= i < t.n() && (#[trigger] t.entries[i]).key == k && t.entries[i].value == v;
        assert(t.contains_key(k));
    }
}

/// When a delete succeeds: with a value exactly when that pair is stored,
/// without one exactly when the key is; otherwise it reports `NotFound`.
pub proof fn lemma_del_success_conditions(t: TableView, k: Seq<u8>, data: Option<Seq<u8>>)
    requires
        t.wf(),
    ensures
        ({
            let res = crate::model::del_outcome(t, k, data).res;
            &&& (res is Ok <==> (match data {
                Option::Some(v) => t.contains_pair(k, v),
                Option::None => t.contains_key(k),
            }))
            &&& (res is Err <==> res == Err::<(), Error>(Error::NotFound))
        }),
{
    lemma_find_ge_locates_key(t, k);
    match data {
        Option::Some(v) => {
            crate::model::lemma_find_pair_ge_locates_pair(t, k, v);
            if t.contains_pair(k, v) && !t.contains_key(k) {
                let x = choose|i: int|
                    0 <= i < t.n() && (#[trigger] t.entries[i]).key == k && t.entries[i].value
                        == v;
                assert(t.contains_key(k));
            }
        },
        Option::None => {},
    }
}

/// When a lookup succeeds: exactly when the key is stored, and then it
/// returns the first value of the key's duplicate group.
pub proof fn lemma_lookup_first_of_group(t: TableView, k: Seq<u8>)
    requires
        t.wf(),
    ensures
        lookup(t, k) is Ok <==> t.contains_key(k),
        lookup(t, k) is Err <==> lookup(t, k) == Err::<Seq<u8>, Error>(Error::NotFound),
        forall|i: int|
            0 <= i < t.n() && (#[trigger] t.entries[i]).key == k ==> lookup(t, k) == Ok::<
                Seq<u8>,
                Error,
            >(t.entries[crate::model::group_start(t.entries, i)].value),
{
    lemma_find_ge_locates_key(t, k);
    lemma_find_ge_from_props(t.entries, k, 0);
    let g = find_ge(t.entries, k);
    assert forall|i: int| 0 <= i < t.n() && (#[trigger] t.entries[i]).key == k implies lookup(
        t,
        k,
    ) == Ok::<Seq<u8>, Error>(t.entries[crate::model::group_start(t.entries, i)].value) by {
        assert(t.contains_key(k));
        assert(g < t.n() && t.entries[g].key == k);
        assert(g <= i);
        assert forall|m: int| g <= m <= i implies (#[trigger] t.entries[m]).key == k by {
            if g < m && m < i {
                assert(crate::model::entry_lt(t.entries[g], t.entries[m]));
                assert(crate::model::entry_lt(t.entries[m], t.entries[i]));
                crate::bytes::lemma_lex_lt_total(t.entries[m].key, k);
                if lex_lt(k, t.entries[m].key) && lex_lt(t.entries[m].key, k) {
                    crate::bytes::lemma_lex_lt_transitive(k, t.entries[m].key, k);
                    lemma_lex_lt_irreflexive(k);
                }
            }
        }
        if g > 0 {
            assert(lex_lt(t.entries[g - 1].key, k));
            crate::bytes::lemma_lex_lt_total(t.entries[g - 1].key, k);
        }
        crate::model::lemma_group_start_unique(t.entries, i, g);
    }
}

/// Empty table: every iteration protocol yields nothing, and a lookup
/// reports `NotFound` — no errors anywhere.
pub proof fn lemma_empty_table(t: TableView, it: Iter, itd: IterDup, k: Seq<u8>)
    requires
        t.n() == 0,
        !(it is Poisoned),
        !(itd is Poisoned),
    ensures
        iter_yields(t, it) == Seq::<(Seq<u8>, Seq<u8>)>::empty(),
        dup_remaining(t, itd) == Seq::<(Seq<u8>, Seq<u8>)>::empty(),
        lookup(t, k) == Err::<Seq<u8>, Error>(Error::NotFound),
{
    assert(iter_yields(t, it) =~= Seq::<(Seq<u8>, Seq<u8>)>::empty());
    assert(dup_remaining(t, itd) =~= Seq::<(Seq<u8>, Seq<u8>)>::empty());
}

/// Seek past the end: a ranged seek with a key above every stored key
/// fails with `NotFound`, leaves the cursor unset, and the iteration built
/// from it yields nothing — an empty sequence, not an error.
pub proof fn lemma_seek_past_end(t: TableView, pos: Position, k: Seq<u8>)
    requires
        t.n() <= usize::MAX as int,
        forall|i: int| 0 <= i < t.n() ==> lex_lt((#[trigger] t.entries[i]).key, k),
    ensures
        cursor_outcome(t, pos, Option::Some(k), Option::None, CursorOp::SetRange).res == Err::<
            (Option<Seq<u8>>, Seq<u8>),
            Error,
        >(Error::NotFound),
        cursor_outcome(t, pos, Option::Some(k), Option::None, CursorOp::SetRange).pos
            == Position::Unset,
        iter_yields(
            t,
            (Iter::Positioned {
                pos: Position::Unset,
                op: CursorOp::GetCurrent,
                next_op: CursorOp::Next,
            }),
        ) == Seq::<(Seq<u8>, Seq<u8>)>::empty(),
{
    lemma_find_ge_from_unique(t.entries, k, 0, t.n());
}

/// Delete then reiterate: positioning on a key's sole value and deleting
/// it leaves a table in which that key is absent, and iterating its
/// duplicates yields nothing.
pub proof fn lemma_delete_then_reiterate(t: TableView, pos: Position, k: Seq<u8>)
    requires
        t.wf(),
        t.contains_key(k),
        forall|i: int, j: int|
            0 <= i < t.n() && 0 <= j < t.n() && (#[trigger] t.entries[i]).key == k && (
            #[trigger] t.entries[j]).key == k ==> i == j,
    ensures
        ({
            let o1 = cursor_outcome(t, pos, Option::Some(k), Option::None, CursorOp::SetValue);
            let o2 = cursor_del_outcome(t, o1.pos, false);
            let o3 = cursor_outcome(
                o2.table,
                Position::Unset,
                Option::Some(k),
                Option::None,
                CursorOp::SetValue,
            );
            &&& o1.res is Ok
            &&& o2.res is Ok
            &&& !o2.table.contains_key(k)
            &&& o3.res == Err::<(Option<Seq<u8>>, Seq<u8>), Error>(Error::NotFound)
            &&& iter_yields(
                o2.table,
                (Iter::Positioned {
                    pos: o3.pos,
                    op: CursorOp::GetCurrent,
                    next_op: CursorOp::NextDup,
                }),
            ) == Seq::<(Seq<u8>, Seq<u8>)>::empty()
        }),
{
    lemma_find_ge_locates_key(t, k);
    let g = find_ge(t.entries, k);
    lemma_find_ge_from_props(t.entries, k, 0);
    let o1 = cursor_outcome(t, pos, Option::Some(k), Option::None, CursorOp::SetValue);
    assert(o1.pos == Position::At(g as usize));
    assert(pos_index(t, o1.pos) == g);
    let o2 = cursor_del_outcome(t, o1.pos, false);
    lemma_cursor_del_wf(t, o1.pos, false);
    let t2 = o2.table;
    t.entries.remove_ensures(g);
    assert(!t2.contains_key(k)) by {
        if t2.contains_key(k) {
            let x = choose|m: int| 0 <= m < t2.n() && (#[trigger] t2.entries[m]).key == k;
            if x < g {
                assert(t2.entries[x] == t.entries[x]);
            } else {
                assert(t2.entries[x] == t.entries[x + 1]);
            }
        }
    }
    lemma_find_ge_locates_key(t2, k);
}

/// Clone independence: the positioning call is a pure function of the
/// table and the cursor's own position, so a clone placed at the same
/// position reads the same pair, and moving either cursor cannot change
/// the other's position — cursor positions are independent values.
pub proof fn lemma_clone_independence(
    t: TableView,
    original: Position,
    clone: Position,
    key: Option<Seq<u8>>,
    data: Option<Seq<u8>>,
    op: CursorOp,
)
    requires
        clone == original,
    ensures
        cursor_outcome(t, clone, Option::None, Option::None, CursorOp::GetCurrent)
            == cursor_outcome(t, original, Option::None, Option::None, CursorOp::GetCurrent),
        cursor_outcome(t, clone, key, data, op) == cursor_outcome(t, original, key, data, op),
{
}

/// Round trip: after a successful write of `(k, v)`, looking `k` up
/// returns exactly `v` in a table without duplicates, and the pair is
/// among the stored entries in a duplicate-permitting one.
pub proof fn lemma_put_get_roundtrip(t: TableView, k: Seq<u8>, v: Seq<u8>, f: WriteFlags)
    requires
        t.wf(),
        t.n() < usize::MAX as int,
        put_outcome(t, k, v, f).res is Ok,
    ensures
        !t.dup_sort ==> lookup(put_outcome(t, k, v, f).table, k) == Ok::<Seq<u8>, Error>(v),
        t.dup_sort ==> put_outcome(t, k, v, f).table.contains_pair(k, v),
{
    let o = put_outcome(t, k, v, f);
    let t2 = o.table;
    let p = PairView { key: k, value: v };
    lemma_lex_lt_irreflexive(k);
    if !t.dup_sort {
        let g = find_ge(t.entries, k);
        lemma_find_ge_from_props(t.entries, k, 0);
        if g < t.n() && t.entries[g].key == k {
            assert(t2.entries == t.entries.update(g, p));
            lemma_find_ge_from_unique(t2.entries, k, 0, g);
        } else {
            assert(t2.entries == t.entries.insert(g, p));
            t.entries.insert_ensures(g, p);
            lemma_find_ge_from_unique(t2.entries, k, 0, g);
        }
    } else {
        let g = find_ge(t.entries, k);
        let j = crate::model::find_pair_ge(t.entries, k, v);
        crate::model::lemma_find_pair_ge_from_props(t.entries, k, v, 0);
        if j < t.n() && t.entries[j] == p {
            assert(t2.contains_pair(k, v));
        } else {
            assert(t2.entries == t.entries.insert(j, p));
            t.entries.insert_ensures(j, p);
            assert(t2.entries[j] == p);
            assert(t2.contains_pair(k, v));
        }
    }
}

/// Round trip, reservation form: reserving `len` bytes under `k` and then
/// filling the whole buffer with `data` leaves exactly the table that a
/// direct write of `(k, data)` under the same options would leave.
pub proof fn lemma_reserve_fill_is_put(
    t: TableView,
    k: Seq<u8>,
    len: int,
    data: Seq<u8>,
    f: WriteFlags,
)
    requires
        t.wf(),
        t.n() < usize::MAX as int,
        data.len() == len,
        reserve_outcome(t, k, len, f).res is Ok,
    ensures
        put_outcome(reserve_outcome(t, k, len, f).table, k, data, plain_write()).table
            == put_outcome(t, k, data, f).table,
{
    let t1 = reserve_outcome(t, k, len, f).table;
    let p0 = PairView { key: k, value: zero_bytes(len) };
    let p = PairView { key: k, value: data };
    assert(!t.dup_sort);
    assert(!t.dup_fixed);
    let g = find_ge(t.entries, k);
    lemma_find_ge_from_props(t.entries, k, 0);
    lemma_lex_lt_irreflexive(k);
    if g < t.n() && t.entries[g].key == k {
        // the reservation overwrote the key in place
        assert(!f.no_overwrite);
        assert(t1.entries == t.entries.update(g, p0));
        lemma_find_ge_from_unique(t1.entries, k, 0, g);
        assert(put_outcome(t1, k, data, plain_write()).table.entries =~= put_outcome(
            t,
            k,
            data,
            f,
        ).table.entries);
        assert(put_outcome(t1, k, data, plain_write()).table =~= put_outcome(t, k, data, f).table);
    } else {
        // the reservation inserted the key
        assert(t1.entries == t.entries.insert(g, p0));
        t.entries.insert_ensures(g, p0);
        lemma_find_ge_from_unique(t1.entries, k, 0, g);
        assert(t1.entries[g].key == k);
        assert(put_outcome(t1, k, data, plain_write()).table.entries =~= put_outcome(
            t,
            k,
            data,
            f,
        ).table.entries);
        assert(put_outcome(t1, k, data, plain_write()).table =~= put_outcome(t, k, data, f).table);
    }
}

} // verus!
