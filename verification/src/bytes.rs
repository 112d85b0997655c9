//! Byte-lexicographic ordering of keys and values.
//!
//! The engine model keeps every table sorted by the unsigned byte order of
//! its keys (and, within one key's duplicate group, of its values).  This
//! module defines that order as a specification, proves the facts the rest
//! of the crate needs about it (totality, transitivity), and provides the
//! executable three-way comparison.

use vstd::prelude::*;

verus! {

/// Result of a three-way byte-string comparison.
#[derive(Clone, Copy, Debug, PartialEq, Eq, Structural)]
pub enum Comparison {
    Less,
    Equal,
    Greater,
}

/// Strict byte-lexicographic order: `a` comes before `b` when, at the first
/// position where they differ, `a` has the smaller byte, or when `a` is a
/// proper prefix of `b`.
pub open spec fn lex_lt(a: Seq<u8>, b: Seq<u8>) -> bool
    decreases a.len(),
{
    if b.len() == 0 {
        false
    } else if a.len() == 0 {
        true
    } else if a[0] < b[0] {
        true
    } else if b[0] < a[0] {
        false
    } else {
        lex_lt(a.drop_first(), b.drop_first())
    }
}

/// No byte string comes before itself.
pub proof fn lemma_lex_lt_irreflexive(a: Seq<u8>)
    ensures
        !lex_lt(a, a),
    decreases a.len(),
{
    if a.len() > 0 {
        lemma_lex_lt_irreflexive(a.drop_first());
    }
}

/// The order is total: two byte strings are equal or one comes strictly
/// before the other, and never both.
pub proof fn lemma_lex_lt_total(a: Seq<u8>, b: Seq<u8>)
    ensures
        lex_lt(a, b) || lex_lt(b, a) || a == b,
        lex_lt(a, b) ==> !lex_lt(b, a),
        lex_lt(a, b) ==> a != b,
        lex_lt(b, a) ==> a != b,
    decreases a.len(),
{
    lemma_lex_lt_irreflexive(a);
    lemma_lex_lt_irreflexive(b);
    if a.len() == 0 && b.len() == 0 {
        assert(a =~= b);
    } else if a.len() > 0 && b.len() > 0 && a[0] == b[0] {
        lemma_lex_lt_total(a.drop_first(), b.drop_first());
        if a.drop_first() == b.drop_first() {
            assert(a =~= b) by {
                assert forall|m: int| 0 <= m < a.len() implies #[trigger] a[m] == b[m] by {
                    if m >= 1 {
                        assert(a.drop_first()[m - 1] == b.drop_first()[m - 1]);
                    }
                }
            }
        }
        if a == b {
            assert(a.drop_first() =~= b.drop_first());
        }
    }
}

/// Strict byte-lexicographic order is transitive.
pub proof fn lemma_lex_lt_transitive(a: Seq<u8>, b: Seq<u8>, c: Seq<u8>)
    requires
        lex_lt(a, b),
        lex_lt(b, c),
    ensures
        lex_lt(a, c),
    decreases a.len(),
{
    if a.len() > 0 && b.len() > 0 && c.len() > 0 {
        if a[0] == b[0] && b[0] == c[0] {
            lemma_lex_lt_transitive(a.drop_first(), b.drop_first(), c.drop_first());
        }
    }
}

/// Dropping an equal prefix from both strings does not change their order.
pub proof fn lemma_lex_lt_common_prefix(a: Seq<u8>, b: Seq<u8>, i: int)
    requires
        0 <= i <= a.len(),
        i <= b.len(),
        a.subrange(0, i) == b.subrange(0, i),
    ensures
        lex_lt(a, b) == lex_lt(a.skip(i), b.skip(i)),
    decreases i,
{
    if i == 0 {
        assert(a.skip(0) =~= a);
        assert(b.skip(0) =~= b);
    } else {
        assert(a[0] == b[0]) by {
            assert(a.subrange(0, i)[0] == a[0]);
            assert(b.subrange(0, i)[0] == b[0]);
        }
        assert(a.drop_first().subrange(0, i - 1) =~= a.subrange(0, i).skip(1));
        assert(b.drop_first().subrange(0, i - 1) =~= b.subrange(0, i).skip(1));
        lemma_lex_lt_common_prefix(a.drop_first(), b.drop_first(), i - 1);
        assert(a.drop_first().skip(i - 1) =~= a.skip(i));
        assert(b.drop_first().skip(i - 1) =~= b.skip(i));
    }
}

/// Three-way comparison of two byte strings in byte-lexicographic order.
pub fn compare(a: &[u8], b: &[u8]) -> (o: Comparison)
    ensures
        (o is Less) == lex_lt(a@, b@),
        (o is Equal) == (a@ == b@),
        (o is Greater) == lex_lt(b@, a@),
{
    proof {
        lemma_lex_lt_total(a@, b@);
    }
    let alen: usize = a.len();
    let blen: usize = b.len();
    let shorter: usize = if alen < blen {
        alen
    } else {
        blen
    };
    let mut i: usize = 0;
    while i < shorter
        invariant
            0 <= i <= shorter,
            shorter <= a@.len(),
            shorter <= b@.len(),
            a@.subrange(0, i as int) == b@.subrange(0, i as int),
        decreases shorter - i,
    {
        let x: u8 = a[i];
        let y: u8 = b[i];
        if x < y {
            proof {
                lemma_lex_lt_total(a@, b@);
                lemma_lex_lt_common_prefix(a@, b@, i as int);
                assert(a@.skip(i as int)[0] == x);
                assert(b@.skip(i as int)[0] == y);
            }
            return Comparison::Less;
        }
        if y < x {
            proof {
                lemma_lex_lt_total(a@, b@);
                lemma_lex_lt_common_prefix(b@, a@, i as int);
                assert(a@.skip(i as int)[0] == x);
                assert(b@.skip(i as int)[0] == y);
            }
            return Comparison::Greater;
        }
        proof {
            assert(a@.subrange(0, i + 1) =~= a@.subrange(0, i as int).push(a@[i as int]));
            assert(b@.subrange(0, i + 1) =~= b@.subrange(0, i as int).push(b@[i as int]));
        }
        i = i + 1;
    }
    proof {
        lemma_lex_lt_total(a@, b@);
        lemma_lex_lt_common_prefix(a@, b@, shorter as int);
        lemma_lex_lt_common_prefix(b@, a@, shorter as int);
    }
    if alen == blen {
        proof {
            assert(a@ =~= b@);
        }
        Comparison::Equal
    } else if alen < blen {
        Comparison::Less
    } else {
        Comparison::Greater
    }
}

} // verus!
