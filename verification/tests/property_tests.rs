//! Scenario tests for the stated laws, the error kinds, and the handle
//! operations.

use mdbx::bytes::compare;
use mdbx::Comparison;
use mdbx::Cursor;
use mdbx::CursorOp;
use mdbx::Database;
use mdbx::DatabaseFlags;
use mdbx::Error;
use mdbx::Iter;
use mdbx::IterDup;
use mdbx::WriteFlags;
use mdbx::FREE_DBI;

fn plain_db() -> Database {
    Database::new(1, None, DatabaseFlags::empty()).unwrap()
}

fn dup_db() -> Database {
    Database::new(
        1,
        None,
        DatabaseFlags {
            dup_sort: true,
            dup_fixed: false,
        },
    )
    .unwrap()
}

#[test]
fn order_preservation_sorts_random_insertions() {
    let mut db = plain_db();
    db.put(b"key3", b"val3", WriteFlags::empty()).unwrap();
    db.put(b"key1", b"val1", WriteFlags::empty()).unwrap();
    db.put(b"key2", b"val2", WriteFlags::empty()).unwrap();

    let mut cursor = db.open_ro_cursor().unwrap();
    assert_eq!(
        vec![
            (b"key1".to_vec(), b"val1".to_vec()),
            (b"key2".to_vec(), b"val2".to_vec()),
            (b"key3".to_vec(), b"val3".to_vec()),
        ],
        cursor.iter_start().collect_all(&db).unwrap()
    );
}

#[test]
fn duplicate_grouping_flattens_in_order() {
    let mut db = dup_db();
    for key in [&b"key2"[..], &b"key1"[..]] {
        for val in [&b"val2"[..], &b"val1"[..], &b"val3"[..]] {
            db.put(key, val, WriteFlags::empty()).unwrap();
        }
    }

    let mut cursor = db.open_ro_cursor().unwrap();
    assert_eq!(
        vec![
            (b"key1".to_vec(), b"val1".to_vec()),
            (b"key1".to_vec(), b"val2".to_vec()),
            (b"key1".to_vec(), b"val3".to_vec()),
            (b"key2".to_vec(), b"val1".to_vec()),
            (b"key2".to_vec(), b"val2".to_vec()),
            (b"key2".to_vec(), b"val3".to_vec()),
        ],
        cursor.iter_dup_start().collect_flat(&db).unwrap()
    );

    // a further duplicate step on an exhausted group reports NotFound
    cursor
        .get(&db, Some(&b"key2"[..]), None, CursorOp::SetValue)
        .unwrap();
    cursor.get(&db, None, None, CursorOp::NextDup).unwrap();
    cursor.get(&db, None, None, CursorOp::NextDup).unwrap();
    assert_eq!(
        Err(Error::NotFound),
        cursor.get(&db, None, None, CursorOp::NextDup)
    );
}

#[test]
fn seek_past_end_yields_nothing() {
    let mut db = plain_db();
    db.put(b"alpha", b"1", WriteFlags::empty()).unwrap();
    db.put(b"beta", b"2", WriteFlags::empty()).unwrap();

    let mut cursor = db.open_ro_cursor().unwrap();
    assert_eq!(
        Err(Error::NotFound),
        cursor.get(&db, Some(&b"gamma"[..]), None, CursorOp::SetRange)
    );
    let mut it = cursor.iter_from(&db, b"gamma");
    assert_eq!(None, it.next(&db));
    let mut again = cursor.iter_from(&db, b"gamma");
    assert_eq!(None, again.next(&db));
}

#[test]
fn delete_then_reiterate_yields_nothing() {
    let mut db = dup_db();
    db.put(b"solo", b"value", WriteFlags::empty()).unwrap();
    db.put(b"other", b"value", WriteFlags::empty()).unwrap();

    let mut cursor = db.open_rw_cursor().unwrap();
    cursor
        .get(&db, Some(&b"solo"[..]), None, CursorOp::SetValue)
        .unwrap();
    cursor.del(&mut db, WriteFlags::empty()).unwrap();

    assert_eq!(
        Vec::<(Vec<u8>, Vec<u8>)>::new(),
        cursor.iter_dup_of(&db, b"solo").collect_all(&db).unwrap()
    );
    assert_eq!(Err(Error::NotFound), db.get(b"solo"));
    assert_eq!(Ok(b"value".to_vec()), db.get(b"other"));
}

#[test]
fn clone_reads_same_pair_and_moves_independently() {
    let mut db = plain_db();
    db.put(b"key1", b"val1", WriteFlags::empty()).unwrap();
    db.put(b"key2", b"val2", WriteFlags::empty()).unwrap();
    db.put(b"key3", b"val3", WriteFlags::empty()).unwrap();

    let mut cursor = db.open_ro_cursor().unwrap();
    cursor
        .get(&db, Some(&b"key2"[..]), None, CursorOp::SetValue)
        .unwrap();

    let mut copy = cursor.clone();
    assert_eq!(
        cursor.get(&db, None, None, CursorOp::GetCurrent).unwrap(),
        copy.get(&db, None, None, CursorOp::GetCurrent).unwrap()
    );

    // moving the clone leaves the original's position untouched
    copy.get(&db, None, None, CursorOp::Next).unwrap();
    assert_eq!(
        (Some(b"key2".to_vec()), b"val2".to_vec()),
        cursor.get(&db, None, None, CursorOp::GetCurrent).unwrap()
    );
    assert_eq!(
        (Some(b"key3".to_vec()), b"val3".to_vec()),
        copy.get(&db, None, None, CursorOp::GetCurrent).unwrap()
    );
}

#[test]
fn round_trip_put_then_get() {
    let mut db = plain_db();
    db.put(b"a", b"alpha", WriteFlags::empty()).unwrap();
    db.put(b"b", b"", WriteFlags::empty()).unwrap();
    db.put(b"c", b"\x00\x01\x02", WriteFlags::empty()).unwrap();

    assert_eq!(Ok(b"alpha".to_vec()), db.get(b"a"));
    assert_eq!(Ok(b"".to_vec()), db.get(b"b"));
    assert_eq!(Ok(b"\x00\x01\x02".to_vec()), db.get(b"c"));

    // overwriting replaces the stored value
    db.put(b"a", b"omega", WriteFlags::empty()).unwrap();
    assert_eq!(Ok(b"omega".to_vec()), db.get(b"a"));
}

#[test]
fn reserve_then_fill_equals_put() {
    let mut reserved = plain_db();
    let mut direct = plain_db();

    let rv = reserved
        .reserve(b"key", 5, WriteFlags::empty())
        .unwrap();
    assert_eq!(5, rv.len());
    // before the fill, the reservation holds zero bytes
    assert_eq!(Ok(vec![0u8; 5]), reserved.get(b"key"));
    rv.fill(&mut reserved, b"hello").unwrap();

    direct.put(b"key", b"hello", WriteFlags::empty()).unwrap();

    assert_eq!(direct.get(b"key"), reserved.get(b"key"));
    assert_eq!(Ok(b"hello".to_vec()), reserved.get(b"key"));
}

#[test]
fn reserve_rejects_wrong_fill_and_dup_tables() {
    let mut db = plain_db();
    let rv = db.reserve(b"key", 3, WriteFlags::empty()).unwrap();
    assert_eq!(Err(Error::InvalidArgument), rv.fill(&mut db, b"toolong"));
    // the unfilled reservation keeps its zero bytes
    assert_eq!(Ok(vec![0u8; 3]), db.get(b"key"));

    let mut dups = dup_db();
    assert!(matches!(
        dups.reserve(b"key", 3, WriteFlags::empty()),
        Err(Error::InvalidArgument)
    ));
}

#[test]
fn error_not_found_and_no_data() {
    let mut db = plain_db();
    assert_eq!(Err(Error::NotFound), db.get(b"missing"));
    db.put(b"present", b"x", WriteFlags::empty()).unwrap();
    assert_eq!(Err(Error::NotFound), db.del(b"missing", None));

    let mut cursor = db.open_ro_cursor().unwrap();
    assert_eq!(
        Err(Error::NoData),
        cursor.get(&db, None, None, CursorOp::GetCurrent)
    );
}

#[test]
fn error_key_exist() {
    let mut db = plain_db();
    db.put(b"key", b"one", WriteFlags::empty()).unwrap();
    assert_eq!(
        Err(Error::KeyExist),
        db.put(
            b"key",
            b"two",
            WriteFlags {
                no_overwrite: true,
                no_dup_data: false,
            },
        )
    );

    let mut dups = dup_db();
    dups.put(b"key", b"one", WriteFlags::empty()).unwrap();
    assert_eq!(
        Err(Error::KeyExist),
        dups.put(
            b"key",
            b"one",
            WriteFlags {
                no_overwrite: false,
                no_dup_data: true,
            },
        )
    );
    // in a duplicate-permitting table the option still guards the key
    assert_eq!(
        Err(Error::KeyExist),
        dups.put(
            b"key",
            b"two",
            WriteFlags {
                no_overwrite: true,
                no_dup_data: false,
            },
        )
    );
}

#[test]
fn error_invalid_argument() {
    // an embedded null byte in a table name is rejected outright
    assert!(matches!(
        Database::new(1, Some(&b"bad\0name"[..]), DatabaseFlags::empty()),
        Err(Error::InvalidArgument)
    ));
    // the free-page table id is never given out for a user table
    assert!(matches!(
        Database::new(FREE_DBI, None, DatabaseFlags::empty()),
        Err(Error::InvalidArgument)
    ));
    // fixed-size values demand a duplicate-permitting table
    assert!(matches!(
        Database::new(
            1,
            None,
            DatabaseFlags {
                dup_sort: false,
                dup_fixed: true,
            },
        ),
        Err(Error::InvalidArgument)
    ));

    // in a fixed-size table every value must have the same size
    let mut fixed = Database::new(
        1,
        None,
        DatabaseFlags {
            dup_sort: true,
            dup_fixed: true,
        },
    )
    .unwrap();
    fixed.put(b"key", b"aaaa", WriteFlags::empty()).unwrap();
    assert_eq!(
        Err(Error::InvalidArgument),
        fixed.put(b"key", b"toolong", WriteFlags::empty())
    );

    // bulk retrieval is only for fixed-size tables
    let db = plain_db();
    let mut cursor = db.open_ro_cursor().unwrap();
    assert_eq!(
        Err(Error::InvalidArgument),
        cursor.get(&db, None, None, CursorOp::GetMultiple)
    );
}

#[test]
fn poisoned_iterators_repeat_their_error() {
    let db = plain_db();
    let mut it = Iter::Poisoned(Error::Busy);
    assert_eq!(Some(Err(Error::Busy)), it.next(&db));
    assert_eq!(Some(Err(Error::Busy)), it.next(&db));

    let mut itd = IterDup::Poisoned(Error::EngineFatal);
    let mut inner = itd.next(&db).unwrap();
    assert_eq!(Some(Err(Error::EngineFatal)), inner.next(&db));
    assert_eq!(Some(Err(Error::EngineFatal)), inner.next(&db));

    let mut exhausted = Iter::Poisoned(Error::ResourceExhausted);
    assert_eq!(Err(Error::ResourceExhausted), exhausted.collect_all(&db));
}

#[test]
fn error_descriptions_name_each_kind() {
    let kinds = [
        Error::NotFound,
        Error::NoData,
        Error::KeyExist,
        Error::Busy,
        Error::ResourceExhausted,
        Error::InvalidArgument,
        Error::EngineFatal,
    ];
    for kind in kinds {
        assert!(!kind.describe().is_empty());
    }
}

#[test]
fn handle_introspection() {
    let mut db = Database::new(
        7,
        Some(&b"accounts"[..]),
        DatabaseFlags {
            dup_sort: true,
            dup_fixed: false,
        },
    )
    .unwrap();
    assert_eq!(7, db.dbi());
    let flags = db.db_flags().unwrap();
    assert!(flags.dup_sort);
    assert!(!flags.dup_fixed);

    assert_eq!(0, db.stat().unwrap().entries);
    db.put(b"k", b"v1", WriteFlags::empty()).unwrap();
    db.put(b"k", b"v2", WriteFlags::empty()).unwrap();
    assert_eq!(2, db.stat().unwrap().entries);

    let free = Database::freelist_db();
    assert_eq!(FREE_DBI, free.dbi());
}

#[test]
fn clear_and_drop() {
    let mut db = plain_db();
    db.put(b"k1", b"v1", WriteFlags::empty()).unwrap();
    db.put(b"k2", b"v2", WriteFlags::empty()).unwrap();

    db.clear_db().unwrap();
    assert_eq!(0, db.stat().unwrap().entries);
    assert_eq!(Err(Error::NotFound), db.get(b"k1"));

    // the table stays usable after a clear
    db.put(b"k3", b"v3", WriteFlags::empty()).unwrap();
    assert_eq!(Ok(b"v3".to_vec()), db.get(b"k3"));

    assert_eq!(Ok(()), db.drop_db());
}

#[test]
fn delete_by_key_and_by_pair() {
    let mut db = dup_db();
    db.put(b"k", b"v1", WriteFlags::empty()).unwrap();
    db.put(b"k", b"v2", WriteFlags::empty()).unwrap();
    db.put(b"k", b"v3", WriteFlags::empty()).unwrap();

    // deleting one exact pair leaves the rest of the group
    db.del(b"k", Some(&b"v2"[..])).unwrap();
    let mut cursor = db.open_ro_cursor().unwrap();
    assert_eq!(
        vec![
            (b"k".to_vec(), b"v1".to_vec()),
            (b"k".to_vec(), b"v3".to_vec()),
        ],
        cursor.iter_start().collect_all(&db).unwrap()
    );
    assert_eq!(Err(Error::NotFound), db.del(b"k", Some(&b"v2"[..])));

    // deleting by key alone removes the whole group
    db.del(b"k", None).unwrap();
    assert_eq!(0, db.stat().unwrap().entries);
}

#[test]
fn cursor_delete_whole_group() {
    let mut db = dup_db();
    db.put(b"k1", b"v1", WriteFlags::empty()).unwrap();
    db.put(b"k1", b"v2", WriteFlags::empty()).unwrap();
    db.put(b"k2", b"w", WriteFlags::empty()).unwrap();

    let mut cursor = db.open_rw_cursor().unwrap();
    cursor
        .get(&db, Some(&b"k1"[..]), None, CursorOp::SetValue)
        .unwrap();
    cursor
        .del(
            &mut db,
            WriteFlags {
                no_overwrite: false,
                no_dup_data: true,
            },
        )
        .unwrap();

    assert_eq!(
        vec![(b"k2".to_vec(), b"w".to_vec())],
        cursor.iter_start().collect_all(&db).unwrap()
    );
}

#[test]
fn byte_order_is_lexicographic() {
    assert_eq!(Comparison::Less, compare(b"", b"a"));
    assert_eq!(Comparison::Less, compare(b"a", b"ab"));
    assert_eq!(Comparison::Less, compare(b"ab", b"b"));
    assert_eq!(Comparison::Equal, compare(b"ab", b"ab"));
    assert_eq!(Comparison::Greater, compare(b"\xff", b"\x00\xff"));
    assert_eq!(Comparison::Less, compare(b"key2", b"key2\0"));
}

#[test]
fn positioning_at_the_boundaries() {
    let mut db = dup_db();
    db.put(b"k1", b"a", WriteFlags::empty()).unwrap();
    db.put(b"k1", b"b", WriteFlags::empty()).unwrap();
    db.put(b"k2", b"c", WriteFlags::empty()).unwrap();

    let mut cursor = db.open_ro_cursor().unwrap();

    // stepping past the last entry fails, and a step back lands on it again
    cursor.get(&db, None, None, CursorOp::Last).unwrap();
    assert_eq!(
        Err(Error::NotFound),
        cursor.get(&db, None, None, CursorOp::Next)
    );
    assert_eq!(
        (Some(b"k2".to_vec()), b"c".to_vec()),
        cursor.get(&db, None, None, CursorOp::Prev).unwrap()
    );

    // stepping before the first entry fails and keeps the position
    cursor.get(&db, None, None, CursorOp::First).unwrap();
    assert_eq!(
        Err(Error::NotFound),
        cursor.get(&db, None, None, CursorOp::Prev)
    );
    assert_eq!(
        (Some(b"k1".to_vec()), b"a".to_vec()),
        cursor.get(&db, None, None, CursorOp::GetCurrent).unwrap()
    );

    // a ranged seek that hits a stored key exactly lands on it
    assert_eq!(
        (Some(b"k2".to_vec()), b"c".to_vec()),
        cursor
            .get(&db, Some(&b"k2"[..]), None, CursorOp::SetRange)
            .unwrap()
    );

    // a ranged value seek beyond the key's last value reports NotFound
    assert_eq!(
        Err(Error::NotFound),
        cursor.get(&db, Some(&b"k1"[..]), Some(&b"z"[..]), CursorOp::GetBothRange)
    );
}
