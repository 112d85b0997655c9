//! The cursor and iterator behaviour tests.

use mdbx::Cursor;
use mdbx::CursorOp;
use mdbx::Database;
use mdbx::DatabaseFlags;
use mdbx::WriteFlags;

fn plain_db() -> Database {
    Database::new(1, None, DatabaseFlags::empty()).unwrap()
}

fn dup_db() -> Database {
    Database::new(
        1,
        None,
        DatabaseFlags {
            dup_sort: true,
            dup_fixed: false,
        },
    )
    .unwrap()
}

fn dupfixed_db() -> Database {
    Database::new(
        1,
        None,
        DatabaseFlags {
            dup_sort: true,
            dup_fixed: true,
        },
    )
    .unwrap()
}

#[test]
fn test_get() {
    let mut db = plain_db();

    db.put(b"key1", b"val1", WriteFlags::empty()).unwrap();
    db.put(b"key2", b"val2", WriteFlags::empty()).unwrap();
    db.put(b"key3", b"val3", WriteFlags::empty()).unwrap();

    let mut cursor = db.open_ro_cursor().unwrap();
    assert_eq!(
        (Some(b"key1".to_vec()), b"val1".to_vec()),
        cursor.get(&db, None, None, CursorOp::First).unwrap()
    );
    assert_eq!(
        (Some(b"key1".to_vec()), b"val1".to_vec()),
        cursor.get(&db, None, None, CursorOp::GetCurrent).unwrap()
    );
    assert_eq!(
        (Some(b"key2".to_vec()), b"val2".to_vec()),
        cursor.get(&db, None, None, CursorOp::Next).unwrap()
    );
    assert_eq!(
        (Some(b"key1".to_vec()), b"val1".to_vec()),
        cursor.get(&db, None, None, CursorOp::Prev).unwrap()
    );
    assert_eq!(
        (Some(b"key3".to_vec()), b"val3".to_vec()),
        cursor.get(&db, None, None, CursorOp::Last).unwrap()
    );
    assert_eq!(
        (None, b"val2".to_vec()),
        cursor
            .get(&db, Some(&b"key2"[..]), None, CursorOp::SetValue)
            .unwrap()
    );
    assert_eq!(
        (Some(b"key3".to_vec()), b"val3".to_vec()),
        cursor
            .get(&db, Some(&b"key3"[..]), None, CursorOp::SetKey)
            .unwrap()
    );
    assert_eq!(
        (Some(b"key3".to_vec()), b"val3".to_vec()),
        cursor
            .get(&db, Some(&b"key2\0"[..]), None, CursorOp::SetRange)
            .unwrap()
    );
}

#[test]
fn test_get_dup() {
    let mut db = dup_db();
    db.put(b"key1", b"val1", WriteFlags::empty()).unwrap();
    db.put(b"key1", b"val2", WriteFlags::empty()).unwrap();
    db.put(b"key1", b"val3", WriteFlags::empty()).unwrap();
    db.put(b"key2", b"val1", WriteFlags::empty()).unwrap();
    db.put(b"key2", b"val2", WriteFlags::empty()).unwrap();
    db.put(b"key2", b"val3", WriteFlags::empty()).unwrap();

    let mut cursor = db.open_ro_cursor().unwrap();
    assert_eq!(
        (Some(b"key1".to_vec()), b"val1".to_vec()),
        cursor.get(&db, None, None, CursorOp::First).unwrap()
    );
    assert_eq!(
        (None, b"val1".to_vec()),
        cursor.get(&db, None, None, CursorOp::FirstDup).unwrap()
    );
    assert_eq!(
        (Some(b"key1".to_vec()), b"val1".to_vec()),
        cursor.get(&db, None, None, CursorOp::GetCurrent).unwrap()
    );
    assert_eq!(
        (Some(b"key2".to_vec()), b"val1".to_vec()),
        cursor.get(&db, None, None, CursorOp::NextNoDup).unwrap()
    );
    assert_eq!(
        (Some(b"key2".to_vec()), b"val2".to_vec()),
        cursor.get(&db, None, None, CursorOp::NextDup).unwrap()
    );
    assert_eq!(
        (Some(b"key2".to_vec()), b"val3".to_vec()),
        cursor.get(&db, None, None, CursorOp::NextDup).unwrap()
    );
    assert!(cursor.get(&db, None, None, CursorOp::NextDup).is_err());
    assert_eq!(
        (Some(b"key2".to_vec()), b"val2".to_vec()),
        cursor.get(&db, None, None, CursorOp::PrevDup).unwrap()
    );
    assert_eq!(
        (None, b"val3".to_vec()),
        cursor.get(&db, None, None, CursorOp::LastDup).unwrap()
    );
    assert_eq!(
        (Some(b"key1".to_vec()), b"val3".to_vec()),
        cursor.get(&db, None, None, CursorOp::PrevNoDup).unwrap()
    );
    assert_eq!(
        (None, b"val1".to_vec()),
        cursor
            .get(&db, Some(&b"key1"[..]), None, CursorOp::SetValue)
            .unwrap()
    );
    assert_eq!(
        (Some(b"key2".to_vec()), b"val1".to_vec()),
        cursor
            .get(&db, Some(&b"key2"[..]), None, CursorOp::SetKey)
            .unwrap()
    );
    assert_eq!(
        (Some(b"key2".to_vec()), b"val1".to_vec()),
        cursor
            .get(&db, Some(&b"key1\0"[..]), None, CursorOp::SetRange)
            .unwrap()
    );
    assert_eq!(
        (None, b"val3".to_vec()),
        cursor
            .get(&db, Some(&b"key1"[..]), Some(&b"val3"[..]), CursorOp::GetBoth)
            .unwrap()
    );
    assert_eq!(
        (None, b"val1".to_vec()),
        cursor
            .get(
                &db,
                Some(&b"key2"[..]),
                Some(&b"val"[..]),
                CursorOp::GetBothRange
            )
            .unwrap()
    );
}

#[test]
fn test_get_dupfixed() {
    let mut db = dupfixed_db();
    db.put(b"key1", b"val1", WriteFlags::empty()).unwrap();
    db.put(b"key1", b"val2", WriteFlags::empty()).unwrap();
    db.put(b"key1", b"val3", WriteFlags::empty()).unwrap();
    db.put(b"key2", b"val4", WriteFlags::empty()).unwrap();
    db.put(b"key2", b"val5", WriteFlags::empty()).unwrap();
    db.put(b"key2", b"val6", WriteFlags::empty()).unwrap();

    let mut cursor = db.open_ro_cursor().unwrap();
    assert_eq!(
        (Some(b"key1".to_vec()), b"val1".to_vec()),
        cursor.get(&db, None, None, CursorOp::First).unwrap()
    );
    assert_eq!(
        (None, b"val1val2val3".to_vec()),
        cursor.get(&db, None, None, CursorOp::GetMultiple).unwrap()
    );
    assert!(cursor
        .get(&db, None, None, CursorOp::NextMultiple)
        .is_err());
}

#[test]
fn test_iter() {
    let items: Vec<(Vec<u8>, Vec<u8>)> = vec![
        (b"key1".to_vec(), b"val1".to_vec()),
        (b"key2".to_vec(), b"val2".to_vec()),
        (b"key3".to_vec(), b"val3".to_vec()),
        (b"key5".to_vec(), b"val5".to_vec()),
    ];

    let mut db = plain_db();
    for (key, data) in &items {
        db.put(key, data, WriteFlags::empty()).unwrap();
    }

    let mut cursor = db.open_ro_cursor().unwrap();

    assert_eq!(items, cursor.iter().collect_all(&db).unwrap());

    let retr = cursor.iter_start().collect_all(&db);
    assert_eq!(items, retr.unwrap());

    cursor
        .get(&db, Some(&b"key2"[..]), None, CursorOp::SetValue)
        .unwrap();
    assert_eq!(
        items.clone().into_iter().skip(2).collect::<Vec<_>>(),
        cursor.iter().collect_all(&db).unwrap()
    );

    assert_eq!(items, cursor.iter_start().collect_all(&db).unwrap());

    assert_eq!(
        items.clone().into_iter().skip(1).collect::<Vec<_>>(),
        cursor.iter_from(&db, b"key2").collect_all(&db).unwrap()
    );

    assert_eq!(
        items.clone().into_iter().skip(3).collect::<Vec<_>>(),
        cursor.iter_from(&db, b"key4").collect_all(&db).unwrap()
    );

    assert_eq!(
        Vec::<(Vec<u8>, Vec<u8>)>::new(),
        cursor.iter_from(&db, b"key6").collect_all(&db).unwrap()
    );
}

#[test]
fn test_iter_empty_database() {
    let db = plain_db();
    let mut cursor = db.open_ro_cursor().unwrap();

    assert_eq!(None, cursor.iter().next(&db));
    assert_eq!(None, cursor.iter_start().next(&db));
    assert_eq!(None, cursor.iter_from(&db, b"foo").next(&db));
}

#[test]
fn test_iter_empty_dup_database() {
    let db = dup_db();
    let mut cursor = db.open_ro_cursor().unwrap();

    assert_eq!(None, cursor.iter().next(&db));
    assert_eq!(None, cursor.iter_start().next(&db));
    assert_eq!(None, cursor.iter_from(&db, b"foo").next(&db));
    assert_eq!(None, cursor.iter_from(&db, b"foo").next(&db));
    assert_eq!(
        Vec::<(Vec<u8>, Vec<u8>)>::new(),
        cursor.iter_dup().collect_flat(&db).unwrap()
    );
    assert_eq!(
        Vec::<(Vec<u8>, Vec<u8>)>::new(),
        cursor.iter_dup_start().collect_flat(&db).unwrap()
    );
    assert_eq!(
        Vec::<(Vec<u8>, Vec<u8>)>::new(),
        cursor.iter_dup_from(&db, b"foo").collect_flat(&db).unwrap()
    );
    assert_eq!(None, cursor.iter_dup_of(&db, b"foo").next(&db));
}

#[test]
fn test_iter_dup() {
    let mut db = dup_db();

    let items: Vec<(Vec<u8>, Vec<u8>)> = vec![
        (b"a".to_vec(), b"1".to_vec()),
        (b"a".to_vec(), b"2".to_vec()),
        (b"a".to_vec(), b"3".to_vec()),
        (b"b".to_vec(), b"1".to_vec()),
        (b"b".to_vec(), b"2".to_vec()),
        (b"b".to_vec(), b"3".to_vec()),
        (b"c".to_vec(), b"1".to_vec()),
        (b"c".to_vec(), b"2".to_vec()),
        (b"c".to_vec(), b"3".to_vec()),
        (b"e".to_vec(), b"1".to_vec()),
        (b"e".to_vec(), b"2".to_vec()),
        (b"e".to_vec(), b"3".to_vec()),
    ];

    for (key, data) in &items {
        db.put(key, data, WriteFlags::empty()).unwrap();
    }

    let mut cursor = db.open_ro_cursor().unwrap();
    assert_eq!(items, cursor.iter_dup().collect_flat(&db).unwrap());

    cursor
        .get(&db, Some(&b"b"[..]), None, CursorOp::SetValue)
        .unwrap();
    assert_eq!(
        items.clone().into_iter().skip(4).collect::<Vec<_>>(),
        cursor.iter_dup().collect_flat(&db).unwrap()
    );

    assert_eq!(items, cursor.iter_dup_start().collect_flat(&db).unwrap());

    assert_eq!(
        items.clone().into_iter().skip(3).collect::<Vec<_>>(),
        cursor.iter_dup_from(&db, b"b").collect_flat(&db).unwrap()
    );

    assert_eq!(
        items.clone().into_iter().skip(3).collect::<Vec<_>>(),
        cursor.iter_dup_from(&db, b"ab").collect_flat(&db).unwrap()
    );

    assert_eq!(
        items.clone().into_iter().skip(9).collect::<Vec<_>>(),
        cursor.iter_dup_from(&db, b"d").collect_flat(&db).unwrap()
    );

    assert_eq!(
        Vec::<(Vec<u8>, Vec<u8>)>::new(),
        cursor.iter_dup_from(&db, b"f").collect_flat(&db).unwrap()
    );

    assert_eq!(
        items
            .clone()
            .into_iter()
            .skip(3)
            .take(3)
            .collect::<Vec<_>>(),
        cursor.iter_dup_of(&db, b"b").collect_all(&db).unwrap()
    );

    assert_eq!(0, cursor.iter_dup_of(&db, b"foo").collect_all(&db).unwrap().len());
}

#[test]
fn test_iter_del_get() {
    let mut db = dup_db();

    let items: Vec<(Vec<u8>, Vec<u8>)> = vec![
        (b"a".to_vec(), b"1".to_vec()),
        (b"b".to_vec(), b"2".to_vec()),
    ];
    let r: Vec<(Vec<u8>, Vec<u8>)> = Vec::new();

    assert_eq!(
        r,
        db.open_ro_cursor()
            .unwrap()
            .iter_dup_of(&db, b"a")
            .collect_all(&db)
            .unwrap()
    );

    for (key, data) in &items {
        db.put(key, data, WriteFlags::empty()).unwrap();
    }

    let mut cursor = db.open_rw_cursor().unwrap();
    assert_eq!(items, cursor.iter_dup().collect_flat(&db).unwrap());

    assert_eq!(
        items.clone().into_iter().take(1).collect::<Vec<_>>(),
        cursor.iter_dup_of(&db, b"a").collect_all(&db).unwrap()
    );

    assert_eq!(
        (None, b"1".to_vec()),
        cursor
            .get(&db, Some(&b"a"[..]), Some(&b"1"[..]), CursorOp::SetValue)
            .unwrap()
    );

    cursor.del(&mut db, WriteFlags::empty()).unwrap();

    assert_eq!(r, cursor.iter_dup_of(&db, b"a").collect_all(&db).unwrap());
}

#[test]
fn test_put_del() {
    let mut db = plain_db();
    let mut cursor = db.open_rw_cursor().unwrap();

    cursor
        .put(&mut db, b"key1", b"val1", WriteFlags::empty())
        .unwrap();
    cursor
        .put(&mut db, b"key2", b"val2", WriteFlags::empty())
        .unwrap();
    cursor
        .put(&mut db, b"key3", b"val3", WriteFlags::empty())
        .unwrap();

    assert_eq!(
        (Some(b"key3".to_vec()), b"val3".to_vec()),
        cursor.get(&db, None, None, CursorOp::GetCurrent).unwrap()
    );

    cursor.del(&mut db, WriteFlags::empty()).unwrap();
    assert_eq!(
        (Some(b"key2".to_vec()), b"val2".to_vec()),
        cursor.get(&db, None, None, CursorOp::Last).unwrap()
    );
}
