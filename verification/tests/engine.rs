use unqlite::{Config, Cursor, Direction, Error, ErrorKind, Transaction, UnQLite, Util, KV};

#[test]
fn create_temp() {
    let _ = UnQLite::create_temp();
}

#[test]
fn create_in_memory() {
    let _ = UnQLite::create_in_memory();
}

#[test]
fn from_readonly_memory() {
    let _ = UnQLite::open_readonly(":mem:");
}

#[test]
fn open() {
    let _ = UnQLite::create_temp();
    let _ = UnQLite::create_in_memory();
    let _ = UnQLite::open_readonly(":mem:");
}

#[test]
fn transaction() {
    let mut uq = UnQLite::create_temp().disable_auto_commit();
    uq.begin().expect("begin");
    uq.commit().expect("commit");
    uq.rollback().expect("rollback");
}

#[test]
fn max_page_cache() {
    let unqlite = UnQLite::create_temp().max_page_cache(512000000);
    let kv_name = unqlite.kv_name();
    assert_eq!(kv_name, String::from("mem"));
    assert_eq!(unqlite.err_log(), None);
}

#[test]
fn disable_auto_commit() {
    let _ = UnQLite::create_temp().max_page_cache(4096u32).disable_auto_commit();
}

#[test]
fn test_kv_store() {
    let mut unqlite = UnQLite::create_temp();
    let _ = unqlite.kv_store(b"abc", b"123").unwrap();
    let vec = [1u8, 2u8, 3u8];
    let _ = unqlite.kv_store(&vec, b"123").unwrap();
    let _ = unqlite.kv_store(&[4, 5, 6], "哈哈".as_bytes()).unwrap();

    let value = unqlite.kv_fetch_length(b"abc");
    assert!(value.is_ok());
    assert!(value.unwrap() == 3);
    assert!(unqlite.kv_contains(&[1, 2, 3]));

    let value = unqlite.kv_fetch(&[1, 2, 3]).unwrap();
    assert!(value.len() == 3);
    assert_eq!(value, [49, 50, 51]);

    let value = unqlite.kv_fetch(&[4, 5, 6]).unwrap();
    assert_eq!(String::from_utf8(value).unwrap(), String::from("哈哈"));

    unqlite.kv_delete(b"abc").unwrap();
    assert!(!unqlite.kv_contains(b"abc"));

    unqlite.kv_append(&vec, b"456").unwrap();
    assert!(unqlite.kv_fetch_length(&vec).unwrap() == 6);
}

#[test]
#[should_panic]
fn panic_kv_fetch_not_found() {
    let unqlite = UnQLite::create_in_memory();
    unqlite.kv_fetch(&[4, 5, 6]).unwrap();
}

#[test]
fn test_kv_cursor() {
    let mut unqlite = UnQLite::create_in_memory();
    unqlite.kv_store(b"abc", b"1").unwrap();
    unqlite.kv_store(b"cde", b"3").unwrap();
    unqlite.kv_store(b"bcd", b"2").unwrap();

    let entry = unqlite.first().unwrap();
    assert_eq!(String::from_utf8(entry.key()).unwrap(), "abc".to_string());
    assert_eq!(String::from_utf8(entry.value()).unwrap(), "1".to_string());
    let kv = entry.key_value();
    assert_eq!(
        (String::from_utf8(kv.0).unwrap(), String::from_utf8(kv.1).unwrap()),
        ("abc".to_string(), "1".to_string())
    );
    let entry = entry.next().unwrap();
    assert_eq!(String::from_utf8(entry.key()).unwrap(), "cde".to_string());
    assert_eq!(String::from_utf8(entry.value()).unwrap(), "3".to_string());
    let kv = entry.key_value();
    assert_eq!(
        (String::from_utf8(kv.0).unwrap(), String::from_utf8(kv.1).unwrap()),
        ("cde".to_string(), "3".to_string())
    );
    let entry = entry.next().unwrap();
    assert_eq!(String::from_utf8(entry.key()).unwrap(), "bcd".to_string());
    assert_eq!(String::from_utf8(entry.value()).unwrap(), "2".to_string());
    let kv = entry.key_value();
    assert_eq!(
        (String::from_utf8(kv.0).unwrap(), String::from_utf8(kv.1).unwrap()),
        ("bcd".to_string(), "2".to_string())
    );
    let entry = entry.next(); // Now reach the end
    assert!(entry.is_none());

    let mut entry = unqlite.last();
    loop {
        if entry.is_none() {
            break;
        }

        let current = entry.expect("valid entry");
        println!("{:?}", current.key_value());
        entry = current.prev();
    }
}

#[test]
fn cursor_seek_directions() {
    let mut db = UnQLite::create_in_memory();
    db.kv_store(b"b", b"1").unwrap();
    db.kv_store(b"d", b"2").unwrap();

    let hit = db.seek(b"b", Direction::Exact).unwrap();
    assert_eq!(hit.key(), b"b".to_vec());
    assert!(db.seek(b"c", Direction::Exact).is_none());

    let below = db.seek(b"c", Direction::Le).unwrap();
    assert_eq!(below.key(), b"b".to_vec());
    let above = db.seek(b"c", Direction::Ge).unwrap();
    assert_eq!(above.key(), b"d".to_vec());

    // a present key is not its own neighbour: both sides are strict
    let below = db.seek(b"d", Direction::Le).unwrap();
    assert_eq!(below.key(), b"b".to_vec());
    let above = db.seek(b"b", Direction::Ge).unwrap();
    assert_eq!(above.key(), b"d".to_vec());
    assert!(db.seek(b"b", Direction::Le).is_none());
    assert!(db.seek(b"d", Direction::Ge).is_none());

    assert!(db.seek(b"a", Direction::Le).is_none());
    assert!(db.seek(b"e", Direction::Ge).is_none());
}

#[test]
fn cursor_delete_removes_record() {
    let mut db = UnQLite::create_in_memory();
    db.kv_store(b"a", b"1").unwrap();
    db.kv_store(b"b", b"22").unwrap();
    db.kv_store(b"c", b"3").unwrap();

    let entry = db.first().unwrap();
    let entry = entry.delete(&mut db).expect("entry after the deleted one");
    assert_eq!(entry.key(), b"b".to_vec());
    // the record is gone from the handle too
    assert!(!db.kv_contains(b"a"));
    assert!(db.kv_contains(b"b"));

    // deleting the last remaining entry yields no successor
    let last = db.last().unwrap();
    assert!(last.delete(&mut db).is_none());
    assert!(!db.kv_contains(b"c"));
}

#[test]
fn rollback_restores_records() {
    let mut db = UnQLite::create_temp();
    db.kv_store(b"keep", b"1").unwrap();
    db.commit().unwrap();
    db.kv_store(b"drop_me", b"2").unwrap();
    assert!(db.kv_contains(b"drop_me"));
    db.rollback().unwrap();
    assert!(!db.kv_contains(b"drop_me"));
    assert!(db.kv_contains(b"keep"));
}

#[test]
fn read_only_rejects_writes() {
    let mut db = UnQLite::open_readonly("fixed.db");
    let r = db.kv_store(b"k", b"v");
    match r {
        Err(Error::Custom(c)) => {
            assert_eq!(c.kind, ErrorKind::READ_ONLY);
            assert_eq!(c.raw, -75);
        }
        _ => panic!("a read-only handle must reject stores"),
    }
}

#[test]
fn kv_fetch_not_found_classified() {
    let db = UnQLite::create_in_memory();
    match db.kv_fetch(b"missing") {
        Err(Error::Custom(c)) => {
            assert_eq!(c.kind, ErrorKind::NOTFOUND);
            assert_eq!(c.raw, -6);
            assert_eq!(c.error(), "No such record");
        }
        _ => panic!("a missing record must report NOTFOUND"),
    }
}

#[test]
fn store_overwrites_append_extends() {
    let mut db = UnQLite::create_in_memory();
    db.kv_store(b"k", b"one").unwrap();
    db.kv_store(b"k", b"two").unwrap();
    assert_eq!(db.kv_fetch(b"k").unwrap(), b"two".to_vec());
    db.kv_append(b"k", b"-more").unwrap();
    assert_eq!(db.kv_fetch(b"k").unwrap(), b"two-more".to_vec());
}

#[test]
fn test_random_string() {
    let mut unqlite = UnQLite::create_in_memory();
    let _ = unqlite.random_string(32);
}

#[test]
fn test_random_num() {
    let mut db = UnQLite::create_in_memory();
    let _ = db.random_num();
}

#[test]
fn random_string_is_lowercase() {
    let mut db = UnQLite::create_in_memory();
    let s = db.random_string(32);
    assert_eq!(s.len(), 32);
    assert!(s.iter().all(|b| (97..=122).contains(b)));
}

#[test]
fn disk_handle_uses_hash_engine() {
    let db = UnQLite::create("data.base");
    assert_eq!(db.kv_name(), String::from("hash"));
    assert_eq!(db.jx9_err_log(), None);
}

#[test]
fn error_code_classification() {
    assert!(unqlite::Custom::from_raw(0).is_ok());
    match unqlite::Custom::from_raw(-70) {
        Err(Error::Custom(c)) => {
            assert_eq!(c.kind, ErrorKind::COMPILE_ERR);
            assert_eq!(c.error(), "Compilation error");
        }
        _ => panic!("a non-zero code must classify as a failure"),
    }
    match unqlite::Custom::from_raw(-9999) {
        Err(Error::Custom(c)) => assert_eq!(c.kind, ErrorKind::__Nonexhaustive),
        _ => panic!("an unknown code must classify as a failure"),
    }
}

#[test]
fn open_mode_flags() {
    assert_eq!(unqlite::OpenMode::ReadOnly.flags(), 1);
    assert_eq!(unqlite::OpenMode::Create.flags(), 4);
    assert_eq!(unqlite::OpenMode::TempDB.flags(), 16);
    assert_eq!(unqlite::OpenMode::MMap.flags(), 257);
    let _ = unqlite::UnQLite::open_mmap("fixed.db");
}
