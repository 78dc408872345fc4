use redb::backends::InMemoryBackend;
use typed_table::table::Error;
use typed_table::traits::{Readable, Writeable};
use typed_table::tx::Database;

fn fresh() -> Database {
    let raw = redb::Database::builder()
        .create_with_backend(InMemoryBackend::new())
        .expect("in-memory store");
    Database(raw)
}

fn text(s: &str) -> String {
    String::from(s)
}

fn ok<T>(r: Result<T, Error>) -> T {
    match r {
        Ok(v) => v,
        Err(_) => panic!("operation failed"),
    }
}

fn filled(db: &Database, name: &str, items: &[(&str, u64)]) {
    let w = db.begin_write().unwrap();
    {
        let mut t = w.open_table::<String, u64>(name).unwrap();
        for (k, v) in items {
            t.insert(&text(k), v).unwrap();
        }
    }
    w.commit().unwrap();
}

#[test]
fn empty_table_get_many_is_empty() {
    let db = fresh();
    filled(&db, "t", &[]);
    let r = db.begin_read().unwrap();
    let t = r.open_table::<String, u64>("t").unwrap();
    assert_eq!(ok(t.get_many(None, None)), vec![]);
}

#[test]
fn insert_commit_get_remove_scenario() {
    let db = fresh();
    let something = (13u64, text("bar"));
    let w = db.begin_write().unwrap();
    {
        let mut t = w.open_table::<String, (u64, String)>("test_table").unwrap();
        let prev = t.insert(&text("foo"), &something).unwrap();
        assert!(prev.is_none());
    }
    w.commit().unwrap();

    let r = db.begin_read().unwrap();
    {
        let mut t = r.open_table::<String, (u64, String)>("test_table").unwrap();
        let g = t.get(&text("foo")).unwrap().expect("some");
        assert_eq!(g.value().unwrap(), (13u64, text("bar")));
        assert_eq!(g.value().unwrap(), (13u64, text("bar")));
    }

    let w = db.begin_write().unwrap();
    {
        let mut t = w.open_table::<String, (u64, String)>("test_table").unwrap();
        let prev = t.remove(&text("foo")).unwrap().map(|g| g.value().unwrap());
        assert_eq!(prev, Some((13u64, text("bar"))));
        assert!(t.get(&text("foo")).unwrap().is_none());
    }
    w.commit().unwrap();
}

#[test]
fn insert_then_get_round_trips() {
    let db = fresh();
    let w = db.begin_write().unwrap();
    let mut t = w.open_table::<u64, String>("t").unwrap();
    assert!(t.insert(&7, &text("seven")).unwrap().is_none());
    assert!(t.insert(&300, &text("")).unwrap().is_none());
    assert_eq!(t.get(&7).unwrap().expect("present").value().unwrap(), "seven");
    assert_eq!(t.get(&300).unwrap().expect("present").value().unwrap(), "");
    assert!(t.get(&8).unwrap().is_none());
}

#[test]
fn second_insert_returns_first_value() {
    let db = fresh();
    let w = db.begin_write().unwrap();
    let mut t = w.open_table::<String, u64>("t").unwrap();
    assert!(t.insert(&text("k"), &1).unwrap().is_none());
    let prev = t.insert(&text("k"), &2).unwrap().expect("previous");
    assert_eq!(prev.value().unwrap(), 1);
    assert_eq!(t.get(&text("k")).unwrap().expect("present").value().unwrap(), 2);
}

#[test]
fn remove_present_and_absent() {
    let db = fresh();
    let w = db.begin_write().unwrap();
    let mut t = w.open_table::<String, u64>("t").unwrap();
    t.insert(&text("a"), &1).unwrap();
    t.insert(&text("b"), &2).unwrap();
    assert!(t.remove(&text("zz")).unwrap().is_none());
    assert_eq!(t.get(&text("a")).unwrap().expect("kept").value().unwrap(), 1);
    assert_eq!(t.get(&text("b")).unwrap().expect("kept").value().unwrap(), 2);
    assert_eq!(t.remove(&text("a")).unwrap().expect("removed").value().unwrap(), 1);
    assert!(t.get(&text("a")).unwrap().is_none());
    assert!(t.remove(&text("a")).unwrap().is_none());
    assert_eq!(t.get(&text("b")).unwrap().expect("kept").value().unwrap(), 2);
}

#[test]
fn get_many_walks_in_order_of_encoded_keys() {
    let db = fresh();
    filled(&db, "t", &[("b", 2), ("aa", 11), ("c", 3), ("a", 1)]);
    let r = db.begin_read().unwrap();
    let t = r.open_table::<String, u64>("t").unwrap();
    // The length prefix comes first in the encoding, so the one-byte keys
    // precede the two-byte key.
    assert_eq!(
        ok(t.get_many(Some(0), Some(4))),
        vec![(text("a"), 1), (text("b"), 2), (text("c"), 3), (text("aa"), 11)]
    );
}

#[test]
fn get_many_integer_keys_ascend() {
    let db = fresh();
    let w = db.begin_write().unwrap();
    {
        let mut t = w.open_table::<u64, u64>("n").unwrap();
        for k in [5u64, 1, 200, 3] {
            t.insert(&k, &(k * 10)).unwrap();
        }
    }
    w.commit().unwrap();
    let got = ok(<u64 as Readable<u64, u64>>::get_many(&db, "n", None, None));
    assert_eq!(got, vec![(1, 10), (3, 30), (5, 50), (200, 2000)]);
}

#[test]
fn get_many_bounds_are_positions() {
    let db = fresh();
    filled(&db, "t", &[("a", 0), ("b", 1), ("c", 2), ("d", 3), ("e", 4)]);
    let r = db.begin_read().unwrap();
    let t = r.open_table::<String, u64>("t").unwrap();
    assert_eq!(ok(t.get_many(Some(1), Some(3))), vec![(text("b"), 1), (text("c"), 2)]);
    assert_eq!(ok(t.get_many(Some(3), Some(10))), vec![(text("d"), 3), (text("e"), 4)]);
    assert_eq!(ok(t.get_many(None, Some(2))), vec![(text("a"), 0), (text("b"), 1)]);
    assert_eq!(ok(t.get_many(Some(4), None)), vec![(text("e"), 4)]);
    assert_eq!(ok(t.get_many(Some(5), None)), vec![]);
    assert_eq!(ok(t.get_many(Some(7), Some(9))), vec![]);
    assert_eq!(ok(t.get_many(Some(3), Some(1))), vec![]);
    assert_eq!(ok(t.get_many(Some(0), Some(0))), vec![]);
    assert_eq!(ok(t.get_many(None, None)).len(), 5);
}

#[test]
fn get_many_where_filters_inside_the_window() {
    let db = fresh();
    filled(&db, "t", &[("a", 0), ("b", 1), ("c", 2), ("d", 3), ("e", 4)]);
    let r = db.begin_read().unwrap();
    let t = r.open_table::<String, u64>("t").unwrap();
    let even = |kv: (&String, &u64)| *kv.1 % 2 == 0;
    assert_eq!(
        ok(t.get_many_where(None, None, even)),
        vec![(text("a"), 0), (text("c"), 2), (text("e"), 4)]
    );
    assert_eq!(ok(t.get_many_where(Some(1), Some(4), even)), vec![(text("c"), 2)]);
    assert_eq!(ok(t.get_many_where(Some(1), Some(2), even)), vec![]);
    let by_key = |kv: (&String, &u64)| kv.0.as_str() > "c";
    assert_eq!(
        ok(<u64 as Readable<String, u64>>::get_many_where(&db, "t", None, None, by_key)),
        vec![(text("d"), 3), (text("e"), 4)]
    );
}

#[test]
fn remove_where_takes_exactly_the_selected() {
    let db = fresh();
    filled(&db, "t", &[("a", 0), ("b", 1), ("c", 2), ("d", 3), ("e", 4)]);
    let w = db.begin_write().unwrap();
    {
        let mut t = w.open_table::<String, u64>("t").unwrap();
        let removed = t.remove_where(|kv: (String, u64)| kv.1 % 2 == 1).unwrap();
        assert_eq!(removed, vec![Some((text("b"), 1)), Some((text("d"), 3))]);
        assert!(t.get(&text("b")).unwrap().is_none());
        assert!(t.get(&text("d")).unwrap().is_none());
        assert_eq!(t.get(&text("a")).unwrap().expect("kept").value().unwrap(), 0);
        let none = t.remove_where(|_kv: (String, u64)| false).unwrap();
        assert_eq!(none, vec![]);
    }
    w.commit().unwrap();
    let r = db.begin_read().unwrap();
    let t = r.open_table::<String, u64>("t").unwrap();
    assert_eq!(
        ok(t.get_many(None, None)),
        vec![(text("a"), 0), (text("c"), 2), (text("e"), 4)]
    );
}

#[test]
fn undecodable_entries_fail_reads_and_survive_extraction() {
    let db = fresh();
    filled(&db, "t", &[("a", 13)]);
    let w = db.begin_write().unwrap();
    {
        // The stored byte 13 reads as a string length with nothing behind it.
        let mut t = w.open_table::<String, String>("t").unwrap();
        let g = t.get(&text("a")).unwrap().expect("present");
        assert!(g.value().is_err());
        assert!(g.value().is_err());
        let removed = t.remove_where(|_kv: (String, String)| true).unwrap();
        assert_eq!(removed, vec![]);
        assert!(t.get(&text("a")).unwrap().is_some());
    }
    w.commit().unwrap();
    let r = db.begin_read().unwrap();
    let t = r.open_table::<String, String>("t").unwrap();
    assert!(matches!(t.get_many(None, None), Err(Error::Decode(_))));
    assert!(matches!(t.get_many(Some(1), None), Err(Error::Decode(_))));
    assert!(matches!(t.get_many(None, Some(0)), Ok(ref v) if v.is_empty()));
    assert!(matches!(
        t.get_many_where(None, None, |_kv: (&String, &String)| true),
        Err(Error::Decode(_))
    ));
}

#[test]
fn earlier_snapshot_does_not_see_later_commit() {
    let db = fresh();
    filled(&db, "t", &[]);
    let before = db.begin_read().unwrap();
    filled(&db, "t", &[("k", 1)]);
    let mut old = before.open_table::<String, u64>("t").unwrap();
    assert!(old.get(&text("k")).unwrap().is_none());
    assert_eq!(ok(old.get_many(None, None)), vec![]);
    let after = db.begin_read().unwrap();
    let mut new = after.open_table::<String, u64>("t").unwrap();
    assert_eq!(new.get(&text("k")).unwrap().expect("seen").value().unwrap(), 1);
}

#[test]
fn uncommitted_write_is_void() {
    let db = fresh();
    filled(&db, "t", &[]);
    {
        let w = db.begin_write().unwrap();
        let mut t = w.open_table::<String, u64>("t").unwrap();
        t.insert(&text("k"), &1).unwrap();
        assert!(t.get(&text("k")).unwrap().is_some());
    }
    let r = db.begin_read().unwrap();
    let mut t = r.open_table::<String, u64>("t").unwrap();
    assert!(t.get(&text("k")).unwrap().is_none());
}

#[test]
fn missing_table_is_a_table_error() {
    let db = fresh();
    filled(&db, "t", &[]);
    let r = db.begin_read().unwrap();
    assert!(r.open_table::<String, u64>("absent").is_err());
    assert!(matches!(
        <u64 as Readable<String, u64>>::get(&db, "absent", &text("k")),
        Err(Error::Table(_))
    ));
}

#[test]
fn one_call_insert_get_extract() {
    let db = fresh();
    ok(<u64 as Writeable<String, u64>>::insert(&41, &db, "t", &text("x")));
    ok(<u64 as Writeable<String, u64>>::insert(&42, &db, "t", &text("y")));
    assert_eq!(ok(<u64 as Readable<String, u64>>::get(&db, "t", &text("x"))), Some(41));
    assert_eq!(ok(<u64 as Readable<String, u64>>::get(&db, "t", &text("q"))), None);
    assert_eq!(ok(<u64 as Writeable<String, u64>>::extract(&db, "t", &text("x"))), Some(41));
    assert_eq!(ok(<u64 as Writeable<String, u64>>::extract(&db, "t", &text("x"))), None);
    let taken = ok(<u64 as Writeable<String, u64>>::extract_many_where(
        &db,
        "t",
        |kv: (String, u64)| kv.1 == 42,
    ));
    assert_eq!(taken, vec![Some((text("y"), 42))]);
    assert_eq!(ok(<u64 as Readable<String, u64>>::get_many(&db, "t", None, None)), vec![]);
    assert!(matches!(
        <String as Readable<String, String>>::get(&db, "t", &text("y")),
        Ok(None)
    ));
}

#[test]
fn one_call_get_reports_decode_failure() {
    let db = fresh();
    ok(<u64 as Writeable<String, u64>>::insert(&13, &db, "t", &text("x")));
    assert!(matches!(
        <String as Readable<String, String>>::get(&db, "t", &text("x")),
        Err(Error::Decode(_))
    ));
    assert!(matches!(
        <String as Writeable<String, String>>::extract(&db, "t", &text("x")),
        Err(Error::Decode(_))
    ));
    // The failed extraction was not committed.
    assert_eq!(ok(<u64 as Readable<String, u64>>::get(&db, "t", &text("x"))), Some(13));
}

#[test]
fn stats_are_reported() {
    let db = fresh();
    filled(&db, "t", &[("a", 1)]);
    let r = db.begin_read().unwrap();
    let t = r.open_table::<String, u64>("t").unwrap();
    assert!(t.stats().unwrap().tree_height() >= 1);
}

#[test]
fn one_snapshot_opens_the_same_table_twice() {
    let db = fresh();
    filled(&db, "t", &[("a", 1), ("b", 2)]);
    let r = db.begin_read().unwrap();
    let first = r.open_table::<String, u64>("t").unwrap();
    filled(&db, "t", &[("c", 3)]);
    let second = r.open_table::<String, u64>("t").unwrap();
    let expected = vec![(text("a"), 1), (text("b"), 2)];
    assert_eq!(ok(first.get_many(None, None)), expected);
    assert_eq!(ok(second.get_many(None, None)), expected);
}

#[test]
fn get_many_with_end_zero_reads_nothing() {
    let db = fresh();
    filled(&db, "t", &[("a", 1)]);
    let r = db.begin_read().unwrap();
    let t = r.open_table::<String, u64>("t").unwrap();
    assert_eq!(ok(t.get_many(None, Some(0))), vec![]);
    assert_eq!(ok(t.get_many(Some(0), Some(0))), vec![]);
}

#[test]
fn one_call_insert_never_needs_decoding() {
    let db = fresh();
    ok(<u64 as Writeable<String, u64>>::insert(&13, &db, "t", &text("x")));
    // The stored byte does not decode as a string, yet a write over it
    // succeeds: writes decode nothing.
    ok(<String as Writeable<String, String>>::insert(&text("v"), &db, "t", &text("x")));
    assert_eq!(
        ok(<String as Readable<String, String>>::get(&db, "t", &text("x"))),
        Some(text("v"))
    );
}
