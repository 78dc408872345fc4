use std::cmp::Ordering;
use typed_table::codec::Codec;
use typed_table::scratch::ScratchPool;
use typed_table::sort::{first_difference, Lexicographical};
use typed_table::table::{decode_removed, guard_result, AccessGuard, Error};
use typed_table::traits::{committed, decoded_lookup};
use typed_table::tx::{cache_bytes, DEFAULT_CACHE_BYTES};
use typed_table::window::{decode_entries, decode_entries_where, decode_pair};

fn enc<T: Codec>(v: &T) -> Vec<u8> {
    let mut buf = Vec::new();
    let n = v.encode_into(&mut buf);
    assert_eq!(n, buf.len());
    buf
}

fn raw(items: &[(&str, u64)]) -> Vec<(Vec<u8>, Vec<u8>)> {
    items.iter().map(|(k, v)| (enc(&String::from(*k)), enc(v))).collect()
}

#[test]
fn integer_encoding_is_variable_length_big_endian() {
    assert_eq!(enc(&5u64), vec![5]);
    assert_eq!(enc(&250u64), vec![250]);
    assert_eq!(enc(&300u64), vec![251, 1, 44]);
    assert_eq!(enc(&65536u64), vec![252, 0, 1, 0, 0]);
}

#[test]
fn string_encoding_is_length_then_bytes() {
    assert_eq!(enc(&String::from("foo")), vec![3, 102, 111, 111]);
    assert_eq!(enc(&String::new()), vec![0]);
}

#[test]
fn record_encoding_is_field_after_field() {
    assert_eq!(enc(&(13u64, String::from("bar"))), vec![13, 3, 98, 97, 114]);
}

#[test]
fn encode_appends_and_returns_the_count() {
    let mut buf = vec![9u8, 9];
    let n = 300u64.encode_into(&mut buf);
    assert_eq!(n, 3);
    assert_eq!(buf, vec![9, 9, 251, 1, 44]);
    let n = String::from("ab").encode_into(&mut buf);
    assert_eq!(n, 3);
    assert_eq!(buf, vec![9, 9, 251, 1, 44, 2, 97, 98]);
    let n = (1u64, String::from("z")).encode_into(&mut buf);
    assert_eq!(n, 3);
    assert_eq!(&buf[8..], &[1, 1, 122]);
}

#[test]
fn decode_reads_back_and_rejects() {
    assert_eq!(u64::decode_from(&[251, 1, 44]).unwrap(), 300);
    assert_eq!(String::decode_from(&[3, 102, 111, 111]).unwrap(), "foo");
    assert_eq!(
        <(u64, String)>::decode_from(&[13, 3, 98, 97, 114]).unwrap(),
        (13, String::from("bar"))
    );
    assert!(u64::decode_from(&[]).is_err());
    assert!(u64::decode_from(&[251, 1]).is_err());
    assert!(String::decode_from(&[3, 102]).is_err());
    assert!(String::decode_from(&[2, 255, 255]).is_err());
    assert!(<(u64, String)>::decode_from(&[13]).is_err());
}

#[test]
fn guard_decodes_on_demand_and_repeatedly() {
    let g: AccessGuard<u64> = AccessGuard::from(vec![251, 1, 44]);
    assert_eq!(g.value().unwrap(), 300);
    assert_eq!(g.value().unwrap(), 300);
    let bad: AccessGuard<String> = AccessGuard::from(vec![13]);
    assert!(bad.value().is_err());
    assert!(bad.value().is_err());
}

#[test]
fn compare_is_byte_lexicographic() {
    assert_eq!(Lexicographical::compare(b"a", b"b"), Ordering::Less);
    assert_eq!(Lexicographical::compare(b"b", b"a"), Ordering::Greater);
    assert_eq!(Lexicographical::compare(b"ab", b"ab"), Ordering::Equal);
    assert_eq!(Lexicographical::compare(b"", b""), Ordering::Equal);
    assert_eq!(Lexicographical::compare(b"", b"a"), Ordering::Less);
    assert_eq!(Lexicographical::compare(b"ab", b"a"), Ordering::Greater);
    assert_eq!(Lexicographical::compare(b"a", b"ab"), Ordering::Less);
    assert_eq!(Lexicographical::compare(&[1, 255], &[2, 0]), Ordering::Less);
    assert_eq!(Lexicographical::compare(&[200], &[100, 7]), Ordering::Greater);
}

#[test]
fn compare_agrees_with_slice_order() {
    let samples: [&[u8]; 6] = [b"", b"a", b"aa", b"ab", b"b", &[255, 0]];
    for a in samples {
        for b in samples {
            assert_eq!(Lexicographical::compare(a, b), a.cmp(b));
        }
    }
}

#[test]
fn first_difference_positions() {
    assert_eq!(first_difference(b"abc", b"abd"), 2);
    assert_eq!(first_difference(b"abc", b"abc"), 3);
    assert_eq!(first_difference(b"ab", b"abc"), 2);
    assert_eq!(first_difference(b"", b"abc"), 0);
    assert_eq!(first_difference(b"x", b"y"), 0);
}

#[test]
fn scratch_buffers_are_independent_and_cleared() {
    let mut pool = ScratchPool::new();
    let n = pool.encode_key(&String::from("foo"));
    let m = pool.encode_value(&300u64);
    assert_eq!((n, m), (4, 3));
    assert_eq!(pool.key(n), &[3, 102, 111, 111]);
    assert_eq!(pool.value(m), &[251, 1, 44]);
    assert_eq!(pool.key(2), &[3, 102]);
    pool.release();
    assert_eq!(pool.key(0), &[] as &[u8]);
    let n = pool.encode_key(&1u64);
    assert_eq!(pool.key(n), &[1]);
}

#[test]
fn decode_entries_keeps_from_start() {
    let entries = raw(&[("a", 0), ("b", 1), ("c", 2)]);
    let all: Vec<(String, u64)> = decode_entries(&entries, None).unwrap();
    assert_eq!(
        all,
        vec![(String::from("a"), 0), (String::from("b"), 1), (String::from("c"), 2)]
    );
    let tail: Vec<(String, u64)> = decode_entries(&entries, Some(2)).unwrap();
    assert_eq!(tail, vec![(String::from("c"), 2)]);
    let none: Vec<(String, u64)> = decode_entries(&entries, Some(3)).unwrap();
    assert_eq!(none, vec![]);
    let past: Vec<(String, u64)> = decode_entries(&entries, Some(9)).unwrap();
    assert_eq!(past, vec![]);
    let empty: Vec<(String, u64)> = decode_entries(&Vec::new(), Some(1)).unwrap();
    assert_eq!(empty, vec![]);
}

#[test]
fn decode_entries_fails_on_any_bad_entry() {
    let mut entries = raw(&[("a", 0), ("b", 1)]);
    entries[0].1 = vec![251];
    assert!(decode_entries::<String, u64>(&entries, None).is_err());
    // An entry before the window is decoded too.
    assert!(decode_entries::<String, u64>(&entries, Some(1)).is_err());
    let mut entries = raw(&[("a", 0), ("b", 1)]);
    entries[1].0 = vec![5, 1];
    assert!(decode_entries::<String, u64>(&entries, None).is_err());
    assert!(decode_entries_where::<String, u64, _>(&entries, None, &|_kv: (&String, &u64)| false).is_err());
}

#[test]
fn decode_entries_where_filters() {
    let entries = raw(&[("a", 0), ("b", 1), ("c", 2), ("d", 3)]);
    let odd = |kv: (&String, &u64)| *kv.1 % 2 == 1;
    let got: Vec<(String, u64)> = decode_entries_where(&entries, None, &odd).unwrap();
    assert_eq!(got, vec![(String::from("b"), 1), (String::from("d"), 3)]);
    let got: Vec<(String, u64)> = decode_entries_where(&entries, Some(2), &odd).unwrap();
    assert_eq!(got, vec![(String::from("d"), 3)]);
    let got: Vec<(String, u64)> = decode_entries_where(&entries, Some(4), &odd).unwrap();
    assert_eq!(got, vec![]);
}

#[test]
fn decode_removed_reports_bad_entries_as_none() {
    let mut entries = raw(&[("a", 0), ("b", 1), ("c", 2)]);
    entries[1].1 = vec![];
    entries[2].0 = vec![9];
    let got: Vec<Option<(String, u64)>> = decode_removed(&entries);
    assert_eq!(got, vec![Some((String::from("a"), 0)), None, None]);
}

#[test]
fn cache_size_defaults_to_four_gibibytes() {
    assert_eq!(DEFAULT_CACHE_BYTES, 4 * 1024 * 1024 * 1024);
    assert_eq!(cache_bytes(None), 4_294_967_296);
    assert_eq!(cache_bytes(Some(0)), 0);
    assert_eq!(cache_bytes(Some(1024)), 1024);
}

#[test]
fn compare_is_a_total_order_on_samples() {
    let samples: [&[u8]; 5] = [b"", b"a", b"ab", b"b", &[98, 0]];
    for a in samples {
        assert_eq!(Lexicographical::compare(a, a), Ordering::Equal);
        for b in samples {
            let ab = Lexicographical::compare(a, b);
            assert_eq!(Lexicographical::compare(b, a), ab.reverse());
            for c in samples {
                if ab == Ordering::Less && Lexicographical::compare(b, c) == Ordering::Less {
                    assert_eq!(Lexicographical::compare(a, c), Ordering::Less);
                }
            }
        }
    }
}

#[test]
fn guard_result_passes_every_answer_on() {
    let some: Result<Option<AccessGuard<u64>>, _> = guard_result(Ok(Some(vec![251, 1, 44])));
    assert_eq!(some.unwrap().expect("guard").value().unwrap(), 300);
    let none: Result<Option<AccessGuard<u64>>, _> = guard_result(Ok(None));
    assert!(matches!(none, Ok(None)));
    let failed: Result<Option<AccessGuard<u64>>, _> =
        guard_result(Err(redb::StorageError::ValueTooLarge(7)));
    assert!(matches!(failed, Err(redb::StorageError::ValueTooLarge(7))));
    // Bytes that do not decode still make a guard: decoding comes later.
    let bad: Result<Option<AccessGuard<String>>, _> = guard_result(Ok(Some(vec![13])));
    assert!(bad.unwrap().expect("guard").value().is_err());
}

#[test]
fn decoded_lookup_decodes_or_reports() {
    let found: Result<Option<u64>, Error> = decoded_lookup(Ok(Some(AccessGuard::from(vec![5]))));
    assert!(matches!(found, Ok(Some(5))));
    let absent: Result<Option<u64>, Error> = decoded_lookup(Ok(None));
    assert!(matches!(absent, Ok(None)));
    let bad: Result<Option<String>, Error> = decoded_lookup(Ok(Some(AccessGuard::from(vec![13]))));
    assert!(matches!(bad, Err(Error::Decode(_))));
    let failed: Result<Option<u64>, Error> =
        decoded_lookup(Err(redb::StorageError::ValueTooLarge(9)));
    assert!(matches!(
        failed,
        Err(Error::Storage(redb::StorageError::ValueTooLarge(9)))
    ));
}

#[test]
fn committed_keeps_the_value_or_the_commit_error() {
    assert!(matches!(committed(Ok(()), 7u64), Ok(7)));
    let failed = committed(
        Err(redb::CommitError::Storage(redb::StorageError::ValueTooLarge(3))),
        7u64,
    );
    assert!(matches!(
        failed,
        Err(Error::Commit(redb::CommitError::Storage(
            redb::StorageError::ValueTooLarge(3)
        )))
    ));
}

#[test]
fn a_claimed_length_beyond_the_bytes_is_an_error() {
    let huge = [253u8, 255, 255, 255, 255, 255, 255, 255, 255];
    assert!(String::decode_from(&huge).is_err());
    let mut record = vec![13u8];
    record.extend_from_slice(&huge);
    assert!(<(u64, String)>::decode_from(&record).is_err());
    let guard: AccessGuard<String> = AccessGuard::from(huge.to_vec());
    assert!(guard.value().is_err());
    let entries = vec![(huge.to_vec(), vec![1u8])];
    assert!(decode_entries::<String, u64>(&entries, None).is_err());
    assert_eq!(decode_removed::<String, u64>(&entries), vec![None]);
    // A length that the bytes cover is read as before.
    assert_eq!(String::decode_from(&[2, 104, 105, 9]).unwrap(), "hi");
}

#[test]
fn record_encoding_is_the_two_encodings_in_a_row() {
    let mut expected = enc(&300u64);
    expected.extend(enc(&String::from("bar")));
    assert_eq!(enc(&(300u64, String::from("bar"))), expected);
}

#[test]
fn every_encoding_reads_back() {
    for n in [0u64, 250, 251, 65535, 65536, u64::MAX] {
        assert_eq!(u64::decode_from(&enc(&n)).unwrap(), n);
    }
    for s in ["", "a", "bar", "\u{e9}t\u{e9}"] {
        let s = String::from(s);
        assert_eq!(String::decode_from(&enc(&s)).unwrap(), s);
        let pair = (7u64, s);
        assert_eq!(<(u64, String)>::decode_from(&enc(&pair)).unwrap(), pair);
    }
}

#[test]
fn decode_pair_needs_both_halves() {
    let good = (vec![1u8, 97], vec![5u8]);
    let pair: (String, u64) = decode_pair(&good).unwrap();
    assert_eq!(pair, (String::from("a"), 5));
    assert!(decode_pair::<String, u64>(&(vec![3u8, 97], vec![5u8])).is_err());
    assert!(decode_pair::<String, u64>(&(vec![1u8, 97], vec![])).is_err());
}
