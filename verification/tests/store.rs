use ferret_index::counts::CountMap;
use ferret_index::resolver::file_name;
use ferret_index::store::Filemap;

#[test]
fn lifecycle() {
    let mut cas = Filemap::<u8>::new();

    cas.insert(10, 11);

    assert!(cas.contains(10));
    assert!(!cas.contains(11));

    assert_eq!(cas.get(10), Some(&11));
}

#[test]
fn round_trip_returns_inserted_value() {
    let mut store = Filemap::<u8>::new();
    store.insert(77, 201);
    assert_eq!(store.get(77), Some(&201));
    store.insert(78, 202);
    assert_eq!(store.get(77), Some(&201));
    assert_eq!(store.get(78), Some(&202));
}

#[test]
fn empty_store_is_absent_everywhere() {
    let store = Filemap::<u8>::new();
    assert!(!store.contains(0));
    assert!(!store.contains(77));
    assert!(!store.contains(u128::MAX));
    assert_eq!(store.get(0), None);
    assert_eq!(store.get(77), None);
    assert_eq!(store.get(u128::MAX), None);
}

#[test]
fn reinsert_overwrites_same_key() {
    let mut store = Filemap::<u8>::new();
    store.insert(5, 1);
    store.insert(5, 2);
    assert_eq!(store.get(5), Some(&2));
    assert!(store.contains(5));
}

#[test]
fn remove_takes_record_out() {
    let mut store = Filemap::<u8>::new();
    store.insert(9, 3);
    assert_eq!(store.remove(9), Some(3));
    assert_eq!(store.get(9), None);
    assert_eq!(store.remove(9), None);
}

#[test]
fn file_name_is_hex_of_fxhash() {
    let key: u128 = 10;
    let expected = format!("{:x}", fxhash::hash64(&key));
    assert_eq!(file_name(key), expected);

    let key2: u128 = 0;
    let expected2 = format!("{:x}", fxhash::hash64(&key2));
    assert_eq!(file_name(key2), expected2);
}

#[test]
fn distinct_keys_get_distinct_file_names() {
    assert_ne!(file_name(10), file_name(11));
}

#[test]
fn resolve_joins_base_and_file_name() {
    let name = file_name(42);
    let path = ferret_index::resolver::resolve("base/dir", 42);
    assert_eq!(path, format!("base/dir/{}", name));
}

#[test]
fn rebuilding_a_table_rejects_repeated_keys() {
    assert!(CountMap::from_entries(vec![(1, 2), (2, 3)]).is_some());
    assert!(CountMap::from_entries(vec![(1, 2), (1, 3)]).is_none());
}

#[test]
fn table_sum_reports_overflow() {
    let m = CountMap::from_entries(vec![(1, u64::MAX), (2, 1)]).expect("distinct keys");
    assert_eq!(m.sum(), None);
    let small = CountMap::from_entries(vec![(1, 4), (2, 5)]).expect("distinct keys");
    assert_eq!(small.sum(), Some(9));
}
