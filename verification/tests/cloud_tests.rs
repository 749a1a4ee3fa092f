use cloudr::CombineWith;
use cloudr::DataCloud;
use cloudr::IntoOwned;
use cloudr::RawRef;

#[test]
fn new_starts_empty() {
    let cloud: DataCloud<u64, u64> = DataCloud::new();
    assert!(cloud.is_empty());
    assert!(!cloud.contains_key(&1));
}

#[test]
fn insert_then_get_returns_inserted_handle() {
    let mut cloud: DataCloud<u64, u64> = DataCloud::new();
    let previous = cloud.insert(1, 10);
    assert_eq!(previous, None);
    assert_eq!(cloud.get(&1), Some(&10));
}

#[test]
fn insert_on_existing_key_returns_previous_handle() {
    let mut cloud: DataCloud<u64, u64> = DataCloud::new();
    assert_eq!(cloud.insert(1, 10), None);
    assert_eq!(cloud.insert(1, 20), Some(10));
    assert_eq!(cloud.get(&1), Some(&20));
}

#[test]
fn remove_then_get_reports_absence() {
    let mut cloud: DataCloud<u64, u64> = DataCloud::new();
    cloud.insert(1, 10);
    cloud.insert(2, 20);
    assert_eq!(cloud.remove(&1), Some(10));
    assert_eq!(cloud.get(&1), None);
    assert_eq!(cloud.remove(&1), None);
    assert!(!cloud.contains_key(&1));
    assert!(cloud.contains_key(&2));
}

#[test]
fn or_insert_reports_presence_and_keeps_stored_handle() {
    let mut cloud: DataCloud<u64, u64> = DataCloud::new();
    assert!(!cloud.or_insert(1, 10));
    assert!(cloud.or_insert(1, 99));
    assert_eq!(cloud.get(&1), Some(&10));
}

#[test]
fn clear_then_is_empty_and_equals_fresh() {
    let mut cloud: DataCloud<u64, u64> = DataCloud::new();
    cloud.insert(1, 10);
    cloud.insert(2, 20);
    cloud.clear();
    assert!(cloud.is_empty());
    let fresh: DataCloud<u64, u64> = DataCloud::new();
    assert!(cloud.equals(&fresh));
}

#[test]
fn merge_lets_other_win_on_shared_keys() {
    let mut a: DataCloud<u64, u64> = DataCloud::new();
    a.insert(1, 11);
    a.insert(2, 12);
    let mut b: DataCloud<u64, u64> = DataCloud::new();
    b.insert(2, 22);
    b.insert(3, 33);
    let merged = a.merge(&b);
    assert_eq!(merged.get(&1), Some(&11));
    assert_eq!(merged.get(&2), Some(&22));
    assert_eq!(merged.get(&3), Some(&33));
    assert_eq!(a.get(&2), Some(&12));
    assert_eq!(b.get(&2), Some(&22));
}

#[test]
fn merge_all_lets_the_last_listed_win() {
    let a: DataCloud<u64, u64> = DataCloud::new();
    let mut b: DataCloud<u64, u64> = DataCloud::new();
    b.insert(7, 1);
    b.insert(5, 55);
    let mut c: DataCloud<u64, u64> = DataCloud::new();
    c.insert(7, 2);
    let merged = a.merge_all(vec![&b, &c]);
    assert_eq!(merged.get(&7), Some(&2));
    assert_eq!(merged.get(&5), Some(&55));
}

#[test]
fn merge_all_lets_the_list_win_over_self() {
    let mut a: DataCloud<u64, u64> = DataCloud::new();
    a.insert(7, 100);
    let mut b: DataCloud<u64, u64> = DataCloud::new();
    b.insert(7, 1);
    let merged = a.merge_all(vec![&b]);
    assert_eq!(merged.get(&7), Some(&1));
}

#[test]
fn combine_with_lets_self_win_over_the_list() {
    let mut a: DataCloud<u64, u64> = DataCloud::new();
    a.insert(7, 100);
    let mut b: DataCloud<u64, u64> = DataCloud::new();
    b.insert(7, 1);
    b.insert(8, 8);
    let mut c: DataCloud<u64, u64> = DataCloud::new();
    c.insert(8, 80);
    let combined = a.combine_with(vec![b, c]);
    assert_eq!(combined.get(&7), Some(&100));
    assert_eq!(combined.get(&8), Some(&80));
}

#[test]
fn merge_in_place_absorbs_the_other() {
    let mut a: DataCloud<u64, u64> = DataCloud::new();
    a.insert(1, 11);
    a.insert(2, 12);
    let mut b: DataCloud<u64, u64> = DataCloud::new();
    b.insert(2, 22);
    a.merge_in_place(b);
    assert_eq!(a.get(&1), Some(&11));
    assert_eq!(a.get(&2), Some(&22));
}

#[test]
fn merge_with_absorbs_self_into_the_other() {
    let mut a: DataCloud<u64, u64> = DataCloud::new();
    a.insert(2, 12);
    let mut b: DataCloud<u64, u64> = DataCloud::new();
    b.insert(1, 21);
    b.insert(2, 22);
    a.merge_with(&mut b);
    assert_eq!(b.get(&1), Some(&21));
    assert_eq!(b.get(&2), Some(&12));
}

#[test]
fn into_owned_copies_every_entry() {
    let mut cloud: DataCloud<u64, u64> = DataCloud::new();
    cloud.insert(1, 11);
    cloud.insert(2, 12);
    let owned: std::collections::HashMap<u64, u64> = cloud.into_owned();
    assert_eq!(owned.len(), 2);
    assert_eq!(owned.get(&1), Some(&11));
    assert_eq!(owned.get(&2), Some(&12));
    assert_eq!(cloud.get(&1), Some(&11));
}

#[test]
fn retain_keeps_exactly_the_approved_entries() {
    let mut cloud: DataCloud<u64, i32> = DataCloud::new();
    cloud.insert(1, 42);
    cloud.insert(2, 24);
    cloud.retain(|_k: &u64, v: &i32| *v > 30);
    assert!(cloud.contains_key(&1));
    assert!(!cloud.contains_key(&2));
    assert_eq!(cloud.get(&1), Some(&42));
}

#[test]
fn insert_from_raw_rejects_null_and_records_nothing() {
    let mut cloud: DataCloud<u64, u64> = DataCloud::new();
    let result = cloud.insert_from_raw(5, RawRef::Null);
    let err = result.unwrap_err();
    assert_eq!(err.0, "Tried to insert null pointer in DataCloud".to_string());
    assert!(cloud.is_empty());
}

#[test]
fn insert_from_raw_with_live_handle_behaves_as_insert() {
    let mut cloud: DataCloud<u64, u64> = DataCloud::new();
    assert_eq!(cloud.insert_from_raw(5, RawRef::Ref(50)), Ok(None));
    assert_eq!(cloud.insert_from_raw(5, RawRef::Ref(51)), Ok(Some(50)));
    assert_eq!(cloud.get(&5), Some(&51));
}

#[test]
fn round_trip_through_pairs_restores_the_container() {
    let mut cloud: DataCloud<u64, u64> = DataCloud::new();
    cloud.insert(1, 11);
    cloud.insert(2, 12);
    cloud.insert(3, 13);
    let copy = cloud.clone();
    let pairs = cloud.into_vec();
    let rebuilt: DataCloud<u64, u64> = DataCloud::from_vec(pairs);
    assert!(rebuilt.equals(&copy));
}

#[test]
fn from_vec_lets_later_pairs_win() {
    let pairs: Vec<(u64, u64)> = vec![(1, 10), (1, 20)];
    let cloud: DataCloud<u64, u64> = DataCloud::from_vec(pairs);
    assert_eq!(cloud.get(&1), Some(&20));
}

#[test]
fn equals_ignores_insertion_order() {
    let mut a: DataCloud<u64, u64> = DataCloud::new();
    a.insert(1, 11);
    a.insert(2, 12);
    let mut b: DataCloud<u64, u64> = DataCloud::new();
    b.insert(2, 12);
    b.insert(1, 11);
    assert!(a.equals(&b));
    b.insert(3, 3);
    assert!(!a.equals(&b));
}

#[test]
fn contains_value_scans_the_handles() {
    let mut cloud: DataCloud<u64, u64> = DataCloud::new();
    cloud.insert(1, 63);
    assert!(cloud.contains_value(&63));
    assert!(!cloud.contains_value(&64));
}

#[test]
fn get_mut_changes_only_the_recorded_handle() {
    let mut cloud: DataCloud<u64, u64> = DataCloud::new();
    cloud.insert(1, 10);
    if let Some(slot) = cloud.get_mut(1) {
        *slot = 77;
    }
    assert_eq!(cloud.get(&1), Some(&77));
    assert_eq!(cloud.get_mut(9), None);
}

#[test]
fn index_returns_the_recorded_handle() {
    let mut cloud: DataCloud<u64, u64> = DataCloud::new();
    cloud.insert(1, 10);
    assert_eq!(*cloud.index(&1), 10);
    *cloud.index_mut(1) = 44;
    assert_eq!(cloud.get(&1), Some(&44));
}

#[test]
fn insert_all_reports_each_replaced_handle() {
    let mut cloud: DataCloud<u64, u64> = DataCloud::new();
    cloud.insert(2, 2);
    let previous = cloud.insert_all(vec![(1, 10), (2, 20), (1, 30)]);
    assert_eq!(previous, vec![None, Some(2), Some(10)]);
    assert_eq!(cloud.get(&1), Some(&30));
    assert_eq!(cloud.get(&2), Some(&20));
}

#[test]
fn get_all_looks_every_key_up() {
    let mut cloud: DataCloud<u64, u64> = DataCloud::new();
    cloud.insert(1, 42);
    cloud.insert(2, 24);
    let one = 1;
    let two = 2;
    let nine = 9;
    assert_eq!(cloud.get_all(vec![&one, &two, &nine]), vec![Some(42), Some(24), None]);
}

#[test]
fn get_mut_all_hands_the_same_handles_out() {
    let mut cloud: DataCloud<u64, u64> = DataCloud::new();
    cloud.insert(1, 42);
    let one = 1;
    let nine = 9;
    assert_eq!(cloud.get_mut_all(vec![&one, &nine]), vec![Some(42), None]);
}

#[test]
fn get_as_raw_wraps_the_handle_and_is_never_null() {
    let mut cloud: DataCloud<u64, u64> = DataCloud::new();
    cloud.insert(1, 10);
    let raw = cloud.get_as_raw(&1).unwrap();
    assert!(!raw.is_null());
    assert_eq!(raw, RawRef::Ref(10));
    assert_eq!(cloud.get_as_raw(&9), None);
}

#[test]
fn default_and_clone_preserve_contents() {
    let empty: DataCloud<u64, u64> = Default::default();
    assert!(empty.is_empty());
    let mut cloud: DataCloud<u64, u64> = DataCloud::new();
    cloud.insert(1, 10);
    let copy = cloud.clone();
    assert!(copy.equals(&cloud));
}

#[test]
fn extend_records_pairs_front_to_back() {
    let mut cloud: DataCloud<u64, u64> = DataCloud::new();
    cloud.extend(vec![(1, 1), (2, 2), (1, 3)]);
    assert_eq!(cloud.get(&1), Some(&3));
    assert_eq!(cloud.get(&2), Some(&2));
}

#[test]
fn from_hashmap_adopts_a_prebuilt_fx_table() {
    let mut table: fxhash::FxHashMap<u64, u64> = fxhash::FxHashMap::default();
    table.insert(3, 54);
    let cloud: DataCloud<u64, u64> = DataCloud::from_hashmap(table);
    assert_eq!(cloud.get(&3), Some(&54));
}

#[test]
fn as_boxed_ref_shows_the_backing_table() {
    let mut cloud: DataCloud<u64, u64> = DataCloud::new();
    cloud.insert(1, 10);
    let boxed = cloud.as_boxed_ref();
    assert_eq!(boxed.len(), 1);
    assert_eq!(boxed.get(&1), Some(&10));
}

#[test]
fn error_message_is_kept() {
    let err = cloudr::NullPointerError(String::from("no live referent"));
    assert_eq!(err.message(), &String::from("no live referent"));
    let copy = err.clone();
    assert_eq!(copy, err);
}

#[test]
fn string_keys_work_for_the_keyed_operations() {
    let mut cloud: DataCloud<String, i32> = DataCloud::new();
    assert_eq!(cloud.insert("y".to_string(), 3), None);
    assert_eq!(cloud.get(&"y".to_string()), Some(&3));
    assert!(cloud.contains_key(&"y".to_string()));
    assert!(!cloud.or_insert("x".to_string(), 7));
    assert_eq!(cloud.remove(&"x".to_string()), Some(7));
    cloud.clear();
    assert!(cloud.is_empty());
}

#[test]
fn as_table_mut_edits_reach_the_container() {
    let mut cloud: DataCloud<u64, u64> = DataCloud::new();
    cloud.insert(1, 10);
    cloud.as_table_mut().insert(2, 20);
    assert_eq!(cloud.get(&2), Some(&20));
    assert_eq!(cloud.get(&1), Some(&10));
}
