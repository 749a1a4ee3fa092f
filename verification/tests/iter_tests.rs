use cloudr::iter::IntoIter;
use cloudr::iter::IntoPairs;
use cloudr::iter::Iter;
use cloudr::iter::IterMut;
use cloudr::iter::Mapped;
use cloudr::DataCloud;
use cloudr::RawRef;

#[test]
fn into_pairs_pops_from_the_tail_of_the_snapshot() {
    let mut it: IntoPairs<u64, u64> = IntoPairs::new(vec![(1, 10), (2, 20)]);
    assert_eq!(it.next(), Some((2, 20)));
    assert_eq!(it.next(), Some((1, 10)));
    assert_eq!(it.next(), None);
    assert_eq!(it.next(), None);
}

#[test]
fn into_iter_reports_its_remaining_length() {
    let mut it: IntoIter<u64, u64> = IntoIter::new(vec![(1, 10), (2, 20)]);
    assert_eq!(it.len(), 2);
    assert_eq!(it.next(), Some((2, 20)));
    assert_eq!(it.len(), 1);
    assert_eq!(it.next(), Some((1, 10)));
    assert_eq!(it.len(), 0);
    assert_eq!(it.next(), None);
}

#[test]
fn mapped_and_borrowing_adapters_pop_from_the_tail() {
    let mut mapped: Mapped<u64, u64> = Mapped::new(vec![(1, 10)]);
    assert_eq!(mapped.len(), 1);
    assert_eq!(mapped.next(), Some((1, 10)));
    assert_eq!(mapped.next(), None);
    let mut iter: Iter<u64, u64> = Iter::new(vec![(1, 10)]);
    assert_eq!(iter.len(), 1);
    assert_eq!(iter.next(), Some((1, 10)));
    assert_eq!(iter.next(), None);
    let mut iter_mut: IterMut<u64, u64> = IterMut::new(vec![(1, 10)]);
    assert_eq!(iter_mut.len(), 1);
    assert_eq!(iter_mut.next(), Some((1, 10)));
    assert_eq!(iter_mut.next(), None);
}

#[test]
fn container_into_pairs_hands_every_entry_out_once() {
    let mut cloud: DataCloud<u64, u64> = DataCloud::new();
    cloud.insert(1, 10);
    cloud.insert(2, 20);
    let mut it = cloud.into_pairs();
    let mut seen: Vec<(u64, u64)> = Vec::new();
    while let Some(pair) = it.next() {
        seen.push(pair);
    }
    seen.sort();
    assert_eq!(seen, vec![(1, 10), (2, 20)]);
}

#[test]
fn container_into_iter_exhausts_exactly_once() {
    let mut cloud: DataCloud<u64, u64> = DataCloud::new();
    cloud.insert(1, 10);
    let mut it = cloud.into_iter();
    assert_eq!(it.len(), 1);
    assert_eq!(it.next(), Some((1, 10)));
    assert_eq!(it.next(), None);
    assert_eq!(it.next(), None);
}

#[test]
fn container_iter_and_iter_mut_snapshot_without_consuming() {
    let mut cloud: DataCloud<u64, u64> = DataCloud::new();
    cloud.insert(1, 10);
    let mut it = cloud.iter();
    assert_eq!(it.next(), Some((1, 10)));
    assert_eq!(it.next(), None);
    let mut mit = cloud.iter_mut();
    assert_eq!(mit.next(), Some((1, 10)));
    assert_eq!(cloud.get(&1), Some(&10));
}

#[test]
fn container_map_transforms_every_entry() {
    let mut cloud: DataCloud<u64, u64> = DataCloud::new();
    cloud.insert(10, 4);
    cloud.insert(20, 5);
    let mut mapped = cloud.map(|k: &u64, v: &u64| (*k / 2, *v * 10));
    let mut seen: Vec<(u64, u64)> = Vec::new();
    while let Some(pair) = mapped.next() {
        seen.push(pair);
    }
    seen.sort();
    assert_eq!(seen, vec![(5, 40), (10, 50)]);
}

#[test]
fn into_raw_pairs_wraps_every_handle_live() {
    let mut cloud: DataCloud<u64, u64> = DataCloud::new();
    cloud.insert(1, 10);
    cloud.insert(2, 20);
    let mut it = cloud.into_raw_pairs();
    let mut seen: Vec<(u64, RawRef<u64>)> = Vec::new();
    while let Some(pair) = it.next() {
        assert!(!pair.1.is_null());
        seen.push(pair);
    }
    seen.sort_by_key(|p| p.0);
    assert_eq!(seen[0], (1, RawRef::Ref(10)));
    assert_eq!(seen[1], (2, RawRef::Ref(20)));
}

#[test]
fn into_vec_and_into_vecdeque_list_each_entry_once() {
    let mut cloud: DataCloud<u64, u64> = DataCloud::new();
    cloud.insert(1, 10);
    cloud.insert(2, 20);
    let mut listed = cloud.clone().into_vec();
    listed.sort();
    assert_eq!(listed, vec![(1, 10), (2, 20)]);
    let deque = cloud.into_vecdeque();
    let mut listed2: Vec<(u64, u64)> = deque.into_iter().collect();
    listed2.sort();
    assert_eq!(listed2, vec![(1, 10), (2, 20)]);
}
