use fast_hash_collections::small_map::Entry;
use fast_hash_collections::small_map::IntoIter;
use fast_hash_collections::SmallMap;
use indexmap::IndexMap;

/// Builds a map the way a literal of `entries` does: by inserts when they fit
/// inline, else from a heap map.
fn literal<V, const C: usize>(entries: Vec<(usize, V)>) -> SmallMap<V, C> {
    let count = entries.len();
    let mut map = SmallMap::new();
    if count <= map.inline_capacity() {
        for (k, v) in entries {
            map.insert(k, v);
        }
        map
    } else {
        let mut heap = IndexMap::new();
        for (k, v) in entries {
            heap.insert(k, v);
        }
        SmallMap::from_map(heap)
    }
}

fn iter_pairs<V, const C: usize>(map: &SmallMap<V, C>) -> Vec<(&usize, &V)> {
    let mut out = Vec::new();
    let mut it = map.iter();
    while let Some(kv) = it.next() {
        out.push(kv);
    }
    out
}

fn drain<V>(mut it: IntoIter<V>) -> Vec<(usize, V)> {
    let mut out = Vec::new();
    while let Some(kv) = it.next() {
        out.push(kv);
    }
    out
}

#[test]
fn map() {
    let mut map: SmallMap<usize, 1> = SmallMap::new();

    assert_eq!(0, map.len());
    map.insert(0, 1);
    assert_eq!(1, map.len());

    println!("{}", map.len());

    let map: SmallMap<_, 10> = literal(vec![(0, 1), (1, 7), (4, 9)]);

    assert_eq!(3, map.len());
    assert_eq!(10, map.inline_capacity());

    let map = SmallMap::<usize, 3>::from_const(vec![(0, 1), (1, 7), (4, 9)]);
    assert_eq!(3, map.len());
    assert_eq!(3, map.inline_capacity());
}

#[test]
fn small_map_iter_iterates_in_insertion_order() {
    let map: SmallMap<_, 3> = literal(vec![(1, 7), (0, 1), (4, 9)]);
    assert_eq!(
        vec![(&1, &7), (&0, &1), (&4, &9)],
        iter_pairs(&map),
        "inline iter() does not return values in the correct order"
    );
    assert_eq!(
        vec![(1, 7), (0, 1), (4, 9)],
        drain(map.into_iter()),
        "inline into_iter() does not return values in the correct order"
    );

    let map: SmallMap<_, 1> = literal(vec![(1, 7), (0, 1), (4, 9), (5, 1)]);
    assert_eq!(
        vec![(&1, &7), (&0, &1), (&4, &9), (&5, &1)],
        iter_pairs(&map),
        "heap iter() does not return values in the correct order"
    );
    assert_eq!(
        vec![(1, 7), (0, 1), (4, 9), (5, 1)],
        drain(map.into_iter()),
        "heap into_iter() does not return values in the correct order"
    );
}

#[test]
fn threshold_switches_form_after_capacity() {
    let mut map: SmallMap<usize, 4> = SmallMap::new();
    for k in 0..4 {
        map.insert(k * 10, k);
    }
    assert!(map.is_inline());
    assert_eq!(4, map.len());
    map.insert(99, 4);
    assert!(!map.is_inline());
    assert_eq!(5, map.len());
}

#[test]
fn order_kept_across_transition_capacity_one() {
    let mut map: SmallMap<(), 1> = SmallMap::new();
    map.insert(1, ());
    assert!(map.is_inline());
    let keys: Vec<usize> = iter_pairs(&map).into_iter().map(|(k, _)| *k).collect();
    assert_eq!(vec![1], keys);
    for k in [0, 4, 5] {
        map.insert(k, ());
    }
    assert!(!map.is_inline());
    let keys: Vec<usize> = iter_pairs(&map).into_iter().map(|(k, _)| *k).collect();
    assert_eq!(vec![1, 0, 4, 5], keys);
}

#[test]
fn reinsert_updates_in_place_inline_and_heap() {
    let mut map: SmallMap<&str, 2> = SmallMap::new();
    assert_eq!(None, map.insert(7, "a"));
    assert_eq!(None, map.insert(3, "b"));
    assert_eq!(Some("a"), map.insert(7, "c"));
    assert!(map.is_inline());
    assert_eq!(2, map.len());
    assert_eq!(vec![(&7, &"c"), (&3, &"b")], iter_pairs(&map));

    assert_eq!(None, map.insert(9, "d"));
    assert!(!map.is_inline());
    assert_eq!(Some("b"), map.insert(3, "e"));
    assert_eq!(3, map.len());
    assert_eq!(vec![(&7, &"c"), (&3, &"e"), (&9, &"d")], iter_pairs(&map));
}

#[test]
fn full_inline_map_updates_existing_key_without_moving() {
    let mut map: SmallMap<usize, 2> = SmallMap::new();
    map.insert(1, 10);
    map.insert(2, 20);
    assert_eq!(Some(10), map.insert(1, 11));
    assert!(map.is_inline());
    assert_eq!(Some(&11), map.get(&1));
}

#[test]
fn index_and_key_agree_in_both_forms() {
    for count in [2usize, 6] {
        let mut map: SmallMap<usize, 3> = SmallMap::new();
        for k in 0..count {
            map.insert(100 - k, k);
        }
        assert_eq!(count <= 3, map.is_inline());
        for k in 0..count {
            let key = 100 - k;
            let i = map.get_index_of(&key).unwrap();
            assert_eq!(k, i);
            let (found, value) = map.get_index(i).unwrap();
            assert_eq!(key, *found);
            assert_eq!(k, *value);
        }
        assert_eq!(None, map.get_index_of(&5));
        assert_eq!(None, map.get_index(count));
    }
}

#[test]
fn empty_map_finds_nothing() {
    let mut map: SmallMap<usize, 2> = SmallMap::new();
    assert!(map.is_empty());
    assert_eq!(None, map.get(&0));
    assert_eq!(None, map.get_mut(&0));
    assert_eq!(None, map.get_index_of(&0));
    assert_eq!(None, map.get_index(0));
    assert!(map.get_index_mut(0).is_none());
}

#[test]
fn capacity_three_scenario() {
    let mut map = SmallMap::<String, 3>::new();
    map.insert(0, "zero".to_string());
    map.insert(1, "one".to_string());
    map.insert(2, "two".to_string());
    assert_eq!(3, map.len());
    assert!(map.is_inline());

    map.insert(3, "three".to_string());
    assert_eq!(4, map.len());
    assert!(!map.is_inline());
    let pairs: Vec<(usize, String)> = iter_pairs(&map)
        .into_iter()
        .map(|(k, v)| (*k, v.clone()))
        .collect();
    assert_eq!(
        vec![
            (0, "zero".to_string()),
            (1, "one".to_string()),
            (2, "two".to_string()),
            (3, "three".to_string())
        ],
        pairs
    );
}

#[test]
fn get_mut_and_get_index_mut_write_through() {
    let mut map: SmallMap<usize, 1> = SmallMap::new();
    map.insert(5, 50);
    *map.get_mut(&5).unwrap() += 1;
    assert_eq!(Some(&51), map.get(&5));
    map.insert(6, 60);
    assert!(!map.is_inline());
    let (k, v) = map.get_index_mut(1).unwrap();
    assert_eq!(6, *k);
    *v = 61;
    *map.get_mut(&5).unwrap() = 52;
    assert_eq!(vec![(&5, &52), (&6, &61)], iter_pairs(&map));
}

#[test]
fn entry_modifies_or_inserts() {
    let mut map: SmallMap<usize, 2> = SmallMap::new();
    map.insert(1, 10);
    map.entry(1).and_modify(|v| *v += 5).or_insert(0);
    map.entry(2).and_modify(|v| *v += 5).or_insert(20);
    assert!(matches!(map.entry(2), Entry::Occupied(_, 1)));
    assert!(matches!(map.entry(8), Entry::Vacant(_, 8)));
    map.entry(3).or_insert(30);
    assert!(!map.is_inline());
    assert_eq!(vec![(&1, &15), (&2, &20), (&3, &30)], iter_pairs(&map));
}

#[test]
fn from_entries_chooses_form_by_capacity() {
    let small = SmallMap::<usize, 4>::from_entries(2, vec![(3, 30), (1, 10)]);
    assert!(small.is_inline());
    let big = SmallMap::<usize, 4>::from_entries(16, vec![(3, 30), (1, 10)]);
    assert!(!big.is_inline());
    assert_eq!(vec![(&3, &30), (&1, &10)], iter_pairs(&big));
    assert_eq!(Some(1), big.get_index_of(&1));
    assert_eq!(Some(&10), big.get(&1));
}

#[test]
fn from_map_keeps_order() {
    let mut heap = IndexMap::new();
    for k in [9usize, 2, 7] {
        heap.insert(k, k * 2);
    }
    let map = SmallMap::<usize, 1>::from_map(heap);
    assert!(!map.is_inline());
    assert_eq!(vec![(&9, &18), (&2, &4), (&7, &14)], iter_pairs(&map));
}

#[test]
fn iter_reports_remaining_length() {
    let map: SmallMap<usize, 2> = literal(vec![(1, 1), (2, 2), (3, 3)]);
    let mut it = map.iter();
    assert_eq!(3, it.len());
    it.next();
    assert_eq!(2, it.len());
    let mut into = map.into_iter();
    assert_eq!(3, into.len());
    into.next();
    assert_eq!(2, into.len());
}

#[test]
fn equality_compares_entries_in_order() {
    let a: SmallMap<usize, 2> = literal(vec![(1, 1), (2, 2)]);
    let b: SmallMap<usize, 2> = literal(vec![(1, 1), (2, 2)]);
    let c: SmallMap<usize, 2> = literal(vec![(2, 2), (1, 1)]);
    let d: SmallMap<usize, 2> = literal(vec![(1, 1), (2, 3)]);
    assert!(a == b);
    assert!(a != c);
    assert!(a != d);
    let heap = SmallMap::<usize, 2>::from_entries(8, vec![(1, 1), (2, 2)]);
    assert!(!heap.is_inline());
    assert!(a == heap);
}
