use fast_hash_collections::SmallMap;
use fast_hash_collections::SmallSet;
use indexmap::IndexMap;

/// Builds a set the way a literal of `values` does: through a map literal
/// with no values.
fn literal<const C: usize>(values: Vec<usize>) -> SmallSet<C> {
    let count = values.len();
    let mut map: SmallMap<(), C> = SmallMap::new();
    let map = if count <= map.inline_capacity() {
        for v in values {
            map.insert(v, ());
        }
        map
    } else {
        let mut heap = IndexMap::new();
        for v in values {
            heap.insert(v, ());
        }
        SmallMap::from_map(heap)
    };
    SmallSet::from_keys(map)
}

/// A set with inline capacity equal to the number of `values`, which must be
/// distinct.
fn inline_literal<const C: usize>(values: [usize; C]) -> SmallSet<C> {
    SmallSet::from_const_unchecked(values.iter().map(|v| (*v, ())).collect())
}

fn collect<const C: usize>(set: &SmallSet<C>) -> Vec<usize> {
    let mut out = Vec::new();
    let mut it = set.iter();
    while let Some(v) = it.next() {
        out.push(*v);
    }
    out
}

#[test]
fn test_len_and_inline_capacity() {
    let mut set = SmallSet::<1>::new();
    assert_eq!(0, set.len());
    assert_eq!(0, set.iter().len());
    set.insert(0);
    assert_eq!(1, set.len());
    assert_eq!(1, set.iter().len());

    let set: SmallSet<10> = literal(vec![0, 1, 4]);
    assert_eq!(3, set.len());
    assert_eq!(10, set.inline_capacity());

    let set = inline_literal([0, 1, 4]);
    assert_eq!(3, set.len());
    assert_eq!(3, set.iter().len());
    assert_eq!(3, set.inline_capacity());
}

#[test]
fn smallset_macro_removes_duplicates() {
    let set: SmallSet<10> = literal(vec![0, 0]);
    assert_eq!(1, set.len());
}

#[test]
fn small_set_iter_iterates_in_insertion_order() {
    let set: SmallSet<5> = literal(vec![0, 1, 2, 5, 2]);
    assert_eq!(4, set.len());
    let actual = collect(&set);
    let expected = vec![0, 1, 2, 5];
    assert_eq!(expected, actual);
}

struct TestCase {
    name: &'static str,
    initial_values: Vec<usize>,
    insert_value: usize,
    expected_inline_before: bool,
    expected_inline_after: bool,
    expected_values: Vec<usize>,
}

#[test]
fn insert_tests() {
    let values = vec![10, 5, 86, 93];
    let test_cases = vec![
        TestCase {
            name: "new key/value, stay inline",
            initial_values: values[0..2].to_vec(),
            insert_value: 7,
            expected_inline_before: true,
            expected_inline_after: true,
            expected_values: vec![10, 5, 7],
        },
        TestCase {
            name: "new key/value, move to heap",
            initial_values: values[0..3].to_vec(),
            insert_value: 7,
            expected_inline_before: true,
            expected_inline_after: false,
            expected_values: vec![10, 5, 86, 7],
        },
        TestCase {
            name: "new key/value, stay on heap",
            initial_values: values[0..4].to_vec(),
            insert_value: 7,
            expected_inline_before: false,
            expected_inline_after: false,
            expected_values: vec![10, 5, 86, 93, 7],
        },
        TestCase {
            name: "overwrite existing key/value, stay inline",
            initial_values: values[0..3].to_vec(),
            insert_value: 5,
            expected_inline_before: true,
            expected_inline_after: true,
            expected_values: vec![10, 5, 86],
        },
        TestCase {
            name: "overwrite existing key/value, stay on heap",
            initial_values: values[0..4].to_vec(),
            insert_value: 10,
            expected_inline_before: false,
            expected_inline_after: false,
            expected_values: vec![10, 5, 86, 93],
        },
    ];

    for test_case in test_cases {
        let mut small_set = SmallSet::<3>::new();

        for v in test_case.initial_values {
            small_set.insert(v);
        }
        assert_eq!(
            test_case.expected_inline_before,
            small_set.is_inline(),
            "inline state before insertion in SmallSet does not match expected in test '{}'",
            test_case.name
        );

        small_set.insert(test_case.insert_value);
        assert_eq!(
            test_case.expected_inline_after,
            small_set.is_inline(),
            "inline state after insertion in SmallSet does not match expected in test '{}'",
            test_case.name
        );
        assert_eq!(
            test_case.expected_values,
            collect(&small_set),
            "values in SmallSet do not match expected values in test '{}'",
            test_case.name
        );
    }
}

#[test]
fn equality_is_consistent() {
    let set1: SmallSet<3> = literal(vec![0, 1, 4]);
    let set2 = inline_literal([0, 1, 4]);
    let set3 = SmallSet::<3>::from_iter(vec![0, 1, 4]);
    let mut set4 = SmallSet::<3>::new();
    set4.insert(0);
    set4.insert(1);
    set4.insert(4);

    assert_eq!(set1, set2);
    assert_eq!(set1, set3);
    assert_eq!(set1, set4);

    assert_eq!(set2, set3);
    assert_eq!(set2, set4);

    assert_eq!(set3, set4);
}

#[test]
fn empty_small_maps_are_equal() {
    let set1: SmallSet<3> = literal(vec![]);
    let set2: SmallSet<3> = literal(vec![]);
    assert_eq!(set1, set2);
}

#[test]
fn debug_string_test() {
    let actual = inline_literal([0, 1, 2]).to_debug_string();
    let expected = "{0, 1, 2}";
    assert_eq!(expected, actual);
}

#[test]
fn debug_string_of_empty_and_multi_digit_sets() {
    let empty = SmallSet::<2>::new();
    assert_eq!("{}", empty.to_debug_string());
    let set = SmallSet::<2>::from_iter(vec![120, 7, 3045]);
    assert!(!set.is_inline());
    assert_eq!("{120, 7, 3045}", set.to_debug_string());
}

#[test]
fn from_iter_keeps_first_occurrences() {
    let set = SmallSet::<2>::from_iter(vec![3, 1, 3, 2, 1]);
    assert_eq!(vec![3, 1, 2], collect(&set));
    assert!(!set.is_inline());
    let set = SmallSet::<3>::from_iter(vec![3, 1, 3, 2, 1]);
    assert!(set.is_inline());
    assert!(!set.is_empty());
}

#[test]
fn sets_differ_by_order_or_content() {
    let a = SmallSet::<4>::from_iter(vec![1, 2]);
    let b = SmallSet::<4>::from_iter(vec![2, 1]);
    let c = SmallSet::<4>::from_iter(vec![1, 3]);
    assert_ne!(a, b);
    assert_ne!(a, c);
}
