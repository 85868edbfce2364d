use contracts_query::child_trie::{ChildTrieMap, EntryCollector, StorageEntry};
use contracts_query::keys::{child_storage_prefix_bytes, child_trie_roots};
use contracts_query::paging::PaginatedEnumerator;

fn entry_pairs(entries: &[StorageEntry]) -> Vec<(Vec<u8>, Option<Vec<u8>>)> {
    entries.iter().map(|e| (e.key.clone(), e.value.clone())).collect()
}

#[test]
fn collector_is_order_independent() {
    let keys = vec![b"k0".to_vec(), b"k1".to_vec(), b"k2".to_vec()];
    let values = vec![
        Some(b"v0".to_vec()),
        None,
        Some(b"v2".to_vec()),
    ];

    let mut in_order = EntryCollector::new(keys.clone());
    for i in 0..3 {
        assert!(in_order.is_pending(i));
        in_order.supply(i, values[i].clone());
        assert!(!in_order.is_pending(i));
    }
    assert!(in_order.is_complete());

    let mut shuffled = EntryCollector::new(keys.clone());
    assert!(!shuffled.is_complete());
    for &i in &[2usize, 0, 1] {
        shuffled.supply(i, values[i].clone());
    }
    assert!(shuffled.is_complete());

    let expected: Vec<(Vec<u8>, Option<Vec<u8>>)> =
        keys.into_iter().zip(values.into_iter()).collect();
    assert_eq!(entry_pairs(&in_order.entries()), expected);
    assert_eq!(entry_pairs(&shuffled.entries()), expected);
}

#[test]
fn map_keeps_namespaces_apart() {
    let mut map = ChildTrieMap::new();
    let ns_a = b"ns-a".to_vec();
    let ns_b = b"ns-b".to_vec();

    let entries_a = vec![StorageEntry { key: b"x".to_vec(), value: Some(b"1".to_vec()) }];
    let entries_b = vec![StorageEntry { key: b"y".to_vec(), value: None }];

    assert!(map.insert_namespace(ns_a.clone(), entries_a));
    assert!(map.insert_namespace(ns_b.clone(), entries_b));
    assert_eq!(map.namespace_count(), 2);

    let got_a = map.get_namespace(&ns_a).expect("namespace a");
    assert_eq!(entry_pairs(got_a), vec![(b"x".to_vec(), Some(b"1".to_vec()))]);
    let got_b = map.get_namespace(&ns_b).expect("namespace b");
    assert_eq!(entry_pairs(got_b), vec![(b"y".to_vec(), None)]);
    assert!(map.get_namespace(&b"ns-c".to_vec()).is_none());

    // A duplicate namespace is refused and the map is unchanged.
    let replacement = vec![StorageEntry { key: b"z".to_vec(), value: None }];
    assert!(!map.insert_namespace(ns_a.clone(), replacement));
    assert_eq!(map.namespace_count(), 2);
    let got_a = map.get_namespace(&ns_a).expect("namespace a");
    assert_eq!(entry_pairs(got_a), vec![(b"x".to_vec(), Some(b"1".to_vec()))]);
}

/// The round trip of a whole child-trie fetch over synthetic storage: the
/// namespaces are found among the root keys, each namespace's member keys
/// are enumerated page by page, the member values arrive out of order, and
/// the aggregate map holds every pair.
#[test]
fn child_trie_round_trip() {
    // A synthetic namespace of five members, values keyed to their index.
    let member_keys: Vec<Vec<u8>> = (0u8..5).map(|i| vec![i, i]).collect();
    let member_value = |key: &Vec<u8>| -> Option<Vec<u8>> { Some(vec![key[0] + 100]) };

    let mut namespace = child_storage_prefix_bytes();
    namespace.extend_from_slice(b"round-trip");
    let root_keys = vec![b":code".to_vec(), namespace.clone(), b"other".to_vec()];

    let roots = child_trie_roots(&root_keys);
    assert_eq!(roots, vec![namespace.clone()]);

    // Enumerate the namespace's members with a page size of two.
    let page_size = 2usize;
    let mut e = PaginatedEnumerator::new(page_size);
    loop {
        let start = match e.cursor() {
            None => 0,
            Some(c) => member_keys.iter().position(|k| k > c).unwrap_or(member_keys.len()),
        };
        let end = (start + page_size).min(member_keys.len());
        if e.feed_page(member_keys[start..end].to_vec()) {
            break;
        }
    }
    assert_eq!(e.requests_made(), 3);

    // Fan out the value reads; completions arrive in reverse order.
    let mut collector = EntryCollector::new(e.into_keys());
    for i in (0..collector.key_count()).rev() {
        let value = member_value(collector.key_at(i));
        collector.supply(i, value);
    }
    assert!(collector.is_complete());

    let mut map = ChildTrieMap::new();
    assert!(map.insert_namespace(namespace.clone(), collector.entries()));

    let recorded = map.get_namespace(&namespace).expect("fetched namespace");
    assert_eq!(recorded.len(), member_keys.len());
    for (i, entry) in recorded.iter().enumerate() {
        assert_eq!(entry.key, member_keys[i]);
        assert_eq!(entry.value, member_value(&member_keys[i]));
    }
}
