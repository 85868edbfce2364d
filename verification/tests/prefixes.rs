use contracts_query::hex_fmt::to_hex;
use contracts_query::keys::{
    child_storage_prefix_bytes, child_trie_roots, default_child_storage_prefix_bytes,
    is_child_trie_key,
};

#[test]
fn print_prefixes() {
    let child = to_hex(&child_storage_prefix_bytes());
    let default_child = to_hex(&default_child_storage_prefix_bytes());
    println!("{}", child);
    println!("{}", default_child);
    assert_eq!(child, "0x3a6368696c645f73746f726167653a");
    assert_eq!(default_child, "0x3a6368696c645f73746f726167653a64656661756c743a");
}

#[test]
fn hex_of_bytes() {
    assert_eq!(to_hex(&vec![]), "0x");
    assert_eq!(to_hex(&vec![0x00, 0xff, 0x1a]), "0x00ff1a");
    assert_eq!(to_hex(&vec![0x09, 0x0a]), "0x090a");
}

#[test]
fn child_key_detection() {
    let mut child_key = child_storage_prefix_bytes();
    child_key.extend_from_slice(b"trie-one");
    assert!(is_child_trie_key(&child_key));

    let default_key = default_child_storage_prefix_bytes();
    assert!(is_child_trie_key(&default_key));

    assert!(!is_child_trie_key(&b":code".to_vec()));
    assert!(!is_child_trie_key(&b":child_storag".to_vec()));
    assert!(!is_child_trie_key(&vec![]));
}

#[test]
fn root_key_filtering() {
    let mut trie_a = child_storage_prefix_bytes();
    trie_a.extend_from_slice(b"a");
    let mut trie_b = child_storage_prefix_bytes();
    trie_b.extend_from_slice(b"b");

    let keys = vec![
        b":code".to_vec(),
        trie_a.clone(),
        b"plain".to_vec(),
        trie_b.clone(),
    ];
    let roots = child_trie_roots(&keys);
    assert_eq!(roots, vec![trie_a, trie_b]);

    let no_children = vec![b"x".to_vec(), b"y".to_vec()];
    assert!(child_trie_roots(&no_children).is_empty());
}
