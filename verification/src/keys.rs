use vstd::prelude::*;

verus! {

/// The view of a list of raw keys: each key as its byte sequence.
pub open spec fn byte_views(s: Seq<Vec<u8>>) -> Seq<Seq<u8>> {
    s.map_values(|v: Vec<u8>| v@)
}

/// Strict lexicographic order on raw key bytes.  This is the order in which
/// the remote service lists storage keys and interprets pagination cursors;
/// it is never recomputed over the wire, only relied on in specifications.
pub open spec fn lex_lt(a: Seq<u8>, b: Seq<u8>) -> bool
    decreases a.len(),
{
    if b.len() == 0 {
        false
    } else if a.len() == 0 {
        true
    } else if a[0] < b[0] {
        true
    } else if a[0] > b[0] {
        false
    } else {
        lex_lt(a.drop_first(), b.drop_first())
    }
}

pub open spec fn lex_le(a: Seq<u8>, b: Seq<u8>) -> bool {
    lex_lt(a, b) || a == b
}

/// A list of keys in strictly ascending lexicographic order, no duplicates.
pub open spec fn strictly_sorted(u: Seq<Seq<u8>>) -> bool {
    forall|i: int, j: int| 0 <= i < j < u.len() ==> #[trigger] lex_lt(u[i], u[j])
}

pub proof fn lemma_lex_irreflexive(a: Seq<u8>)
    ensures
        !lex_lt(a, a),
    decreases a.len(),
{
    if a.len() > 0 {
        lemma_lex_irreflexive(a.drop_first());
    }
}

pub proof fn lemma_lex_transitive(a: Seq<u8>, b: Seq<u8>, c: Seq<u8>)
    requires
        lex_lt(a, b),
        lex_lt(b, c),
    ensures
        lex_lt(a, c),
    decreases a.len(),
{
    if a.len() > 0 && b.len() > 0 && c.len() > 0 && a[0] == b[0] && b[0] == c[0] {
        lemma_lex_transitive(a.drop_first(), b.drop_first(), c.drop_first());
    }
}

/// `key` begins with `prefix`.
pub open spec fn starts_with(key: Seq<u8>, prefix: Seq<u8>) -> bool {
    prefix.len() <= key.len() && key.take(prefix.len() as int) == prefix
}

/// The well-known byte prefix that marks a child-trie root key in root
/// storage: the ASCII bytes of `:child_storage:`.
pub open spec fn child_storage_prefix() -> Seq<u8> {
    seq![58u8, 99u8, 104u8, 105u8, 108u8, 100u8, 95u8, 115u8, 116u8, 111u8, 114u8, 97u8, 103u8, 101u8, 58u8]
}

/// The longer well-known prefix of default-namespace child tries: the ASCII
/// bytes of `:child_storage:default:`.
pub open spec fn default_child_storage_prefix() -> Seq<u8> {
    child_storage_prefix() + seq![100u8, 101u8, 102u8, 97u8, 117u8, 108u8, 116u8, 58u8]
}

/// The bytes of the child-trie marker prefix, as a vector.
pub fn child_storage_prefix_bytes() -> (r: Vec<u8>)
    ensures
        r@ == child_storage_prefix(),
{
    let mut v: Vec<u8> = Vec::new();
    v.push(58u8);
    v.push(99u8);
    v.push(104u8);
    v.push(105u8);
    v.push(108u8);
    v.push(100u8);
    v.push(95u8);
    v.push(115u8);
    v.push(116u8);
    v.push(111u8);
    v.push(114u8);
    v.push(97u8);
    v.push(103u8);
    v.push(101u8);
    v.push(58u8);
    proof {
        assert(v@ =~= child_storage_prefix());
    }
    v
}

/// The bytes of the default-namespace child-trie prefix, as a vector.
pub fn default_child_storage_prefix_bytes() -> (r: Vec<u8>)
    ensures
        r@ == default_child_storage_prefix(),
{
    let mut v = child_storage_prefix_bytes();
    v.push(100u8);
    v.push(101u8);
    v.push(102u8);
    v.push(97u8);
    v.push(117u8);
    v.push(108u8);
    v.push(116u8);
    v.push(58u8);
    proof {
        assert(v@ =~= default_child_storage_prefix());
    }
    v
}

/// A fresh copy of a byte vector.
pub fn copy_bytes(src: &Vec<u8>) -> (r: Vec<u8>)
    ensures
        r@ == src@,
{
    let mut r: Vec<u8> = Vec::new();
    let mut i: usize = 0;
    while i < src.len()
        invariant
            i <= src@.len(),
            r@ == src@.take(i as int),
        decreases src@.len() - i,
    {
        r.push(src[i]);
        proof {
            assert(r@ =~= src@.take(i + 1));
        }
        i = i + 1;
    }
    proof {
        assert(src@.take(src@.len() as int) =~= src@);
    }
    r
}

/// Whether `key` starts with `prefix`, byte for byte.
pub fn bytes_start_with(key: &Vec<u8>, prefix: &Vec<u8>) -> (r: bool)
    ensures
        r == starts_with(key@, prefix@),
{
    if prefix.len() > key.len() {
        return false;
    }
    let mut i: usize = 0;
    while i < prefix.len()
        invariant
            i <= prefix@.len() <= key@.len(),
            forall|j: int| 0 <= j < i ==> key@[j] == prefix@[j],
        decreases prefix@.len() - i,
    {
        if key[i] != prefix[i] {
            proof {
                assert(key@.take(prefix@.len() as int)[i as int] != prefix@[i as int]);
            }
            return false;
        }
        i = i + 1;
    }
    proof {
        assert(key@.take(prefix@.len() as int) =~= prefix@);
    }
    true
}

/// `key` marks the root of a child-trie namespace.
pub fn is_child_trie_key(key: &Vec<u8>) -> (r: bool)
    ensures
        r == starts_with(key@, child_storage_prefix()),
{
    let prefix = child_storage_prefix_bytes();
    bytes_start_with(key, &prefix)
}

/// Select, in order, the keys of a root key set that mark child-trie
/// namespaces.
pub fn child_trie_roots(keys: &Vec<Vec<u8>>) -> (r: Vec<Vec<u8>>)
    ensures
        byte_views(r@) == byte_views(keys@).filter(
            |k: Seq<u8>| starts_with(k, child_storage_prefix()),
        ),
{
    broadcast use Seq::lemma_filter_push;

    let mut r: Vec<Vec<u8>> = Vec::new();
    let mut i: usize = 0;
    while i < keys.len()
        invariant
            i <= keys@.len(),
            byte_views(r@) == byte_views(keys@.take(i as int)).filter(
                |k: Seq<u8>| starts_with(k, child_storage_prefix()),
            ),
        decreases keys@.len() - i,
    {
        let ghost prev = r@;
        if is_child_trie_key(&keys[i]) {
            let copied = copy_bytes(&keys[i]);
            r.push(copied);
        }
        proof {
            let p = |k: Seq<u8>| starts_with(k, child_storage_prefix());
            assert(byte_views(keys@.take(i + 1)) =~= byte_views(keys@.take(i as int)).push(
                keys@[i as int]@,
            ));
            byte_views(keys@.take(i as int)).lemma_filter_push(keys@[i as int]@, p);
            if p(keys@[i as int]@) {
                assert(byte_views(r@) =~= byte_views(prev).push(keys@[i as int]@));
            } else {
                assert(byte_views(r@) =~= byte_views(prev));
            }
        }
        i = i + 1;
    }
    proof {
        assert(keys@.take(keys@.len() as int) =~= keys@);
    }
    r
}

} // verus!
