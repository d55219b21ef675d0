//! A persistent map: a trie over the bits of the hashes of its keys. An
//! insertion copies the nodes on the path of the key and shares all the
//! others with the map it was made from.

use std::sync::Arc;
use vstd::prelude::*;

verus! {

/// A key of a persistent map. It hashes to 64 bits, the same in every
/// snapshot, and its executable equality test is equality of values.
pub trait HashKey: Sized {
    spec fn spec_hash(&self) -> u64;

    fn hash(&self) -> (h: u64)
        ensures
            h == self.spec_hash(),
    ;

    fn same(&self, other: &Self) -> (b: bool)
        ensures
            b == (*self == *other),
    ;
}

/// One key with its value. Entries are shared between the versions of a map
/// and never change.
struct Entry<K, V> {
    key: K,
    value: V,
}

/// A node of the trie. A branch at depth `d` sends a key to `one` when bit
/// `d` of its hash is set and to `zero` otherwise; a leaf holds the entries
/// of one hash.
enum Node<K, V> {
    Empty,
    Leaf { hash: u64, entries: Vec<Arc<Entry<K, V>>> },
    Branch { zero: Arc<Node<K, V>>, one: Arc<Node<K, V>> },
}

/// `Arc::clone` of std: a second handle on the same shared value, which is
/// equal to the first.
#[verifier::external_body]
fn share<T>(a: &Arc<T>) -> (r: Arc<T>)
    ensures
        r == *a,
{
    Arc::clone(a)
}

/// Bit `d` of a hash.
spec fn bit(h: u64, d: u64) -> bool {
    (h >> d) & 1 == 1
}

/// The lowest `d` bits of a hash: what has been consumed above depth `d`.
spec fn low(h: u64, d: u64) -> u64 {
    if d >= 64 {
        h
    } else {
        h & (((1u64 << d) - 1) as u64)
    }
}

proof fn lemma_low_step(x: u64, h: u64, d: u64)
    requires
        d < 64,
        low(x, d) == low(h, d),
        bit(x, d) == bit(h, d),
    ensures
        low(x, (d + 1) as u64) == low(h, (d + 1) as u64),
{
    if d == 63 {
        assert((x & (((1u64 << 63u64) - 1) as u64)) == (h & (((1u64 << 63u64) - 1) as u64)) && (((x
            >> 63u64) & 1 == 1) == ((h >> 63u64) & 1 == 1)) ==> x == h) by (bit_vector);
    } else {
        let e: u64 = (d + 1) as u64;
        assert(d < 63 && e == d + 1 && (x & (((1u64 << d) - 1) as u64)) == (h & (((1u64 << d)
            - 1) as u64)) && (((x >> d) & 1 == 1) == ((h >> d) & 1 == 1)) ==> (x & (((1u64 << e)
            - 1) as u64)) == (h & (((1u64 << e) - 1) as u64))) by (bit_vector);
    }
}

proof fn lemma_low_zero(x: u64, h: u64)
    ensures
        low(x, 0) == low(h, 0),
{
    assert((x & (((1u64 << 0u64) - 1) as u64)) == (h & (((1u64 << 0u64) - 1) as u64)))
        by (bit_vector);
}

// ---------------------------------------------------------------------
// Buckets: the entries of one hash
// ---------------------------------------------------------------------
spec fn bucket_has<K, V>(es: Seq<Arc<Entry<K, V>>>, k: K) -> bool {
    exists|i: int| 0 <= i < es.len() && (#[trigger] es[i]).key == k
}

spec fn bucket_index<K, V>(es: Seq<Arc<Entry<K, V>>>, k: K) -> int {
    choose|i: int| 0 <= i < es.len() && (#[trigger] es[i]).key == k
}

spec fn bucket_view<K, V>(es: Seq<Arc<Entry<K, V>>>) -> Map<K, V> {
    Map::new(|k: K| bucket_has(es, k), |k: K| es[bucket_index(es, k)].value)
}

spec fn bucket_wf<K: HashKey, V>(es: Seq<Arc<Entry<K, V>>>, hash: u64) -> bool {
    &&& forall|i: int| 0 <= i < es.len() ==> (#[trigger] es[i]).key.spec_hash() == hash
    &&& forall|i: int, j: int|
        0 <= i < j < es.len() ==> (#[trigger] es[i]).key != (#[trigger] es[j]).key
}

proof fn lemma_bucket_at<K: HashKey, V>(es: Seq<Arc<Entry<K, V>>>, hash: u64, i: int)
    requires
        bucket_wf(es, hash),
        0 <= i < es.len(),
    ensures
        bucket_has(es, es[i].key),
        bucket_index(es, es[i].key) == i,
        bucket_view(es).contains_key(es[i].key),
        bucket_view(es)[es[i].key] == es[i].value,
{
    let k = es[i].key;
    let j = bucket_index(es, k);
    assert(0 <= j < es.len() && es[j].key == k);
    if j < i {
        assert(es[j].key != es[i].key);
    } else if i < j {
        assert(es[i].key != es[j].key);
    }
}

proof fn lemma_bucket_push<K: HashKey, V>(es: Seq<Arc<Entry<K, V>>>, hash: u64, e: Arc<Entry<K, V>>)
    requires
        bucket_wf(es, hash),
        e.key.spec_hash() == hash,
        !bucket_has(es, e.key),
    ensures
        bucket_wf(es.push(e), hash),
        bucket_view(es.push(e)) == bucket_view(es).insert(e.key, e.value),
{
    let es2 = es.push(e);
    assert forall|i: int, j: int| 0 <= i < j < es2.len() implies (#[trigger] es2[i]).key != (
    #[trigger] es2[j]).key by {
        if j == es.len() {
            assert(es2[i] == es[i]);
            if es[i].key == e.key {
                assert(bucket_has(es, e.key));
            }
        } else {
            assert(es2[i] == es[i] && es2[j] == es[j]);
        }
    }
    assert(bucket_wf(es2, hash));
    assert forall|k: K| bucket_has(es2, k) <==> (k == e.key || bucket_has(es, k)) by {
        if bucket_has(es2, k) {
            let i = bucket_index(es2, k);
            if i < es.len() {
                assert(es[i].key == k);
            }
        }
        if k == e.key {
            assert(es2[es.len() as int].key == k);
        }
        if bucket_has(es, k) {
            let i = bucket_index(es, k);
            assert(es2[i].key == k);
        }
    }
    assert forall|k: K| bucket_has(es2, k) implies #[trigger] bucket_view(es2)[k] == bucket_view(
        es,
    ).insert(e.key, e.value)[k] by {
        let i = bucket_index(es2, k);
        lemma_bucket_at(es2, hash, i);
        if i < es.len() {
            assert(es2[i] == es[i]);
            lemma_bucket_at(es, hash, i);
        }
    }
    assert(bucket_view(es2) =~= bucket_view(es).insert(e.key, e.value));
}

proof fn lemma_bucket_update<K: HashKey, V>(
    es: Seq<Arc<Entry<K, V>>>,
    hash: u64,
    i: int,
    e: Arc<Entry<K, V>>,
)
    requires
        bucket_wf(es, hash),
        0 <= i < es.len(),
        es[i].key == e.key,
    ensures
        bucket_wf(es.update(i, e), hash),
        bucket_view(es.update(i, e)) == bucket_view(es).insert(e.key, e.value),
{
    let es2 = es.update(i, e);
    assert forall|a: int, b: int| 0 <= a < b < es2.len() implies (#[trigger] es2[a]).key != (
    #[trigger] es2[b]).key by {
        assert(es2[a].key == es[a].key && es2[b].key == es[b].key);
    }
    assert forall|a: int| 0 <= a < es2.len() implies (#[trigger] es2[a]).key.spec_hash()
        == hash by {
        assert(es2[a].key == es[a].key);
    }
    assert forall|k: K| bucket_has(es2, k) <==> bucket_has(es, k) by {
        if bucket_has(es2, k) {
            let a = bucket_index(es2, k);
            assert(es[a].key == k);
        }
        if bucket_has(es, k) {
            let a = bucket_index(es, k);
            assert(es2[a].key == k);
        }
    }
    assert(bucket_has(es, e.key));
    assert forall|k: K| bucket_has(es2, k) implies #[trigger] bucket_view(es2)[k] == bucket_view(
        es,
    ).insert(e.key, e.value)[k] by {
        let a = bucket_index(es2, k);
        lemma_bucket_at(es2, hash, a);
        if a != i {
            assert(es2[a] == es[a]);
            lemma_bucket_at(es, hash, a);
        }
    }
    assert(bucket_view(es2) =~= bucket_view(es).insert(e.key, e.value));
}

proof fn lemma_bucket_remove<K: HashKey, V>(es: Seq<Arc<Entry<K, V>>>, hash: u64, i: int)
    requires
        bucket_wf(es, hash),
        0 <= i < es.len(),
    ensures
        bucket_wf(es.remove(i), hash),
        bucket_view(es.remove(i)) == bucket_view(es).remove(es[i].key),
{
    let es2 = es.remove(i);
    let key = es[i].key;
    assert forall|a: int| 0 <= a < es2.len() implies #[trigger] es2[a] == es[if a < i {
        a
    } else {
        a + 1
    }] by {}
    assert forall|a: int, b: int| 0 <= a < b < es2.len() implies (#[trigger] es2[a]).key != (
    #[trigger] es2[b]).key by {
        let a1 = if a < i { a } else { a + 1 };
        let b1 = if b < i { b } else { b + 1 };
        assert(es2[a] == es[a1] && es2[b] == es[b1]);
        assert(es[a1].key != es[b1].key);
    }
    assert forall|a: int| 0 <= a < es2.len() implies (#[trigger] es2[a]).key.spec_hash()
        == hash by {
        let a1 = if a < i { a } else { a + 1 };
        assert(es2[a] == es[a1]);
    }
    assert forall|k: K| bucket_has(es2, k) <==> (k != key && bucket_has(es, k)) by {
        if bucket_has(es2, k) {
            let a = bucket_index(es2, k);
            let a1 = if a < i { a } else { a + 1 };
            assert(es2[a] == es[a1]);
            assert(es[a1].key == k);
            if a1 < i {
                assert(es[a1].key != es[i].key);
            } else {
                assert(es[i].key != es[a1].key);
            }
        }
        if k != key && bucket_has(es, k) {
            let a = bucket_index(es, k);
            let a2 = if a < i { a } else { a - 1 };
            assert(es2[a2] == es[a]);
            assert(es2[a2].key == k);
        }
    }
    assert forall|k: K| bucket_has(es2, k) implies #[trigger] bucket_view(es2)[k] == bucket_view(
        es,
    ).remove(key)[k] by {
        let a = bucket_index(es2, k);
        lemma_bucket_at(es2, hash, a);
        let a1 = if a < i { a } else { a + 1 };
        assert(es2[a] == es[a1]);
        lemma_bucket_at(es, hash, a1);
    }
    assert(bucket_view(es2) =~= bucket_view(es).remove(key));
}

/// The place of `k` in a bucket, if it is there.
fn bucket_find<K: HashKey, V>(es: &Vec<Arc<Entry<K, V>>>, k: &K) -> (r: Option<usize>)
    ensures
        match r {
            Some(i) => i < es.len() && es[i as int].key == *k,
            None => !bucket_has(es@, *k),
        },
{
    let mut i: usize = 0;
    while i < es.len()
        invariant
            i <= es.len(),
            forall|j: int| 0 <= j < i ==> (#[trigger] es[j]).key != *k,
        decreases es.len() - i,
    {
        if es[i].key.same(k) {
            return Some(i);
        }
        i += 1;
    }
    None
}

/// A copy of a bucket that shares its entries, with `skip` left out (pass the
/// length to keep them all) and `extra` pushed behind.
fn bucket_copy<K, V>(es: &Vec<Arc<Entry<K, V>>>, skip: usize, extra: Option<Arc<Entry<K, V>>>) -> (r:
    Vec<Arc<Entry<K, V>>>)
    requires
        skip <= es.len(),
    ensures
        r@ == {
            let kept = if skip < es.len() {
                es@.remove(skip as int)
            } else {
                es@
            };
            match extra {
                Some(e) => kept.push(e),
                None => kept,
            }
        },
{
    let mut out: Vec<Arc<Entry<K, V>>> = Vec::new();
    let mut i: usize = 0;
    while i < es.len()
        invariant
            i <= es.len(),
            skip <= es.len(),
            i <= skip ==> out@ == es@.subrange(0, i as int),
            i > skip ==> out@ == es@.remove(skip as int).subrange(0, i - 1),
        decreases es.len() - i,
    {
        if i != skip {
            out.push(share(&es[i]));
        }
        i += 1;
        proof {
            if i <= skip {
                assert(out@ =~= es@.subrange(0, i as int));
            } else {
                assert(out@ =~= es@.remove(skip as int).subrange(0, i - 1));
            }
        }
    }
    proof {
        if skip < es.len() {
            assert(out@ =~= es@.remove(skip as int));
        } else {
            assert(out@ =~= es@);
        }
    }
    match extra {
        Some(e) => {
            out.push(e);
        },
        None => {},
    }
    out
}


// ---------------------------------------------------------------------
// Nodes
// ---------------------------------------------------------------------
/// What a subtree holds, as a map.
spec fn node_view<K, V>(n: Node<K, V>) -> Map<K, V>
    decreases n,
{
    match n {
        Node::Empty => Map::empty(),
        Node::Leaf { hash, entries } => bucket_view(entries@),
        Node::Branch { zero, one } => node_view(*zero).union_prefer_right(node_view(*one)),
    }
}

/// What the subtree behind a handle holds.
#[verifier::inline]
spec fn shared_view<K, V>(a: Arc<Node<K, V>>) -> Map<K, V> {
    node_view(*a)
}

/// A subtree rooted at depth `d` is well formed: a bucket holds distinct keys
/// of one hash, and a branch has sorted its keys by bit `d` of their hashes.
spec fn node_wf<K: HashKey, V>(n: Node<K, V>, d: u64) -> bool
    decreases n,
{
    match n {
        Node::Empty => true,
        Node::Leaf { hash, entries } => bucket_wf(entries@, hash),
        Node::Branch { zero, one } => {
            &&& d < 64
            &&& node_wf(*zero, (d + 1) as u64)
            &&& node_wf(*one, (d + 1) as u64)
            &&& forall|k: K| #[trigger]
                node_view(*zero).contains_key(k) ==> !bit(k.spec_hash(), d)
            &&& forall|k: K| #[trigger] node_view(*one).contains_key(k) ==> bit(k.spec_hash(), d)
        },
    }
}

/// Every key of the subtree shares the lowest `d` bits of its hash with `h`:
/// the path that leads to depth `d` is the path of `h`.
spec fn on_path<K: HashKey, V>(n: Node<K, V>, h: u64, d: u64) -> bool {
    forall|k: K| #[trigger] node_view(n).contains_key(k) ==> low(k.spec_hash(), d) == low(h, d)
}

fn find<'a, K: HashKey, V>(n: &'a Node<K, V>, k: &K, h: u64, d: u64) -> (r: Option<&'a V>)
    requires
        node_wf(*n, d),
        h == k.spec_hash(),
    ensures
        r == (if node_view(*n).contains_key(*k) {
            Some(&node_view(*n)[*k])
        } else {
            None
        }),
    decreases n,
{
    match n {
        Node::Empty => {
            assert(node_view(*n) =~= Map::<K, V>::empty());
            None
        },
        Node::Leaf { hash, entries } => {
            if *hash != h {
                proof {
                    if bucket_has(entries@, *k) {
                        let i = bucket_index(entries@, *k);
                        assert(entries@[i].key.spec_hash() == *hash);
                    }
                }
                return None;
            }
            match bucket_find(entries, k) {
                Some(i) => {
                    proof {
                        lemma_bucket_at(entries@, *hash, i as int);
                    }
                    Some(&entries[i].value)
                },
                None => None,
            }
        },
        Node::Branch { zero, one } => {
            if (h >> d) & 1 == 1 {
                assert(!shared_view(*zero).contains_key(*k));
                find(one, k, h, d + 1)
            } else {
                assert(!shared_view(*one).contains_key(*k));
                find(zero, k, h, d + 1)
            }
        },
    }
}

/// A branch at depth `d` that holds the subtree `a` and the one entry `e`,
/// whose hashes differ somewhere at or above bit `d`.
fn split<K: HashKey, V>(a: Arc<Node<K, V>>, ha: u64, e: Arc<Entry<K, V>>, h: u64, d: u64) -> (r:
    Arc<Node<K, V>>)
    requires
        d <= 64,
        *a is Leaf,
        a->hash == ha,
        node_wf(*a, d),
        h == e.key.spec_hash(),
        ha != h,
        low(ha, d) == low(h, d),
    ensures
        node_wf(*r, d),
        node_view(*r) == node_view(*a).insert(e.key, e.value),
    decreases 64 - d,
{
    let ghost va = shared_view(a);
    proof {
        assert forall|k: K| va.contains_key(k) implies k.spec_hash() == ha by {
            let i = bucket_index(a->entries@, k);
            assert(a->entries@[i].key == k);
        }
    }
    let side_a = (ha >> d) & 1 == 1;
    let side_e = (h >> d) & 1 == 1;
    if side_a != side_e {
        let mut es: Vec<Arc<Entry<K, V>>> = Vec::new();
        let ghost e0 = e;
        es.push(e);
        let leaf = Arc::new(Node::Leaf { hash: h, entries: es });
        proof {
            lemma_bucket_push(Seq::<Arc<Entry<K, V>>>::empty(), h, e0);
            assert(Seq::<Arc<Entry<K, V>>>::empty().push(e0) =~= es@);
            assert(bucket_view(Seq::<Arc<Entry<K, V>>>::empty()) =~= Map::<K, V>::empty());
            assert(node_view(*leaf) =~= Map::<K, V>::empty().insert(e0.key, e0.value));
        }
        let r = if side_e {
            Arc::new(Node::Branch { zero: a, one: leaf })
        } else {
            Arc::new(Node::Branch { zero: leaf, one: a })
        };
        proof {
            assert(node_view(*r) =~= va.insert(e0.key, e0.value));
            assert(node_wf(*a, (d + 1) as u64));
            assert(node_wf(*leaf, (d + 1) as u64));
            assert(node_wf(*r, d));
        }
        r
    } else {
        proof {
            lemma_low_step(ha, h, d);
        }
        let ghost e0 = e;
        let sub = split(a, ha, e, h, d + 1);
        proof {
            assert(node_view(Node::<K, V>::Empty) =~= Map::<K, V>::empty());
            assert forall|k: K| #[trigger] shared_view(sub).contains_key(k) implies bit(
                k.spec_hash(),
                d,
            ) == side_e by {
                if k != e0.key {
                    assert(va.contains_key(k));
                }
            }
        }
        let r = if side_e {
            Arc::new(Node::Branch { zero: Arc::new(Node::Empty), one: sub })
        } else {
            Arc::new(Node::Branch { zero: sub, one: Arc::new(Node::Empty) })
        };
        proof {
            assert(node_view(*r) =~= va.insert(e0.key, e0.value));
            assert(d < 64);
            assert(node_wf(*sub, (d + 1) as u64));
            assert(node_wf(Node::<K, V>::Empty, (d + 1) as u64));
            assert(forall|k: K| #[trigger]
                shared_view(sub).contains_key(k) ==> bit(k.spec_hash(), d) == side_e);
            assert(node_wf(*r, d));
        }
        r
    }
}

/// The subtree with the entry `e` put in, in place of any entry of its key.
fn put<K: HashKey, V>(n: &Arc<Node<K, V>>, e: Arc<Entry<K, V>>, h: u64, d: u64) -> (r: Arc<
    Node<K, V>,
>)
    requires
        d <= 64,
        node_wf(**n, d),
        h == e.key.spec_hash(),
        on_path(**n, h, d),
    ensures
        node_wf(*r, d),
        node_view(*r) == node_view(**n).insert(e.key, e.value),
    decreases **n,
{
    let ghost e0 = e;
    match &**n {
        Node::Empty => {
            let mut es: Vec<Arc<Entry<K, V>>> = Vec::new();
            es.push(e);
            let r = Arc::new(Node::Leaf { hash: h, entries: es });
            proof {
                lemma_bucket_push(Seq::<Arc<Entry<K, V>>>::empty(), h, e0);
                assert(Seq::<Arc<Entry<K, V>>>::empty().push(e0) =~= es@);
                assert(bucket_view(Seq::<Arc<Entry<K, V>>>::empty()) =~= Map::<K, V>::empty());
            }
            r
        },
        Node::Leaf { hash, entries } => {
            if *hash == h {
                match bucket_find(entries, &e.key) {
                    Some(i) => {
                        let mut es = bucket_copy(entries, entries.len(), None);
                        es[i] = e;
                        proof {
                            lemma_bucket_update(entries@, h, i as int, e0);
                        }
                        Arc::new(Node::Leaf { hash: h, entries: es })
                    },
                    None => {
                        let es = bucket_copy(entries, entries.len(), Some(e));
                        proof {
                            lemma_bucket_push(entries@, h, e0);
                        }
                        Arc::new(Node::Leaf { hash: h, entries: es })
                    },
                }
            } else if entries.len() == 0 {
                let mut es: Vec<Arc<Entry<K, V>>> = Vec::new();
                es.push(e);
                let r = Arc::new(Node::Leaf { hash: h, entries: es });
                proof {
                    lemma_bucket_push(Seq::<Arc<Entry<K, V>>>::empty(), h, e0);
                    assert(Seq::<Arc<Entry<K, V>>>::empty().push(e0) =~= es@);
                    assert(entries@ =~= Seq::<Arc<Entry<K, V>>>::empty());
                }
                r
            } else {
                proof {
                    lemma_bucket_at(entries@, *hash, 0);
                    assert(node_view(**n).contains_key(entries@[0].key));
                }
                split(share(n), *hash, e, h, d)
            }
        },
        Node::Branch { zero, one } => {
            let ghost vz = shared_view(*zero);
            let ghost vo = shared_view(*one);
            proof {
                assert forall|k: K| #[trigger]
                    vz.contains_key(k) implies low(k.spec_hash(), (d + 1) as u64) == low(
                    h,
                    (d + 1) as u64,
                ) || bit(h, d) by {
                    assert(node_view(**n).contains_key(k));
                    if !bit(h, d) {
                        lemma_low_step(k.spec_hash(), h, d);
                    }
                }
                assert forall|k: K| #[trigger]
                    vo.contains_key(k) implies low(k.spec_hash(), (d + 1) as u64) == low(
                    h,
                    (d + 1) as u64,
                ) || !bit(h, d) by {
                    assert(node_view(**n).contains_key(k));
                    if bit(h, d) {
                        lemma_low_step(k.spec_hash(), h, d);
                    }
                }
            }
            if (h >> d) & 1 == 1 {
                let sub = put(one, e, h, d + 1);
                let r = Arc::new(Node::Branch { zero: share(zero), one: sub });
                proof {
                    assert(node_view(*r) =~= node_view(**n).insert(e0.key, e0.value));
                }
                r
            } else {
                let sub = put(zero, e, h, d + 1);
                let r = Arc::new(Node::Branch { zero: sub, one: share(one) });
                proof {
                    assert(node_view(*r) =~= node_view(**n).insert(e0.key, e0.value));
                }
                r
            }
        },
    }
}

/// The subtree without the key `k`.
fn cut<K: HashKey, V>(n: &Arc<Node<K, V>>, k: &K, h: u64, d: u64) -> (r: Arc<Node<K, V>>)
    requires
        node_wf(**n, d),
        h == k.spec_hash(),
    ensures
        node_wf(*r, d),
        node_view(*r) == node_view(**n).remove(*k),
    decreases **n,
{
    match &**n {
        Node::Empty => {
            proof {
                assert(node_view(**n).remove(*k) =~= node_view(**n));
            }
            share(n)
        },
        Node::Leaf { hash, entries } => {
            if *hash != h {
                proof {
                    if bucket_has(entries@, *k) {
                        let i = bucket_index(entries@, *k);
                        assert(entries@[i].key.spec_hash() == *hash);
                    }
                    assert(node_view(**n).remove(*k) =~= node_view(**n));
                }
                return share(n);
            }
            match bucket_find(entries, k) {
                Some(i) => {
                    let es = bucket_copy(entries, i, None);
                    proof {
                        lemma_bucket_remove(entries@, h, i as int);
                    }
                    Arc::new(Node::Leaf { hash: h, entries: es })
                },
                None => {
                    proof {
                        assert(node_view(**n).remove(*k) =~= node_view(**n));
                    }
                    share(n)
                },
            }
        },
        Node::Branch { zero, one } => {
            if (h >> d) & 1 == 1 {
                assert(!shared_view(*zero).contains_key(*k));
                let sub = cut(one, k, h, d + 1);
                let r = Arc::new(Node::Branch { zero: share(zero), one: sub });
                proof {
                    assert(node_view(*r) =~= node_view(**n).remove(*k));
                }
                r
            } else {
                assert(!shared_view(*one).contains_key(*k));
                let sub = cut(zero, k, h, d + 1);
                let r = Arc::new(Node::Branch { zero: sub, one: share(one) });
                proof {
                    assert(node_view(*r) =~= node_view(**n).remove(*k));
                }
                r
            }
        },
    }
}


/// The pairs are the entries of the map, each one once.
pub open spec fn lists<K, V>(pairs: Seq<(&K, &V)>, m: Map<K, V>) -> bool {
    &&& forall|i: int|
        0 <= i < pairs.len() ==> m.contains_key(*(#[trigger] pairs[i]).0) && m[*pairs[i].0]
            == *pairs[i].1
    &&& forall|k: K| #[trigger]
        m.contains_key(k) ==> exists|i: int| 0 <= i < pairs.len() && *(#[trigger] pairs[i]).0 == k
    &&& forall|i: int, j: int|
        0 <= i < j < pairs.len() ==> *(#[trigger] pairs[i]).0 != *(#[trigger] pairs[j]).0
}

/// The entries of a subtree, behind the pairs that `acc` holds already.
fn gather<'a, K: HashKey, V>(n: &'a Node<K, V>, d: u64, acc: Vec<(&'a K, &'a V)>) -> (r: Vec<
    (&'a K, &'a V),
>)
    requires
        node_wf(*n, d),
    ensures
        r@.len() >= acc@.len(),
        r@.take(acc@.len() as int) == acc@,
        lists(r@.skip(acc@.len() as int), node_view(*n)),
    decreases n,
{
    let ghost start = acc@;
    match n {
        Node::Empty => {
            proof {
                assert(acc@.take(acc@.len() as int) =~= acc@);
                assert(acc@.skip(acc@.len() as int) =~= Seq::<(&K, &V)>::empty());
            }
            acc
        },
        Node::Leaf { hash, entries } => {
            let mut out = acc;
            let mut i: usize = 0;
            proof {
                assert(out@.take(start.len() as int) =~= start);
            }
            while i < entries.len()
                invariant
                    i <= entries.len(),
                    bucket_wf(entries@, *hash),
                    out@.len() == start.len() + i,
                    out@.take(start.len() as int) == start,
                    forall|j: int|
                        0 <= j < i ==> *(#[trigger] out@[start.len() + j]).0 == entries@[j].key
                            && *out@[start.len() + j].1 == entries@[j].value,
                decreases entries.len() - i,
            {
                let ghost before = out@;
                out.push((&entries[i].key, &entries[i].value));
                proof {
                    assert(out@.take(start.len() as int) =~= before.take(start.len() as int));
                    assert forall|j: int| 0 <= j < i + 1 implies *(
                    #[trigger] out@[start.len() + j]).0 == entries@[j].key && *out@[start.len()
                        + j].1 == entries@[j].value by {
                        if j < i {
                            assert(out@[start.len() + j] == before[start.len() + j]);
                        }
                    }
                }
                i += 1;
            }
            proof {
                let pairs = out@.skip(start.len() as int);
                let m = node_view(*n);
                assert forall|j: int| 0 <= j < pairs.len() implies m.contains_key(
                    *(#[trigger] pairs[j]).0,
                ) && m[*pairs[j].0] == *pairs[j].1 by {
                    assert(pairs[j] == out@[start.len() + j]);
                    lemma_bucket_at(entries@, *hash, j);
                }
                assert forall|k: K| #[trigger] m.contains_key(k) implies exists|j: int|
                    0 <= j < pairs.len() && *(#[trigger] pairs[j]).0 == k by {
                    let j = bucket_index(entries@, k);
                    assert(pairs[j] == out@[start.len() + j]);
                    assert(*pairs[j].0 == k);
                }
                assert forall|a: int, b: int| 0 <= a < b < pairs.len() implies *(
                #[trigger] pairs[a]).0 != *(#[trigger] pairs[b]).0 by {
                    assert(pairs[a] == out@[start.len() + a]);
                    assert(pairs[b] == out@[start.len() + b]);
                    assert(entries@[a].key != entries@[b].key);
                }
            }
            out
        },
        Node::Branch { zero, one } => {
            let left = gather(zero, d + 1, acc);
            let ghost middle = left@;
            let both = gather(one, d + 1, left);
            proof {
                let lo = middle.skip(start.len() as int);
                let hi = both@.skip(middle.len() as int);
                let pairs = both@.skip(start.len() as int);
                let m = node_view(*n);
                let mz = shared_view(*zero);
                let mo = shared_view(*one);
                assert(both@.take(start.len() as int) =~= both@.take(middle.len() as int).take(
                    start.len() as int,
                ));
                assert forall|j: int| 0 <= j < pairs.len() implies #[trigger] pairs[j] == (if j
                    < lo.len() {
                    lo[j]
                } else {
                    hi[j - lo.len()]
                }) by {
                    if j < lo.len() {
                        assert(both@.take(middle.len() as int)[start.len() + j] == middle[
                            start.len() + j]);
                    }
                }
                assert forall|j: int| 0 <= j < pairs.len() implies m.contains_key(
                    *(#[trigger] pairs[j]).0,
                ) && m[*pairs[j].0] == *pairs[j].1 by {
                    if j < lo.len() {
                        assert(pairs[j] == lo[j]);
                        assert(mz.contains_key(*lo[j].0));
                        assert(!mo.contains_key(*lo[j].0));
                    } else {
                        assert(pairs[j] == hi[j - lo.len()]);
                        assert(mo.contains_key(*hi[j - lo.len()].0));
                    }
                }
                assert forall|k: K| #[trigger] m.contains_key(k) implies exists|j: int|
                    0 <= j < pairs.len() && *(#[trigger] pairs[j]).0 == k by {
                    if mo.contains_key(k) {
                        let j = choose|j: int| 0 <= j < hi.len() && *(#[trigger] hi[j]).0 == k;
                        assert(pairs[lo.len() + j] == hi[j]);
                        assert(*pairs[lo.len() + j].0 == k);
                    } else {
                        assert(mz.contains_key(k));
                        let j = choose|j: int| 0 <= j < lo.len() && *(#[trigger] lo[j]).0 == k;
                        assert(pairs[j] == lo[j]);
                        assert(*pairs[j].0 == k);
                    }
                }
                assert forall|a: int, b: int| 0 <= a < b < pairs.len() implies *(
                #[trigger] pairs[a]).0 != *(#[trigger] pairs[b]).0 by {
                    if b < lo.len() {
                        assert(pairs[a] == lo[a] && pairs[b] == lo[b]);
                    } else if a >= lo.len() {
                        assert(pairs[a] == hi[a - lo.len()] && pairs[b] == hi[b - lo.len()]);
                    } else {
                        assert(pairs[a] == lo[a] && pairs[b] == hi[b - lo.len()]);
                        assert(mz.contains_key(*lo[a].0));
                        assert(mo.contains_key(*hi[b - lo.len()].0));
                    }
                }
            }
            both
        },
    }
}

// ---------------------------------------------------------------------
// The map
// ---------------------------------------------------------------------
/// A persistent map. Every operation leaves the map it is called on as it
/// was and returns a new one, which shares with the old one all the nodes
/// that the change did not touch.
pub struct Hamt<K, V> {
    root: Arc<Node<K, V>>,
}

/// Why an insertion was refused.
#[derive(Debug, PartialEq, Eq)]
pub enum InsertError {
    /// The key is in the map already.
    EntryExists,
}

impl<K, V> View for Hamt<K, V> {
    type V = Map<K, V>;

    closed spec fn view(&self) -> Map<K, V> {
        node_view(*self.root)
    }
}

impl<K, V> Clone for Hamt<K, V> {
    /// A second handle on the same map: no entry is copied.
    fn clone(&self) -> (r: Self)
        ensures
            r == *self,
    {
        Hamt { root: share(&self.root) }
    }
}

impl<K: HashKey, V> Hamt<K, V> {
    /// The trie is well formed. `new` establishes it and every operation
    /// keeps it.
    pub closed spec fn wf(&self) -> bool {
        node_wf(*self.root, 0)
    }

    /// The empty map.
    pub fn new() -> (r: Self)
        ensures
            r.wf(),
            r@ == Map::<K, V>::empty(),
    {
        Hamt { root: Arc::new(Node::Empty) }
    }

    /// The entries of the map, each one once, in no order that a caller
    /// may count on.
    pub fn iter(&self) -> (r: Vec<(&K, &V)>)
        requires
            self.wf(),
        ensures
            lists(r@, self@),
    {
        let r = gather(&*self.root, 0, Vec::new());
        proof {
            assert(r@.skip(0) =~= r@);
        }
        r
    }

    /// The value of `k`, if the map has one.
    pub fn lookup(&self, k: &K) -> (r: Option<&V>)
        requires
            self.wf(),
        ensures
            match r {
                Some(v) => self@.contains_key(*k) && *v == self@[*k],
                None => !self@.contains_key(*k),
            },
    {
        find(&*self.root, k, k.hash(), 0)
    }

    /// Whether the map has a value for `k`.
    pub fn contains_key(&self, k: &K) -> (r: bool)
        requires
            self.wf(),
        ensures
            r == self@.contains_key(*k),
    {
        self.lookup(k).is_some()
    }

    fn with(&self, k: K, v: V) -> (r: Self)
        requires
            self.wf(),
        ensures
            r.wf(),
            r@ == self@.insert(k, v),
    {
        let h = k.hash();
        proof {
            assert forall|x: K| #[trigger] shared_view(self.root).contains_key(x) implies low(
                x.spec_hash(),
                0,
            ) == low(h, 0) by {
                lemma_low_zero(x.spec_hash(), h);
            }
        }
        Hamt { root: put(&self.root, Arc::new(Entry { key: k, value: v }), h, 0) }
    }

    /// The map without `k`.
    pub fn remove(&self, k: &K) -> (r: Self)
        requires
            self.wf(),
        ensures
            r.wf(),
            r@ == self@.remove(*k),
    {
        Hamt { root: cut(&self.root, k, k.hash(), 0) }
    }

    /// The map with `k` bound to `v`, or `EntryExists` if `k` is bound
    /// already.
    pub fn insert(&self, k: K, v: V) -> (r: Result<Self, InsertError>)
        requires
            self.wf(),
        ensures
            match r {
                Ok(m) => !self@.contains_key(k) && m.wf() && m@ == self@.insert(k, v),
                Err(e) => self@.contains_key(k) && e == InsertError::EntryExists,
            },
    {
        if self.contains_key(&k) {
            Err(InsertError::EntryExists)
        } else {
            Ok(self.with(k, v))
        }
    }

    /// The map with `k` bound to `v` if `k` was not bound, and otherwise to
    /// what `f` makes of the value it was bound to; where `f` returns `None`
    /// the key is removed.
    pub fn insert_or_update<F: FnOnce(&V) -> Option<V>>(&self, k: K, v: V, f: F) -> (r: Self)
        requires
            self.wf(),
            self@.contains_key(k) ==> f.requires((&self@[k],)),
        ensures
            r.wf(),
            !self@.contains_key(k) ==> r@ == self@.insert(k, v),
            self@.contains_key(k) ==> exists|out: Option<V>|
                {
                    &&& f.ensures((&self@[k],), out)
                    &&& r@ == match out {
                        Some(n) => self@.insert(k, n),
                        None => self@.remove(k),
                    }
                },
    {
        match self.lookup(&k) {
            None => self.with(k, v),
            Some(old) => {
                let out = f(old);
                match out {
                    Some(n) => self.with(k, n),
                    None => self.remove(&k),
                }
            },
        }
    }
}

} // verus!
