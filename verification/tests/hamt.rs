use jormungandr::blockcfg::ChainLength;
use jormungandr::explorer::set::HamtSet;
use jormungandr::hamt::{Hamt, HashKey, InsertError};
use jormungandr::key::Digest;
use jormungandr::multiverse::Multiverse;

#[test]
fn empty_map_has_nothing() {
    let m: Hamt<u32, u32> = Hamt::new();
    assert_eq!(m.lookup(&0), None);
    assert!(!m.contains_key(&7));
}

#[test]
fn insert_then_lookup() {
    let m: Hamt<u32, &'static str> = Hamt::new();
    let m = m.insert(1, "one").unwrap();
    let m = m.insert(2, "two").unwrap();
    assert_eq!(m.lookup(&1), Some(&"one"));
    assert_eq!(m.lookup(&2), Some(&"two"));
    assert_eq!(m.lookup(&3), None);
}

#[test]
fn insert_of_a_bound_key_is_refused() {
    let m: Hamt<u32, u32> = Hamt::new().insert(5, 50).unwrap();
    assert_eq!(m.insert(5, 51).err(), Some(InsertError::EntryExists));
    assert_eq!(m.lookup(&5), Some(&50));
}

#[test]
fn old_versions_are_left_as_they_were() {
    let v0: Hamt<u32, u32> = Hamt::new();
    let v1 = v0.insert(1, 10).unwrap();
    let v2 = v1.insert(2, 20).unwrap();
    let v3 = v2.insert_or_update(1, 0, |old| Some(*old + 1));
    let v4 = v3.remove(&2);
    assert_eq!(v0.lookup(&1), None);
    assert_eq!(v1.lookup(&1), Some(&10));
    assert_eq!(v1.lookup(&2), None);
    assert_eq!(v2.lookup(&1), Some(&10));
    assert_eq!(v2.lookup(&2), Some(&20));
    assert_eq!(v3.lookup(&1), Some(&11));
    assert_eq!(v3.lookup(&2), Some(&20));
    assert_eq!(v4.lookup(&1), Some(&11));
    assert_eq!(v4.lookup(&2), None);
    let copy = v2.clone();
    assert_eq!(copy.lookup(&2), Some(&20));
}

#[test]
fn insert_or_update_inserts_updates_and_removes() {
    let m: Hamt<u32, u32> = Hamt::new();
    let m = m.insert_or_update(9, 1, |old| Some(*old + 100));
    assert_eq!(m.lookup(&9), Some(&1));
    let m = m.insert_or_update(9, 1, |old| Some(*old + 100));
    assert_eq!(m.lookup(&9), Some(&101));
    let m = m.insert_or_update(9, 1, |_| None);
    assert_eq!(m.lookup(&9), None);
}

#[test]
fn many_keys() {
    let mut m: Hamt<u32, u32> = Hamt::new();
    for k in 0..2000u32 {
        m = m.insert(k.wrapping_mul(2654435761), k).unwrap();
    }
    for k in 0..2000u32 {
        assert_eq!(m.lookup(&k.wrapping_mul(2654435761)), Some(&k));
    }
    assert_eq!(m.lookup(&1), None);
    for k in 0..1000u32 {
        m = m.remove(&k.wrapping_mul(2654435761));
    }
    for k in 0..2000u32 {
        let expected = if k < 1000 { None } else { Some(&k) };
        assert_eq!(m.lookup(&k.wrapping_mul(2654435761)), expected);
    }
}

fn colliding(n: u8) -> Digest {
    let mut bytes = [0u8; 32];
    bytes[31] = n;
    Digest(bytes)
}

#[test]
fn keys_of_one_hash_are_kept_apart() {
    assert_eq!(colliding(1).hash(), colliding(2).hash());
    assert!(!colliding(1).same(&colliding(2)));
    let mut m: Hamt<Digest, u8> = Hamt::new();
    for n in 0..20u8 {
        m = m.insert(colliding(n), n).unwrap();
    }
    for n in 0..20u8 {
        assert_eq!(m.lookup(&colliding(n)), Some(&n));
    }
    assert_eq!(m.lookup(&colliding(20)), None);
    assert_eq!(m.insert(colliding(3), 0).err(), Some(InsertError::EntryExists));
    let m = m.remove(&colliding(3));
    assert_eq!(m.lookup(&colliding(3)), None);
    assert_eq!(m.lookup(&colliding(4)), Some(&4));
    let m = m.insert_or_update(colliding(4), 0, |v| Some(*v + 40));
    assert_eq!(m.lookup(&colliding(4)), Some(&44));
}

#[test]
fn hash_of_a_digest_is_its_first_eight_bytes() {
    let mut bytes = [0u8; 32];
    for i in 0..32 {
        bytes[i] = (i + 1) as u8;
    }
    assert_eq!(Digest(bytes).hash(), 0x0807_0605_0403_0201);
    assert_eq!(7u32.hash(), 7);
    assert_eq!(ChainLength(9).hash(), 9);
}

#[test]
fn keys_that_differ_in_the_highest_bit_only() {
    let mut low = [0u8; 32];
    let mut high = [0u8; 32];
    low[7] = 0x00;
    high[7] = 0x80;
    let m: Hamt<Digest, u8> = Hamt::new();
    let m = m.insert(Digest(low), 1).unwrap();
    let m = m.insert(Digest(high), 2).unwrap();
    assert_eq!(m.lookup(&Digest(low)), Some(&1));
    assert_eq!(m.lookup(&Digest(high)), Some(&2));
}

#[test]
fn set_add_element_is_idempotent() {
    let none: HamtSet<u32> = HamtSet::new();
    assert!(!none.contains(&3));
    let one = none.add_element(3);
    let same = one.add_element(3);
    let two = same.add_element(4);
    assert!(one.contains(&3));
    assert!(same.contains(&3));
    assert!(!same.contains(&4));
    assert!(two.contains(&3) && two.contains(&4));
    assert!(!none.contains(&3));
}

#[test]
fn multiverse_keeps_the_first_state_of_a_block() {
    let mut m: Multiverse<u32> = Multiverse::new();
    let a = Digest([1u8; 32]);
    let b = Digest([2u8; 32]);
    assert_eq!(m.get(&a), None);
    let root = m.insert(ChainLength(1), a, 10);
    assert_eq!(root.hash(), a);
    assert_eq!(m.get(&a), Some(&10));
    let root = m.insert(ChainLength(1), a, 11);
    assert_eq!(root.hash(), a);
    assert_eq!(m.get(&a), Some(&10));
    m.insert(ChainLength(2), b, 20);
    assert_eq!(m.get(&b), Some(&20));
    assert_eq!(m.get(&a), Some(&10));
}

#[test]
fn iter_gives_each_entry_once() {
    let mut m: Hamt<u32, u32> = Hamt::new();
    assert!(m.iter().is_empty());
    for k in 0..300u32 {
        m = m.insert(k * 7, k).unwrap();
    }
    let older = m.clone();
    m = m.remove(&7).insert_or_update(14, 0, |v| Some(*v + 1000));
    let mut pairs: Vec<(u32, u32)> = m.iter().into_iter().map(|(k, v)| (*k, *v)).collect();
    pairs.sort();
    let mut expected: Vec<(u32, u32)> = (0..300u32).filter(|k| *k != 1).map(|k| (k * 7, k)).collect();
    expected[1] = (14, 1002);
    assert_eq!(pairs, expected);
    assert_eq!(older.iter().len(), 300);
    let mut colliding_keys: Hamt<Digest, u8> = Hamt::new();
    for n in 0..5u8 {
        colliding_keys = colliding_keys.insert(colliding(n), n).unwrap();
    }
    let mut values: Vec<u8> = colliding_keys.iter().into_iter().map(|(_, v)| *v).collect();
    values.sort();
    assert_eq!(values, vec![0, 1, 2, 3, 4]);
}
