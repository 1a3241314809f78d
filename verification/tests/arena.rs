use lib::arena::{Arena, ArenaPtr, Region, CHUNK_SIZE};
use lib::strmap::{StrMap, StrSet};

fn at(region: Region, offset: usize) -> ArenaPtr {
    ArenaPtr { region, offset }
}

#[test]
fn a_new_arena_holds_nothing() {
    let a = Arena::new();
    assert!(!a.contains_ptr(at(Region::Sized(0), 0)));
    assert!(!a.contains_ptr(at(Region::Sized(1), 0)));
    assert!(!a.contains_ptr(at(Region::Dyn(0), 0)));
    assert_eq!(a.read(at(Region::Sized(0), 0), 0), Some(vec![]));
    assert_eq!(a.read(at(Region::Sized(0), 0), 1), None);
}

#[test]
fn packed_values_are_aligned_and_read_back() {
    let mut a = Arena::new();
    let p1 = a.sized_alloc(&[1, 2, 3], 1);
    assert_eq!(p1, at(Region::Sized(0), 0));
    let p2 = a.sized_alloc(&[9, 9, 9, 9], 4);
    assert_eq!(p2, at(Region::Sized(0), 4));
    assert_eq!(p2.offset % 4, 0);
    let p3 = a.sized_alloc(&[7; 8], 8);
    assert_eq!(p3, at(Region::Sized(0), 8));
    assert_eq!(a.read(p1, 3), Some(vec![1, 2, 3]));
    assert_eq!(a.read(p2, 4), Some(vec![9, 9, 9, 9]));
    assert_eq!(a.read(p3, 8), Some(vec![7; 8]));
    // The padding is zeroes.
    assert_eq!(a.read(at(Region::Sized(0), 3), 1), Some(vec![0]));
    assert!(a.contains_ptr(at(Region::Sized(0), 15)));
    assert!(!a.contains_ptr(at(Region::Sized(0), 16)));
}

#[test]
fn a_full_chunk_is_followed_by_a_new_one() {
    let mut a = Arena::new();
    let p1 = a.sized_alloc(&[5; 8], 8);
    let big = vec![1u8; CHUNK_SIZE];
    let p2 = a.sized_alloc(&big, 8);
    assert_eq!(p2, at(Region::Sized(1), 0));
    assert_eq!(a.read(p2, CHUNK_SIZE), Some(big.clone()));
    // What was placed before is still there.
    assert_eq!(a.read(p1, 8), Some(vec![5; 8]));
    // The new chunk was made with room for the value and its alignment.
    let p3 = a.sized_alloc(&[3; 8], 8);
    assert_eq!(p3, at(Region::Sized(1), CHUNK_SIZE));
    let p4 = a.sized_alloc(&[4; 16], 8);
    assert_eq!(p4, at(Region::Sized(2), 0));
}

#[test]
fn separately_stored_values() {
    let mut a = Arena::new();
    let p = a.dyn_alloc(vec![5, 6]);
    assert_eq!(p, at(Region::Dyn(0), 0));
    let q = a.dyn_alloc(b"str_0".to_vec());
    assert_eq!(q, at(Region::Dyn(1), 0));
    assert_eq!(a.read(p, 2), Some(vec![5, 6]));
    assert_eq!(a.read(q, 5), Some(b"str_0".to_vec()));
    assert_eq!(a.read(at(Region::Dyn(1), 1), 3), Some(b"tr_".to_vec()));
    assert_eq!(a.read(p, 3), None);
    assert!(a.contains_ptr(at(Region::Dyn(1), 4)));
    assert!(!a.contains_ptr(at(Region::Dyn(1), 5)));
    assert!(!a.contains_ptr(at(Region::Dyn(2), 0)));
    // Separate storage leaves the chunks alone.
    assert!(!a.contains_ptr(at(Region::Sized(0), 0)));
}

#[test]
fn string_maps_keep_first_insertion_order() {
    let mut m: StrMap<String> = StrMap::new();
    m.insert("b".to_string(), "1".to_string());
    m.insert("a".to_string(), "2".to_string());
    m.insert("b".to_string(), "3".to_string());
    assert_eq!(m.len(), 2);
    assert_eq!(m.key_at(0), "b");
    assert_eq!(m.value_at(0), "3");
    assert_eq!(m.key_at(1), "a");
    assert_eq!(m.index_of(&"a".to_string()), Some(1));
    assert_eq!(m.index_of(&"c".to_string()), None);
    assert!(m.contains_key(&"a".to_string()));
    assert_eq!(m.get(&"c".to_string()), None);
    assert_eq!(m.get(&"b".to_string()), Some(&"3".to_string()));
}

#[test]
fn string_sets() {
    let mut s = StrSet::new();
    s.insert("x".to_string());
    s.insert("y".to_string());
    s.insert("x".to_string());
    assert_eq!(s.len(), 2);
    assert_eq!(s.item(0), "x");
    assert!(s.contains(&"y".to_string()));
    s.clear();
    assert_eq!(s.len(), 0);
    assert!(!s.contains(&"x".to_string()));
}

#[test]
fn values_stay_over_mixed_placements() {
    let mut a = Arena::new();
    let p1 = a.sized_alloc(&[1, 2, 3], 2);
    let d1 = a.dyn_alloc(vec![7, 7]);
    let p2 = a.sized_alloc(&[4, 5], 2);
    let d2 = a.dyn_alloc(vec![8]);
    let p3 = a.sized_alloc(&[6; 4], 4);
    assert_eq!(a.read(p1, 3), Some(vec![1, 2, 3]));
    assert_eq!(a.read(d1, 2), Some(vec![7, 7]));
    assert_eq!(a.read(p2, 2), Some(vec![4, 5]));
    assert_eq!(a.read(d2, 1), Some(vec![8]));
    assert_eq!(a.read(p3, 4), Some(vec![6; 4]));
    assert!(p1.offset + 3 <= p2.offset && p2.offset + 2 <= p3.offset);
    for k in 0..3 {
        assert!(a.contains_ptr(ArenaPtr { region: p1.region, offset: p1.offset + k }));
    }
}
