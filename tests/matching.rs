use zupeload::models::{BoundingBox, Person};
use zupeload::similarity::{cosine_similarity, SCALE};
use zupeload::store::{load_all_people, PersonStore};

#[test]
fn self_similarity_is_one() {
    let v: Vec<i16> = vec![3, -4, 12];
    let s = cosine_similarity(&v, &v);
    assert_eq!(s.dot, 169);
    assert_eq!(s.norms, 169 * 169);
    assert!(s.exceeds(999_999));
    assert!(!s.exceeds(SCALE));
}

#[test]
fn length_mismatch_is_zero() {
    let s = cosine_similarity(&[1, 2, 3], &[1, 2]);
    assert_eq!(s.dot, 0);
    assert!(!s.exceeds(0));
}

#[test]
fn zero_vector_is_zero() {
    let s = cosine_similarity(&[0, 0, 0], &[1, 2, 3]);
    assert_eq!(s.dot, 0);
    assert_eq!(s.norms, 1);
    let t = cosine_similarity(&[1, 2, 3], &[0, 0, 0]);
    assert_eq!(t.dot, 0);
    assert!(!t.exceeds(0));
}

#[test]
fn similarity_of_diagonal_is_one_over_root_two() {
    let s = cosine_similarity(&[1, 0], &[1, 1]);
    assert_eq!(s.dot, 1);
    assert_eq!(s.norms, 2);
    assert!(s.exceeds(707_106));
    assert!(!s.exceeds(707_107));
}

#[test]
fn opposite_vectors_exceed_no_threshold() {
    let s = cosine_similarity(&[2, 5], &[-2, -5]);
    assert_eq!(s.dot, -29);
    assert!(!s.exceeds(0));
}

fn person(id: u128, embeddings: Vec<Vec<i16>>) -> Person {
    Person { id, embeddings }
}

#[test]
fn find_match_returns_owner_of_embedding() {
    let mut store = PersonStore::new();
    store.save(person(7, vec![vec![10, 20, -5]]));
    for t in [0u32, 500_000, 650_000, 999_999] {
        assert_eq!(store.find_match(&[10, 20, -5], t), Some(7));
    }
}

#[test]
fn find_match_takes_first_identity_in_id_order() {
    let mut store = PersonStore::new();
    // The better match has the larger id, so it comes second.
    store.save(person(200, vec![vec![100, 0]]));
    store.save(person(100, vec![vec![100, 60]]));
    assert_eq!(store.find_match(&[100, 0], 800_000), Some(100));
    assert_eq!(store.find_match(&[100, 0], 900_000), Some(200));
    assert_eq!(store.find_match(&[0, 100], 900_000), None);
    assert_eq!(store.find_match_index(&[100, 0], 800_000), Some(0));
}

#[test]
fn find_match_on_empty_store_is_none() {
    let store = PersonStore::new();
    assert_eq!(store.find_match(&[1, 2, 3], 0), None);
    assert!(load_all_people(&store).is_empty());
}

#[test]
fn save_keeps_ids_in_order_and_overwrites() {
    let mut store = PersonStore::new();
    store.save(person(30, vec![vec![1]]));
    store.save(person(10, vec![vec![2]]));
    store.save(person(20, vec![vec![3]]));
    store.save(person(10, vec![vec![4], vec![5]]));
    let all = load_all_people(&store);
    let ids: Vec<u128> = all.iter().map(|p| p.id).collect();
    assert_eq!(ids, vec![10, 20, 30]);
    assert_eq!(all[0].embeddings, vec![vec![4], vec![5]]);
}

#[test]
fn add_embedding_appends_to_existing_identity() {
    let mut store = PersonStore::new();
    store.save(person(5, vec![vec![1, 1]]));
    store.add_embedding(5, vec![2, 2]);
    assert_eq!(store.people()[0].embeddings, vec![vec![1, 1], vec![2, 2]]);
}

#[test]
fn add_embedding_to_missing_id_changes_nothing() {
    let mut store = PersonStore::new();
    store.save(person(5, vec![vec![1, 1]]));
    store.add_embedding(6, vec![2, 2]);
    let all = store.people();
    assert_eq!(all.len(), 1);
    assert_eq!(all[0].id, 5);
    assert_eq!(all[0].embeddings, vec![vec![1, 1]]);
}

#[test]
fn crop_region_moves_corner_onto_image() {
    let b = BoundingBox { x: -4, y: 9, width: 20, height: 30 };
    assert_eq!(b.crop_region(), (0, 9, 20, 30));
    let c = BoundingBox { x: 3, y: -1, width: -1, height: 0 };
    assert_eq!(c.crop_region(), (3, 0, u32::MAX, 0));
}
