use zupeload::models::BoundingBox;
use zupeload::pipeline::{process_detections, resolve_batch, resolve_detection, Detection};
use zupeload::store::PersonStore;

fn det(path: &str, confidence: u32, embedding: Option<Vec<i16>>) -> Detection {
    Detection {
        image_path: path.to_string(),
        bbox: BoundingBox { x: 1, y: 2, width: 3, height: 4 },
        confidence,
        embedding,
    }
}

#[test]
fn near_duplicate_detections_share_one_identity() {
    // a and b have similarity about 0.995.
    let a: Vec<i16> = vec![100, 0, 0];
    let b: Vec<i16> = vec![100, 10, 0];
    let mut store = PersonStore::new();
    let dets = vec![det("one.jpg", 950_000, Some(a.clone())), det("two.jpg", 950_000, Some(b.clone()))];
    let out = resolve_batch(&mut store, &dets, 650_000, &vec![11, 22]);
    assert_eq!(out.len(), 2);
    assert_eq!(out[0].person_id, 11);
    assert_eq!(out[1].person_id, 11);
    assert_eq!(out[0].image_path, "one.jpg");
    assert_eq!(out[1].image_path, "two.jpg");
    assert_eq!(out[1].confidence, 950_000);
    assert_eq!(out[1].bbox, BoundingBox { x: 1, y: 2, width: 3, height: 4 });
    let all = store.people();
    assert_eq!(all.len(), 1);
    assert_eq!(all[0].id, 11);
    assert_eq!(all[0].embeddings, vec![a, b]);
}

#[test]
fn near_duplicates_with_random_ids_share_one_identity() {
    let a: Vec<i16> = vec![100, 0, 0];
    let b: Vec<i16> = vec![100, 10, 0];
    let mut store = PersonStore::new();
    let dets = vec![det("one.jpg", 950_000, Some(a.clone())), det("two.jpg", 950_000, Some(b.clone()))];
    let out = process_detections(&mut store, &dets, 650_000);
    assert_eq!(out.len(), 2);
    assert_eq!(out[0].person_id, out[1].person_id);
    let all = store.people();
    assert_eq!(all.len(), 1);
    assert_eq!(all[0].id, out[0].person_id);
    assert_eq!(all[0].embeddings.len(), 2);
}

#[test]
fn dissimilar_confident_detections_make_one_identity_each() {
    let mut store = PersonStore::new();
    let dets = vec![
        det("a.png", 900_000, Some(vec![1, 0, 0])),
        det("b.png", 990_000, Some(vec![0, 1, 0])),
        det("c.png", 910_000, Some(vec![0, 0, 1])),
    ];
    let out = resolve_batch(&mut store, &dets, 650_000, &vec![3, 1, 2]);
    let ids: Vec<u128> = out.iter().map(|f| f.person_id).collect();
    assert_eq!(ids, vec![3, 1, 2]);
    let all = store.people();
    assert_eq!(all.len(), 3);
    let stored: Vec<u128> = all.iter().map(|p| p.id).collect();
    assert_eq!(stored, vec![1, 2, 3]);
    for p in all {
        assert_eq!(p.embeddings.len(), 1);
    }
}

#[test]
fn unmatched_low_confidence_detection_is_not_stored() {
    let mut store = PersonStore::new();
    let id = resolve_detection(&mut store, 899_999, &[5, 5], 650_000, 42);
    assert_eq!(id, 42);
    assert!(store.people().is_empty());
    let dets = vec![det("x.webp", 500_000, Some(vec![1, 2]))];
    let out = resolve_batch(&mut store, &dets, 650_000, &vec![43]);
    assert_eq!(out[0].person_id, 43);
    assert!(store.people().iter().all(|p| p.id != 43));
}

#[test]
fn matched_low_confidence_detection_does_not_grow_identity() {
    let mut store = PersonStore::new();
    assert_eq!(resolve_detection(&mut store, 950_000, &[10, 10], 650_000, 1), 1);
    assert_eq!(resolve_detection(&mut store, 400_000, &[10, 11], 650_000, 2), 1);
    assert_eq!(store.people()[0].embeddings.len(), 1);
}

#[test]
fn detection_without_embedding_is_skipped() {
    let mut store = PersonStore::new();
    let dets = vec![
        det("a.jpg", 950_000, None),
        det("b.jpg", 950_000, Some(vec![3, 4])),
    ];
    let out = resolve_batch(&mut store, &dets, 650_000, &vec![8, 9]);
    assert_eq!(out.len(), 1);
    assert_eq!(out[0].image_path, "b.jpg");
    assert_eq!(out[0].person_id, 9);
    assert_eq!(store.people().len(), 1);
}

#[test]
fn person_id_text_is_hyphenated_hex() {
    let mut store = PersonStore::new();
    let dets = vec![det("a.jpg", 950_000, Some(vec![3, 4]))];
    let out = resolve_batch(&mut store, &dets, 650_000, &vec![0x67e55044_10b1_426f_9247_bb680e5fe0c8]);
    assert_eq!(out[0].person_id_text(), "67e55044-10b1-426f-9247-bb680e5fe0c8");
}
