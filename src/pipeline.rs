//! Identity resolution: each detection is matched against the store's current
//! records and, when confident enough, creates or extends an identity.
use vstd::prelude::*;
use crate::ids::{new_uuid_v4, uuid_text, uuid_to_string};
use crate::models::{BoundingBox, DetectedFace, Person, PersonModel};
use crate::similarity::{similarity_exceeds, valid_embedding, SCALE};
use crate::store::{
    append_spec, contains_id, first_match, is_first_match, lemma_first_match_unique,
    lemma_lower_bound_range, lemma_no_first_match, lower_bound, person_matches, put_spec,
    PersonStore,
};

verus! {

/// Confidence (parts per million) from which a detection may change the store.
pub const HIGH_CONFIDENCE: u32 = 900_000;

/// One face found by the detector, with the embedding computed for it; `None`
/// where computing the embedding failed.
#[derive(Clone, Debug)]
pub struct Detection {
    pub image_path: String,
    pub bbox: BoundingBox,
    pub confidence: u32,
    pub embedding: Option<Vec<i16>>,
}

impl DetectedFace {
    /// The text form of the identity id given to this face.
    pub fn person_id_text(&self) -> (r: String)
        ensures
            r@ == uuid_text(self.person_id),
    {
        uuid_to_string(self.person_id)
    }
}

/// The store after one detection, and the id reported for it. `fresh` is the
/// id given to the detection if it matches no identity.
pub open spec fn step(
    s: Seq<PersonModel>,
    confidence: int,
    e: Seq<i16>,
    t: int,
    fresh: u128,
) -> (Seq<PersonModel>, u128) {
    match first_match(s, e, t) {
        Some(i) => (
            if confidence >= HIGH_CONFIDENCE {
                append_spec(s, s[i].0, e)
            } else {
                s
            },
            s[i].0,
        ),
        None => (
            if confidence >= HIGH_CONFIDENCE {
                put_spec(s, (fresh, seq![e]))
            } else {
                s
            },
            fresh,
        ),
    }
}

/// The store after a batch of detections, and for each detection that has an
/// embedding, its position in the batch and the id reported for it. The
/// detection at position `k` is offered the fresh id `ids[k]`.
pub open spec fn run(s: Seq<PersonModel>, dets: Seq<Detection>, t: int, ids: Seq<u128>) -> (
    Seq<PersonModel>,
    Seq<(int, u128)>,
)
    decreases dets.len(),
{
    if dets.len() == 0 {
        (s, seq![])
    } else {
        let prev = run(s, dets.drop_last(), t, ids);
        let k = dets.len() - 1;
        match dets.last().embedding {
            None => prev,
            Some(e) => {
                let (s2, pid) = step(prev.0, dets.last().confidence as int, e@, t, ids[k]);
                (s2, prev.1.push((k, pid)))
            },
        }
    }
}

pub open spec fn detections_valid(dets: Seq<Detection>) -> bool {
    forall|k: int|
        0 <= k < dets.len() ==> (#[trigger] dets[k].embedding matches Some(e) ==> valid_embedding(
            e@,
        ))
}

/// Whether `faces` reports, in order, the detections listed in `out`, with
/// the ids given there.
pub open spec fn reports(faces: Seq<DetectedFace>, dets: Seq<Detection>, out: Seq<(int, u128)>) -> bool {
    faces.len() == out.len() && forall|r: int|
        0 <= r < faces.len() ==> reports_one(#[trigger] faces[r], dets, out[r])
}

/// Whether `f` reports the detection at position `o.0` with the id `o.1`.
pub open spec fn reports_one(f: DetectedFace, dets: Seq<Detection>, o: (int, u128)) -> bool {
    &&& 0 <= o.0 < dets.len()
    &&& f.person_id == o.1
    &&& f.image_path@ == dets[o.0].image_path@
    &&& f.confidence == dets[o.0].confidence
    &&& f.bbox == dets[o.0].bbox
}

/// The embedding of a detection that has one.
pub open spec fn embedding_of(d: Detection) -> Seq<i16> {
    d.embedding.unwrap()@
}

/// Whether the record `r` is the one the detection at position `m` created.
pub open spec fn made_by(r: PersonModel, dets: Seq<Detection>, ids: Seq<u128>, m: int) -> bool {
    r.0 == ids[m] && r.1[0] == embedding_of(dets[m])
}

/// Whether each record of `s` is one that a detection of `dets` created.
pub open spec fn all_made_by(s: Seq<PersonModel>, dets: Seq<Detection>, ids: Seq<u128>) -> bool {
    forall|k: int| 0 <= k < s.len() ==> #[trigger] has_origin(s[k], dets, ids)
}

/// Whether some detection of `dets` created the record `r`.
pub open spec fn has_origin(r: PersonModel, dets: Seq<Detection>, ids: Seq<u128>) -> bool {
    exists|m: int| 0 <= m < dets.len() && #[trigger] made_by(r, dets, ids, m)
}

/// Confident detections of pairwise dissimilar faces, each given its own
/// fresh id, turn an empty store into one identity per detection, with
/// distinct ids and each with exactly one embedding: its detection's.
pub proof fn lemma_dissimilar_detections_make_distinct_identities(
    dets: Seq<Detection>,
    t: int,
    ids: Seq<u128>,
)
    requires
        ids.len() >= dets.len(),
        forall|k: int|
            0 <= k < dets.len() ==> (#[trigger] dets[k]).embedding is Some && dets[k].confidence
                >= HIGH_CONFIDENCE,
        forall|i: int, j: int|
            0 <= i < j < dets.len() ==> !similarity_exceeds(
                embedding_of(#[trigger] dets[i]),
                embedding_of(#[trigger] dets[j]),
                t,
            ),
        forall|i: int, j: int| 0 <= i < j < ids.len() ==> ids[i] != ids[j],
    ensures
        run(Seq::empty(), dets, t, ids).0.len() == dets.len(),
        forall|k: int|
            0 <= k < dets.len() ==> (#[trigger] run(Seq::empty(), dets, t, ids).0[k]).1.len() == 1,
        all_made_by(run(Seq::empty(), dets, t, ids).0, dets, ids),
        forall|i: int, j: int|
            0 <= i < j < dets.len() ==> (#[trigger] run(Seq::empty(), dets, t, ids).0[i]).0
                != (#[trigger] run(Seq::empty(), dets, t, ids).0[j]).0,
    decreases dets.len(),
{
    if dets.len() > 0 {
        let n = dets.len() - 1;
        let prior = dets.drop_last();
        lemma_dissimilar_detections_make_distinct_identities(prior, t, ids);
        let s = run(Seq::empty(), prior, t, ids).0;
        let d = dets[n];
        let e = embedding_of(d);
        assert(dets.last() == d);
        assert forall|k: int| 0 <= k < s.len() implies !person_matches(#[trigger] s[k], e, t) by {
            assert(all_made_by(s, prior, ids));
            assert(has_origin(s[k], prior, ids));
            let m = choose|m: int| 0 <= m < prior.len() && made_by(s[k], prior, ids, m);
            assert(prior[m] == dets[m]);
            assert(!similarity_exceeds(embedding_of(dets[m]), embedding_of(dets[n]), t));
            assert(s[k].1.len() == 1);
        }
        lemma_no_first_match(s, e, t);
        assert(!contains_id(s, ids[n])) by {
            if contains_id(s, ids[n]) {
                let k = choose|k: int| 0 <= k < s.len() && s[k].0 == ids[n];
                assert(has_origin(s[k], prior, ids));
                let m = choose|m: int| 0 <= m < prior.len() && made_by(s[k], prior, ids, m);
            }
        }
        lemma_lower_bound_range(s, ids[n]);
        let r = run(Seq::empty(), dets, t, ids).0;
        assert(r == s.insert(lower_bound(s, ids[n]), (ids[n], seq![e])));
        let p = lower_bound(s, ids[n]);
        assert forall|k: int| 0 <= k < r.len() implies #[trigger] has_origin(r[k], dets, ids) by {
            assert(all_made_by(s, prior, ids));
            if k < p {
                assert(has_origin(s[k], prior, ids));
                let m = choose|m: int| 0 <= m < prior.len() && made_by(s[k], prior, ids, m);
                assert(prior[m] == dets[m]);
                assert(made_by(r[k], dets, ids, m));
            } else if k > p {
                let sk = s[k - 1];
                assert(has_origin(sk, prior, ids));
                let m = choose|m: int| 0 <= m < prior.len() && made_by(sk, prior, ids, m);
                assert(prior[m] == dets[m]);
                assert(made_by(r[k], dets, ids, m));
            } else {
                assert(made_by(r[k], dets, ids, n as int));
            }
        }
        assert(all_made_by(r, dets, ids));
        assert forall|i: int, j: int| 0 <= i < j < dets.len() implies (#[trigger] r[i]).0 != (
        #[trigger] r[j]).0 by {
            if j < p {
                assert(r[i] == s[i] && r[j] == s[j]);
            } else if j == p {
                assert(r[i] == s[i]);
            } else if i < p {
                assert(r[i] == s[i] && r[j] == s[j - 1]);
            } else if i == p {
                assert(r[j] == s[j - 1]);
            } else {
                assert(r[i] == s[i - 1] && r[j] == s[j - 1]);
            }
        }
        assert forall|k: int| 0 <= k < dets.len() implies (#[trigger] r[k]).1.len() == 1 by {
            if k < p {
                assert(r[k] == s[k]);
            } else if k > p {
                assert(r[k] == s[k - 1]);
            }
        }
    }
}

/// Two confident detections of which the first's embedding is more similar
/// to the second's than the threshold, where neither matches a stored
/// identity: both are reported under the identity the first created, which
/// ends with both embeddings; every other record stays as it was.
pub proof fn lemma_similar_detections_share_identity(
    s: Seq<PersonModel>,
    d1: Detection,
    d2: Detection,
    t: int,
    ids: Seq<u128>,
)
    requires
        d1.embedding is Some,
        d2.embedding is Some,
        d1.confidence >= HIGH_CONFIDENCE,
        d2.confidence >= HIGH_CONFIDENCE,
        similarity_exceeds(embedding_of(d1), embedding_of(d2), t),
        forall|k: int|
            0 <= k < s.len() ==> !person_matches(#[trigger] s[k], embedding_of(d1), t)
                && !person_matches(s[k], embedding_of(d2), t),
        ids.len() == 2,
        !contains_id(s, ids[0]),
    ensures
        run(s, seq![d1, d2], t, ids).1 == seq![(0int, ids[0]), (1int, ids[0])],
        run(s, seq![d1, d2], t, ids).0 == s.insert(
            lower_bound(s, ids[0]),
            (ids[0], seq![embedding_of(d1), embedding_of(d2)]),
        ),
{
    let e1 = embedding_of(d1);
    let e2 = embedding_of(d2);
    let id = ids[0];
    assert(seq![d1, d2].drop_last() =~= seq![d1]);
    assert(seq![d1].drop_last() =~= Seq::<Detection>::empty());
    lemma_no_first_match(s, e1, t);
    lemma_lower_bound_range(s, id);
    let p = lower_bound(s, id);
    let s1 = s.insert(p, (id, seq![e1]));
    assert(run(s, Seq::<Detection>::empty(), t, ids) == (s, Seq::<(int, u128)>::empty()));
    assert(seq![d1].last() == d1);
    assert(step(s, d1.confidence as int, e1, t, id) == (s1, id));
    assert(Seq::<(int, u128)>::empty().push((0int, id)) =~= seq![(0int, id)]);
    assert(run(s, seq![d1], t, ids) == (s1, seq![(0int, id)]));
    assert(similarity_exceeds(s1[p].1[0], e2, t));
    assert(person_matches(s1[p], e2, t));
    assert forall|k: int| 0 <= k < p implies !person_matches(#[trigger] s1[k], e2, t) by {
        assert(s1[k] == s[k]);
    }
    assert(is_first_match(s1, e2, t, p));
    lemma_first_match_unique(s1, e2, t, p);
    assert(seq![e1].push(e2) =~= seq![e1, e2]);
    assert forall|k: int| 0 <= k < s1.len() && k != p implies (#[trigger] s1[k]).0 != id by {
        if k < p {
            assert(s1[k] == s[k]);
        } else {
            assert(s1[k] == s[k - 1]);
        }
    }
    assert(append_spec(s1, id, e2) =~= s.insert(p, (id, seq![e1, e2])));
    assert(seq![(0int, id)].push((1int, id)) =~= seq![(0int, id), (1int, id)]);
}

/// A detection below the confidence gate that matches no identity is
/// reported under its fresh id, which the store then does not hold.
pub proof fn lemma_unmatched_low_confidence_leaves_no_trace(
    s: Seq<PersonModel>,
    confidence: int,
    e: Seq<i16>,
    t: int,
    fresh: u128,
)
    requires
        confidence < HIGH_CONFIDENCE,
        first_match(s, e, t) is None,
        !contains_id(s, fresh),
    ensures
        step(s, confidence, e, t, fresh).1 == fresh,
        step(s, confidence, e, t, fresh).0 == s,
        !contains_id(step(s, confidence, e, t, fresh).0, step(s, confidence, e, t, fresh).1),
{
}

/// Resolves one detection with embedding `embedding` against the store;
/// returns the id reported for it.
pub fn resolve_detection(
    store: &mut PersonStore,
    confidence: u32,
    embedding: &[i16],
    threshold: u32,
    fresh_id: u128,
) -> (r: u128)
    requires
        old(store).wf(),
        valid_embedding(embedding@),
        threshold <= SCALE,
    ensures
        final(store).wf(),
        (final(store)@, r) == step(old(store)@, confidence as int, embedding@, threshold as int, fresh_id),
{
    match store.find_match(embedding, threshold) {
        Some(id) => {
            if confidence >= HIGH_CONFIDENCE {
                store.add_embedding(id, vstd::slice::slice_to_vec(embedding));
            }
            id
        },
        None => {
            if confidence >= HIGH_CONFIDENCE {
                let mut embeddings: Vec<Vec<i16>> = Vec::new();
                embeddings.push(vstd::slice::slice_to_vec(embedding));
                let person = Person { id: fresh_id, embeddings };
                proof {
                    assert(person.model().1 =~= seq![embedding@]);
                }
                store.save(person);
            }
            fresh_id
        },
    }
}

/// Resolves a batch of detections in order against the store. The detection
/// at position `k` is given `fresh_ids[k]` if it starts a new identity;
/// detections without an embedding are skipped.
pub fn resolve_batch(
    store: &mut PersonStore,
    detections: &Vec<Detection>,
    threshold: u32,
    fresh_ids: &Vec<u128>,
) -> (r: Vec<DetectedFace>)
    requires
        old(store).wf(),
        detections_valid(detections@),
        threshold <= SCALE,
        fresh_ids@.len() == detections@.len(),
    ensures
        final(store).wf(),
        final(store)@ == run(old(store)@, detections@, threshold as int, fresh_ids@).0,
        reports(r@, detections@, run(old(store)@, detections@, threshold as int, fresh_ids@).1),
{
    let ghost s0 = store@;
    let ghost t = threshold as int;
    let mut results: Vec<DetectedFace> = Vec::new();
    let n = detections.len();
    let mut k: usize = 0;
    while k < n
        invariant
            n == detections@.len() == fresh_ids@.len(),
            k <= n,
            store.wf(),
            s0 == old(store)@,
            t == threshold as int,
            threshold <= SCALE,
            detections_valid(detections@),
            store@ == run(s0, detections@.subrange(0, k as int), t, fresh_ids@).0,
            reports(results@, detections@, run(s0, detections@.subrange(0, k as int), t, fresh_ids@).1),
        decreases n - k,
    {
        let ghost prev = run(s0, detections@.subrange(0, k as int), t, fresh_ids@);
        proof {
            assert(detections@.subrange(0, k + 1).drop_last() =~= detections@.subrange(0, k as int));
            assert(detections@.subrange(0, k + 1).last() == detections@[k as int]);
        }
        let d = &detections[k];
        match &d.embedding {
            Some(e) => {
                proof {
                    assert(detections@[k as int].embedding matches Some(x) ==> valid_embedding(x@));
                }
                let pid = resolve_detection(store, d.confidence, e.as_slice(), threshold, fresh_ids[k]);
                let face = DetectedFace {
                    image_path: d.image_path.clone(),
                    person_id: pid,
                    confidence: d.confidence,
                    bbox: d.bbox,
                };
                let ghost before = results@;
                results.push(face);
                proof {
                    let cur = run(s0, detections@.subrange(0, k + 1), t, fresh_ids@);
                    assert(cur.1 == prev.1.push((k as int, pid)));
                    assert forall|r: int| 0 <= r < results@.len() implies reports_one(
                        #[trigger] results@[r],
                        detections@,
                        cur.1[r],
                    ) by {
                        if r < results@.len() - 1 {
                            assert(results@[r] == before[r]);
                                        }
                    }
                }
            },
            None => {
                proof {
                    assert(run(s0, detections@.subrange(0, k + 1), t, fresh_ids@) == prev);
                }
            },
        }
        k = k + 1;
    }
    proof {
        assert(detections@.subrange(0, n as int) =~= detections@);
    }
    results
}

/// Resolves a batch of detections in order against the store, drawing a
/// random id for each detection that may start a new identity. The outcome
/// is that of `run` for some choice of those ids.
pub fn process_detections(
    store: &mut PersonStore,
    detections: &Vec<Detection>,
    threshold: u32,
) -> (r: Vec<DetectedFace>)
    requires
        old(store).wf(),
        detections_valid(detections@),
        threshold <= SCALE,
    ensures
        final(store).wf(),
        exists|ids: Seq<u128>|
            {
                &&& ids.len() == detections@.len()
                &&& final(store)@ == (#[trigger] run(old(store)@, detections@, threshold as int, ids)).0
                &&& reports(r@, detections@, run(old(store)@, detections@, threshold as int, ids).1)
            },
{
    let mut fresh_ids: Vec<u128> = Vec::new();
    let n = detections.len();
    let mut k: usize = 0;
    while k < n
        invariant
            n == detections@.len(),
            k <= n,
            fresh_ids@.len() == k,
        decreases n - k,
    {
        fresh_ids.push(new_uuid_v4());
        k = k + 1;
    }
    let r = resolve_batch(store, detections, threshold, &fresh_ids);
    proof {
        let ids = fresh_ids@;
        assert(ids.len() == detections@.len());
    }
    r
}

} // verus!
