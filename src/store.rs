//! The identity store: a mapping from identity id to its embeddings, kept in
//! ascending id order.
use vstd::prelude::*;
use crate::models::{Person, PersonModel};
use crate::similarity::{lemma_self_similarity, valid_embedding, similarity_exceeds, pair_exceeds, cosine_similarity, SCALE};

verus! {

pub open spec fn sorted_ids(s: Seq<PersonModel>) -> bool {
    forall|i: int, j: int| 0 <= i < j < s.len() ==> s[i].0 < s[j].0
}

/// Every record holds at least one embedding, and each is valid.
pub open spec fn records_valid(s: Seq<PersonModel>) -> bool {
    forall|i: int|
        0 <= i < s.len() ==> s[i].1.len() > 0 && forall|j: int|
            0 <= j < s[i].1.len() ==> valid_embedding(#[trigger] s[i].1[j])
}

pub open spec fn store_wf(s: Seq<PersonModel>) -> bool {
    sorted_ids(s) && records_valid(s)
}

pub open spec fn contains_id(s: Seq<PersonModel>, id: u128) -> bool {
    exists|i: int| 0 <= i < s.len() && s[i].0 == id
}

/// The position at which `id` belongs in a sorted sequence of records.
pub open spec fn lower_bound(s: Seq<PersonModel>, id: u128) -> int
    decreases s.len(),
{
    if s.len() == 0 {
        0
    } else if s.last().0 < id {
        s.len() as int
    } else {
        lower_bound(s.drop_last(), id)
    }
}

/// Inserting or overwriting the record `r` under its id.
pub open spec fn put_spec(s: Seq<PersonModel>, r: PersonModel) -> Seq<PersonModel> {
    if contains_id(s, r.0) {
        Seq::new(s.len(), |i: int| if s[i].0 == r.0 { r } else { s[i] })
    } else {
        s.insert(lower_bound(s, r.0), r)
    }
}

/// Appending `e` to the embeddings of `id`; no change when `id` is absent.
pub open spec fn append_spec(s: Seq<PersonModel>, id: u128, e: Seq<i16>) -> Seq<PersonModel> {
    Seq::new(s.len(), |i: int| if s[i].0 == id { (id, s[i].1.push(e)) } else { s[i] })
}

/// Whether some embedding of the record is more similar to `q` than `t`.
pub open spec fn person_matches(r: PersonModel, q: Seq<i16>, t: int) -> bool {
    exists|j: int| 0 <= j < r.1.len() && similarity_exceeds(#[trigger] r.1[j], q, t)
}

pub open spec fn is_first_match(s: Seq<PersonModel>, q: Seq<i16>, t: int, i: int) -> bool {
    0 <= i < s.len() && person_matches(s[i], q, t) && forall|k: int|
        0 <= k < i ==> !person_matches(#[trigger] s[k], q, t)
}

/// The position of the first record, in store order, that matches `q`.
pub open spec fn first_match(s: Seq<PersonModel>, q: Seq<i16>, t: int) -> Option<int> {
    if exists|i: int| is_first_match(s, q, t, i) {
        Some(choose|i: int| is_first_match(s, q, t, i))
    } else {
        None
    }
}

pub proof fn lemma_first_match_unique(s: Seq<PersonModel>, q: Seq<i16>, t: int, i: int)
    requires
        is_first_match(s, q, t, i),
    ensures
        first_match(s, q, t) == Some(i),
{
    let c = choose|c: int| is_first_match(s, q, t, c);
    assert(is_first_match(s, q, t, c));
    if c < i {
        assert(!person_matches(s[c], q, t));
    } else if i < c {
        assert(!person_matches(s[i], q, t));
    }
}

pub proof fn lemma_no_first_match(s: Seq<PersonModel>, q: Seq<i16>, t: int)
    requires
        forall|k: int| 0 <= k < s.len() ==> !person_matches(#[trigger] s[k], q, t),
    ensures
        first_match(s, q, t) == None::<int>,
{
}

/// The lower bound is in range, and is the split point of a sorted sequence.
pub proof fn lemma_lower_bound(s: Seq<PersonModel>, id: u128, p: int)
    requires
        sorted_ids(s),
        0 <= p <= s.len(),
        forall|j: int| 0 <= j < p ==> s[j].0 < id,
        forall|j: int| p <= j < s.len() ==> s[j].0 >= id,
    ensures
        lower_bound(s, id) == p,
    decreases s.len(),
{
    if s.len() > 0 && p < s.len() {
        lemma_lower_bound(s.drop_last(), id, p);
    }
}

pub proof fn lemma_lower_bound_range(s: Seq<PersonModel>, id: u128)
    ensures
        0 <= lower_bound(s, id) <= s.len(),
    decreases s.len(),
{
    if s.len() > 0 {
        lemma_lower_bound_range(s.drop_last(), id);
    }
}

/// A store holding only the identity `p` matches `p` on any nonzero
/// embedding `e` of it, at every threshold below 1.
pub proof fn lemma_find_match_own_embedding(p: PersonModel, e: Seq<i16>, t: int)
    requires
        exists|i: int| 0 <= i < e.len() && e[i] != 0,
        exists|j: int| 0 <= j < p.1.len() && p.1[j] == e,
        0 <= t < SCALE,
    ensures
        first_match(seq![p], e, t) == Some(0int),
{
    lemma_self_similarity(e);
    let j = choose|j: int| 0 <= j < p.1.len() && p.1[j] == e;
    assert(similarity_exceeds(p.1[j], e, t));
    assert(person_matches(seq![p][0], e, t));
    lemma_first_match_unique(seq![p], e, t, 0);
}

/// All identity records, in ascending id order.
pub struct PersonStore {
    people: Vec<Person>,
}

impl PersonStore {
    pub closed spec fn view(&self) -> Seq<PersonModel> {
        self.people@.map_values(|p: Person| p.model())
    }

    /// Ids strictly ascending; each record with at least one embedding, all
    /// valid.
    pub open spec fn wf(&self) -> bool {
        store_wf(self@)
    }

    /// An empty store.
    pub fn new() -> (r: PersonStore)
        ensures
            r.wf(),
            r@ == Seq::<PersonModel>::empty(),
    {
        let r = PersonStore { people: Vec::new() };
        assert(r@ =~= Seq::<PersonModel>::empty());
        r
    }

    /// Inserts `person`, or overwrites the record that has its id.
    pub fn save(&mut self, person: Person)
        requires
            old(self).wf(),
            person.embeddings@.len() > 0,
            forall|j: int|
                0 <= j < person.embeddings@.len() ==> valid_embedding(
                    #[trigger] person.embeddings@[j]@,
                ),
        ensures
            final(self).wf(),
            final(self)@ == put_spec(old(self)@, person.model()),
    {
        let ghost s = self@;
        let ghost r = person.model();
        let n = self.people.len();
        let mut i: usize = 0;
        while i < n && self.people[i].id < person.id
            invariant
                n == self.people@.len() == s.len(),
                s == self@,
                i <= n,
                forall|j: int| 0 <= j < i ==> s[j].0 < person.id,
            decreases n - i,
        {
            i = i + 1;
        }
        proof {
            assert(forall|j: int| i <= j < n ==> s[j].0 >= person.id) by {
                if i < n {
                    assert(s[i as int].0 >= person.id);
                }
            }
        }
        if i < n && self.people[i].id == person.id {
            proof {
                assert(s[i as int] == self.people@[i as int].model());
            }
            self.people.set(i, person);
            proof {
                assert(contains_id(s, r.0));
                assert(self@ =~= put_spec(s, r));
            }
        } else {
            self.people.insert(i, person);
            proof {
                assert(!contains_id(s, r.0)) by {
                    if contains_id(s, r.0) {
                        let k = choose|k: int| 0 <= k < s.len() && s[k].0 == r.0;
                        if k > i {
                            assert(s[i as int].0 < s[k].0);
                        }
                    }
                }
                lemma_lower_bound(s, r.0, i as int);
                assert(self@ =~= s.insert(i as int, r));
            }
        }
        proof {
            assert(r.1.len() > 0);
            assert forall|k: int, j: int| 0 <= k < self@.len() && 0 <= j < self@[k].1.len()
            implies valid_embedding(#[trigger] self@[k].1[j]) by {
                if self@[k].0 != r.0 {
                    assert(exists|m: int| 0 <= m < s.len() && s[m] == self@[k]);
                }
            }
        }
    }

    /// Appends `embedding` to the record of `person_id`; a store without
    /// that id is left unchanged.
    pub fn add_embedding(&mut self, person_id: u128, embedding: Vec<i16>)
        requires
            old(self).wf(),
            valid_embedding(embedding@),
        ensures
            final(self).wf(),
            final(self)@ == append_spec(old(self)@, person_id, embedding@),
    {
        let ghost s = self@;
        let n = self.people.len();
        let mut i: usize = 0;
        while i < n
            invariant
                n == self.people@.len() == s.len(),
                s == self@,
                s == old(self)@,
                store_wf(s),
                valid_embedding(embedding@),
                i <= n,
                forall|j: int| 0 <= j < i ==> s[j].0 != person_id,
            decreases n - i,
        {
            proof {
                assert(s[i as int] == self.people@[i as int].model());
            }
            if self.people[i].id == person_id {
                let mut p = self.people.remove(i);
                let ghost old_p = p;
                p.embeddings.push(embedding);
                proof {
                    assert(p.embeddings@.map_values(|e: Vec<i16>| e@) =~= old_p.embeddings@.map_values(
                        |e: Vec<i16>| e@,
                    ).push(embedding@));
                }
                self.people.insert(i, p);
                proof {
                    assert(self@[i as int] == (person_id, s[i as int].1.push(embedding@)));
                    assert(forall|j: int| 0 <= j < n && j != i ==> s[j].0 != person_id) by {
                        assert forall|j: int| 0 <= j < n && j != i implies s[j].0 != person_id by {
                            if j < i {
                            } else {
                                assert(s[i as int].0 < s[j].0);
                            }
                        }
                    }
                    assert(self@ =~= append_spec(s, person_id, embedding@));
                    assert forall|k: int, j: int| 0 <= k < self@.len() && 0 <= j < self@[k].1.len()
                    implies valid_embedding(#[trigger] self@[k].1[j]) by {
                        if k == i && j < s[k].1.len() {
                            assert(self@[k].1[j] == s[k].1[j]);
                        } else if k != i {
                            assert(self@[k] == s[k]);
                        }
                    }
                }
                return;
            }
            i = i + 1;
        }
        proof {
            assert(self@ =~= append_spec(s, person_id, embedding@));
        }
    }

    /// The position of the first record, in store order, with an embedding
    /// whose similarity to `query` is above `threshold` (parts per million).
    pub fn find_match_index(&self, query: &[i16], threshold: u32) -> (r: Option<usize>)
        requires
            self.wf(),
            valid_embedding(query@),
            threshold <= SCALE,
        ensures
            r matches Some(i) ==> first_match(self@, query@, threshold as int) == Some(i as int),
            r is None ==> first_match(self@, query@, threshold as int) == None::<int>,
    {
        let ghost s = self@;
        let ghost t = threshold as int;
        let n = self.people.len();
        let mut i: usize = 0;
        while i < n
            invariant
                n == self.people@.len() == s.len(),
                s == self@,
                store_wf(s),
                valid_embedding(query@),
                threshold <= SCALE,
                t == threshold as int,
                i <= n,
                forall|k: int| 0 <= k < i ==> !person_matches(#[trigger] s[k], query@, t),
            decreases n - i,
        {
            let embs = &self.people[i].embeddings;
            let m = embs.len();
            let mut j: usize = 0;
            while j < m
                invariant
                    i < n,
                    n == s.len(),
                    m == embs@.len(),
                    s[i as int].1 == embs@.map_values(|e: Vec<i16>| e@),
                    store_wf(s),
                    valid_embedding(query@),
                    threshold <= SCALE,
                    t == threshold as int,
                    s == self@,
                    forall|k: int| 0 <= k < i ==> !person_matches(#[trigger] s[k], query@, t),
                    j <= m,
                    forall|k: int| 0 <= k < j ==> !similarity_exceeds(#[trigger] s[i as int].1[k], query@, t),
                decreases m - j,
            {
                proof {
                    assert(s[i as int].1[j as int] == embs@[j as int]@);
                    assert(valid_embedding(s[i as int].1[j as int]));
                }
                let e = embs[j].as_slice();
                let sim = cosine_similarity(e, query);
                if sim.exceeds(threshold) {
                    proof {
                        assert(e@ == s[i as int].1[j as int]);
                        assert(pair_exceeds(sim.dot as int, sim.norms as int, t));
                        assert(similarity_exceeds(s[i as int].1[j as int], query@, t));
                        assert(person_matches(s[i as int], query@, t));
                        lemma_first_match_unique(s, query@, t, i as int);
                    }
                    return Some(i);
                }
                j = j + 1;
            }
            i = i + 1;
        }
        proof {
            lemma_no_first_match(s, query@, t);
        }
        None
    }

    /// The id of the first identity, in store order, with an embedding whose
    /// similarity to `query_embedding` is above `threshold` (parts per million).
    pub fn find_match(&self, query_embedding: &[i16], threshold: u32) -> (r: Option<u128>)
        requires
            self.wf(),
            valid_embedding(query_embedding@),
            threshold <= SCALE,
        ensures
            r == match first_match(self@, query_embedding@, threshold as int) {
                Some(i) => Some(self@[i].0),
                None => None,
            },
    {
        match self.find_match_index(query_embedding, threshold) {
            Some(i) => Some(self.people[i].id),
            None => None,
        }
    }

    /// Every identity record, in ascending id order.
    pub fn people(&self) -> (r: &Vec<Person>)
        requires
            self.wf(),
        ensures
            r@.map_values(|p: Person| p.model()) == self@,
            sorted_ids(self@),
            records_valid(self@),
    {
        &self.people
    }
}

/// Every identity record of `store`, in ascending id order; empty for a
/// store never written to.
pub fn load_all_people(store: &PersonStore) -> (r: &Vec<Person>)
    requires
        store.wf(),
    ensures
        r@.map_values(|p: Person| p.model()) == store@,
        sorted_ids(store@),
        records_valid(store@),
{
    store.people()
}

} // verus!
