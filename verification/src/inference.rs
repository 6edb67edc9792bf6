//! Inference: friendships follow from a shared nationality.
//!
//! One pass gives every two compatriots who are not friends yet a friendship
//! edge. People are grouped by country first, so only people of one country
//! are ever paired.

use crate::model::{holds_id, EntityId, Relationship, RelationshipId, StoreModel};
use crate::store::{lemma_compatriots_kept, Store};
use vstd::prelude::*;

verus! {

impl StoreModel {
    /// The people whom one of the first `k` relationships shows as a national
    /// of `country`.
    pub open spec fn nationals_among(self, country: EntityId, k: int) -> Set<EntityId> {
        Set::new(|p: EntityId| exists|i: int| i < k && self.nationality_at(i, p, country))
    }
}

/// A friendship has no direction.
pub proof fn lemma_friendship_symmetric(s: StoreModel, a: EntityId, b: EntityId)
    ensures
        s.are_friends(a, b) == s.are_friends(b, a),
{
    if s.are_friends(a, b) {
        let i = choose|i: int| s.friendship_at(i, a, b);
        assert(s.friendship_at(i, b, a));
    }
    if s.are_friends(b, a) {
        let i = choose|i: int| s.friendship_at(i, b, a);
        assert(s.friendship_at(i, a, b));
    }
}

/// Friendship edges change nobody's nationality.
pub proof fn lemma_nationalities_unchanged(old: StoreModel, new: StoreModel)
    requires
        new.adds_friendships_to(old),
    ensures
        forall|p: EntityId, c: EntityId| #[trigger]
            new.has_nationality(p, c) <==> old.has_nationality(p, c),
        forall|a: EntityId, b: EntityId, c: EntityId| #[trigger]
            new.share(a, b, c) <==> old.share(a, b, c),
        forall|a: EntityId, b: EntityId| #[trigger] new.compatriots(a, b) <==> old.compatriots(a, b),
        forall|a: EntityId, b: EntityId| #[trigger] old.are_friends(a, b) ==> new.are_friends(a, b),
{
    let n = old.relationships.len() as int;
    lemma_compatriots_kept(old, new);
    assert forall|p: EntityId, c: EntityId| #[trigger] new.has_nationality(p, c) implies old.has_nationality(
        p,
        c,
    ) by {
        let i = choose|i: int| new.nationality_at(i, p, c);
        assert(!(new.relationships[i] is Friendship));
        assert(new.relationships.subrange(0, n)[i] == new.relationships[i]);
        assert(old.nationality_at(i, p, c));
    }
    assert forall|a: EntityId, b: EntityId| #[trigger] new.compatriots(a, b) implies old.compatriots(
        a,
        b,
    ) by {
        let c = choose|c: EntityId| new.share(a, b, c);
        assert(old.share(a, b, c));
    }
}

/// Inference changes nothing in a store in which all compatriots are friends
/// already. So a second pass over unchanged nationalities adds no edge.
pub proof fn lemma_inference_idempotent(old: StoreModel, new: StoreModel)
    requires
        old.friendships_complete(),
        new.is_inference_of(old),
    ensures
        new == old,
{
    let n = old.relationships.len() as int;
    lemma_nationalities_unchanged(old, new);
    if new.relationships.len() > n {
        let r = new.relationships[n];
        assert(r is Friendship);
        assert(new.admits(r));
        let a = r->person1;
        let b = r->person2;
        assert(new.compatriots(a, b));
        assert(old.compatriots(a, b));
        assert(old.are_friends(a, b));
        let i = choose|i: int| old.friendship_at(i, a, b);
        assert(new.relationships.subrange(0, n)[i] == new.relationships[i]);
        assert(new.friendship_at(i, a, b));
        assert(new.friendship_at(n, a, b));
        assert(false);
    }
    assert(new.relationships =~= new.relationships.subrange(0, n));
}

impl Store {
    /// The people whose homeland is `country`, each of them once.
    pub fn nationals(&self, country: EntityId) -> (people: Vec<EntityId>)
        ensures
            people@.no_duplicates(),
            forall|p: EntityId| people@.contains(p) <==> self@.has_nationality(p, country),
    {
        let mut people: Vec<EntityId> = Vec::new();
        let n = self.relationship_count();
        let mut i: usize = 0;
        while i < n
            invariant
                i <= n == self@.relationships.len(),
                people@.no_duplicates(),
                people@.to_set() =~= self@.nationals_among(country, i as int),
            decreases n - i,
        {
            let ghost before = people@;
            let mut national: Option<EntityId> = None;
            if let Some(Relationship::Nationality { person, country: c }) = self.relationship(
                RelationshipId(i),
            ) {
                if c == country {
                    national = Some(person);
                    if !holds_id(&people, person) {
                        people.push(person);
                    }
                }
            }
            proof {
                let s = self@;
                match national {
                    Some(p) => {
                        assert(s.nationality_at(i as int, p, country));
                        before.lemma_push_to_set_commute(p);
                        assert(s.nationals_among(country, i + 1) =~= s.nationals_among(
                            country,
                            i as int,
                        ).insert(p));
                    },
                    None => {
                        assert(forall|p: EntityId| !s.nationality_at(i as int, p, country));
                        assert(s.nationals_among(country, i + 1) =~= s.nationals_among(
                            country,
                            i as int,
                        ));
                    },
                }
            }
            i += 1;
        }
        proof {
            let s = self@;
            assert forall|p: EntityId| people@.contains(p) <==> s.has_nationality(p, country) by {
                assert(people@.to_set().contains(p) == people@.contains(p));
                if s.has_nationality(p, country) {
                    let i = choose|i: int| s.nationality_at(i, p, country);
                    assert(i < n && s.nationality_at(i, p, country));
                    assert(s.nationals_among(country, n as int).contains(p));
                }
            }
        }
        people
    }

    /// Makes friends of all compatriots: every two different people with a
    /// homeland in common who are not friends yet get one friendship edge, in
    /// one of its two orders. Nothing else changes, and nobody gets a second
    /// edge to the same friend, so a pass over a store whose compatriots are
    /// all friends adds nothing.
    pub fn infer_friendships(&mut self)
        requires
            old(self).wf(),
        ensures
            final(self).wf(),
            final(self).records() == old(self).records(),
            final(self)@.is_inference_of(old(self)@),
            old(self)@.friendships_complete() ==> final(self)@ == old(self)@,
    {
        let ghost start = self@;
        let countries = self.entity_count();
        let mut c: usize = 0;
        proof {
            assert(self@.relationships.subrange(0, start.relationships.len() as int)
                =~= start.relationships);
        }
        while c < countries
            invariant
                c <= countries == start.entities.len(),
                start == old(self)@,
                start.wf(),
                self.wf(),
                self.records() == old(self).records(),
                self@.adds_friendships_to(start),
                forall|a: EntityId, b: EntityId, k: EntityId|
                    k.0 < c && a != b && #[trigger] start.share(a, b, k) ==> self@.are_friends(a, b),
            decreases countries - c,
        {
            let country = EntityId(c);
            let people = self.nationals(country);
            proof {
                lemma_nationalities_unchanged(start, self@);
            }
            let mut x: usize = 0;
            while x < people.len()
                invariant
                    x <= people.len(),
                    country == EntityId(c),
                    c < countries == start.entities.len(),
                    start == old(self)@,
                    start.wf(),
                    self.wf(),
                    self.records() == old(self).records(),
                    self@.adds_friendships_to(start),
                    people@.no_duplicates(),
                    forall|p: EntityId| people@.contains(p) <==> start.has_nationality(p, country),
                    forall|a: EntityId, b: EntityId, k: EntityId|
                        k.0 < c && a != b && #[trigger] start.share(a, b, k) ==> self@.are_friends(
                            a,
                            b,
                        ),
                    forall|u: int, v: int|
                        0 <= u < x && u < v < people.len() ==> self@.are_friends(
                            #[trigger] people@[u],
                            #[trigger] people@[v],
                        ),
                decreases people.len() - x,
            {
                let a = people[x];
                let mut y: usize = x + 1;
                while y < people.len()
                    invariant
                        x < y <= people.len(),
                        a == people@[x as int],
                        country == EntityId(c),
                        c < countries == start.entities.len(),
                        start == old(self)@,
                        start.wf(),
                        self.wf(),
                        self.records() == old(self).records(),
                        self@.adds_friendships_to(start),
                        people@.no_duplicates(),
                        forall|p: EntityId|
                            people@.contains(p) <==> start.has_nationality(p, country),
                        forall|a: EntityId, b: EntityId, k: EntityId|
                            k.0 < c && a != b && #[trigger] start.share(a, b, k)
                                ==> self@.are_friends(a, b),
                        forall|u: int, v: int|
                            0 <= u < x && u < v < people.len() ==> self@.are_friends(
                                #[trigger] people@[u],
                                #[trigger] people@[v],
                            ),
                        forall|v: int|
                            x < v < y ==> self@.are_friends(a, #[trigger] people@[v]),
                    decreases people.len() - y,
                {
                    let b = people[y];
                    let ghost prev = self@;
                    proof {
                        lemma_nationalities_unchanged(start, prev);
                        assert(people@.contains(a) && people@.contains(b));
                        assert(start.share(a, b, country));
                        assert(prev.share(a, b, country));
                        assert(prev.compatriots(a, b));
                        let i = choose|i: int| prev.nationality_at(i, a, country);
                        assert(prev.admits(prev.relationships[i]));
                        let j = choose|j: int| prev.nationality_at(j, b, country);
                        assert(prev.admits(prev.relationships[j]));
                    }
                    if !self.are_friends(a, b) {
                        self.add_friendship(a, b);
                        proof {
                            let now = self@;
                            let n = prev.relationships.len() as int;
                            assert(now.relationships.subrange(0, n) =~= prev.relationships);
                            assert(now.relationships.subrange(0, start.relationships.len() as int)
                                =~= start.relationships);
                            lemma_compatriots_kept(prev, now);
                            assert(now.friendship_at(n, a, b));
                        }
                    }
                    y += 1;
                }
                x += 1;
            }
            proof {
                let now = self@;
                assert forall|p: EntityId, q: EntityId, k: EntityId|
                    k.0 < c + 1 && p != q && #[trigger] start.share(p, q, k) implies now.are_friends(
                    p,
                    q,
                ) by {
                    if k.0 == c {
                        assert(k == country);
                        assert(people@.contains(p) && people@.contains(q));
                        let u = choose|u: int| 0 <= u < people@.len() && people@[u] == p;
                        let v = choose|v: int| 0 <= v < people@.len() && people@[v] == q;
                        if u < v {
                            assert(now.are_friends(people@[u], people@[v]));
                        } else {
                            assert(now.are_friends(people@[v], people@[u]));
                            lemma_friendship_symmetric(now, p, q);
                        }
                    }
                }
            }
            c += 1;
        }
        proof {
            let now = self@;
            lemma_nationalities_unchanged(start, now);
            assert forall|a: EntityId, b: EntityId| #[trigger] now.compatriots(a, b) implies now.are_friends(
                a,
                b,
            ) by {
                let k = choose|k: EntityId| now.share(a, b, k);
                assert(start.share(a, b, k));
                let i = choose|i: int| start.nationality_at(i, a, k);
                assert(start.admits(start.relationships[i]));
            }
            if start.friendships_complete() {
                lemma_inference_idempotent(start, now);
            }
        }
    }
}

} // verus!
