//! The three queries: visitors of a city, the most visited city, and the
//! meetings of a person with friends.

use crate::date::{stays_overlap, Date};
use crate::model::{
    first_maximum, holds_id, Entity, EntityId, GraphError, Relationship, RelationshipId, StoreModel,
};
use crate::store::Store;
use vstd::prelude::*;

verus! {

impl StoreModel {
    /// The people whom one of the first `k` relationships shows as a visitor
    /// of a city called `name`.
    pub open spec fn visitors_among(self, name: Seq<char>, k: int) -> Set<EntityId> {
        Set::new(|p: EntityId| exists|i: int| i < k && self.visit_to_named(i, p, name))
    }

    /// The pairs of a friend of `person` and a city in which one of the first
    /// `k` relationships shows the friend while `person` was there.
    pub open spec fn meetings_among(self, person: EntityId, k: int) -> Set<(EntityId, EntityId)> {
        Set::new(
            |pair: (EntityId, EntityId)|
                self.are_friends(person, pair.0) && exists|j: int|
                    j < k && self.meeting_at(j, person, pair.0, pair.1),
        )
    }
}

/// A count as the model states it.
pub open spec fn counted(r: Result<u64, GraphError>) -> Result<nat, GraphError> {
    match r {
        Ok(n) => Ok(n as nat),
        Err(e) => Err(e),
    }
}

/// A name as the model states it.
pub open spec fn named(r: Result<String, GraphError>) -> Result<Seq<char>, GraphError> {
    match r {
        Ok(s) => Ok(s@),
        Err(e) => Err(e),
    }
}

/// The names that `names` holds, each as a sequence of characters.
pub open spec fn names_of(names: Seq<String>) -> Seq<Seq<char>> {
    names.map_values(|s: String| s@)
}

fn holds_pair(pairs: &Vec<(EntityId, EntityId)>, a: EntityId, b: EntityId) -> (r: bool)
    ensures
        r == pairs@.contains((a, b)),
{
    let mut k: usize = 0;
    while k < pairs.len()
        invariant
            k <= pairs.len(),
            forall|j: int| 0 <= j < k ==> pairs@[j] != (a, b),
        decreases pairs.len() - k,
    {
        if pairs[k].0 == a && pairs[k].1 == b {
            return true;
        }
        k += 1;
    }
    false
}

impl Store {
    /// Whether `id` is a city called `name`.
    fn is_city_named(&self, id: EntityId, name: &String) -> (r: bool)
        ensures
            r == self@.city_named(id, name@),
    {
        match self.entity(id) {
            Some(Entity::City { name: n }) => *n == *name,
            _ => false,
        }
    }

    /// Whether `id` is a person called `first` `last`.
    fn is_person_named(&self, id: EntityId, first: &String, last: &String) -> (r: bool)
        ensures
            r == self@.person_named(id, first@, last@),
    {
        match self.entity(id) {
            Some(Entity::Person { first_name, last_name }) => *first_name == *first && *last_name
                == *last,
            _ => false,
        }
    }

    /// Whether some city is called `name`.
    fn has_city(&self, name: &String) -> (r: bool)
        ensures
            r == self@.has_city(name@),
    {
        let n = self.entity_count();
        let mut i: usize = 0;
        while i < n
            invariant
                i <= n == self@.entities.len(),
                forall|id: EntityId| id.0 < i ==> !self@.city_named(id, name@),
            decreases n - i,
        {
            if self.is_city_named(EntityId(i), name) {
                return true;
            }
            i += 1;
        }
        false
    }

    /// How many different people visited a city called `city_name`. A person
    /// counts once, however often they came. `NotFound` where no city is
    /// called so; 0 where one is and nobody came.
    pub fn count_visits(&self, city_name: &str) -> (count: Result<u64, GraphError>)
        ensures
            counted(count) == self@.count_visits(city_name@),
    {
        let key = String::from_str(city_name);
        if !self.has_city(&key) {
            return Err(GraphError::NotFound);
        }
        let mut seen: Vec<EntityId> = Vec::new();
        let n = self.relationship_count();
        let mut i: usize = 0;
        while i < n
            invariant
                i <= n == self@.relationships.len(),
                key@ == city_name@,
                seen@.no_duplicates(),
                seen@.to_set() =~= self@.visitors_among(key@, i as int),
            decreases n - i,
        {
            let ghost before = seen@;
            let mut newcomer: Option<EntityId> = None;
            if let Some(Relationship::Visited { person, city, .. }) = self.relationship(
                RelationshipId(i),
            ) {
                if self.is_city_named(city, &key) {
                    newcomer = Some(person);
                    if !holds_id(&seen, person) {
                        seen.push(person);
                    }
                }
            }
            proof {
                if let Some(p) = newcomer {
                    assert(self@.visit_to_named(i as int, p, key@));
                    before.lemma_push_to_set_commute(p);
                }
            }
            i += 1;
        }
        proof {
            assert(self@.visitors_among(key@, n as int) =~= self@.visitors(key@));
            seen@.unique_seq_to_set();
        }
        Ok(seen.len() as u64)
    }

    /// The most visited of the cities that `candidates` name: the one with the
    /// most visitors, and among equals the one that comes first in
    /// `candidates`. `NoCandidates` where the list is empty, `NotFound` where a
    /// name in it is that of no city.
    pub fn most_visited_city(&self, candidates: &Vec<String>) -> (best: Result<String, GraphError>)
        ensures
            named(best) == self@.most_visited_city(names_of(candidates@)),
    {
        let ghost names = names_of(candidates@);
        let ghost counts = self@.visit_counts(names);
        if candidates.len() == 0 {
            return Err(GraphError::NoCandidates);
        }
        let mut leader: usize = 0;
        let mut most: u64 = 0;
        let mut i: usize = 0;
        while i < candidates.len()
            invariant
                i <= candidates.len(),
                names == names_of(candidates@),
                counts == self@.visit_counts(names),
                forall|j: int| 0 <= j < i ==> self@.has_city(#[trigger] names[j]),
                leader == first_maximum(counts.take(i as int)),
                i > 0 ==> leader < i && most == counts[leader as int],
            decreases candidates.len() - i,
        {
            assert(names[i as int] == candidates@[i as int]@);
            match self.count_visits(candidates[i].as_str()) {
                Err(_) => {
                    return Err(GraphError::NotFound);
                },
                Ok(c) => {
                    assert(counts.take(i + 1).drop_last() =~= counts.take(i as int));
                    if i == 0 || c > most {
                        leader = i;
                        most = c;
                    }
                },
            }
            i += 1;
        }
        assert(counts.take(i as int) =~= counts);
        Ok(candidates[leader].clone())
    }

    /// Whether a friendship edge joins `a` and `b`, in either order.
    pub fn are_friends(&self, a: EntityId, b: EntityId) -> (r: bool)
        ensures
            r == self@.are_friends(a, b),
    {
        let n = self.relationship_count();
        let mut i: usize = 0;
        while i < n
            invariant
                i <= n == self@.relationships.len(),
                forall|j: int| 0 <= j < i ==> !self@.friendship_at(j, a, b),
            decreases n - i,
        {
            if let Some(Relationship::Friendship { person1, person2 }) = self.relationship(
                RelationshipId(i),
            ) {
                if (person1 == a && person2 == b) || (person1 == b && person2 == a) {
                    assert(self@.friendship_at(i as int, a, b));
                    return true;
                }
            }
            i += 1;
        }
        false
    }

    /// Whether `person` stayed in `city` on some day from `start` to `end`.
    pub fn was_in(&self, person: EntityId, city: EntityId, start: Date, end: Date) -> (r: bool)
        ensures
            r == self@.was_in(person, city, start, end),
    {
        let n = self.relationship_count();
        let mut i: usize = 0;
        while i < n
            invariant
                i <= n == self@.relationships.len(),
                forall|j: int| 0 <= j < i ==> !self@.stay_overlapping(j, person, city, start, end),
            decreases n - i,
        {
            if let Some(Relationship::Visited { person: p, city: c, start: s, end: e }) =
                self.relationship(RelationshipId(i)) {
                if p == person && c == city && stays_overlap(&s, &e, &start, &end) {
                    assert(self@.stay_overlapping(i as int, person, city, start, end));
                    return true;
                }
            }
            i += 1;
        }
        false
    }

    /// The one person called `first` `last`. `NotFound` where there is none,
    /// `AmbiguousPerson` where there are several.
    pub fn person_called(&self, first: &str, last: &str) -> (found: Result<EntityId, GraphError>)
        ensures
            match found {
                Ok(p) => self@.person_named(p, first@, last@) && forall|q: EntityId|
                    self@.person_named(q, first@, last@) ==> q == p,
                Err(e) => if e == GraphError::NotFound {
                    forall|q: EntityId| !self@.person_named(q, first@, last@)
                } else {
                    e == GraphError::AmbiguousPerson && exists|a: EntityId, b: EntityId|
                        a != b && self@.person_named(a, first@, last@) && self@.person_named(
                            b,
                            first@,
                            last@,
                        )
                },
            },
    {
        let first_key = String::from_str(first);
        let last_key = String::from_str(last);
        let n = self.entity_count();
        let mut found: Option<EntityId> = None;
        let mut i: usize = 0;
        while i < n
            invariant
                i <= n == self@.entities.len(),
                first_key@ == first@,
                last_key@ == last@,
                match found {
                    Some(p) => p.0 < i && self@.person_named(p, first@, last@),
                    None => true,
                },
                forall|q: EntityId|
                    q.0 < i && self@.person_named(q, first@, last@) ==> found == Some(q),
            decreases n - i,
        {
            if self.is_person_named(EntityId(i), &first_key, &last_key) {
                match found {
                    Some(p) => {
                        return Err(GraphError::AmbiguousPerson);
                    },
                    None => {
                        found = Some(EntityId(i));
                    },
                }
            }
            i += 1;
        }
        match found {
            Some(p) => Ok(p),
            None => Err(GraphError::NotFound),
        }
    }

    /// How often the person called `first` `last` met a friend: the number of
    /// pairs of a friend and a city such that a stay of the person and a stay
    /// of the friend in that city share a day. A pair counts once, however
    /// many stays show it. `NotFound` where nobody is called so,
    /// `AmbiguousPerson` where several people are.
    pub fn friends_met(&self, first: &str, last: &str) -> (count: Result<u64, GraphError>)
        ensures
            counted(count) == self@.friends_met(first@, last@),
    {
        let person = match self.person_called(first, last) {
            Ok(p) => p,
            Err(e) => {
                return Err(e);
            },
        };
        let mut seen: Vec<(EntityId, EntityId)> = Vec::new();
        let n = self.relationship_count();
        let mut j: usize = 0;
        while j < n
            invariant
                j <= n == self@.relationships.len(),
                seen@.no_duplicates(),
                seen@.to_set() =~= self@.meetings_among(person, j as int),
            decreases n - j,
        {
            let ghost before = seen@;
            let mut met: Option<(EntityId, EntityId)> = None;
            if let Some(Relationship::Visited { person: friend, city, start, end }) =
                self.relationship(RelationshipId(j)) {
                if self.are_friends(person, friend) && self.was_in(person, city, start, end) {
                    met = Some((friend, city));
                    if !holds_pair(&seen, friend, city) {
                        seen.push((friend, city));
                    }
                }
            }
            proof {
                if let Some(pair) = met {
                    assert(self@.meeting_at(j as int, person, pair.0, pair.1));
                    before.lemma_push_to_set_commute(pair);
                }
            }
            j += 1;
        }
        proof {
            assert(self@.meetings_among(person, n as int) =~= self@.meetings(person));
            seen@.unique_seq_to_set();
        }
        Ok(seen.len() as u64)
    }
}

} // verus!
