//! The records of the graph and its mathematical model.
//!
//! A [`StoreModel`] is what a store holds, as two sequences: the entities and
//! the relationships, each in the order of insertion. An identity is the
//! position of its record. Every contract of the crate is stated over this
//! model.

use crate::date::{intervals_overlap, Date};
use vstd::prelude::*;

verus! {

/// The identity of an entity: its position among the entities of its store.
#[derive(Clone, Copy, Debug, PartialEq, Eq, Structural)]
pub struct EntityId(pub usize);

/// The identity of a relationship: its position among the relationships of
/// its store.
#[derive(Clone, Copy, Debug, PartialEq, Eq, Structural)]
pub struct RelationshipId(pub usize);

#[derive(Clone, Copy, Debug, PartialEq, Eq, Structural)]
pub enum EntityKind {
    Country,
    City,
    Person,
}

#[derive(Clone, Copy, Debug, PartialEq, Eq, Structural)]
pub enum RelationshipKind {
    Visited,
    Nationality,
    Friendship,
}

/// Why an operation was refused.
#[derive(Clone, Copy, Debug, PartialEq, Eq, Structural)]
pub enum GraphError {
    /// A visit ends before it starts.
    InvalidInterval,
    /// No entity of the kind asked for has this identity or these names.
    NotFound,
    /// The most visited of no cities was asked for.
    NoCandidates,
    /// More than one person bears the names given.
    AmbiguousPerson,
}

/// A node of the graph.
#[derive(Debug, PartialEq, Eq)]
pub enum Entity {
    Country { name: String },
    City { name: String },
    Person { first_name: String, last_name: String },
}

/// What an [`Entity`] stands for: its names as sequences of characters.
pub enum EntityModel {
    Country { name: Seq<char> },
    City { name: Seq<char> },
    Person { first_name: Seq<char>, last_name: Seq<char> },
}

impl EntityModel {
    pub open spec fn kind(self) -> EntityKind {
        match self {
            EntityModel::Country { .. } => EntityKind::Country,
            EntityModel::City { .. } => EntityKind::City,
            EntityModel::Person { .. } => EntityKind::Person,
        }
    }
}

impl Clone for Entity {
    fn clone(&self) -> (copy: Entity)
        ensures
            copy == *self,
    {
        match self {
            Entity::Country { name } => Entity::Country { name: name.clone() },
            Entity::City { name } => Entity::City { name: name.clone() },
            Entity::Person { first_name, last_name } => Entity::Person {
                first_name: first_name.clone(),
                last_name: last_name.clone(),
            },
        }
    }
}

impl View for Entity {
    type V = EntityModel;

    open spec fn view(&self) -> EntityModel {
        match self {
            Entity::Country { name } => EntityModel::Country { name: name@ },
            Entity::City { name } => EntityModel::City { name: name@ },
            Entity::Person { first_name, last_name } => EntityModel::Person {
                first_name: first_name@,
                last_name: last_name@,
            },
        }
    }
}

/// An edge of the graph, as the store keeps it.
#[derive(Clone, Copy, Debug, PartialEq, Eq, Structural)]
pub enum Relationship {
    /// `person` stayed in `city` from `start` to `end`, both days included.
    Visited { person: EntityId, city: EntityId, start: Date, end: Date },
    /// `country` is the homeland of `person`.
    Nationality { person: EntityId, country: EntityId },
    /// The two people are friends. The edge has no direction: it stands for
    /// both orders of its ends.
    Friendship { person1: EntityId, person2: EntityId },
}

impl Relationship {
    pub open spec fn kind(self) -> RelationshipKind {
        match self {
            Relationship::Visited { .. } => RelationshipKind::Visited,
            Relationship::Nationality { .. } => RelationshipKind::Nationality,
            Relationship::Friendship { .. } => RelationshipKind::Friendship,
        }
    }

    /// The edge is a friendship between `a` and `b`, in either order.
    pub open spec fn befriends(self, a: EntityId, b: EntityId) -> bool {
        self == (Relationship::Friendship { person1: a, person2: b }) || self == (
        Relationship::Friendship { person1: b, person2: a })
    }
}

/// An edge as it is handed to the store. Friendships are derived, never
/// handed in, so there is no variant for them.
#[derive(Clone, Copy, Debug, PartialEq, Eq, Structural)]
pub enum NewRelationship {
    Visited { person: EntityId, city: EntityId, start: Date, end: Date },
    Nationality { person: EntityId, country: EntityId },
}

impl NewRelationship {
    /// The edge that the store keeps for `self`.
    pub open spec fn stored(self) -> Relationship {
        match self {
            NewRelationship::Visited { person, city, start, end } => Relationship::Visited {
                person,
                city,
                start,
                end,
            },
            NewRelationship::Nationality { person, country } => Relationship::Nationality {
                person,
                country,
            },
        }
    }
}

/// What a store holds.
pub struct StoreModel {
    pub entities: Seq<EntityModel>,
    pub relationships: Seq<Relationship>,
}

impl StoreModel {
    pub open spec fn empty() -> StoreModel {
        StoreModel { entities: Seq::empty(), relationships: Seq::empty() }
    }

    /// The store after one more entity.
    pub open spec fn with_entity(self, e: EntityModel) -> StoreModel {
        StoreModel { entities: self.entities.push(e), relationships: self.relationships }
    }

    /// The store after one more relationship.
    pub open spec fn with_relationship(self, r: Relationship) -> StoreModel {
        StoreModel { entities: self.entities, relationships: self.relationships.push(r) }
    }

    // --- entities -------------------------------------------------------

    pub open spec fn has_entity(self, id: EntityId) -> bool {
        id.0 < self.entities.len()
    }

    pub open spec fn entity(self, id: EntityId) -> EntityModel
        recommends
            self.has_entity(id),
    {
        self.entities[id.0 as int]
    }

    pub open spec fn is_kind(self, id: EntityId, kind: EntityKind) -> bool {
        self.has_entity(id) && self.entity(id).kind() == kind
    }

    pub open spec fn is_person(self, id: EntityId) -> bool {
        self.is_kind(id, EntityKind::Person)
    }

    pub open spec fn is_city(self, id: EntityId) -> bool {
        self.is_kind(id, EntityKind::City)
    }

    pub open spec fn is_country(self, id: EntityId) -> bool {
        self.is_kind(id, EntityKind::Country)
    }

    /// `id` is a city called `name`.
    pub open spec fn city_named(self, id: EntityId, name: Seq<char>) -> bool {
        self.has_entity(id) && self.entity(id) == (EntityModel::City { name })
    }

    /// The name of the city `id`; empty where `id` is no city.
    pub open spec fn city_name(self, id: EntityId) -> Seq<char> {
        if self.is_city(id) {
            self.entity(id)->City_name
        } else {
            Seq::empty()
        }
    }

    /// Some city is called `name`.
    pub open spec fn has_city(self, name: Seq<char>) -> bool {
        exists|id: EntityId| self.city_named(id, name)
    }

    /// `id` is a person called `first` `last`.
    pub open spec fn person_named(self, id: EntityId, first: Seq<char>, last: Seq<char>) -> bool {
        self.has_entity(id) && self.entity(id) == (EntityModel::Person {
            first_name: first,
            last_name: last,
        })
    }

    // --- relationships --------------------------------------------------

    pub open spec fn has_relationship(self, id: RelationshipId) -> bool {
        id.0 < self.relationships.len()
    }

    /// Why the store refuses `r`, if it does: an end that is no entity of the
    /// kind the edge asks for, or else a visit that ends before it starts.
    pub open spec fn rejection(self, r: NewRelationship) -> Option<GraphError> {
        match r {
            NewRelationship::Visited { person, city, start, end } => {
                if !self.is_person(person) || !self.is_city(city) {
                    Some(GraphError::NotFound)
                } else if !start.le(end) {
                    Some(GraphError::InvalidInterval)
                } else {
                    None
                }
            },
            NewRelationship::Nationality { person, country } => {
                if !self.is_person(person) || !self.is_country(country) {
                    Some(GraphError::NotFound)
                } else {
                    None
                }
            },
        }
    }

    /// Relationship `i` says that `country` is the homeland of `person`.
    pub open spec fn nationality_at(self, i: int, person: EntityId, country: EntityId) -> bool {
        0 <= i < self.relationships.len() && self.relationships[i] == (Relationship::Nationality {
            person,
            country,
        })
    }

    pub open spec fn has_nationality(self, person: EntityId, country: EntityId) -> bool {
        exists|i: int| self.nationality_at(i, person, country)
    }

    /// Both are nationals of `country`.
    pub open spec fn share(self, a: EntityId, b: EntityId, country: EntityId) -> bool {
        self.has_nationality(a, country) && self.has_nationality(b, country)
    }

    /// Two different people with a homeland in common.
    pub open spec fn compatriots(self, a: EntityId, b: EntityId) -> bool {
        a != b && exists|country: EntityId| self.share(a, b, country)
    }

    /// Relationship `i` is a friendship between `a` and `b`, in either order.
    pub open spec fn friendship_at(self, i: int, a: EntityId, b: EntityId) -> bool {
        0 <= i < self.relationships.len() && self.relationships[i].befriends(a, b)
    }

    /// A friendship edge joins `a` and `b`.
    pub open spec fn are_friends(self, a: EntityId, b: EntityId) -> bool {
        exists|i: int| self.friendship_at(i, a, b)
    }

    /// Every two compatriots are friends.
    pub open spec fn friendships_complete(self) -> bool {
        forall|a: EntityId, b: EntityId| #[trigger]
            self.compatriots(a, b) ==> self.are_friends(a, b)
    }

    // --- validity -------------------------------------------------------

    /// The ends of `r` are entities of the kinds that `r` asks for; a visit
    /// does not end before it starts; friends are compatriots.
    pub open spec fn admits(self, r: Relationship) -> bool {
        match r {
            Relationship::Visited { person, city, start, end } => self.is_person(person)
                && self.is_city(city) && start.le(end),
            Relationship::Nationality { person, country } => self.is_person(person)
                && self.is_country(country),
            Relationship::Friendship { person1, person2 } => self.is_person(person1)
                && self.is_person(person2) && self.compatriots(person1, person2),
        }
    }

    /// No two friendship edges join the same two people.
    pub open spec fn friendships_distinct(self) -> bool {
        forall|i: int, j: int, a: EntityId, b: EntityId|
            #![trigger self.friendship_at(i, a, b), self.friendship_at(j, a, b)]
            self.friendship_at(i, a, b) && self.friendship_at(j, a, b) ==> i == j
    }

    /// The invariant of every store.
    pub open spec fn wf(self) -> bool {
        &&& forall|i: int|
            0 <= i < self.relationships.len() ==> self.admits(#[trigger] self.relationships[i])
        &&& self.friendships_distinct()
    }

    // --- visits ---------------------------------------------------------

    /// Relationship `i` is a visit of `person` to a city called `name`.
    pub open spec fn visit_to_named(self, i: int, person: EntityId, name: Seq<char>) -> bool {
        &&& 0 <= i < self.relationships.len()
        &&& self.relationships[i] matches Relationship::Visited { person: p, city, .. }
        &&& p == person
        &&& self.city_named(city, name)
    }

    /// Relationship `i` is a visit to a city called `name`.
    pub open spec fn is_visit_to(self, i: int, name: Seq<char>) -> bool {
        &&& 0 <= i < self.relationships.len()
        &&& self.relationships[i] matches Relationship::Visited { city, .. }
        &&& self.city_named(city, name)
    }

    /// The visits to cities called `name`, each as the position of its
    /// relationship.
    pub open spec fn visits_to(self, name: Seq<char>) -> Set<int> {
        Set::new(|i: int| self.is_visit_to(i, name))
    }

    /// All people of the store.
    pub open spec fn people(self) -> Set<EntityId> {
        Set::new(|id: EntityId| self.is_person(id))
    }

    /// The people who visited a city called `name`.
    pub open spec fn visitors(self, name: Seq<char>) -> Set<EntityId> {
        Set::new(|p: EntityId| exists|i: int| self.visit_to_named(i, p, name))
    }

    /// How many different people visited a city called `name`; `NotFound`
    /// where no city is called so.
    pub open spec fn count_visits(self, name: Seq<char>) -> Result<nat, GraphError> {
        if self.has_city(name) {
            Ok(self.visitors(name).len())
        } else {
            Err(GraphError::NotFound)
        }
    }

    /// The number of visitors of each candidate.
    pub open spec fn visit_counts(self, candidates: Seq<Seq<char>>) -> Seq<nat> {
        Seq::new(candidates.len(), |i: int| self.visitors(candidates[i]).len())
    }

    /// The most visited of the cities called as `candidates` say, the first of
    /// them among equals. `NoCandidates` where there is none, `NotFound` where
    /// one of them names no city.
    pub open spec fn most_visited_city(self, candidates: Seq<Seq<char>>) -> Result<
        Seq<char>,
        GraphError,
    > {
        if candidates.len() == 0 {
            Err(GraphError::NoCandidates)
        } else if exists|i: int| 0 <= i < candidates.len() && !self.has_city(#[trigger] candidates[i]) {
            Err(GraphError::NotFound)
        } else {
            Ok(candidates[first_maximum(self.visit_counts(candidates))])
        }
    }

    // --- meetings -------------------------------------------------------

    /// Relationship `i` is a stay of `person` in `city` that shares a day with
    /// the interval from `start` to `end`.
    pub open spec fn stay_overlapping(
        self,
        i: int,
        person: EntityId,
        city: EntityId,
        start: Date,
        end: Date,
    ) -> bool {
        &&& 0 <= i < self.relationships.len()
        &&& self.relationships[i] matches Relationship::Visited { person: p, city: c, start: s, end: e }
        &&& p == person
        &&& c == city
        &&& intervals_overlap(s, e, start, end)
    }

    /// `person` was in `city` on some day from `start` to `end`.
    pub open spec fn was_in(self, person: EntityId, city: EntityId, start: Date, end: Date) -> bool {
        exists|i: int| self.stay_overlapping(i, person, city, start, end)
    }

    /// Relationship `j` is a stay of `other` in `city` during which `person`
    /// was there too.
    pub open spec fn meeting_at(self, j: int, person: EntityId, other: EntityId, city: EntityId) -> bool {
        &&& 0 <= j < self.relationships.len()
        &&& self.relationships[j] matches Relationship::Visited { person: p, city: c, start, end }
        &&& p == other
        &&& c == city
        &&& self.was_in(person, city, start, end)
    }

    /// `person` and `other` were in `city` on a common day.
    pub open spec fn met_in(self, person: EntityId, other: EntityId, city: EntityId) -> bool {
        exists|j: int| self.meeting_at(j, person, other, city)
    }

    /// The pairs of a friend of `person` and a city in which the two met.
    pub open spec fn meetings(self, person: EntityId) -> Set<(EntityId, EntityId)> {
        Set::new(
            |pair: (EntityId, EntityId)|
                self.are_friends(person, pair.0) && self.met_in(person, pair.0, pair.1),
        )
    }

    /// In how many pairs of a friend and a city the person called `first`
    /// `last` met the friend in the city. `NotFound` where nobody is called so,
    /// `AmbiguousPerson` where several people are.
    pub open spec fn friends_met(self, first: Seq<char>, last: Seq<char>) -> Result<nat, GraphError> {
        if !exists|id: EntityId| self.person_named(id, first, last) {
            Err(GraphError::NotFound)
        } else if exists|a: EntityId, b: EntityId|
            a != b && self.person_named(a, first, last) && self.person_named(b, first, last) {
            Err(GraphError::AmbiguousPerson)
        } else {
            Ok(self.meetings(choose|id: EntityId| self.person_named(id, first, last)).len())
        }
    }

    // --- inference ------------------------------------------------------

    /// `self` is `old` followed by friendship edges only.
    pub open spec fn adds_friendships_to(self, old: StoreModel) -> bool {
        &&& self.entities == old.entities
        &&& old.relationships.len() <= self.relationships.len()
        &&& self.relationships.subrange(0, old.relationships.len() as int) == old.relationships
        &&& forall|i: int|
            old.relationships.len() <= i < self.relationships.len() ==> (
            #[trigger] self.relationships[i]) is Friendship
    }

    /// `self` is what inference makes of `old`: the same store with a
    /// friendship edge added for all compatriots who had none, and for
    /// nobody else.
    pub open spec fn is_inference_of(self, old: StoreModel) -> bool {
        &&& self.adds_friendships_to(old)
        &&& self.wf()
        &&& self.friendships_complete()
    }
}

/// Whether `id` is among `ids`.
pub fn holds_id(ids: &Vec<EntityId>, id: EntityId) -> (r: bool)
    ensures
        r == ids@.contains(id),
{
    let mut k: usize = 0;
    while k < ids.len()
        invariant
            k <= ids.len(),
            forall|j: int| 0 <= j < k ==> ids@[j] != id,
        decreases ids.len() - k,
    {
        if ids[k] == id {
            return true;
        }
        k += 1;
    }
    false
}

/// The position of the greatest of `counts`, the first one among equals; 0 for
/// an empty sequence.
pub open spec fn first_maximum(counts: Seq<nat>) -> int
    decreases counts.len(),
{
    if counts.len() <= 1 {
        0
    } else {
        let before = first_maximum(counts.drop_last());
        if counts.last() > counts[before] {
            counts.len() - 1
        } else {
            before
        }
    }
}

} // verus!
