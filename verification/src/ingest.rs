//! Ingestion of people from lists of records.
//!
//! A [`Traveller`] is one person with their homeland and their stays. A list
//! of travellers is taken in as a whole or not at all.

use crate::date::Date;
use crate::model::{
    Entity, EntityId, EntityKind, EntityModel, GraphError, NewRelationship, Relationship,
    StoreModel,
};
use crate::store::Store;
use vstd::prelude::*;

verus! {

/// A stay in `city` from `start` to `end`, both days included.
#[derive(Clone, Copy, Debug, PartialEq, Eq, Structural)]
pub struct Stay {
    pub city: EntityId,
    pub start: Date,
    pub end: Date,
}

/// A person to be taken in, with their homeland and their stays.
#[derive(Debug, PartialEq, Eq)]
pub struct Traveller {
    pub first_name: String,
    pub last_name: String,
    pub country: EntityId,
    pub stays: Vec<Stay>,
}

/// What a [`Traveller`] stands for.
pub struct TravellerModel {
    pub first_name: Seq<char>,
    pub last_name: Seq<char>,
    pub country: EntityId,
    pub stays: Seq<Stay>,
}

impl Clone for Traveller {
    fn clone(&self) -> (copy: Traveller)
        ensures
            copy@ == self@,
    {
        let stays = self.stays.clone();
        assert(stays@ =~= self.stays@);
        Traveller {
            first_name: self.first_name.clone(),
            last_name: self.last_name.clone(),
            country: self.country,
            stays,
        }
    }
}

impl View for Traveller {
    type V = TravellerModel;

    open spec fn view(&self) -> TravellerModel {
        TravellerModel {
            first_name: self.first_name@,
            last_name: self.last_name@,
            country: self.country,
            stays: self.stays@,
        }
    }
}

/// The travellers that `travellers` holds, each as its model.
pub open spec fn travellers_of(travellers: Seq<Traveller>) -> Seq<TravellerModel> {
    travellers.map_values(|t: Traveller| t@)
}

impl TravellerModel {
    pub open spec fn person(self) -> EntityModel {
        EntityModel::Person { first_name: self.first_name, last_name: self.last_name }
    }
}

impl StoreModel {
    /// The store after a visit of `person` for each of `stays`, in their
    /// order.
    pub open spec fn with_stays(self, person: EntityId, stays: Seq<Stay>) -> StoreModel
        decreases stays.len(),
    {
        if stays.len() == 0 {
            self
        } else {
            self.with_stays(person, stays.drop_last()).with_relationship(
                Relationship::Visited {
                    person,
                    city: stays.last().city,
                    start: stays.last().start,
                    end: stays.last().end,
                },
            )
        }
    }

    /// The store after `t` was taken in: a new person, then their
    /// nationality, then their stays.
    pub open spec fn with_traveller(self, t: TravellerModel) -> StoreModel {
        let person = EntityId(self.entities.len() as usize);
        self.with_entity(t.person()).with_relationship(
            Relationship::Nationality { person, country: t.country },
        ).with_stays(person, t.stays)
    }

    /// The store after all of `ts` were taken in, in their order.
    pub open spec fn with_travellers(self, ts: Seq<TravellerModel>) -> StoreModel
        decreases ts.len(),
    {
        if ts.len() == 0 {
            self
        } else {
            self.with_travellers(ts.drop_last()).with_traveller(ts.last())
        }
    }

    /// The homeland of each of `ts` is a country and each of their stays is in
    /// a city.
    pub open spec fn knows_places_of(self, ts: Seq<TravellerModel>) -> bool {
        forall|i: int|
            0 <= i < ts.len() ==> self.is_country((#[trigger] ts[i]).country) && forall|j: int|
                0 <= j < ts[i].stays.len() ==> self.is_city((#[trigger] ts[i].stays[j]).city)
    }

    /// Why the store refuses `ts`, if it does: `NotFound` where a homeland is
    /// no country or a stay is in no city; else `InvalidInterval` where a stay
    /// ends before it starts.
    pub open spec fn rejection_of(self, ts: Seq<TravellerModel>) -> Option<GraphError> {
        if !self.knows_places_of(ts) {
            Some(GraphError::NotFound)
        } else if !stays_in_order(ts) {
            Some(GraphError::InvalidInterval)
        } else {
            None
        }
    }
}

/// No stay of any of `ts` ends before it starts.
pub open spec fn stays_in_order(ts: Seq<TravellerModel>) -> bool {
    forall|i: int, j: int|
        0 <= i < ts.len() && 0 <= j < ts[i].stays.len() ==> (#[trigger] ts[i].stays[j]).start.le(
            ts[i].stays[j].end,
        )
}

impl Store {
    fn knows_places_of(&self, travellers: &Vec<Traveller>) -> (r: bool)
        ensures
            r == self@.knows_places_of(travellers_of(travellers@)),
    {
        let ghost ts = travellers_of(travellers@);
        let mut i: usize = 0;
        while i < travellers.len()
            invariant
                i <= travellers.len(),
                ts == travellers_of(travellers@),
                self@.knows_places_of(ts.take(i as int)),
            decreases travellers.len() - i,
        {
            let t = &travellers[i];
            assert(ts[i as int] == t@);
            if !self.is_kind(t.country, EntityKind::Country) {
                return false;
            }
            let mut j: usize = 0;
            while j < t.stays.len()
                invariant
                    j <= t.stays.len(),
                    i < travellers.len(),
                    ts == travellers_of(travellers@),
                    ts[i as int] == t@,
                    forall|k: int| 0 <= k < j ==> self@.is_city((#[trigger] t.stays@[k]).city),
                decreases t.stays.len() - j,
            {
                if !self.is_kind(t.stays[j].city, EntityKind::City) {
                    assert(!self@.is_city(ts[i as int].stays[j as int].city));
                    return false;
                }
                j += 1;
            }
            assert forall|k: int| 0 <= k < i + 1 implies self@.is_country(
                (#[trigger] ts.take(i + 1)[k]).country,
            ) && forall|j: int|
                0 <= j < ts.take(i + 1)[k].stays.len() ==> self@.is_city(
                    (#[trigger] ts.take(i + 1)[k].stays[j]).city,
                ) by {
                if k < i {
                    assert(ts.take(i + 1)[k] == ts.take(i as int)[k]);
                }
            }
            i += 1;
        }
        assert(ts.take(i as int) =~= ts);
        true
    }

    /// Takes in `travellers`, in their order: for each a new person, their
    /// nationality and a visit for each stay. Returns the identities of the
    /// new people. Where a homeland is no country or a stay is in no city the
    /// list is refused with `NotFound`; else, where a stay ends before it
    /// starts, with `InvalidInterval`. A refused list leaves the store as it
    /// was.
    pub fn ingest(&mut self, travellers: &Vec<Traveller>) -> (taken: Result<
        Vec<EntityId>,
        GraphError,
    >)
        requires
            old(self).wf(),
        ensures
            final(self).wf(),
            match taken {
                Ok(people) => {
                    &&& old(self)@.rejection_of(travellers_of(travellers@)) is None
                    &&& final(self)@ == old(self)@.with_travellers(travellers_of(travellers@))
                    &&& people@.len() == travellers@.len()
                    &&& forall|i: int|
                        0 <= i < people@.len() ==> (#[trigger] people@[i]).0 == old(self)@.entities.len() + i
                },
                Err(e) => old(self)@.rejection_of(travellers_of(travellers@)) == Some(e) && final(self)@ == old(self)@ && final(self).records() == old(self).records(),
            },
    {
        let ghost start = self@;
        let ghost ts = travellers_of(travellers@);
        if !self.knows_places_of(travellers) {
            return Err(GraphError::NotFound);
        }
        if !all_in_order(travellers) {
            return Err(GraphError::InvalidInterval);
        }
        let mut people: Vec<EntityId> = Vec::new();
        let mut i: usize = 0;
        while i < travellers.len()
            invariant
                i <= travellers.len(),
                ts == travellers_of(travellers@),
                start == old(self)@,
                start.knows_places_of(ts),
                stays_in_order(ts),
                self.wf(),
                self@ == start.with_travellers(ts.take(i as int)),
                self@.entities.len() == start.entities.len() + i,
                forall|id: EntityId, kind: EntityKind| #[trigger]
                    start.is_kind(id, kind) ==> self@.is_kind(id, kind),
                people@.len() == i,
                forall|k: int|
                    0 <= k < i ==> (#[trigger] people@[k]).0 == start.entities.len() + k,
            decreases travellers.len() - i,
        {
            let t = &travellers[i];
            let ghost before = self@;
            assert(ts[i as int] == t@);
            let person = self.add_entity(
                Entity::Person { first_name: t.first_name.clone(), last_name: t.last_name.clone() },
            );
            assert(person == EntityId(before.entities.len() as usize));
            assert(self@ == before.with_entity(t@.person()));
            let homeland = self.add_relationship(
                NewRelationship::Nationality { person, country: t.country },
            );
            assert(homeland is Ok);
            let ghost settled = self@;
            let mut j: usize = 0;
            while j < t.stays.len()
                invariant
                    j <= t.stays.len(),
                    i < travellers.len(),
                    ts == travellers_of(travellers@),
                    ts[i as int] == t@,
                    start.knows_places_of(ts),
                    stays_in_order(ts),
                    self.wf(),
                    self@ == settled.with_stays(person, t.stays@.take(j as int)),
                    self@.entities == settled.entities,
                    settled.is_person(person),
                    forall|id: EntityId, kind: EntityKind| #[trigger]
                        start.is_kind(id, kind) ==> settled.is_kind(id, kind),
                decreases t.stays.len() - j,
            {
                let stay = t.stays[j];
                assert(stay == ts[i as int].stays[j as int]);
                assert(start.is_city(ts[i as int].stays[j as int].city));
                assert(stay.start.le(stay.end));
                let visit = self.add_relationship(
                    NewRelationship::Visited {
                        person,
                        city: stay.city,
                        start: stay.start,
                        end: stay.end,
                    },
                );
                assert(visit is Ok);
                assert(t.stays@.take(j + 1).drop_last() =~= t.stays@.take(j as int));
                j += 1;
            }
            assert(t.stays@.take(j as int) =~= t.stays@);
            assert(ts.take(i + 1).drop_last() =~= ts.take(i as int));
            people.push(person);
            i += 1;
        }
        assert(ts.take(i as int) =~= ts);
        Ok(people)
    }
}

fn all_in_order(travellers: &Vec<Traveller>) -> (r: bool)
    ensures
        r == stays_in_order(travellers_of(travellers@)),
{
    let ghost ts = travellers_of(travellers@);
    let mut i: usize = 0;
    while i < travellers.len()
        invariant
            i <= travellers.len(),
            ts == travellers_of(travellers@),
            stays_in_order(ts.take(i as int)),
        decreases travellers.len() - i,
    {
        let t = &travellers[i];
        assert(ts[i as int] == t@);
        let mut j: usize = 0;
        while j < t.stays.len()
            invariant
                j <= t.stays.len(),
                i < travellers.len(),
                ts == travellers_of(travellers@),
                ts[i as int] == t@,
                forall|k: int| 0 <= k < j ==> (#[trigger] t.stays@[k]).start.le(t.stays@[k].end),
            decreases t.stays.len() - j,
        {
            if !t.stays[j].start.is_at_or_before(&t.stays[j].end) {
                assert(!ts[i as int].stays[j as int].start.le(ts[i as int].stays[j as int].end));
                return false;
            }
            j += 1;
        }
        assert forall|k: int, j: int|
            0 <= k < i + 1 && 0 <= j < ts.take(i + 1)[k].stays.len() implies (
        #[trigger] ts.take(i + 1)[k].stays[j]).start.le(ts.take(i + 1)[k].stays[j].end) by {
            if k < i {
                assert(ts.take(i + 1)[k] == ts.take(i as int)[k]);
            }
        }
        i += 1;
    }
    assert(ts.take(i as int) =~= ts);
    true
}

} // verus!
