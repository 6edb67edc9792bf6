//! The store: the one owner of every entity and relationship.
//!
//! Records are appended and never changed or removed, so an identity, once
//! handed out, always names the same record.

use crate::model::{
    Entity, EntityId, EntityKind, EntityModel, GraphError, NewRelationship, Relationship,
    RelationshipId, RelationshipKind, StoreModel,
};
use vstd::prelude::*;

verus! {

impl Entity {
    pub fn kind(&self) -> (k: EntityKind)
        ensures
            k == self@.kind(),
    {
        match self {
            Entity::Country { .. } => EntityKind::Country,
            Entity::City { .. } => EntityKind::City,
            Entity::Person { .. } => EntityKind::Person,
        }
    }
}

impl Relationship {
    pub fn classify(&self) -> (k: RelationshipKind)
        ensures
            k == self.kind(),
    {
        match self {
            Relationship::Visited { .. } => RelationshipKind::Visited,
            Relationship::Nationality { .. } => RelationshipKind::Nationality,
            Relationship::Friendship { .. } => RelationshipKind::Friendship,
        }
    }
}

/// All entities and relationships, each under the identity that it got when
/// it was added.
#[derive(Debug)]
pub struct Store {
    entities: Vec<Entity>,
    relationships: Vec<Relationship>,
}

impl View for Store {
    type V = StoreModel;

    open spec fn view(&self) -> StoreModel {
        StoreModel {
            entities: self.records().map_values(|e: Entity| e@),
            relationships: self.edges(),
        }
    }
}

impl Store {
    /// The entities as they were handed in, in the order of insertion.
    pub closed spec fn records(&self) -> Seq<Entity> {
        self.entities@
    }

    /// The relationships in the order of insertion.
    pub closed spec fn edges(&self) -> Seq<Relationship> {
        self.relationships@
    }

    /// The invariant that every operation keeps.
    pub open spec fn wf(&self) -> bool {
        self@.wf()
    }

    /// A store without records.
    pub fn new() -> (store: Store)
        ensures
            store.wf(),
            store@ == StoreModel::empty(),
            store.records() == Seq::<Entity>::empty(),
    {
        let store = Store { entities: Vec::new(), relationships: Vec::new() };
        assert(store@.entities =~= Seq::empty());
        store
    }

    pub fn entity_count(&self) -> (n: usize)
        ensures
            n == self@.entities.len(),
    {
        self.entities.len()
    }

    pub fn relationship_count(&self) -> (n: usize)
        ensures
            n == self@.relationships.len(),
    {
        self.relationships.len()
    }

    /// The entity that `id` names, if it names one.
    pub fn entity(&self, id: EntityId) -> (found: Option<&Entity>)
        ensures
            found is Some <==> self@.has_entity(id),
            found matches Some(e) ==> *e == self.records()[id.0 as int] && e@ == self@.entity(id),
    {
        if id.0 < self.entities.len() {
            Some(&self.entities[id.0])
        } else {
            None
        }
    }

    /// The relationship that `id` names, if it names one.
    pub fn relationship(&self, id: RelationshipId) -> (found: Option<Relationship>)
        ensures
            found is Some <==> self@.has_relationship(id),
            found matches Some(r) ==> r == self@.relationships[id.0 as int],
    {
        if id.0 < self.relationships.len() {
            Some(self.relationships[id.0])
        } else {
            None
        }
    }

    /// Whether `id` names an entity of kind `kind`.
    pub fn is_kind(&self, id: EntityId, kind: EntityKind) -> (r: bool)
        ensures
            r == self@.is_kind(id, kind),
    {
        match self.entity(id) {
            Some(e) => e.kind() == kind,
            None => false,
        }
    }

    /// Adds `entity` and returns its identity. Entities with equal names stay
    /// apart: each insertion makes a new entity.
    pub fn add_entity(&mut self, entity: Entity) -> (id: EntityId)
        requires
            old(self).wf(),
        ensures
            final(self).wf(),
            id.0 == old(self)@.entities.len(),
            final(self)@ == old(self)@.with_entity(entity@),
            final(self).records() == old(self).records().push(entity),
    {
        let id = EntityId(self.entities.len());
        self.entities.push(entity);
        proof {
            assert(self@.entities =~= old(self)@.entities.push(entity@));
            lemma_with_entity_wf(old(self)@, entity@);
        }
        id
    }

    /// Adds the edge `r`, unless an end of it is no entity of the kind asked
    /// for (`NotFound`) or, the ends being in order, it is a visit that ends
    /// before it starts (`InvalidInterval`). A refused edge leaves the store as
    /// it was.
    pub fn add_relationship(&mut self, r: NewRelationship) -> (added: Result<
        RelationshipId,
        GraphError,
    >)
        requires
            old(self).wf(),
        ensures
            final(self).wf(),
            final(self).records() == old(self).records(),
            match added {
                Ok(id) => old(self)@.rejection(r) is None && id.0 == old(self)@.relationships.len()
                    && final(self)@ == old(self)@.with_relationship(r.stored()),
                Err(e) => old(self)@.rejection(r) == Some(e) && final(self)@ == old(self)@,
            },
    {
        let edge = match r {
            NewRelationship::Visited { person, city, start, end } => {
                if !self.is_kind(person, EntityKind::Person) || !self.is_kind(
                    city,
                    EntityKind::City,
                ) {
                    return Err(GraphError::NotFound);
                }
                if !start.is_at_or_before(&end) {
                    return Err(GraphError::InvalidInterval);
                }
                Relationship::Visited { person, city, start, end }
            },
            NewRelationship::Nationality { person, country } => {
                if !self.is_kind(person, EntityKind::Person) || !self.is_kind(
                    country,
                    EntityKind::Country,
                ) {
                    return Err(GraphError::NotFound);
                }
                Relationship::Nationality { person, country }
            },
        };
        let id = RelationshipId(self.relationships.len());
        self.relationships.push(edge);
        proof {
            lemma_with_relationship_wf(old(self)@, edge);
        }
        Ok(id)
    }

    /// The entities of kind `kind` that `accepts` accepts, in the order of
    /// insertion. Only entities of that kind are shown to `accepts`.
    pub fn entities_by<F: Fn(&Entity) -> bool>(&self, kind: EntityKind, accepts: F) -> (ids: Vec<
        EntityId,
    >)
        requires
            forall|e: Entity| call_requires(accepts, (&e,)),
        ensures
            forall|a: int, b: int| 0 <= a < b < ids@.len() ==> ids@[a].0 < ids@[b].0,
            forall|k: int|
                0 <= k < ids@.len() ==> self@.is_kind(#[trigger] ids@[k], kind) && call_ensures(
                    accepts,
                    (&self.records()[ids@[k].0 as int],),
                    true,
                ),
            forall|id: EntityId|
                self@.is_kind(id, kind) && !ids@.contains(id) ==> call_ensures(
                    accepts,
                    (&#[trigger] self.records()[id.0 as int],),
                    false,
                ),
    {
        let mut ids: Vec<EntityId> = Vec::new();
        let n = self.entities.len();
        let mut i: usize = 0;
        while i < n
            invariant
                i <= n == self.records().len(),
                forall|e: Entity| call_requires(accepts, (&e,)),
                forall|k: int| 0 <= k < ids@.len() ==> (#[trigger] ids@[k]).0 < i,
                forall|a: int, b: int| 0 <= a < b < ids@.len() ==> ids@[a].0 < ids@[b].0,
                forall|k: int|
                    0 <= k < ids@.len() ==> self@.is_kind(#[trigger] ids@[k], kind)
                        && call_ensures(accepts, (&self.records()[ids@[k].0 as int],), true),
                forall|id: EntityId|
                    id.0 < i && self@.is_kind(id, kind) && !ids@.contains(id) ==> call_ensures(
                        accepts,
                        (&#[trigger] self.records()[id.0 as int],),
                        false,
                    ),
            decreases n - i,
        {
            let ghost before = ids@;
            let e = &self.entities[i];
            let mut kept = false;
            if e.kind() == kind {
                kept = accepts(e);
                if kept {
                    ids.push(EntityId(i));
                }
            }
            proof {
                assert forall|id: EntityId|
                    id.0 < i + 1 && self@.is_kind(id, kind) && !ids@.contains(id) implies call_ensures(
                    accepts,
                    (&#[trigger] self.records()[id.0 as int],),
                    false,
                ) by {
                    if id.0 == i {
                        if kept {
                            assert(ids@[before.len() as int] == id);
                        }
                    } else if before.contains(id) {
                        let k = choose|k: int| 0 <= k < before.len() && before[k] == id;
                        assert(ids@[k] == id);
                    }
                }
            }
            i += 1;
        }
        ids
    }

    /// The relationships of kind `kind` that `accepts` accepts, in the order
    /// of insertion. Only relationships of that kind are shown to `accepts`.
    pub fn relationships_by<F: Fn(&Relationship) -> bool>(
        &self,
        kind: RelationshipKind,
        accepts: F,
    ) -> (ids: Vec<RelationshipId>)
        requires
            forall|r: Relationship| call_requires(accepts, (&r,)),
        ensures
            forall|a: int, b: int| 0 <= a < b < ids@.len() ==> ids@[a].0 < ids@[b].0,
            forall|k: int|
                0 <= k < ids@.len() ==> self@.has_relationship(#[trigger] ids@[k])
                    && self@.relationships[ids@[k].0 as int].kind() == kind && call_ensures(
                    accepts,
                    (&self@.relationships[ids@[k].0 as int],),
                    true,
                ),
            forall|id: RelationshipId|
                self@.has_relationship(id) && self@.relationships[id.0 as int].kind() == kind
                    && !ids@.contains(id) ==> call_ensures(
                    accepts,
                    (&#[trigger] self@.relationships[id.0 as int],),
                    false,
                ),
    {
        let mut ids: Vec<RelationshipId> = Vec::new();
        let n = self.relationships.len();
        let mut i: usize = 0;
        while i < n
            invariant
                i <= n == self@.relationships.len(),
                forall|r: Relationship| call_requires(accepts, (&r,)),
                forall|k: int| 0 <= k < ids@.len() ==> (#[trigger] ids@[k]).0 < i,
                forall|a: int, b: int| 0 <= a < b < ids@.len() ==> ids@[a].0 < ids@[b].0,
                forall|k: int|
                    0 <= k < ids@.len() ==> self@.relationships[(#[trigger] ids@[k]).0 as int].kind()
                        == kind && call_ensures(
                        accepts,
                        (&self@.relationships[ids@[k].0 as int],),
                        true,
                    ),
                forall|id: RelationshipId|
                    id.0 < i && self@.relationships[id.0 as int].kind() == kind && !ids@.contains(
                        id,
                    ) ==> call_ensures(
                        accepts,
                        (&#[trigger] self@.relationships[id.0 as int],),
                        false,
                    ),
            decreases n - i,
        {
            let ghost before = ids@;
            let r = &self.relationships[i];
            let mut kept = false;
            if r.classify() == kind {
                kept = accepts(r);
                if kept {
                    ids.push(RelationshipId(i));
                }
            }
            proof {
                assert forall|id: RelationshipId|
                    id.0 < i + 1 && self@.relationships[id.0 as int].kind() == kind
                        && !ids@.contains(id) implies call_ensures(
                    accepts,
                    (&#[trigger] self@.relationships[id.0 as int],),
                    false,
                ) by {
                    if id.0 == i {
                        if kept {
                            assert(ids@[before.len() as int] == id);
                        }
                    } else if before.contains(id) {
                        let k = choose|k: int| 0 <= k < before.len() && before[k] == id;
                        assert(ids@[k] == id);
                    }
                }
            }
            i += 1;
        }
        ids
    }

    /// Adds a friendship between the compatriots `a` and `b`, who have none:
    /// the one way in which a friendship comes to be.
    pub(crate) fn add_friendship(&mut self, a: EntityId, b: EntityId)
        requires
            old(self).wf(),
            old(self)@.is_person(a),
            old(self)@.is_person(b),
            old(self)@.compatriots(a, b),
            !old(self)@.are_friends(a, b),
        ensures
            final(self).wf(),
            final(self).records() == old(self).records(),
            final(self)@ == old(self)@.with_relationship(
                Relationship::Friendship { person1: a, person2: b },
            ),
    {
        let edge = Relationship::Friendship { person1: a, person2: b };
        self.relationships.push(edge);
        proof {
            lemma_with_relationship_wf(old(self)@, edge);
        }
    }
}

/// A new entity leaves every edge as valid as it was.
pub proof fn lemma_with_entity_wf(s: StoreModel, e: EntityModel)
    requires
        s.wf(),
    ensures
        s.with_entity(e).wf(),
{
    let t = s.with_entity(e);
    assert(t.relationships.subrange(0, s.relationships.len() as int) =~= s.relationships);
    lemma_compatriots_kept(s, t);
    assert(t.friendships_distinct()) by {
        assert forall|i: int, j: int, a: EntityId, b: EntityId|
            t.friendship_at(i, a, b) && t.friendship_at(j, a, b) implies i == j by {
            assert(s.friendship_at(i, a, b) && s.friendship_at(j, a, b));
        }
    }
}

/// Whoever were compatriots stay so when records are added.
pub proof fn lemma_compatriots_kept(s: StoreModel, t: StoreModel)
    requires
        s.relationships.len() <= t.relationships.len(),
        t.relationships.subrange(0, s.relationships.len() as int) == s.relationships,
    ensures
        forall|a: EntityId, c: EntityId| #[trigger]
            s.has_nationality(a, c) ==> t.has_nationality(a, c),
        forall|a: EntityId, b: EntityId| #[trigger] s.compatriots(a, b) ==> t.compatriots(a, b),
        forall|a: EntityId, b: EntityId| #[trigger] s.are_friends(a, b) ==> t.are_friends(a, b),
{
    assert forall|a: EntityId, c: EntityId| #[trigger] s.has_nationality(a, c) implies t.has_nationality(
        a,
        c,
    ) by {
        let i = choose|i: int| s.nationality_at(i, a, c);
        assert(t.nationality_at(i, a, c));
    }
    assert forall|a: EntityId, b: EntityId| #[trigger] s.compatriots(a, b) implies t.compatriots(
        a,
        b,
    ) by {
        let c = choose|c: EntityId| s.share(a, b, c);
        assert(t.share(a, b, c));
    }
    assert forall|a: EntityId, b: EntityId| #[trigger] s.are_friends(a, b) implies t.are_friends(
        a,
        b,
    ) by {
        let i = choose|i: int| s.friendship_at(i, a, b);
        assert(t.friendship_at(i, a, b));
    }
}

/// An edge that the store admits, and that is no second friendship between
/// two people, keeps the store valid.
pub proof fn lemma_with_relationship_wf(s: StoreModel, r: Relationship)
    requires
        s.wf(),
        s.admits(r),
        r matches Relationship::Friendship { person1, person2 } ==> !s.are_friends(person1, person2),
    ensures
        s.with_relationship(r).wf(),
{
    let t = s.with_relationship(r);
    let n = s.relationships.len() as int;
    assert(t.relationships.subrange(0, n) =~= s.relationships);
    lemma_compatriots_kept(s, t);
    assert(t.friendships_distinct()) by {
        assert forall|i: int, j: int, a: EntityId, b: EntityId|
            t.friendship_at(i, a, b) && t.friendship_at(j, a, b) implies i == j by {
            if i < n && j < n {
                assert(s.friendship_at(i, a, b) && s.friendship_at(j, a, b));
            } else if i < n {
                assert(s.friendship_at(i, a, b));
                assert(s.friendship_at(i, b, a));
            } else if j < n {
                assert(s.friendship_at(j, a, b));
                assert(s.friendship_at(j, b, a));
            }
        }
    }
}

} // verus!
