use visitations::{
    Date, Entity, EntityId, EntityKind, GraphError, NewRelationship, Relationship, RelationshipId,
    RelationshipKind, Store,
};

fn day(month: u8, day: u8) -> Date {
    Date::new(2023, month, day).unwrap()
}

fn sample() -> (Store, EntityId, EntityId, EntityId) {
    let mut store = Store::new();
    let georgia = store.add_entity(Entity::Country { name: "Georgia".to_string() });
    let tbilisi = store.add_entity(Entity::City { name: "Tbilisi".to_string() });
    let irakli = store.add_entity(Entity::Person {
        first_name: "Irakli".to_string(),
        last_name: "Skhulukhia".to_string(),
    });
    (store, georgia, tbilisi, irakli)
}

#[test]
fn new_store_is_empty() {
    let store = Store::new();
    assert_eq!(store.entity_count(), 0);
    assert_eq!(store.relationship_count(), 0);
    assert_eq!(store.entity(EntityId(0)), None);
    assert_eq!(store.relationship(RelationshipId(0)), None);
}

#[test]
fn identities_are_handed_out_in_order() {
    let (store, georgia, tbilisi, irakli) = sample();
    assert_eq!((georgia, tbilisi, irakli), (EntityId(0), EntityId(1), EntityId(2)));
    assert_eq!(store.entity_count(), 3);
    assert_eq!(store.entity(tbilisi), Some(&Entity::City { name: "Tbilisi".to_string() }));
    assert_eq!(store.entity(EntityId(3)), None);
    assert!(store.is_kind(georgia, EntityKind::Country));
    assert!(store.is_kind(irakli, EntityKind::Person));
    assert!(!store.is_kind(irakli, EntityKind::City));
    assert!(!store.is_kind(EntityId(3), EntityKind::City));
}

#[test]
fn equal_entities_are_not_merged() {
    let mut store = Store::new();
    let first = store.add_entity(Entity::City { name: "London".to_string() });
    let second = store.add_entity(Entity::City { name: "London".to_string() });
    assert_ne!(first, second);
    assert_eq!(store.entity_count(), 2);
    assert_eq!(store.entity(first), store.entity(second));
}

#[test]
fn relationships_are_kept_as_handed_in() {
    let (mut store, georgia, tbilisi, irakli) = sample();
    let n = store.add_relationship(NewRelationship::Nationality { person: irakli, country: georgia });
    assert_eq!(n, Ok(RelationshipId(0)));
    let v = store.add_relationship(NewRelationship::Visited {
        person: irakli,
        city: tbilisi,
        start: day(1, 10),
        end: day(1, 10),
    });
    assert_eq!(v, Ok(RelationshipId(1)));
    assert_eq!(store.relationship_count(), 2);
    assert_eq!(
        store.relationship(RelationshipId(0)),
        Some(Relationship::Nationality { person: irakli, country: georgia })
    );
    assert_eq!(
        store.relationship(RelationshipId(1)),
        Some(Relationship::Visited { person: irakli, city: tbilisi, start: day(1, 10), end: day(1, 10) })
    );
    assert_eq!(store.relationship(RelationshipId(2)), None);
}

#[test]
fn visit_that_ends_before_it_starts_is_refused() {
    let (mut store, _, tbilisi, irakli) = sample();
    let r = store.add_relationship(NewRelationship::Visited {
        person: irakli,
        city: tbilisi,
        start: day(1, 11),
        end: day(1, 10),
    });
    assert_eq!(r, Err(GraphError::InvalidInterval));
    let r = store.add_relationship(NewRelationship::Visited {
        person: irakli,
        city: tbilisi,
        start: day(2, 1),
        end: day(1, 31),
    });
    assert_eq!(r, Err(GraphError::InvalidInterval));
    assert_eq!(store.relationship_count(), 0);
    assert_eq!(store.count_visits("Tbilisi"), Ok(0));
}

#[test]
fn edge_to_a_missing_or_wrong_entity_is_refused() {
    let (mut store, georgia, tbilisi, irakli) = sample();
    let absent = EntityId(17);
    let visits = [(absent, tbilisi), (irakli, absent), (irakli, georgia), (tbilisi, tbilisi)];
    for (person, city) in visits {
        let r = store.add_relationship(NewRelationship::Visited {
            person,
            city,
            start: day(1, 1),
            end: day(1, 2),
        });
        assert_eq!(r, Err(GraphError::NotFound));
    }
    let homes = [(absent, georgia), (irakli, absent), (irakli, tbilisi), (georgia, georgia)];
    for (person, country) in homes {
        let r = store.add_relationship(NewRelationship::Nationality { person, country });
        assert_eq!(r, Err(GraphError::NotFound));
    }
    assert_eq!(store.relationship_count(), 0);
}

#[test]
fn missing_entity_is_reported_before_the_interval() {
    let (mut store, _, tbilisi, _) = sample();
    let r = store.add_relationship(NewRelationship::Visited {
        person: EntityId(9),
        city: tbilisi,
        start: day(1, 11),
        end: day(1, 10),
    });
    assert_eq!(r, Err(GraphError::NotFound));
}

#[test]
fn entities_by_filters_one_kind() {
    let (mut store, _, tbilisi, irakli) = sample();
    let london = store.add_entity(Entity::City { name: "London".to_string() });
    let other = store.add_entity(Entity::City { name: "Tbilisi".to_string() });
    let all = store.entities_by(EntityKind::City, |_| true);
    assert_eq!(all, vec![tbilisi, london, other]);
    let named = store.entities_by(EntityKind::City, |e| match e {
        Entity::City { name } => name == "Tbilisi",
        _ => true,
    });
    assert_eq!(named, vec![tbilisi, other]);
    assert_eq!(store.entities_by(EntityKind::Person, |_| true), vec![irakli]);
    assert_eq!(store.entities_by(EntityKind::Person, |_| false), Vec::new());
    assert_eq!(Store::new().entities_by(EntityKind::Country, |_| true), Vec::new());
}

#[test]
fn relationships_by_filters_one_kind() {
    let (mut store, georgia, tbilisi, irakli) = sample();
    let luka = store.add_entity(Entity::Person {
        first_name: "Luka".to_string(),
        last_name: "Toloraia".to_string(),
    });
    for p in [irakli, luka] {
        store.add_relationship(NewRelationship::Nationality { person: p, country: georgia }).unwrap();
        store
            .add_relationship(NewRelationship::Visited {
                person: p,
                city: tbilisi,
                start: day(1, 10),
                end: day(1, 12),
            })
            .unwrap();
    }
    store.infer_friendships();
    let visits = store.relationships_by(RelationshipKind::Visited, |_| true);
    assert_eq!(visits, vec![RelationshipId(1), RelationshipId(3)]);
    let of_luka = store.relationships_by(RelationshipKind::Visited, |r| match r {
        Relationship::Visited { person, .. } => *person == luka,
        _ => true,
    });
    assert_eq!(of_luka, vec![RelationshipId(3)]);
    let homes = store.relationships_by(RelationshipKind::Nationality, |_| true);
    assert_eq!(homes, vec![RelationshipId(0), RelationshipId(2)]);
    let friendships = store.relationships_by(RelationshipKind::Friendship, |_| true);
    assert_eq!(friendships, vec![RelationshipId(4)]);
    assert_eq!(store.relationships_by(RelationshipKind::Friendship, |_| false), Vec::new());
}

#[test]
fn kinds_of_records() {
    let (store, georgia, tbilisi, irakli) = sample();
    assert_eq!(store.entity(georgia).unwrap().kind(), EntityKind::Country);
    assert_eq!(store.entity(tbilisi).unwrap().kind(), EntityKind::City);
    assert_eq!(store.entity(irakli).unwrap().kind(), EntityKind::Person);
    let v = Relationship::Visited { person: irakli, city: tbilisi, start: day(1, 1), end: day(1, 2) };
    assert_eq!(v.classify(), RelationshipKind::Visited);
    let n = Relationship::Nationality { person: irakli, country: georgia };
    assert_eq!(n.classify(), RelationshipKind::Nationality);
    let f = Relationship::Friendship { person1: irakli, person2: EntityId(5) };
    assert_eq!(f.classify(), RelationshipKind::Friendship);
}

#[test]
fn holds_id_finds_what_is_there() {
    let ids = vec![EntityId(4), EntityId(0), EntityId(7)];
    assert!(visitations::model::holds_id(&ids, EntityId(0)));
    assert!(visitations::model::holds_id(&ids, EntityId(7)));
    assert!(!visitations::model::holds_id(&ids, EntityId(1)));
    assert!(!visitations::model::holds_id(&Vec::new(), EntityId(0)));
}

#[test]
fn a_clone_of_an_entity_is_equal_to_it() {
    let person = Entity::Person { first_name: "Sophia".to_string(), last_name: "Williams".to_string() };
    assert_eq!(person.clone(), person);
    let city = Entity::City { name: "Zugdidi".to_string() };
    assert_eq!(city.clone(), city);
    let country = Entity::Country { name: "Georgia".to_string() };
    assert_eq!(country.clone(), country);
    assert_ne!(city, Entity::Country { name: "Zugdidi".to_string() });
}
