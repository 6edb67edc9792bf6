use visitations::cohort::Cohort;
use visitations::ingest::{Stay, Traveller};
use visitations::{
    Date, Entity, EntityId, GraphError, NewRelationship, Relationship, RelationshipId, Store,
};

fn day(month: u8, day: u8) -> Date {
    Date::new(2023, month, day).unwrap()
}

fn names(list: &[&str]) -> Vec<String> {
    list.iter().map(|s| s.to_string()).collect()
}

fn places() -> (Store, EntityId, EntityId, EntityId) {
    let mut store = Store::new();
    let georgia = store.add_entity(Entity::Country { name: "Georgia".to_string() });
    let cambridge = store.add_entity(Entity::City { name: "Cambridge".to_string() });
    let london = store.add_entity(Entity::City { name: "London".to_string() });
    (store, georgia, cambridge, london)
}

fn georgians(country: EntityId, cities: Vec<EntityId>) -> Cohort {
    Cohort {
        country,
        first_names: names(&["Teimurazi", "Natalia", "Luka", "Irakli", "Giorgi", "Robiko"]),
        last_names: names(&["Toloraia", "Skhulukhia", "Tsintsadze"]),
        cities,
        months: vec![1, 3],
        year: 2023,
        first_arrival: 10,
        last_growth: 12,
        first_stay: 0,
    }
}

/// The days of arrival and departure, person by person, by counting as one
/// would by hand.
fn timetable(firsts: usize, lasts: usize, first_arrival: i32, last_growth: i32, first_stay: i32) -> Vec<(i32, i32)> {
    let mut days = Vec::new();
    let mut duration = first_stay;
    let mut start = first_arrival - 1;
    for _ in 0..firsts {
        start += 1;
        for _ in 0..lasts {
            if start <= last_growth {
                duration += 1;
            }
            days.push((start, start + duration));
        }
    }
    days
}

#[test]
fn cohort_plan_follows_the_timetable() {
    let cohort = georgians(EntityId(0), vec![EntityId(1), EntityId(2)]);
    let plan = cohort.plan().unwrap();
    let days = timetable(6, 3, 10, 12, 0);
    assert_eq!(plan.len(), 18);
    for (k, person) in plan.iter().enumerate() {
        assert_eq!(person.first_name, cohort.first_names[k / 3]);
        assert_eq!(person.last_name, cohort.last_names[k % 3]);
        assert_eq!(person.country, EntityId(0));
        let (start, end) = days[k];
        assert_eq!(
            person.stays,
            vec![
                Stay { city: EntityId(1), start: day(1, start as u8), end: day(1, end as u8) },
                Stay { city: EntityId(2), start: day(3, start as u8), end: day(3, end as u8) },
            ]
        );
    }
}

#[test]
fn cohort_plan_exact_days() {
    let cohort = georgians(EntityId(0), vec![EntityId(1)]);
    let plan = cohort.plan().unwrap();
    let days: Vec<(u8, u8)> =
        plan.iter().map(|p| (p.stays[0].start.day(), p.stays[0].end.day())).collect();
    assert_eq!(
        days,
        vec![
            (10, 11), (10, 12), (10, 13),
            (11, 15), (11, 16), (11, 17),
            (12, 19), (12, 20), (12, 21),
            (13, 22), (13, 22), (13, 22),
            (14, 23), (14, 23), (14, 23),
            (15, 24), (15, 24), (15, 24),
        ]
    );
    assert_eq!(plan[0].first_name, "Teimurazi");
    assert_eq!(plan[0].last_name, "Toloraia");
    assert_eq!(plan[17].first_name, "Robiko");
    assert_eq!(plan[17].last_name, "Tsintsadze");
    assert_eq!(plan[4].first_name, "Natalia");
    assert_eq!(plan[4].last_name, "Skhulukhia");
}

#[test]
fn cohort_plan_with_longer_first_stay() {
    let mut cohort = georgians(EntityId(0), vec![EntityId(1)]);
    cohort.first_names = names(&["James", "Olivia", "William", "Amelia", "Jack"]);
    cohort.last_names = names(&["Davies", "Patel", "Mitchell"]);
    cohort.first_stay = 3;
    let plan = cohort.plan().unwrap();
    let days: Vec<(i32, i32)> =
        plan.iter().map(|p| (p.stays[0].start.day() as i32, p.stays[0].end.day() as i32)).collect();
    assert_eq!(days, timetable(5, 3, 10, 12, 3));
    assert_eq!(days[0], (10, 14));
    assert_eq!(days[8], (12, 24));
    assert_eq!(days[14], (14, 26));
}

#[test]
fn cohort_plan_when_no_stay_grows() {
    let mut cohort = georgians(EntityId(0), vec![EntityId(1)]);
    cohort.first_arrival = 13;
    cohort.first_stay = 2;
    let plan = cohort.plan().unwrap();
    let days: Vec<(u8, u8)> =
        plan.iter().map(|p| (p.stays[0].start.day(), p.stays[0].end.day())).collect();
    assert_eq!(days[0], (13, 15));
    assert_eq!(days[3], (14, 16));
    assert_eq!(days[17], (18, 20));
}

#[test]
fn cohort_plan_leaves_out_what_has_no_partner() {
    let mut cohort = georgians(EntityId(0), vec![EntityId(1), EntityId(2), EntityId(3)]);
    assert!(cohort.plan().unwrap().iter().all(|p| p.stays.len() == 2));
    cohort.months = vec![1];
    assert!(cohort.plan().unwrap().iter().all(|p| p.stays.len() == 1));
    cohort.cities = Vec::new();
    cohort.months = vec![1, 2, 3];
    let plan = cohort.plan().unwrap();
    assert_eq!(plan.len(), 18);
    assert!(plan.iter().all(|p| p.stays.is_empty()));
}

#[test]
fn cohort_without_names_is_empty() {
    let mut cohort = georgians(EntityId(0), vec![EntityId(1)]);
    cohort.last_names = Vec::new();
    assert_eq!(cohort.plan(), Some(Vec::new()));
    let mut cohort = georgians(EntityId(0), vec![EntityId(1)]);
    cohort.first_names = Vec::new();
    assert_eq!(cohort.plan(), Some(Vec::new()));
}

#[test]
fn cohort_that_leaves_the_calendar_has_no_plan() {
    // The last departure is on day 24: February of 2023 has it, but not with
    // a first stay of 5 days.
    let mut cohort = georgians(EntityId(0), vec![EntityId(1)]);
    cohort.months = vec![2];
    assert!(cohort.plan().is_some());
    cohort.first_stay = 4;
    assert!(cohort.plan().is_some());
    cohort.first_stay = 5;
    assert_eq!(cohort.plan(), None);
    // No month 13, no day 0.
    let mut cohort = georgians(EntityId(0), vec![EntityId(1)]);
    cohort.months = vec![1, 13];
    cohort.cities = vec![EntityId(1), EntityId(2)];
    assert_eq!(cohort.plan(), None);
    let mut cohort = georgians(EntityId(0), vec![EntityId(1)]);
    cohort.first_arrival = 0;
    cohort.last_growth = 0;
    assert_eq!(cohort.plan(), None);
    // Days beyond any month.
    let mut cohort = georgians(EntityId(0), vec![EntityId(1)]);
    cohort.first_arrival = 250;
    assert_eq!(cohort.plan(), None);
    let mut cohort = georgians(EntityId(0), vec![EntityId(1)]);
    cohort.first_stay = 250;
    assert_eq!(cohort.plan(), None);
    let mut cohort = georgians(EntityId(0), vec![EntityId(1)]);
    cohort.last_growth = 255;
    assert_eq!(cohort.plan(), None);
}

#[test]
fn ingest_takes_in_people_with_nationality_and_visits() {
    let (mut store, georgia, cambridge, london) = places();
    let plan = georgians(georgia, vec![cambridge, london]).plan().unwrap();
    let people = store.ingest(&plan).unwrap();
    assert_eq!(people, (3..21).map(EntityId).collect::<Vec<EntityId>>());
    assert_eq!(store.entity_count(), 21);
    assert_eq!(store.relationship_count(), 18 * 3);
    assert_eq!(
        store.entity(EntityId(3)),
        Some(&Entity::Person {
            first_name: "Teimurazi".to_string(),
            last_name: "Toloraia".to_string()
        })
    );
    assert_eq!(
        store.relationship(RelationshipId(0)),
        Some(Relationship::Nationality { person: EntityId(3), country: georgia })
    );
    assert_eq!(
        store.relationship(RelationshipId(1)),
        Some(Relationship::Visited {
            person: EntityId(3),
            city: cambridge,
            start: day(1, 10),
            end: day(1, 11)
        })
    );
    assert_eq!(
        store.relationship(RelationshipId(2)),
        Some(Relationship::Visited { person: EntityId(3), city: london, start: day(3, 10), end: day(3, 11) })
    );
    assert_eq!(
        store.relationship(RelationshipId(3)),
        Some(Relationship::Nationality { person: EntityId(4), country: georgia })
    );
    assert_eq!(store.count_visits("Cambridge"), Ok(18));
    assert_eq!(store.count_visits("London"), Ok(18));
    store.infer_friendships();
    assert_eq!(store.relationship_count(), 18 * 3 + 18 * 17 / 2);
    // Teimurazi Toloraia stays from the 10th to the 11th; the people of the
    // first two first names are there then, five besides himself, in both
    // cities.
    assert_eq!(store.friends_met("Teimurazi", "Toloraia"), Ok(10));
    // Robiko Tsintsadze stays from the 15th to the 24th and meets everybody who
    // leaves on the 15th or later: fourteen people.
    assert_eq!(store.friends_met("Robiko", "Tsintsadze"), Ok(28));
}

#[test]
fn ingest_is_the_same_as_adding_one_by_one() {
    let (mut all_at_once, georgia, cambridge, london) = places();
    let (mut one_by_one, _, _, _) = places();
    let travellers = vec![
        Traveller {
            first_name: "Emma".to_string(),
            last_name: "Smith".to_string(),
            country: georgia,
            stays: vec![
                Stay { city: london, start: day(1, 1), end: day(1, 5) },
                Stay { city: cambridge, start: day(1, 6), end: day(1, 6) },
            ],
        },
        Traveller {
            first_name: "John".to_string(),
            last_name: "Smith".to_string(),
            country: georgia,
            stays: Vec::new(),
        },
    ];
    assert_eq!(all_at_once.ingest(&travellers), Ok(vec![EntityId(3), EntityId(4)]));
    for t in &travellers {
        let person = one_by_one.add_entity(Entity::Person {
            first_name: t.first_name.clone(),
            last_name: t.last_name.clone(),
        });
        one_by_one
            .add_relationship(NewRelationship::Nationality { person, country: t.country })
            .unwrap();
        for s in &t.stays {
            one_by_one
                .add_relationship(NewRelationship::Visited {
                    person,
                    city: s.city,
                    start: s.start,
                    end: s.end,
                })
                .unwrap();
        }
    }
    assert_eq!(all_at_once.entity_count(), one_by_one.entity_count());
    assert_eq!(all_at_once.relationship_count(), 4);
    for i in 0..all_at_once.entity_count() {
        assert_eq!(all_at_once.entity(EntityId(i)), one_by_one.entity(EntityId(i)));
    }
    for i in 0..all_at_once.relationship_count() {
        assert_eq!(
            all_at_once.relationship(RelationshipId(i)),
            one_by_one.relationship(RelationshipId(i))
        );
    }
}

#[test]
fn ingest_refuses_unknown_places_and_changes_nothing() {
    let (mut store, georgia, cambridge, london) = places();
    let good = Traveller {
        first_name: "Emma".to_string(),
        last_name: "Smith".to_string(),
        country: georgia,
        stays: vec![Stay { city: london, start: day(1, 1), end: day(1, 5) }],
    };
    let mut wrong_country = good.clone();
    wrong_country.country = cambridge;
    let mut wrong_city = good.clone();
    wrong_city.stays.push(Stay { city: georgia, start: day(1, 1), end: day(1, 5) });
    let mut absent_city = good.clone();
    absent_city.stays.insert(0, Stay { city: EntityId(99), start: day(1, 1), end: day(1, 5) });
    for bad in [wrong_country, wrong_city, absent_city] {
        assert_eq!(store.ingest(&vec![good.clone(), bad]), Err(GraphError::NotFound));
        assert_eq!(store.entity_count(), 3);
        assert_eq!(store.relationship_count(), 0);
    }
    assert_eq!(store.ingest(&vec![good]), Ok(vec![EntityId(3)]));
}

#[test]
fn ingest_refuses_a_stay_that_ends_before_it_starts() {
    let (mut store, georgia, _, london) = places();
    let good = Traveller {
        first_name: "Emma".to_string(),
        last_name: "Smith".to_string(),
        country: georgia,
        stays: vec![Stay { city: london, start: day(1, 1), end: day(1, 5) }],
    };
    let mut backwards = good.clone();
    backwards.stays.push(Stay { city: london, start: day(1, 6), end: day(1, 5) });
    assert_eq!(store.ingest(&vec![good.clone(), backwards.clone()]), Err(GraphError::InvalidInterval));
    assert_eq!(store.entity_count(), 3);
    assert_eq!(store.relationship_count(), 0);
    // An unknown place is reported first, wherever it stands.
    let mut lost = good.clone();
    lost.country = EntityId(50);
    assert_eq!(store.ingest(&vec![backwards, lost]), Err(GraphError::NotFound));
    assert_eq!(store.ingest(&Vec::new()), Ok(Vec::new()));
    assert_eq!(store.entity_count(), 3);
}
