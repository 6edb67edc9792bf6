//! What holds of the queries and of inference on every store.

use crate::inference::{lemma_friendship_symmetric, lemma_inference_idempotent};
use crate::date::intervals_overlap;
use crate::model::{first_maximum, EntityId, GraphError, Relationship, StoreModel};
use vstd::prelude::*;
use vstd::set_lib::lemma_len_subset;

verus! {

/// Only finitely many people visited a city called `name`.
pub proof fn lemma_visitors_finite(s: StoreModel, name: Seq<char>)
    ensures
        s.visitors(name).finite(),
{
    let n = s.relationships.len() as int;
    lemma_visitors_among_finite(s, name, n);
    assert(s.visitors_among(name, n) =~= s.visitors(name));
}

proof fn lemma_visitors_among_finite(s: StoreModel, name: Seq<char>, k: int)
    requires
        k <= s.relationships.len(),
    ensures
        s.visitors_among(name, k).finite(),
    decreases k,
{
    if k <= 0 {
        assert(s.visitors_among(name, k) =~= Set::empty());
    } else {
        let last = k - 1;
        lemma_visitors_among_finite(s, name, last);
        let earlier = s.visitors_among(name, last);
        if let Relationship::Visited { person, city, start, end } = s.relationships[last] {
            if s.city_named(city, name) {
                assert(s.visit_to_named(last, person, name));
                assert(s.visitors_among(name, k) =~= earlier.insert(person));
            } else {
                assert(s.visitors_among(name, k) =~= earlier);
            }
        } else {
            assert(s.visitors_among(name, k) =~= earlier);
        }
    }
}

/// The identities below `k`.
pub open spec fn ids_below(k: int) -> Set<EntityId> {
    Set::new(|id: EntityId| id.0 < k)
}

/// There are finitely many identities below `k`.
pub proof fn lemma_ids_below_finite(k: int)
    ensures
        ids_below(k).finite(),
    decreases k,
{
    if k <= 0 {
        assert(ids_below(k) =~= Set::empty());
    } else {
        let last = k - 1;
        lemma_ids_below_finite(last);
        if last <= usize::MAX {
            assert(ids_below(k) =~= ids_below(last).insert(EntityId(last as usize)));
        } else {
            assert(ids_below(k) =~= ids_below(last));
        }
    }
}

/// A store has finitely many people, and no city has more visitors than
/// there are people.
pub proof fn lemma_count_at_most_people(s: StoreModel, name: Seq<char>)
    requires
        s.wf(),
    ensures
        s.people().finite(),
        s.visitors(name).len() <= s.people().len(),
{
    let all = ids_below(s.entities.len() as int);
    lemma_ids_below_finite(s.entities.len() as int);
    assert(s.people().subset_of(all));
    lemma_len_subset(s.people(), all);
    assert forall|p: EntityId| s.visitors(name).contains(p) implies s.people().contains(p) by {
        let i = choose|i: int| s.visit_to_named(i, p, name);
        assert(s.admits(s.relationships[i]));
    }
    lemma_len_subset(s.visitors(name), s.people());
}

/// The visits to cities called `name` among the first `k` relationships.
pub open spec fn visits_among(s: StoreModel, name: Seq<char>, k: int) -> Set<int> {
    Set::new(|i: int| i < k && s.is_visit_to(i, name))
}

proof fn lemma_visitors_at_most_visits_among(s: StoreModel, name: Seq<char>, k: int)
    requires
        k <= s.relationships.len(),
    ensures
        visits_among(s, name, k).finite(),
        s.visitors_among(name, k).finite(),
        s.visitors_among(name, k).len() <= visits_among(s, name, k).len(),
    decreases k,
{
    if k <= 0 {
        assert(s.visitors_among(name, k) =~= Set::empty());
        assert(visits_among(s, name, k) =~= Set::empty());
    } else {
        let last = k - 1;
        lemma_visitors_at_most_visits_among(s, name, last);
        let people = s.visitors_among(name, last);
        let visits = visits_among(s, name, last);
        if s.is_visit_to(last, name) {
            let person = s.relationships[last]->Visited_person;
            assert(s.visit_to_named(last, person, name));
            assert(s.visitors_among(name, k) =~= people.insert(person));
            assert(visits_among(s, name, k) =~= visits.insert(last));
        } else {
            assert(s.visitors_among(name, k) =~= people);
            assert(visits_among(s, name, k) =~= visits);
        }
    }
}

/// No city has more visitors than there are visits to it: the count is at
/// most the number of visits to cities of that name.
pub proof fn lemma_count_at_most_visits(s: StoreModel, name: Seq<char>)
    ensures
        s.visits_to(name).finite(),
        s.visitors(name).len() <= s.visits_to(name).len(),
{
    let n = s.relationships.len() as int;
    lemma_visitors_at_most_visits_among(s, name, n);
    assert(s.visitors_among(name, n) =~= s.visitors(name));
    assert(visits_among(s, name, n) =~= s.visits_to(name));
}

/// A city that no visit leads to has no visitors: where a city is called
/// `name` and no relationship is a visit to a city called so, the count is 0.
pub proof fn lemma_unvisited_city_counts_zero(s: StoreModel, name: Seq<char>)
    requires
        s.has_city(name),
        forall|i: int, p: EntityId| !s.visit_to_named(i, p, name),
    ensures
        s.count_visits(name) == Ok::<nat, GraphError>(0),
{
    assert(s.visitors(name) =~= Set::empty());
}

/// A person counts once: a further visit of `person` to `city`, whatever its
/// days, changes the count of no city.
pub proof fn lemma_repeated_visit_counts_once(
    s: StoreModel,
    r: Relationship,
    earlier: int,
    name: Seq<char>,
)
    requires
        r is Visited,
        0 <= earlier < s.relationships.len(),
        s.relationships[earlier] is Visited,
        s.relationships[earlier]->Visited_person == r->Visited_person,
        s.relationships[earlier]->Visited_city == r->Visited_city,
    ensures
        s.with_relationship(r).count_visits(name) == s.count_visits(name),
{
    let t = s.with_relationship(r);
    let n = s.relationships.len() as int;
    assert forall|p: EntityId| t.visitors(name).contains(p) == s.visitors(name).contains(p) by {
        if t.visitors(name).contains(p) {
            let i = choose|i: int| t.visit_to_named(i, p, name);
            if i == n {
                assert(s.visit_to_named(earlier, p, name));
            } else {
                assert(s.visit_to_named(i, p, name));
            }
        }
        if s.visitors(name).contains(p) {
            let i = choose|i: int| s.visit_to_named(i, p, name);
            assert(t.visit_to_named(i, p, name));
        }
    }
    assert(t.visitors(name) =~= s.visitors(name));
    assert forall|id: EntityId| t.city_named(id, name) == s.city_named(id, name) by {}
}

/// A further relationship lowers the count of no city.
pub proof fn lemma_count_never_decreases(s: StoreModel, r: Relationship, name: Seq<char>)
    ensures
        s.visitors(name).len() <= s.with_relationship(r).visitors(name).len(),
        s.count_visits(name) matches Ok(before) ==> s.with_relationship(r).count_visits(name)
            matches Ok(after) && before <= after,
{
    let t = s.with_relationship(r);
    assert forall|p: EntityId| s.visitors(name).contains(p) implies t.visitors(name).contains(
        p,
    ) by {
        let i = choose|i: int| s.visit_to_named(i, p, name);
        assert(t.visit_to_named(i, p, name));
    }
    lemma_visitors_finite(t, name);
    lemma_len_subset(s.visitors(name), t.visitors(name));
    if s.has_city(name) {
        let id = choose|id: EntityId| s.city_named(id, name);
        assert(t.city_named(id, name));
    }
}

/// `first_maximum` is the position of a greatest element, and every element
/// before it is smaller.
pub proof fn lemma_first_maximum(counts: Seq<nat>)
    requires
        counts.len() > 0,
    ensures
        0 <= first_maximum(counts) < counts.len(),
        forall|j: int|
            0 <= j < counts.len() ==> #[trigger] counts[j] <= counts[first_maximum(counts)],
        forall|j: int|
            0 <= j < first_maximum(counts) ==> #[trigger] counts[j] < counts[first_maximum(
                counts,
            )],
    decreases counts.len(),
{
    if counts.len() > 1 {
        let front = counts.drop_last();
        lemma_first_maximum(front);
        assert forall|j: int| 0 <= j < front.len() implies front[j] == counts[j] by {}
    }
}

/// A candidate with more visitors than every candidate of another name is the
/// most visited city.
pub proof fn lemma_strict_leader_is_most_visited(s: StoreModel, candidates: Seq<Seq<char>>, k: int)
    requires
        0 <= k < candidates.len(),
        forall|j: int| 0 <= j < candidates.len() ==> s.has_city(#[trigger] candidates[j]),
        forall|j: int|
            0 <= j < candidates.len() && candidates[j] != candidates[k] ==> s.visitors(
                #[trigger] candidates[j],
            ).len() < s.visitors(candidates[k]).len(),
    ensures
        s.most_visited_city(candidates) == Ok::<Seq<char>, GraphError>(candidates[k]),
{
    let counts = s.visit_counts(candidates);
    lemma_first_maximum(counts);
    let m = first_maximum(counts);
    assert(counts[k] <= counts[m]);
}

/// The most visited city has no fewer visitors than any candidate, and more
/// than every candidate before it: among equals the first one wins.
pub proof fn lemma_most_visited_is_first_greatest(s: StoreModel, candidates: Seq<Seq<char>>)
    requires
        candidates.len() > 0,
        forall|j: int| 0 <= j < candidates.len() ==> s.has_city(#[trigger] candidates[j]),
    ensures
        ({
            let k = first_maximum(s.visit_counts(candidates));
            &&& 0 <= k < candidates.len()
            &&& s.most_visited_city(candidates) == Ok::<Seq<char>, GraphError>(candidates[k])
            &&& forall|j: int|
                0 <= j < candidates.len() ==> s.visitors(#[trigger] candidates[j]).len()
                    <= s.visitors(candidates[k]).len()
            &&& forall|j: int|
                0 <= j < k ==> s.visitors(#[trigger] candidates[j]).len() < s.visitors(
                    candidates[k],
                ).len()
        }),
{
    let counts = s.visit_counts(candidates);
    lemma_first_maximum(counts);
    let k = first_maximum(counts);
    assert forall|j: int| 0 <= j < candidates.len() implies s.visitors(
        #[trigger] candidates[j],
    ).len() <= s.visitors(candidates[k]).len() by {
        assert(counts[j] <= counts[k]);
    }
    assert forall|j: int| 0 <= j < k implies s.visitors(#[trigger] candidates[j]).len()
        < s.visitors(candidates[k]).len() by {
        assert(counts[j] < counts[k]);
    }
}

/// Inference is idempotent: a second pass, with no nationality added in
/// between, returns the store that the first pass made.
pub proof fn lemma_second_inference_adds_nothing(s0: StoreModel, s1: StoreModel, s2: StoreModel)
    requires
        s1.is_inference_of(s0),
        s2.is_inference_of(s1),
    ensures
        s2 == s1,
{
    lemma_inference_idempotent(s1, s2);
}

/// After inference, two people are friends if and only if they are
/// compatriots; in particular nobody is their own friend.
pub proof fn lemma_friends_are_the_compatriots(s: StoreModel, a: EntityId, b: EntityId)
    requires
        s.wf(),
        s.friendships_complete(),
    ensures
        s.are_friends(a, b) <==> s.compatriots(a, b),
        !s.are_friends(a, a),
{
    if s.are_friends(a, b) {
        let i = choose|i: int| s.friendship_at(i, a, b);
        assert(s.admits(s.relationships[i]));
        lemma_compatriots_symmetric(s, a, b);
    }
    if s.are_friends(a, a) {
        let i = choose|i: int| s.friendship_at(i, a, a);
        assert(s.admits(s.relationships[i]));
    }
}

/// To be compatriots has no direction.
pub proof fn lemma_compatriots_symmetric(s: StoreModel, a: EntityId, b: EntityId)
    ensures
        s.compatriots(a, b) == s.compatriots(b, a),
{
    if s.compatriots(a, b) {
        let c = choose|c: EntityId| s.share(a, b, c);
        assert(s.share(b, a, c));
    }
    if s.compatriots(b, a) {
        let c = choose|c: EntityId| s.share(b, a, c);
        assert(s.share(a, b, c));
    }
}

/// Whoever `a` met is a friend, and the meeting is mutual: where the meetings
/// of `a` hold `b` with a city, the two are joined by a friendship edge, seen
/// from either side, and the meetings of `b` hold `a` with the same city.
pub proof fn lemma_meetings_are_mutual(s: StoreModel, a: EntityId, b: EntityId, city: EntityId)
    requires
        s.meetings(a).contains((b, city)),
    ensures
        s.are_friends(a, b),
        s.are_friends(b, a),
        s.meetings(b).contains((a, city)),
{
    lemma_friendship_symmetric(s, a, b);
    let j = choose|j: int| s.meeting_at(j, a, b, city);
    let stay_b = s.relationships[j];
    let i = choose|i: int|
        s.stay_overlapping(i, a, city, stay_b->Visited_start, stay_b->Visited_end);
    let stay_a = s.relationships[i];
    assert(s.stay_overlapping(j, b, city, stay_a->Visited_start, stay_a->Visited_end));
    assert(s.meeting_at(i, b, a, city));
}

/// Friends whose stays in one city share a day have met there, each the
/// other.
pub proof fn lemma_overlapping_stays_are_a_meeting(s: StoreModel, i: int, j: int)
    requires
        0 <= i < s.relationships.len(),
        0 <= j < s.relationships.len(),
        s.relationships[i] is Visited,
        s.relationships[j] is Visited,
        s.relationships[i]->Visited_city == s.relationships[j]->Visited_city,
        intervals_overlap(
            s.relationships[i]->Visited_start,
            s.relationships[i]->Visited_end,
            s.relationships[j]->Visited_start,
            s.relationships[j]->Visited_end,
        ),
        s.are_friends(s.relationships[i]->Visited_person, s.relationships[j]->Visited_person),
    ensures
        s.meetings(s.relationships[i]->Visited_person).contains(
            (s.relationships[j]->Visited_person, s.relationships[i]->Visited_city),
        ),
        s.meetings(s.relationships[j]->Visited_person).contains(
            (s.relationships[i]->Visited_person, s.relationships[i]->Visited_city),
        ),
{
    let a = s.relationships[i]->Visited_person;
    let b = s.relationships[j]->Visited_person;
    let city = s.relationships[i]->Visited_city;
    let stay_a = s.relationships[i];
    let stay_b = s.relationships[j];
    assert(s.stay_overlapping(i, a, city, stay_b->Visited_start, stay_b->Visited_end));
    assert(s.meeting_at(j, a, b, city));
    lemma_meetings_are_mutual(s, a, b, city);
}

/// Stays that only touch do overlap: where one friend arrives in a city on
/// the day on which the other leaves it, the two have met there.
pub proof fn lemma_touching_stays_are_a_meeting(s: StoreModel, i: int, j: int)
    requires
        s.wf(),
        0 <= i < s.relationships.len(),
        0 <= j < s.relationships.len(),
        s.relationships[i] is Visited,
        s.relationships[j] is Visited,
        s.relationships[i]->Visited_city == s.relationships[j]->Visited_city,
        s.relationships[i]->Visited_end == s.relationships[j]->Visited_start,
        s.are_friends(s.relationships[i]->Visited_person, s.relationships[j]->Visited_person),
    ensures
        s.meetings(s.relationships[i]->Visited_person).contains(
            (s.relationships[j]->Visited_person, s.relationships[i]->Visited_city),
        ),
        s.meetings(s.relationships[j]->Visited_person).contains(
            (s.relationships[i]->Visited_person, s.relationships[i]->Visited_city),
        ),
{
    lemma_overlapping_stays_are_a_meeting(s, i, j);
}

/// Who has no friend, or never went anywhere, met nobody: the count is 0, and
/// no error.
pub proof fn lemma_without_friends_or_visits_met_nobody(
    s: StoreModel,
    person: EntityId,
    first: Seq<char>,
    last: Seq<char>,
)
    requires
        s.person_named(person, first, last),
        forall|other: EntityId| s.person_named(other, first, last) ==> other == person,
        (forall|other: EntityId| !s.are_friends(person, other)) || (forall|i: int|
            0 <= i < s.relationships.len() && (#[trigger] s.relationships[i]) is Visited
                ==> s.relationships[i]->Visited_person != person),
    ensures
        s.friends_met(first, last) == Ok::<nat, GraphError>(0),
{
    assert(s.meetings(person) =~= Set::empty());
}

} // verus!

