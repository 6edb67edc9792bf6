//! Cohorts: the people of one country who travel by one timetable.
//!
//! A cohort has a person for every first name with every last name, taken
//! first name by first name. All people of one first name arrive on the same
//! day, those of the next first name a day later. Everybody goes to the same
//! cities, one city a month, on the same days of each month. Stays get longer
//! from person to person by a day, as long as the day of arrival is not after
//! a given day; from then on they all last as long as the last one that grew.

use crate::date::{is_calendar_day, Date};
use crate::ingest::{Stay, Traveller, TravellerModel};
use crate::model::EntityId;
use vstd::arithmetic::div_mod::lemma_fundamental_div_mod_converse;
use vstd::prelude::*;

verus! {

#[derive(Debug)]
pub struct Cohort {
    /// The homeland of everybody.
    pub country: EntityId,
    pub first_names: Vec<String>,
    pub last_names: Vec<String>,
    /// The cities that everybody goes to. The `i`-th is visited in the `i`-th
    /// of `months`; what one list holds beyond the other is left out.
    pub cities: Vec<EntityId>,
    pub months: Vec<u8>,
    pub year: u16,
    /// The day of the month on which the people of the first first name
    /// arrive.
    pub first_arrival: u8,
    /// The last day of arrival for which stays still get longer.
    pub last_growth: u8,
    /// The number of days after which the first person would leave, had
    /// their stay not grown by one already.
    pub first_stay: u8,
}

impl Cohort {
    /// The number of stays of each person.
    pub open spec fn stays_each(&self) -> int {
        if self.cities@.len() <= self.months@.len() {
            self.cities@.len() as int
        } else {
            self.months@.len() as int
        }
    }

    /// The day of the month on which the people of first name `a` arrive.
    pub open spec fn arrival(&self, a: int) -> int {
        self.first_arrival + a
    }

    /// The number of first names whose people arrive while stays still grow.
    pub open spec fn growing_rows(&self) -> int {
        if self.first_arrival <= self.last_growth {
            self.last_growth - self.first_arrival + 1
        } else {
            0
        }
    }

    /// How many people before the one of first name `a` and last name `b`
    /// had their stay grow.
    pub open spec fn grown_before(&self, a: int, b: int) -> int {
        if self.arrival(a) <= self.last_growth {
            a * self.last_names@.len() + b
        } else {
            self.growing_rows() * self.last_names@.len()
        }
    }

    /// The number of days between the arrival and the departure of the
    /// person of first name `a` and last name `b`.
    pub open spec fn nights(&self, a: int, b: int) -> int {
        self.first_stay + self.grown_before(a, b) + if self.arrival(a) <= self.last_growth {
            1int
        } else {
            0int
        }
    }

    /// The day of the month on which that person leaves.
    pub open spec fn departure(&self, a: int, b: int) -> int {
        self.arrival(a) + self.nights(a, b)
    }

    /// The month of stay `t` has the days on which that person arrives and
    /// leaves.
    pub open spec fn stay_fits(&self, a: int, b: int, t: int) -> bool {
        is_calendar_day(self.year as int, self.months@[t] as int, self.arrival(a))
            && is_calendar_day(self.year as int, self.months@[t] as int, self.departure(a, b))
    }

    /// Every stay of everybody fits its month.
    pub open spec fn fits_calendar(&self) -> bool {
        forall|a: int, b: int, t: int|
            0 <= a < self.first_names@.len() && 0 <= b < self.last_names@.len() && 0 <= t
                < self.stays_each() ==> #[trigger] self.stay_fits(a, b, t)
    }

    /// `s` is stay `t` of the person of first name `a` and last name `b`.
    pub open spec fn plans_stay(&self, a: int, b: int, t: int, s: Stay) -> bool {
        &&& s.city == self.cities@[t]
        &&& s.start.is_day(self.year as int, self.months@[t] as int, self.arrival(a))
        &&& s.end.is_day(self.year as int, self.months@[t] as int, self.departure(a, b))
    }

    /// `p` is the person of first name `a` and last name `b`, with all their
    /// stays.
    pub open spec fn plans_traveller(&self, a: int, b: int, p: TravellerModel) -> bool {
        &&& p.first_name == self.first_names@[a]@
        &&& p.last_name == self.last_names@[b]@
        &&& p.country == self.country
        &&& p.stays.len() == self.stays_each()
        &&& forall|t: int| 0 <= t < p.stays.len() ==> self.plans_stay(a, b, t, #[trigger] p.stays[t])
    }

    /// `people` are the people of the cohort, those of the first first name
    /// first, and under each first name in the order of the last names.
    pub open spec fn plans(&self, people: Seq<TravellerModel>) -> bool {
        &&& people.len() == self.first_names@.len() * self.last_names@.len()
        &&& forall|k: int|
            0 <= k < people.len() ==> self.plans_traveller(
                k / (self.last_names@.len() as int),
                k % (self.last_names@.len() as int),
                #[trigger] people[k],
            )
    }

    /// The people of the cohort with their stays, ready to be taken in; `None`
    /// where a stay does not fit its month.
    pub fn plan(&self) -> (planned: Option<Vec<Traveller>>)
        ensures
            planned is Some <==> self.fits_calendar(),
            planned matches Some(people) ==> self.plans(people@.map_values(|p: Traveller| p@)),
    {
        let firsts = self.first_names.len();
        let lasts = self.last_names.len();
        let stays = if self.cities.len() <= self.months.len() {
            self.cities.len()
        } else {
            self.months.len()
        };
        let mut people: Vec<Traveller> = Vec::new();
        let mut grown: u64 = 0;
        let mut a: usize = 0;
        while a < firsts
            invariant
                a <= firsts == self.first_names@.len(),
                lasts == self.last_names@.len(),
                stays == self.stays_each(),
                people@.len() == a * lasts,
                grown <= 255,
                stays > 0 ==> grown == self.grown_before(a as int, 0),
                forall|k: int|
                    0 <= k < people@.len() ==> self.plans_traveller(
                        k / (lasts as int),
                        k % (lasts as int),
                        (#[trigger] people@[k])@,
                    ),
                forall|x: int, y: int, t: int|
                    0 <= x < a && 0 <= y < lasts && 0 <= t < stays ==> #[trigger] self.stay_fits(
                        x,
                        y,
                        t,
                    ),
            decreases firsts - a,
        {
            let mut b: usize = 0;
            while b < lasts
                invariant
                    a < firsts == self.first_names@.len(),
                    b <= lasts == self.last_names@.len(),
                    stays == self.stays_each(),
                    people@.len() == a * lasts + b,
                    grown <= 255,
                    stays > 0 ==> grown == self.grown_before(a as int, b as int),
                    forall|k: int|
                        0 <= k < people@.len() ==> self.plans_traveller(
                            k / (lasts as int),
                            k % (lasts as int),
                            (#[trigger] people@[k])@,
                        ),
                    forall|x: int, y: int, t: int|
                        (0 <= x < a && 0 <= y < lasts || x == a && 0 <= y < b) && 0 <= t < stays
                            ==> #[trigger] self.stay_fits(x, y, t),
                decreases lasts - b,
            {
                let mut planned: Vec<Stay> = Vec::new();
                if stays > 0 {
                    if a > 255 {
                        assert(!self.stay_fits(a as int, b as int, 0));
                        return None;
                    }
                    let arrival: u64 = self.first_arrival as u64 + a as u64;
                    if arrival <= self.last_growth as u64 {
                        grown += 1;
                    }
                    let departure: u64 = arrival + self.first_stay as u64 + grown;
                    if departure > 255 {
                        assert(!self.stay_fits(a as int, b as int, 0));
                        return None;
                    }
                    let mut t: usize = 0;
                    while t < stays
                        invariant
                            t <= stays == self.stays_each(),
                            a < firsts == self.first_names@.len(),
                            b < lasts == self.last_names@.len(),
                            arrival == self.arrival(a as int),
                            departure == self.departure(a as int, b as int),
                            departure <= 255,
                            planned@.len() == t,
                            forall|i: int|
                                0 <= i < t ==> self.plans_stay(
                                    a as int,
                                    b as int,
                                    i,
                                    #[trigger] planned@[i],
                                ),
                            forall|i: int|
                                0 <= i < t ==> #[trigger] self.stay_fits(a as int, b as int, i),
                        decreases stays - t,
                    {
                        let month = self.months[t];
                        let start = Date::new(self.year, month, arrival as u8);
                        let end = Date::new(self.year, month, departure as u8);
                        match (start, end) {
                            (Some(start), Some(end)) => {
                                planned.push(Stay { city: self.cities[t], start, end });
                            },
                            _ => {
                                assert(!self.stay_fits(a as int, b as int, t as int));
                                return None;
                            },
                        }
                        t += 1;
                    }
                }
                let person = Traveller {
                    first_name: self.first_names[a].clone(),
                    last_name: self.last_names[b].clone(),
                    country: self.country,
                    stays: planned,
                };
                proof {
                    let k = a * lasts + b;
                    lemma_fundamental_div_mod_converse(k as int, lasts as int, a as int, b as int);
                }
                people.push(person);
                b += 1;
            }
            proof {
                assert((a + 1) * lasts == a * lasts + lasts) by (nonlinear_arith);
                if stays > 0 && self.arrival(a as int) <= self.last_growth && self.arrival(a + 1)
                    > self.last_growth {
                    assert(self.growing_rows() == a + 1);
                }
            }
            a += 1;
        }
        Some(people)
    }
}

} // verus!
