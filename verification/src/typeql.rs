//! The text of the TypeQL statements by which a database is told of the
//! records: one statement for each entity and each visit.
//!
//! Names are put between double quotes as they are; numbers are written in
//! decimal notation. No statement is written for a visit that ends before it
//! starts.
//!
//! [`Store::entity_statement`] and [`Store::statements_for`] write the
//! statements for records of a store, and only where each statement says what
//! the record says: names that cannot break out of their quotes, and stays
//! whose days the text can hold.

use crate::ingest::{Stay, Traveller, TravellerModel};
use crate::model::{Entity, EntityId, EntityModel, GraphError, StoreModel};
use crate::store::Store;
use vstd::prelude::*;

verus! {

/// The character of the digit `d`.
pub open spec fn digit_char(d: int) -> char {
    if d == 0 {
        '0'
    } else if d == 1 {
        '1'
    } else if d == 2 {
        '2'
    } else if d == 3 {
        '3'
    } else if d == 4 {
        '4'
    } else if d == 5 {
        '5'
    } else if d == 6 {
        '6'
    } else if d == 7 {
        '7'
    } else if d == 8 {
        '8'
    } else {
        '9'
    }
}

/// The decimal notation of `n`, without leading zeros.
pub open spec fn decimal_digits(n: nat) -> Seq<char>
    decreases n,
{
    if n < 10 {
        seq![digit_char(n as int)]
    } else {
        decimal_digits(n / 10).push(digit_char((n % 10) as int))
    }
}

/// The decimal notation of `i`, with a minus sign before a negative number.
pub open spec fn decimal(i: int) -> Seq<char> {
    if i < 0 {
        seq!['-'] + decimal_digits((-i) as nat)
    } else {
        decimal_digits(i as nat)
    }
}

/// The statement that inserts a country called `name`.
pub open spec fn country_statement(name: Seq<char>) -> Seq<char> {
    "insert $x isa country, has name \""@ + name + "\";"@
}

/// The statement that inserts a city called `name`.
pub open spec fn city_statement(name: Seq<char>) -> Seq<char> {
    "insert $x isa city, has name \""@ + name + "\";"@
}

/// The statement that inserts a person called `first` `last`.
pub open spec fn person_statement(first: Seq<char>, last: Seq<char>) -> Seq<char> {
    "insert $x isa person, has firstname \""@ + first + "\", has lastname \""@ + last + "\";"@
}

/// The day `day` of month `month` of 2023 as the statements write it: the
/// month after a zero, the day as it is. That reads as a date where the month
/// has one digit and the day two.
pub open spec fn day_of_2023(month: int, day: int) -> Seq<char> {
    "2023-0"@ + decimal(month) + "-"@ + decimal(day)
}

/// The statement that inserts a visit of the person called `first` `last` to
/// the city called `city`, from day `start` to day `end` of month `month` of
/// 2023.
pub open spec fn visit_statement(
    start: int,
    end: int,
    first: Seq<char>,
    last: Seq<char>,
    city: Seq<char>,
    month: int,
) -> Seq<char> {
    "match $person isa person, has firstname \""@ + first + "\", has lastname \""@ + last
        + "\";\n    $city1 isa city, has name \""@ + city
        + "\";\n    insert (person: $person, destination: $city1) isa visited, has start_date "@
        + day_of_2023(month, start) + ", has end_date "@ + day_of_2023(month, end) + ";"@
}

fn digit_text(d: u32) -> (text: &'static str)
    requires
        d < 10,
    ensures
        text@ == seq![digit_char(d as int)],
{
    proof {
        reveal_strlit("0");
        reveal_strlit("1");
        reveal_strlit("2");
        reveal_strlit("3");
        reveal_strlit("4");
        reveal_strlit("5");
        reveal_strlit("6");
        reveal_strlit("7");
        reveal_strlit("8");
        reveal_strlit("9");
    }
    let text = if d == 0 {
        "0"
    } else if d == 1 {
        "1"
    } else if d == 2 {
        "2"
    } else if d == 3 {
        "3"
    } else if d == 4 {
        "4"
    } else if d == 5 {
        "5"
    } else if d == 6 {
        "6"
    } else if d == 7 {
        "7"
    } else if d == 8 {
        "8"
    } else {
        "9"
    };
    text
}

fn digits_text(n: u32) -> (text: String)
    ensures
        text@ == decimal_digits(n as nat),
    decreases n,
{
    if n < 10 {
        String::from_str(digit_text(n))
    } else {
        let mut text = digits_text(n / 10);
        text.append(digit_text(n % 10));
        text
    }
}

/// `i` in decimal notation.
pub fn decimal_text(i: i32) -> (text: String)
    ensures
        text@ == decimal(i as int),
{
    if i < 0 {
        let magnitude: u32 = (-(i as i64)) as u32;
        let mut text = String::from_str("-");
        let digits = digits_text(magnitude);
        text.append(digits.as_str());
        proof {
            reveal_strlit("-");
        }
        text
    } else {
        digits_text(i as u32)
    }
}

/// The statement that inserts a country called `name`.
pub fn create_country_entity(name: &str) -> (statement: String)
    ensures
        statement@ == country_statement(name@),
{
    let mut statement = String::from_str("insert $x isa country, has name \"");
    statement.append(name);
    statement.append("\";");
    statement
}

/// The statement that inserts a city called `name`.
pub fn create_city_entity(name: &str) -> (statement: String)
    ensures
        statement@ == city_statement(name@),
{
    let mut statement = String::from_str("insert $x isa city, has name \"");
    statement.append(name);
    statement.append("\";");
    statement
}

/// The statement that inserts a person called `firstname` `lastname`.
pub fn create_person_entity(firstname: &str, lastname: &str) -> (statement: String)
    ensures
        statement@ == person_statement(firstname@, lastname@),
{
    let mut statement = String::from_str("insert $x isa person, has firstname \"");
    statement.append(firstname);
    statement.append("\", has lastname \"");
    statement.append(lastname);
    statement.append("\";");
    statement
}

fn append_day_of_2023(statement: &mut String, month: i32, day: i32)
    ensures
        final(statement)@ == old(statement)@ + day_of_2023(month as int, day as int),
{
    statement.append("2023-0");
    let month_text = decimal_text(month);
    statement.append(month_text.as_str());
    statement.append("-");
    let day_text = decimal_text(day);
    statement.append(day_text.as_str());
}

/// The statement that inserts a visit of the person called `first_name`
/// `last_name` to the city called `city`, from day `start` to day `end` of
/// month `month_id` of 2023. A visit that would end before it starts is
/// refused with `InvalidInterval`. The numbers are written as they are: see
/// [`writable`] for those that make dates, and [`Store::statements_for`] for
/// statements that are written only where they do.
pub fn create_visited_relationship(
    start: i32,
    end: i32,
    first_name: &str,
    last_name: &str,
    city: &str,
    month_id: i32,
) -> (statement: Result<String, GraphError>)
    ensures
        match statement {
            Ok(text) => start <= end && text@ == visit_statement(
                start as int,
                end as int,
                first_name@,
                last_name@,
                city@,
                month_id as int,
            ),
            Err(e) => start > end && e == GraphError::InvalidInterval,
        },
{
    if start > end {
        return Err(GraphError::InvalidInterval);
    }
    let mut statement = String::from_str("match $person isa person, has firstname \"");
    statement.append(first_name);
    statement.append("\", has lastname \"");
    statement.append(last_name);
    statement.append("\";\n    $city1 isa city, has name \"");
    statement.append(city);
    statement.append(
        "\";\n    insert (person: $person, destination: $city1) isa visited, has start_date ",
    );
    append_day_of_2023(&mut statement, month_id, start);
    statement.append(", has end_date ");
    append_day_of_2023(&mut statement, month_id, end);
    statement.append(";");
    Ok(statement)
}

/// A statement for each visit of one person: the `i`-th for the `i`-th city
/// and the `i`-th month, as far as both lists go, all from day `start` to day
/// `end`.
pub open spec fn visit_statements(
    first: Seq<char>,
    last: Seq<char>,
    cities: Seq<Seq<char>>,
    end: int,
    start: int,
    months: Seq<i32>,
) -> Seq<Seq<char>> {
    Seq::new(
        if cities.len() <= months.len() {
            cities.len()
        } else {
            months.len()
        },
        |i: int| visit_statement(start, end, first, last, cities[i], months[i] as int),
    )
}

/// The statements that insert the visits of the person called `first_name`
/// `last_name`: one to each of `cities`, in the month that stands at the same
/// place in `months`, from day `start` to day `end`. Where one list is longer,
/// what it holds beyond the other is left out. Where there is a visit to
/// write and `end` is before `start`, nothing is written and the answer is
/// `InvalidInterval`.
pub fn insert_data(
    first_name: &str,
    last_name: &str,
    cities: &Vec<String>,
    end: i32,
    start: i32,
    months: &Vec<i32>,
) -> (statements: Result<Vec<String>, GraphError>)
    ensures
        match statements {
            Ok(texts) => {
                &&& start <= end || cities@.len() == 0 || months@.len() == 0
                &&& texts@.map_values(|s: String| s@) == visit_statements(
                    first_name@,
                    last_name@,
                    cities@.map_values(|s: String| s@),
                    end as int,
                    start as int,
                    months@,
                )
            },
            Err(e) => start > end && cities@.len() > 0 && months@.len() > 0 && e
                == GraphError::InvalidInterval,
        },
{
    let ghost wanted = visit_statements(
        first_name@,
        last_name@,
        cities@.map_values(|s: String| s@),
        end as int,
        start as int,
        months@,
    );
    let count = if cities.len() <= months.len() {
        cities.len()
    } else {
        months.len()
    };
    let mut statements: Vec<String> = Vec::new();
    let mut i: usize = 0;
    while i < count
        invariant
            i <= count,
            count <= cities.len(),
            count <= months.len(),
            count == wanted.len(),
            wanted == visit_statements(
                first_name@,
                last_name@,
                cities@.map_values(|s: String| s@),
                end as int,
                start as int,
                months@,
            ),
            i > 0 ==> start <= end,
            statements@.len() == i,
            forall|j: int| 0 <= j < i ==> (#[trigger] statements@[j])@ == wanted[j],
        decreases count - i,
    {
        match create_visited_relationship(
            start,
            end,
            first_name,
            last_name,
            cities[i].as_str(),
            months[i],
        ) {
            Ok(statement) => {
                statements.push(statement);
            },
            Err(e) => {
                return Err(e);
            },
        }
        i += 1;
    }
    assert(statements@.map_values(|s: String| s@) =~= wanted);
    Ok(statements)
}

/// `name` can stand between double quotes: it holds neither a double quote
/// nor a backslash.
pub open spec fn quotable(name: Seq<char>) -> bool {
    forall|i: int| 0 <= i < name.len() ==> name[i] != '"' && name[i] != '\\'
}

/// The statement for a visit can tell of `stay`: it lies within one of the
/// first nine months of 2023, starts on the 10th or later, and does not end
/// before it starts.
pub open spec fn writable(stay: Stay) -> bool {
    &&& stay.start.spec_year() == 2023
    &&& stay.end.spec_year() == 2023
    &&& stay.start.spec_month() == stay.end.spec_month()
    &&& 1 <= stay.start.spec_month() <= 9
    &&& 10 <= stay.start.spec_day() <= stay.end.spec_day()
}

/// The statement that inserts `e`.
pub open spec fn entity_statement(e: EntityModel) -> Seq<char> {
    match e {
        EntityModel::Country { name } => country_statement(name),
        EntityModel::City { name } => city_statement(name),
        EntityModel::Person { first_name, last_name } => person_statement(first_name, last_name),
    }
}

/// Every name of `e` can stand between double quotes.
pub open spec fn names_quotable(e: EntityModel) -> bool {
    match e {
        EntityModel::Country { name } => quotable(name),
        EntityModel::City { name } => quotable(name),
        EntityModel::Person { first_name, last_name } => quotable(first_name) && quotable(
            last_name,
        ),
    }
}

impl StoreModel {
    /// `stay` is in a city whose name can be quoted, on days that can be
    /// written.
    pub open spec fn can_write_stay(self, stay: Stay) -> bool {
        self.is_city(stay.city) && quotable(self.city_name(stay.city)) && writable(stay)
    }

    /// The names of `p` can be quoted and each of their stays can be
    /// written.
    pub open spec fn can_write(self, p: TravellerModel) -> bool {
        &&& quotable(p.first_name)
        &&& quotable(p.last_name)
        &&& forall|j: int| 0 <= j < p.stays.len() ==> self.can_write_stay(#[trigger] p.stays[j])
    }

    /// The statement that inserts the visit of `p` that `stay` describes.
    pub open spec fn stay_statement(self, p: TravellerModel, stay: Stay) -> Seq<char> {
        visit_statement(
            stay.start.spec_day() as int,
            stay.end.spec_day() as int,
            p.first_name,
            p.last_name,
            self.city_name(stay.city),
            stay.start.spec_month() as int,
        )
    }
}

fn is_quotable(name: &str) -> (r: bool)
    ensures
        r == quotable(name@),
{
    let n = name.unicode_len();
    let mut i: usize = 0;
    while i < n
        invariant
            i <= n == name@.len(),
            forall|j: int| 0 <= j < i ==> name@[j] != '"' && name@[j] != '\\',
        decreases n - i,
    {
        let c = name.get_char(i);
        if c == '"' || c == '\\' {
            return false;
        }
        i += 1;
    }
    true
}

fn is_writable(stay: &Stay) -> (r: bool)
    ensures
        r == writable(*stay),
{
    stay.start.year() == 2023 && stay.end.year() == 2023 && stay.start.month()
        == stay.end.month() && 1 <= stay.start.month() && stay.start.month() <= 9 && 10
        <= stay.start.day() && stay.start.day() <= stay.end.day()
}

impl Store {
    /// The statement that tells a database of the entity `id`. `None` where
    /// `id` names no entity, or a name of the entity holds a double quote or a
    /// backslash.
    pub fn entity_statement(&self, id: EntityId) -> (text: Option<String>)
        ensures
            text is Some <==> self@.has_entity(id) && names_quotable(self@.entity(id)),
            text matches Some(t) ==> t@ == entity_statement(self@.entity(id)),
    {
        match self.entity(id) {
            Some(Entity::Country { name }) => {
                if is_quotable(name.as_str()) {
                    Some(create_country_entity(name.as_str()))
                } else {
                    None
                }
            },
            Some(Entity::City { name }) => {
                if is_quotable(name.as_str()) {
                    Some(create_city_entity(name.as_str()))
                } else {
                    None
                }
            },
            Some(Entity::Person { first_name, last_name }) => {
                if is_quotable(first_name.as_str()) && is_quotable(last_name.as_str()) {
                    Some(create_person_entity(first_name.as_str(), last_name.as_str()))
                } else {
                    None
                }
            },
            None => None,
        }
    }

    /// The statements that tell a database of `traveller`: the one that
    /// inserts the person, then one for each stay, in their order, each with
    /// the stay's own city, month and days. `None`, and nothing written, where
    /// a name holds a double quote or a backslash, a stay is in no city of
    /// this store, or a stay is not within one of the first nine months of
    /// 2023 from the 10th on.
    pub fn statements_for(&self, traveller: &Traveller) -> (texts: Option<Vec<String>>)
        ensures
            texts is Some <==> self@.can_write(traveller@),
            texts matches Some(t) ==> {
                &&& t@.len() == traveller@.stays.len() + 1
                &&& t@[0]@ == person_statement(traveller@.first_name, traveller@.last_name)
                &&& forall|k: int|
                    1 <= k < t@.len() ==> (#[trigger] t@[k])@ == self@.stay_statement(
                        traveller@,
                        traveller@.stays[k - 1],
                    )
            },
    {
        let first = traveller.first_name.as_str();
        let last = traveller.last_name.as_str();
        if !is_quotable(first) || !is_quotable(last) {
            return None;
        }
        let mut texts: Vec<String> = Vec::new();
        texts.push(create_person_entity(first, last));
        let mut j: usize = 0;
        while j < traveller.stays.len()
            invariant
                j <= traveller.stays.len(),
                first@ == traveller@.first_name,
                last@ == traveller@.last_name,
                quotable(first@),
                quotable(last@),
                texts@.len() == j + 1,
                texts@[0]@ == person_statement(first@, last@),
                forall|k: int| 0 <= k < j ==> self@.can_write_stay(#[trigger] traveller@.stays[k]),
                forall|k: int|
                    1 <= k < texts@.len() ==> (#[trigger] texts@[k])@ == self@.stay_statement(
                        traveller@,
                        traveller@.stays[k - 1],
                    ),
            decreases traveller.stays.len() - j,
        {
            let stay = traveller.stays[j];
            assert(stay == traveller@.stays[j as int]);
            let city = match self.entity(stay.city) {
                Some(Entity::City { name }) => name,
                _ => {
                    return None;
                },
            };
            assert(self@.is_city(stay.city) && city@ == self@.city_name(stay.city));
            if !is_quotable(city.as_str()) || !is_writable(&stay) {
                return None;
            }
            match create_visited_relationship(
                stay.start.day() as i32,
                stay.end.day() as i32,
                first,
                last,
                city.as_str(),
                stay.start.month() as i32,
            ) {
                Ok(text) => {
                    texts.push(text);
                },
                Err(_) => {
                    return None;
                },
            }
            j += 1;
        }
        Some(texts)
    }
}

} // verus!
