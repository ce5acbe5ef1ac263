//! Gazetteer entries and the rows they are read from.

use vstd::prelude::*;
use crate::decimal::{parse_bounded, parse_unsigned};
use crate::text::{chars_of, copy_range, find_char, first_position, string_of, trim, trim_chars};

verus! {

/// A coordinate in decimal degrees, held as the two texts that answers print:
/// its shortest decimal form, and its form with four decimals.
#[derive(Debug, PartialEq, Eq)]
pub struct Coordinate {
    pub plain: String,
    pub fixed: String,
}

/// The mathematical value of a [`Coordinate`].
pub struct CoordinateView {
    pub plain: Seq<char>,
    pub fixed: Seq<char>,
}

impl View for Coordinate {
    type V = CoordinateView;

    open spec fn view(&self) -> CoordinateView {
        CoordinateView { plain: self.plain@, fixed: self.fixed@ }
    }
}

impl Clone for Coordinate {
    fn clone(&self) -> (r: Self)
        ensures
            r@ == self@,
    {
        Coordinate { plain: self.plain.clone(), fixed: self.fixed.clone() }
    }
}

/// A place of the gazetteer.
#[derive(Debug, PartialEq, Eq)]
pub struct Location {
    /// Its identifier in the dataset.
    pub id: String,
    /// Its display name, without a qualifier in parentheses.
    pub name: String,
    pub latitude: Coordinate,
    pub longitude: Coordinate,
    /// The identifier of its time zone, such as `America/New_York`; always
    /// one that the time zone database knows.
    pub timezone_name: String,
    pub population: u64,
    /// Its country, as a code of two upper-case letters.
    pub country: String,
}

/// The mathematical value of a [`Location`].
pub struct LocationView {
    pub id: Seq<char>,
    pub name: Seq<char>,
    pub latitude: CoordinateView,
    pub longitude: CoordinateView,
    pub timezone_name: Seq<char>,
    pub population: u64,
    pub country: Seq<char>,
}

impl View for Location {
    type V = LocationView;

    open spec fn view(&self) -> LocationView {
        LocationView {
            id: self.id@,
            name: self.name@,
            latitude: self.latitude@,
            longitude: self.longitude@,
            timezone_name: self.timezone_name@,
            population: self.population,
            country: self.country@,
        }
    }
}

impl DeepView for Location {
    type V = LocationView;

    open spec fn deep_view(&self) -> LocationView {
        self@
    }
}

impl Clone for Location {
    fn clone(&self) -> (r: Self)
        ensures
            r@ == self@,
    {
        Location {
            id: self.id.clone(),
            name: self.name.clone(),
            latitude: self.latitude.clone(),
            longitude: self.longitude.clone(),
            timezone_name: self.timezone_name.clone(),
            population: self.population,
            country: self.country.clone(),
        }
    }
}

/// One row of the dataset: its tab-separated fields, and the two coordinate
/// fields as numbers, where they are numbers.
#[derive(Debug, PartialEq, Eq)]
pub struct DatasetRow {
    pub fields: Vec<String>,
    pub latitude: Option<Coordinate>,
    pub longitude: Option<Coordinate>,
}

/// The mathematical value of a [`DatasetRow`].
pub struct DatasetRowView {
    pub fields: Seq<Seq<char>>,
    pub latitude: Option<CoordinateView>,
    pub longitude: Option<CoordinateView>,
}

impl View for DatasetRow {
    type V = DatasetRowView;

    open spec fn view(&self) -> DatasetRowView {
        DatasetRowView {
            fields: self.fields.deep_view(),
            latitude: match self.latitude {
                Some(c) => Some(c@),
                None => None,
            },
            longitude: match self.longitude {
                Some(c) => Some(c@),
                None => None,
            },
        }
    }
}

impl DeepView for DatasetRow {
    type V = DatasetRowView;

    open spec fn deep_view(&self) -> DatasetRowView {
        self@
    }
}

/// The number of fields of a dataset row.
pub const FIELD_COUNT: usize = 19;

/// The field that holds the identifier.
pub const ID_FIELD: usize = 0;

/// The field that holds the display name.
pub const NAME_FIELD: usize = 2;

/// The field that holds the country code.
pub const COUNTRY_FIELD: usize = 8;

/// The field that holds the population.
pub const POPULATION_FIELD: usize = 14;

/// The field that holds the time zone identifier.
pub const TIMEZONE_FIELD: usize = 17;

/// Whether the time zone database that `chrono_tz` carries has a zone of
/// this name.
pub uninterp spec fn is_timezone_name(name: Seq<char>) -> bool;

/// Looks a time zone name up with `chrono_tz`'s `Tz::from_str`, which finds
/// it in a fixed table or fails; the answer goes by the name
/// [`is_timezone_name`].
#[verifier::external_body]
fn timezone_known(name: &str) -> (r: bool)
    ensures
        r == is_timezone_name(name@),
{
    name.parse::<chrono_tz::Tz>().is_ok()
}

/// The display name of a place: the name field without the white space
/// around it, cut before its first `(`, and again without white space
/// around it.
pub open spec fn display_name(field: Seq<char>) -> Seq<char> {
    let outer = trim(field);
    trim(outer.take(first_position(outer, '(')))
}

/// Computes [`display_name`].
pub fn clean_name(field: &str) -> (r: String)
    ensures
        r@ == display_name(field@),
{
    let outer = trim_chars(&chars_of(field));
    let cut: usize = find_char(&outer, '(');
    proof {
        crate::text::lemma_first_position(outer@, '(');
    }
    let head = copy_range(&outer, 0, cut);
    let name = trim_chars(&head);
    string_of(&name)
}

/// The place that a row describes, if it describes one: it has
/// [`FIELD_COUNT`] fields, both coordinates are numbers, the population is
/// an unsigned integer that fits 64 bits, and the time zone is known.
pub open spec fn location_of(row: DatasetRowView) -> Option<LocationView> {
    if row.fields.len() == FIELD_COUNT && row.latitude is Some && row.longitude is Some
        && parse_unsigned(row.fields[POPULATION_FIELD as int], u64::MAX as nat) is Some
        && is_timezone_name(row.fields[TIMEZONE_FIELD as int]) {
        Some(
            LocationView {
                id: row.fields[ID_FIELD as int],
                name: display_name(row.fields[NAME_FIELD as int]),
                latitude: row.latitude->0,
                longitude: row.longitude->0,
                timezone_name: row.fields[TIMEZONE_FIELD as int],
                population: parse_unsigned(
                    row.fields[POPULATION_FIELD as int],
                    u64::MAX as nat,
                )->0 as u64,
                country: row.fields[COUNTRY_FIELD as int],
            },
        )
    } else {
        None
    }
}

/// The test and the reading of [`location_of`] in one function.
pub open spec fn location_of_row() -> spec_fn(DatasetRowView) -> Option<LocationView> {
    |row: DatasetRowView| location_of(row)
}

/// The places that the rows describe, in the order of the rows; a row that
/// describes none is left out.
pub open spec fn ingest(rows: Seq<DatasetRowView>) -> Seq<LocationView> {
    rows.filter_map(location_of_row())
}

/// A row that describes no place might as well not be there: the places
/// read are those read without it. A row that has not [`FIELD_COUNT`]
/// fields is such a row.
pub proof fn lemma_ingest_skips(rows: Seq<DatasetRowView>, i: int)
    requires
        0 <= i < rows.len(),
        rows[i].fields.len() != FIELD_COUNT || location_of(rows[i]) is None,
    ensures
        ingest(rows) == ingest(rows.remove(i)),
    decreases rows.len(),
{
    if i == rows.len() - 1 {
        assert(rows.remove(i) =~= rows.drop_last());
    } else {
        lemma_ingest_skips(rows.drop_last(), i);
        assert(rows.remove(i).drop_last() =~= rows.drop_last().remove(i));
        assert(rows.remove(i).last() == rows.last());
    }
}

/// Every place that is read was read from one of the rows, and that row
/// has [`FIELD_COUNT`] fields, the first of which is the place's
/// identifier.
pub proof fn lemma_ingest_sources(rows: Seq<DatasetRowView>, k: int)
    requires
        0 <= k < ingest(rows).len(),
    ensures
        exists|j: int|
            0 <= j < rows.len() && (#[trigger] rows[j]).fields.len() == FIELD_COUNT
                && location_of(rows[j]) == Some(ingest(rows)[k]) && rows[j].fields[ID_FIELD as int]
                == ingest(rows)[k].id,
    decreases rows.len(),
{
    let head = rows.drop_last();
    if location_of(rows.last()) is Some && k == ingest(head).len() {
        assert(rows[rows.len() - 1] == rows.last());
    } else {
        lemma_ingest_sources(head, k);
        let j = choose|j: int|
            0 <= j < head.len() && (#[trigger] head[j]).fields.len() == FIELD_COUNT && location_of(
                head[j],
            ) == Some(ingest(head)[k]) && head[j].fields[ID_FIELD as int] == ingest(head)[k].id;
        assert(rows[j] == head[j]);
    }
}

/// Reads one row: see [`location_of`].
pub fn parse_row(row: &DatasetRow) -> (r: Option<Location>)
    ensures
        match r {
            Some(location) => location_of(row@) == Some(location@),
            None => location_of(row@) is None,
        },
{
    if row.fields.len() != FIELD_COUNT {
        return None;
    }
    let ghost fields = row@.fields;
    assert(fields[NAME_FIELD as int] == row.fields[NAME_FIELD as int]@);
    assert(fields[ID_FIELD as int] == row.fields[ID_FIELD as int]@);
    assert(fields[COUNTRY_FIELD as int] == row.fields[COUNTRY_FIELD as int]@);
    assert(fields[POPULATION_FIELD as int] == row.fields[POPULATION_FIELD as int]@);
    assert(fields[TIMEZONE_FIELD as int] == row.fields[TIMEZONE_FIELD as int]@);
    let name = clean_name(row.fields[NAME_FIELD].as_str());
    let latitude = match &row.latitude {
        Some(c) => c.clone(),
        None => { return None; },
    };
    let longitude = match &row.longitude {
        Some(c) => c.clone(),
        None => { return None; },
    };
    let population = match parse_bounded(
        &chars_of(row.fields[POPULATION_FIELD].as_str()),
        u64::MAX,
    ) {
        Some(p) => p,
        None => { return None; },
    };
    if !timezone_known(row.fields[TIMEZONE_FIELD].as_str()) {
        return None;
    }
    Some(
        Location {
            id: row.fields[ID_FIELD].clone(),
            name,
            latitude,
            longitude,
            timezone_name: row.fields[TIMEZONE_FIELD].clone(),
            population,
            country: row.fields[COUNTRY_FIELD].clone(),
        },
    )
}

} // verus!
