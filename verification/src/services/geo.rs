//! The service that looks places up in the gazetteer.

use vstd::prelude::*;
use crate::decimal::{decimal_string, decimal_text};
use crate::dns::{
    txt_record, Answer, AnswerView, Record, RecordType, RecordView, Request, RequestView,
    ServiceFailure,
};
use crate::geo::index::{loaded, lookup, Geo, Index};
use crate::geo::location::{ingest, DatasetRow, Location, LocationView};
use crate::handlers::Service;

verus! {

/// Answers with the places that the gazetteer holds under the argument.
pub struct GeoService {
    geo: Geo,
}

/// How long an answer of the place service may be cached, in seconds.
pub const GEO_TTL: u32 = 60;

/// A place as the answer to a text question describes it.
pub open spec fn location_txt(place: LocationView) -> Seq<char> {
    place.name + " ("@ + place.country + ") - Pop: "@ + decimal_text(place.population as nat)
        + ", TZ: "@ + place.timezone_name + ", Lat: "@ + place.latitude.fixed + ", Lon: "@
        + place.longitude.fixed
}

/// A place as the answer to an address question describes it.
pub open spec fn location_a(place: LocationView) -> Seq<char> {
    place.name + ","@ + place.country + ","@ + place.latitude.plain + ","@
        + place.longitude.plain
}

/// The description of a place for a question of the type `query_type`.
pub open spec fn description(place: LocationView, query_type: RecordType) -> Seq<char> {
    if query_type == RecordType::A {
        location_a(place)
    } else {
        location_txt(place)
    }
}

/// The records that describe `places`: a text record each, under the root
/// name.
pub open spec fn place_records(places: Seq<LocationView>, query_type: RecordType) -> Seq<
    RecordView,
> {
    Seq::new(places.len(), |i: int| txt_record("."@, GEO_TTL, description(places[i], query_type)))
}

/// What the place service says to a question: for a text or an address
/// question the records of the places that the argument finds, if it finds
/// any; else nothing.
pub open spec fn geo_answer(index: Index, query: Seq<char>, query_type: RecordType) -> Option<
    Seq<RecordView>,
> {
    if query_type == RecordType::TXT || query_type == RecordType::A {
        match lookup(index, query) {
            Some(places) => if places.len() == 0 {
                None
            } else {
                Some(place_records(places, query_type))
            },
            None => None,
        }
    } else {
        None
    }
}

impl GeoService {
    /// What the gazetteer of the service holds.
    pub closed spec fn index(&self) -> Index {
        self.geo.index()
    }

    /// How many places the gazetteer of the service was loaded with.
    pub closed spec fn total(&self) -> nat {
        self.geo.total()
    }

    /// What the place service describes itself with: how many places it was
    /// loaded with, as bytes.
    pub open spec fn description(&self) -> Seq<u8> {
        vstd::utf8::encode_utf8(
            "Geo service loaded with "@ + decimal_text(self.total()) + " locations"@,
        )
    }

    /// A place service over the places that the rows of a dataset describe.
    pub fn new(rows: &Vec<DatasetRow>) -> (r: Self)
        ensures
            r.index() == loaded(Map::empty(), ingest(rows.deep_view())),
            r.total() == ingest(rows.deep_view()).len(),
    {
        GeoService { geo: Geo::new(rows) }
    }

    /// Describes a place for a text question: see [`location_txt`].
    pub fn format_location_txt(&self, location: &Location) -> (r: String)
        ensures
            r@ == location_txt(location@),
    {
        let mut out = location.name.clone();
        out.append(" (");
        out.append(location.country.as_str());
        out.append(") - Pop: ");
        out.append(decimal_string(location.population).as_str());
        out.append(", TZ: ");
        out.append(location.timezone_name.as_str());
        out.append(", Lat: ");
        out.append(location.latitude.fixed.as_str());
        out.append(", Lon: ");
        out.append(location.longitude.fixed.as_str());
        out
    }

    /// Describes a place for an address question: see [`location_a`].
    pub fn format_location_a(&self, location: &Location) -> (r: String)
        ensures
            r@ == location_a(location@),
    {
        let mut out = location.name.clone();
        out.append(",");
        out.append(location.country.as_str());
        out.append(",");
        out.append(location.latitude.plain.as_str());
        out.append(",");
        out.append(location.longitude.plain.as_str());
        out
    }

    /// The records for the places that `query` finds, described for a
    /// question of the type `query_type`.
    fn records_for(&self, query: &str, query_type: RecordType) -> (r: Option<Vec<Record>>)
        requires
            query_type == RecordType::TXT || query_type == RecordType::A,
        ensures
            match r {
                Some(records) => geo_answer(self.index(), query@, query_type) == Some(
                    records.deep_view(),
                ),
                None => geo_answer(self.index(), query@, query_type) is None,
            },
    {
        let locations = match self.geo.query(query) {
            Some(locations) => locations,
            None => { return None; },
        };
        let ghost places = locations.deep_view();
        let mut records: Vec<Record> = Vec::new();
        let mut i: usize = 0;
        while i < locations.len()
            invariant
                i <= locations.len(),
                places == locations.deep_view(),
                query_type == RecordType::TXT || query_type == RecordType::A,
                records.deep_view() == place_records(places.take(i as int), query_type),
            decreases locations.len() - i,
        {
            let ghost done = records.deep_view();
            let text = match query_type {
                RecordType::A => self.format_location_a(&locations[i]),
                _ => self.format_location_txt(&locations[i]),
            };
            let record = Record::txt(String::from_str("."), GEO_TTL, text);
            records.push(record);
            proof {
                assert(records.deep_view() =~= done.push(record@));
                assert(records.deep_view() =~= place_records(places.take(i + 1), query_type));
            }
            i += 1;
        }
        assert(places.take(locations.len() as int) =~= places);
        if records.len() == 0 {
            None
        } else {
            Some(records)
        }
    }

    /// Answers a text question: see [`geo_answer`].
    pub fn handle_txt_query(&self, query: &str) -> (r: Option<Vec<Record>>)
        ensures
            match r {
                Some(records) => geo_answer(self.index(), query@, RecordType::TXT) == Some(
                    records.deep_view(),
                ),
                None => geo_answer(self.index(), query@, RecordType::TXT) is None,
            },
    {
        self.records_for(query, RecordType::TXT)
    }

    /// Answers an address question: see [`geo_answer`].
    pub fn handle_a_query(&self, query: &str) -> (r: Option<Vec<Record>>)
        ensures
            match r {
                Some(records) => geo_answer(self.index(), query@, RecordType::A) == Some(
                    records.deep_view(),
                ),
                None => geo_answer(self.index(), query@, RecordType::A) is None,
            },
    {
        self.records_for(query, RecordType::A)
    }
}

impl Service for GeoService {
    open spec fn may_answer(
        &self,
        request: RequestView,
        query_name: Seq<char>,
        query_type: RecordType,
        cleaned_query: Seq<char>,
        answer: AnswerView,
    ) -> bool {
        answer == Ok::<Option<Seq<RecordView>>, Seq<char>>(
            geo_answer(self.index(), cleaned_query, query_type),
        )
    }

    fn query(
        &self,
        request: &Request,
        query_name: &str,
        query_type: RecordType,
        cleaned_query: &str,
    ) -> (answer: Answer) {
        match query_type {
            RecordType::TXT => Ok(self.handle_txt_query(cleaned_query)),
            RecordType::A => Ok(self.handle_a_query(cleaned_query)),
            _ => Ok(None),
        }
    }

    /// A summary of the gazetteer, as bytes.
    fn dump(&self) -> (r: Result<Vec<u8>, ServiceFailure>)
        ensures
            r matches Ok(bytes) && bytes@ == self.description(),
    {
        let mut text = String::from_str("Geo service loaded with ");
        text.append(decimal_string(self.geo.count() as u64).as_str());
        text.append(" locations");
        Ok(text.as_str().as_bytes_vec())
    }
}

} // verus!
