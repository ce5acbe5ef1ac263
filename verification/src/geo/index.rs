//! The index: from a normalized key to the places filed under it.

use vstd::prelude::*;
use crate::casing::{is_ascii, lowercase, lowercase_chars, uppercase, uppercase_chars};
use crate::geo::location::{ingest, parse_row, DatasetRow, Location, LocationView};
use crate::geo::rank::{is_ranked, lemma_rank_is_ranked, rank, rank_locations};
use crate::table::{
    distinct, holds_key, lemma_slot, lemma_table_push, lemma_table_update, table,
};
use crate::text::{
    chars_of, copy_range, count_char, find_char, first_position, lemma_first_position,
    lemma_retain_all, lemma_retain_fixed, occurrences, retain, same_chars, string_of,
};

verus! {

/// Whether `c` may stand in a key: a lower-case ASCII letter, or `/`.
pub open spec fn is_key_char(c: char) -> bool {
    'a' <= c <= 'z' || c == '/'
}

/// [`is_key_char`] as a filter.
pub open spec fn key_chars() -> spec_fn(char) -> bool {
    |c: char| is_key_char(c)
}

/// The key of a text: its lower-case form, of which only the characters
/// that may stand in a key are kept.
pub open spec fn normalized(text: Seq<char>) -> Seq<char> {
    retain(lowercase(text), key_chars())
}

/// A key is its own key.
pub proof fn lemma_normalized_idempotent(text: Seq<char>)
    ensures
        normalized(normalized(text)) == normalized(text),
{
    let key = normalized(text);
    lemma_retain_all(lowercase(text), key_chars());
    assert(is_ascii(key)) by {
        assert forall|i: int| 0 <= i < key.len() implies #[trigger] key[i] <= '\u{7f}' by {
            assert(key_chars()(key[i]));
        }
    }
    assert(lowercase(key) =~= key) by {
        assert forall|i: int| 0 <= i < key.len() implies #[trigger] lowercase(key)[i]
            == key[i] by {
            assert(key_chars()(key[i]));
        }
    }
    lemma_retain_fixed(key, key_chars());
}

/// Computes [`normalized`] on character vectors.
pub fn normalize_chars(text: &Vec<char>) -> (r: Vec<char>)
    ensures
        r@ == normalized(text@),
{
    let lowered = lowercase_chars(text);
    let mut out: Vec<char> = Vec::new();
    let mut i: usize = 0;
    proof {
        reveal(Seq::filter);
        assert(lowered@.take(0).filter(key_chars()) =~= Seq::<char>::empty());
    }
    while i < lowered.len()
        invariant
            i <= lowered.len(),
            out@ == lowered@.take(i as int).filter(key_chars()),
        decreases lowered.len() - i,
    {
        let c = lowered[i];
        proof {
            assert(lowered@.take(i + 1) =~= lowered@.take(i as int).push(c));
            lowered@.take(i as int).lemma_filter_push(c, key_chars());
        }
        if ('a' <= c && c <= 'z') || c == '/' {
            out.push(c);
        }
        i += 1;
    }
    assert(lowered@.take(lowered.len() as int) =~= lowered@);
    out
}

/// Computes [`normalized`].
pub fn normalize(text: &str) -> (r: String)
    ensures
        r@ == normalized(text@),
{
    string_of(&normalize_chars(&chars_of(text)))
}

/// The part of a time zone identifier after its first `/` and before its
/// second, if it has a `/`: `New_York` of `America/New_York`.
pub open spec fn alias_segment(timezone_name: Seq<char>) -> Option<Seq<char>> {
    let p = first_position(timezone_name, '/');
    if p == timezone_name.len() {
        None
    } else {
        let rest = timezone_name.skip(p + 1);
        Some(rest.take(first_position(rest, '/')))
    }
}

/// Computes [`alias_segment`].
pub fn alias_of(timezone_name: &str) -> (r: Option<Vec<char>>)
    ensures
        match r {
            Some(segment) => alias_segment(timezone_name@) == Some(segment@),
            None => alias_segment(timezone_name@) is None,
        },
{
    let chars = chars_of(timezone_name);
    let p: usize = find_char(&chars, '/');
    proof {
        lemma_first_position(chars@, '/');
    }
    if p == chars.len() {
        return None;
    }
    let rest = copy_range(&chars, p + 1, chars.len());
    assert(rest@ =~= chars@.skip(p + 1));
    let q: usize = find_char(&rest, '/');
    proof {
        lemma_first_position(rest@, '/');
    }
    let segment = copy_range(&rest, 0, q);
    assert(segment@ =~= rest@.take(q as int));
    Some(segment)
}

/// What an index holds: under each key the places filed under it.
pub type Index = Map<Seq<char>, Seq<LocationView>>;

/// The index with `place` filed last under `key`.
pub open spec fn add_under(index: Index, key: Seq<char>, place: LocationView) -> Index {
    if index.contains_key(key) {
        index.insert(key, index[key].push(place))
    } else {
        index.insert(key, seq![place])
    }
}

/// The index with each of `places`, in their order, filed under the key of
/// its name.
pub open spec fn add_names(index: Index, places: Seq<LocationView>) -> Index
    decreases places.len(),
{
    if places.len() == 0 {
        index
    } else {
        add_under(
            add_names(index, places.drop_last()),
            normalized(places.last().name),
            places.last(),
        )
    }
}

/// The index with `place` filed under the key of its time zone's alias,
/// unless it has no alias, or that key holds places already.
pub open spec fn add_alias(index: Index, place: LocationView) -> Index {
    match alias_segment(place.timezone_name) {
        Some(segment) => if index.contains_key(normalized(segment)) {
            index
        } else {
            index.insert(normalized(segment), seq![place])
        },
        None => index,
    }
}

/// The index after [`add_alias`] for each of `places`, in their order.
pub open spec fn add_aliases(index: Index, places: Seq<LocationView>) -> Index
    decreases places.len(),
{
    if places.len() == 0 {
        index
    } else {
        add_alias(add_aliases(index, places.drop_last()), places.last())
    }
}

/// The index with the places under each key ranked by population.
pub open spec fn rank_all(index: Index) -> Index {
    Map::new(|key: Seq<char>| index.contains_key(key), |key: Seq<char>| rank(index[key]))
}

/// The index after `places` are loaded into it: each is filed under its
/// name; then each is filed under its alias, where that key is still free;
/// then the places under each key are ranked.
pub open spec fn loaded(index: Index, places: Seq<LocationView>) -> Index {
    rank_all(add_aliases(add_names(index, places), places))
}

/// Under every key the places are non-increasing in population.
pub open spec fn all_ranked(index: Index) -> bool {
    forall|key: Seq<char>| #[trigger] index.contains_key(key) ==> is_ranked(index[key])
}

/// Whatever is loaded, and into whatever index: afterwards the places
/// under every key are non-increasing in population.
pub proof fn lemma_loaded_ranked(index: Index, places: Seq<LocationView>)
    ensures
        all_ranked(loaded(index, places)),
{
    let filed = add_aliases(add_names(index, places), places);
    assert forall|key: Seq<char>| #[trigger] loaded(index, places).contains_key(key) implies is_ranked(
        loaded(index, places)[key],
    ) by {
        lemma_rank_is_ranked(filed[key]);
    }
}

/// The term that a query searches for: what stands before the `/`, where
/// the query has exactly one `/` and exactly two characters after it;
/// the whole query otherwise.
pub open spec fn search_term(query: Seq<char>) -> Seq<char> {
    if has_country_filter(query) {
        query.take(first_position(query, '/'))
    } else {
        query
    }
}

/// The query has exactly one `/`, and exactly two characters after it.
pub open spec fn has_country_filter(query: Seq<char>) -> bool {
    occurrences(query, '/') == 1 && first_position(query, '/') + 3 == query.len()
}

/// The country that a query asks for: the two characters after its `/`,
/// in upper case.
pub open spec fn country_filter(query: Seq<char>) -> Option<Seq<char>> {
    if has_country_filter(query) {
        Some(uppercase(query.skip(first_position(query, '/') + 1)))
    } else {
        None
    }
}

/// The test for a place of the country `country`.
pub open spec fn in_country(country: Seq<char>) -> spec_fn(LocationView) -> bool {
    |place: LocationView| place.country == country
}

/// What a query finds in an index: the places under the key of its search
/// term, all of them or those of the country that it asks for. `None` where
/// the key is not in the index, or no place is left.
pub open spec fn lookup(index: Index, query: Seq<char>) -> Option<Seq<LocationView>> {
    let key = normalized(search_term(query));
    if !index.contains_key(key) {
        None
    } else {
        match country_filter(query) {
            None => Some(index[key]),
            Some(country) => {
                let kept = index[key].filter(in_country(country));
                if kept.len() == 0 {
                    None
                } else {
                    Some(kept)
                }
            },
        }
    }
}

/// A query with a country finds only places of that country, and at
/// least one, or nothing.
pub proof fn lemma_lookup_country(index: Index, city: Seq<char>, country: Seq<char>)
    requires
        country.len() == 2,
        !city.contains('/'),
        !country.contains('/'),
    ensures
        match lookup(index, city + seq!['/'] + country) {
            Some(places) => places.len() > 0 && forall|i: int|
                0 <= i < places.len() ==> (#[trigger] places[i]).country == uppercase(country),
            None => true,
        },
{
    let query = city + seq!['/'] + country;
    let p = city.len() as int;
    assert(query[p] == '/');
    assert forall|i: int| 0 <= i < p implies query[i] != '/' by {
        assert(query[i] == city[i]);
        assert(city.contains(city[i]));
    }
    crate::text::lemma_first_position_unique(query, '/', p);
    assert(query.skip(p + 1) =~= country);
    match lookup(index, query) {
        Some(places) => {
            if has_country_filter(query) {
                let key = normalized(search_term(query));
                assert forall|i: int| 0 <= i < places.len() implies (#[trigger] places[i]).country
                    == uppercase(country) by {
                    index[key].lemma_filter_pred(in_country(uppercase(country)), i);
                }
            } else {
                lemma_one_slash(city, country);
            }
        },
        None => {},
    }
}

/// A text without `/`, then `/`, then another text without `/`, holds one `/`.
proof fn lemma_one_slash(city: Seq<char>, country: Seq<char>)
    requires
        !city.contains('/'),
        !country.contains('/'),
    ensures
        occurrences(city + seq!['/'] + country, '/') == 1,
{
    let is_slash = crate::text::is_char('/');
    lemma_no_slash(city);
    lemma_no_slash(country);
    Seq::filter_distributes_over_add(city + seq!['/'], country, is_slash);
    Seq::filter_distributes_over_add(city, seq!['/'], is_slash);
    reveal_with_fuel(Seq::filter, 2);
    assert(seq!['/'].drop_last() =~= Seq::<char>::empty());
    assert(seq!['/'].filter(is_slash) =~= seq!['/']);
}

/// A text without `/` holds none.
proof fn lemma_no_slash(s: Seq<char>)
    requires
        !s.contains('/'),
    ensures
        s.filter(crate::text::is_char('/')).len() == 0,
    decreases s.len(),
{
    reveal(Seq::filter);
    if s.len() > 0 {
        assert(s.contains(s.last()));
        assert forall|c: char| s.drop_last().contains(c) implies s.contains(c) by {
            let i = choose|i: int| 0 <= i < s.drop_last().len() && s.drop_last()[i] == c;
            assert(s[i] == c);
        }
        lemma_no_slash(s.drop_last());
    }
}

/// The places of a ranked list that pass a test are ranked.
pub proof fn lemma_filter_ranked(s: Seq<LocationView>, test: spec_fn(LocationView) -> bool)
    requires
        is_ranked(s),
    ensures
        is_ranked(s.filter(test)),
    decreases s.len(),
{
    reveal(Seq::filter);
    if s.len() > 0 {
        let head = s.drop_last();
        assert(is_ranked(head)) by {
            assert forall|i: int, j: int| 0 <= i < j < head.len() implies head[i].population
                >= head[j].population by {
                assert(head[i] == s[i] && head[j] == s[j]);
            }
        }
        lemma_filter_ranked(head, test);
        let kept = head.filter(test);
        if test(s.last()) {
            let out = kept.push(s.last());
            assert forall|i: int, j: int| 0 <= i < j < out.len() implies out[i].population
                >= out[j].population by {
                if j == kept.len() {
                    assert(kept.contains(kept[i]));
                    head.lemma_filter_contains_rev(test, kept[i]);
                    let k = choose|k: int| 0 <= k < head.len() && head[k] == kept[i];
                    assert(s[k].population >= s[s.len() - 1].population);
                } else {
                    assert(kept[i].population >= kept[j].population);
                }
            }
        }
    }
}

/// A query finds places in the order of their rank, where the index holds
/// them so.
pub proof fn lemma_lookup_ranked(index: Index, query: Seq<char>)
    requires
        all_ranked(index),
    ensures
        lookup(index, query) matches Some(places) ==> is_ranked(places),
{
    let key = normalized(search_term(query));
    if index.contains_key(key) {
        match country_filter(query) {
            Some(country) => {
                lemma_filter_ranked(index[key], in_country(country));
            },
            None => {},
        }
    }
}

/// The places filed under one key.
struct Entry {
    key: Vec<char>,
    locations: Vec<Location>,
}

/// The keys of the entries, in their order.
spec fn keys_of(entries: Seq<Entry>) -> Seq<Seq<char>> {
    Seq::new(entries.len(), |i: int| entries[i].key@)
}

/// The places of the entries, in their order.
spec fn lists_of(entries: Seq<Entry>) -> Seq<Seq<LocationView>> {
    Seq::new(entries.len(), |i: int| entries[i].locations.deep_view())
}

/// A place pushed to the list of an entry is a place filed under its key.
proof fn lemma_file_existing(
    keys: Seq<Seq<char>>,
    lists: Seq<Seq<LocationView>>,
    j: int,
    place: LocationView,
)
    requires
        distinct(keys),
        keys.len() == lists.len(),
        0 <= j < keys.len(),
    ensures
        table(keys, lists.update(j, lists[j].push(place))) == add_under(
            table(keys, lists),
            keys[j],
            place,
        ),
{
    lemma_table_update(keys, lists, j, lists[j].push(place));
}

/// A new entry with one place is that place filed under a key that was free.
proof fn lemma_file_new(
    keys: Seq<Seq<char>>,
    lists: Seq<Seq<LocationView>>,
    key: Seq<char>,
    place: LocationView,
)
    requires
        distinct(keys),
        keys.len() == lists.len(),
        !holds_key(keys, key),
    ensures
        distinct(keys.push(key)),
        table(keys.push(key), lists.push(seq![place])) == table(keys, lists).insert(
            key,
            seq![place],
        ),
        !table(keys, lists).contains_key(key),
{
    lemma_table_push(keys, lists, key, seq![place]);
}

/// Entries whose lists are ranked stand for the ranked index.
proof fn lemma_rank_table(
    keys: Seq<Seq<char>>,
    lists: Seq<Seq<LocationView>>,
    ranked: Seq<Seq<LocationView>>,
)
    requires
        keys.len() == lists.len(),
        ranked.len() == lists.len(),
        forall|i: int| 0 <= i < lists.len() ==> #[trigger] ranked[i] == rank(lists[i]),
    ensures
        table(keys, ranked) == rank_all(table(keys, lists)),
{
    assert(table(keys, ranked) =~= rank_all(table(keys, lists)));
}

/// The position of the entry with the key `key`, if there is one.
fn find_key(entries: &Vec<Entry>, key: &Vec<char>) -> (r: Option<usize>)
    ensures
        match r {
            Some(j) => j < entries@.len() && keys_of(entries@)[j as int] == key@,
            None => !holds_key(keys_of(entries@), key@),
        },
{
    let mut i: usize = 0;
    while i < entries.len()
        invariant
            i <= entries.len(),
            forall|j: int| 0 <= j < i ==> (#[trigger] keys_of(entries@)[j]) != key@,
        decreases entries.len() - i,
    {
        if same_chars(&entries[i].key, key) {
            return Some(i);
        }
        i += 1;
    }
    None
}

/// A copy of a list of places.
fn clone_places(list: &Vec<Location>) -> (r: Vec<Location>)
    ensures
        r.deep_view() == list.deep_view(),
{
    let mut out: Vec<Location> = Vec::new();
    let mut i: usize = 0;
    while i < list.len()
        invariant
            i <= list.len(),
            out.len() == i,
            forall|j: int| 0 <= j < i ==> (#[trigger] out@[j])@ == list@[j]@,
        decreases list.len() - i,
    {
        out.push(list[i].clone());
        i += 1;
    }
    assert(out.deep_view() =~= list.deep_view());
    out
}

/// The places of `list` whose country is `country`.
fn places_in_country(list: &Vec<Location>, country: &Vec<char>) -> (r: Vec<Location>)
    ensures
        r.deep_view() == list.deep_view().filter(in_country(country@)),
{
    let ghost all = list.deep_view();
    let ghost wanted = in_country(country@);
    let mut out: Vec<Location> = Vec::new();
    let mut i: usize = 0;
    proof {
        reveal(Seq::filter);
        assert(all.take(0).filter(wanted) =~= Seq::<LocationView>::empty());
        assert(out.deep_view() =~= Seq::<LocationView>::empty());
    }
    while i < list.len()
        invariant
            i <= list.len(),
            all == list.deep_view(),
            wanted == in_country(country@),
            out.deep_view() == all.take(i as int).filter(wanted),
        decreases list.len() - i,
    {
        let ghost kept = out.deep_view();
        proof {
            assert(all.take(i + 1) =~= all.take(i as int).push(all[i as int]));
            all.take(i as int).lemma_filter_push(all[i as int], wanted);
        }
        if same_chars(&chars_of(list[i].country.as_str()), country) {
            let place = list[i].clone();
            out.push(place);
            assert(out.deep_view() =~= kept.push(place@));
        }
        i += 1;
    }
    assert(all.take(list.len() as int) =~= all);
    out
}

/// Loads places into the entries of an index: see [`loaded`].
fn load_entries(entries: &mut Vec<Entry>, locations: &Vec<Location>)
    requires
        distinct(keys_of(old(entries)@)),
    ensures
        distinct(keys_of(final(entries)@)),
        forall|i: int|
            0 <= i < final(entries)@.len() ==> is_ranked(#[trigger] lists_of(final(entries)@)[i]),
        table(keys_of(final(entries)@), lists_of(final(entries)@)) == loaded(
            table(keys_of(old(entries)@), lists_of(old(entries)@)),
            locations.deep_view(),
        ),
{
    let ghost places = locations.deep_view();
    let ghost start = table(keys_of(entries@), lists_of(entries@));
    let mut i: usize = 0;
    proof {
        assert(places.take(0) =~= Seq::<LocationView>::empty());
    }
    while i < locations.len()
        invariant
            i <= locations.len(),
            places == locations.deep_view(),
            distinct(keys_of(entries@)),
            table(keys_of(entries@), lists_of(entries@)) == add_names(start, places.take(i as int)),
        decreases locations.len() - i,
    {
        let place = locations[i].clone();
        let key = normalize_chars(&chars_of(place.name.as_str()));
        let ghost keys = keys_of(entries@);
        let ghost lists = lists_of(entries@);
        proof {
            assert(places.take(i + 1).drop_last() =~= places.take(i as int));
            assert(places.take(i + 1).last() == place@);
        }
        match find_key(&entries, &key) {
            Some(j) => {
                let ghost prior = entries@;
                entries[j].locations.push(place);
                proof {
                    assert(entries@.len() == prior.len());
                    assert(entries@[j as int].key == prior[j as int].key);
                    assert(entries@[j as int].locations@ == prior[j as int].locations@.push(
                        place,
                    ));
                    assert(forall|k: int|
                        0 <= k < prior.len() && k != j ==> entries@[k] == prior[k]);
                    assert(entries@[j as int].locations.deep_view() =~= lists[j as int].push(
                        place@,
                    ));
                    assert(keys_of(entries@) =~= keys);
                    assert(lists_of(entries@) =~= lists.update(
                        j as int,
                        lists[j as int].push(place@),
                    ));
                    lemma_file_existing(keys, lists, j as int, place@);
                    lemma_slot(keys, j as int);
                }
            },
            None => {
                let mut list: Vec<Location> = Vec::new();
                list.push(place);
                assert(list.deep_view() =~= seq![place@]);
                entries.push(Entry { key, locations: list });
                proof {
                    assert(keys_of(entries@) =~= keys.push(key@));
                    assert(lists_of(entries@) =~= lists.push(seq![place@]));
                    lemma_file_new(keys, lists, key@, place@);
                }
            },
        }
        i += 1;
    }
    let ghost named = table(keys_of(entries@), lists_of(entries@));
    assert(places.take(locations.len() as int) =~= places);
    i = 0;
    while i < locations.len()
        invariant
            i <= locations.len(),
            places == locations.deep_view(),
            distinct(keys_of(entries@)),
            table(keys_of(entries@), lists_of(entries@)) == add_aliases(named, places.take(i as int)),
        decreases locations.len() - i,
    {
        let ghost keys = keys_of(entries@);
        let ghost lists = lists_of(entries@);
        proof {
            assert(places.take(i + 1).drop_last() =~= places.take(i as int));
            assert(places.take(i + 1).last() == locations@[i as int]@);
        }
        match alias_of(locations[i].timezone_name.as_str()) {
            Some(segment) => {
                let key = normalize_chars(&segment);
                match find_key(&entries, &key) {
                    Some(j) => {
                        proof {
                            lemma_slot(keys, j as int);
                        }
                    },
                    None => {
                        let place = locations[i].clone();
                        let mut list: Vec<Location> = Vec::new();
                        list.push(place);
                        assert(list.deep_view() =~= seq![place@]);
                        entries.push(Entry { key, locations: list });
                        proof {
                            assert(keys_of(entries@) =~= keys.push(key@));
                            assert(lists_of(entries@) =~= lists.push(seq![place@]));
                            lemma_file_new(keys, lists, key@, place@);
                        }
                    },
                }
            },
            None => {},
        }
        i += 1;
    }
    assert(places.take(locations.len() as int) =~= places);
    let ghost keys = keys_of(entries@);
    let ghost lists = lists_of(entries@);
    let n: usize = entries.len();
    i = 0;
    while i < n
        invariant
            i <= n,
            n == entries@.len(),
            n == lists.len(),
            keys_of(entries@) == keys,
            forall|j: int| 0 <= j < i ==> #[trigger] lists_of(entries@)[j] == rank(lists[j]),
            forall|j: int| i <= j < n ==> #[trigger] lists_of(entries@)[j] == lists[j],
        decreases n - i,
    {
        let ghost before = lists_of(entries@);
        let ghost prior = entries@;
        let mut list: Vec<Location> = Vec::new();
        std::mem::swap(&mut list, &mut entries[i].locations);
        assert(list == prior[i as int].locations);
        let ghost emptied = entries@;
        assert(emptied.len() == prior.len());
        assert(emptied[i as int].key == prior[i as int].key);
        assert(forall|k: int| 0 <= k < prior.len() && k != i ==> emptied[k] == prior[k]);
        let ranked = rank_locations(list);
        entries[i].locations = ranked;
        proof {
            assert(entries@.len() == prior.len());
            assert(entries@[i as int].key == prior[i as int].key);
            assert(entries@[i as int].locations == ranked);
            assert(forall|k: int|
                0 <= k < prior.len() && k != i ==> entries@[k] == prior[k]);
            assert(before[i as int] == lists[i as int]);
            assert(keys_of(entries@) =~= keys);
            assert(lists_of(entries@) =~= before.update(i as int, rank(lists[i as int])));
        }
        i += 1;
    }
    proof {
        lemma_rank_table(keys, lists, lists_of(entries@));
        assert forall|j: int| 0 <= j < entries@.len() implies is_ranked(
            #[trigger] lists_of(entries@)[j],
        ) by {
            lemma_rank_is_ranked(lists[j]);
        }
    }
}

/// The gazetteer index, and how many places were loaded into it.
pub struct Geo {
    entries: Vec<Entry>,
    count: usize,
}

impl Geo {
    /// What the index holds.
    pub closed spec fn index(&self) -> Index {
        table(keys_of(self.entries@), lists_of(self.entries@))
    }

    /// How many places were loaded.
    pub closed spec fn total(&self) -> nat {
        self.count as nat
    }

    /// Each key has one entry, and the places of each entry are ranked.
    #[verifier::type_invariant]
    spec fn sound(self) -> bool {
        &&& distinct(keys_of(self.entries@))
        &&& forall|i: int|
            0 <= i < self.entries@.len() ==> is_ranked(#[trigger] lists_of(self.entries@)[i])
    }

    /// The places that the rows of a dataset describe: see [`ingest`].
    pub fn read_file(rows: &Vec<DatasetRow>) -> (r: Vec<Location>)
        ensures
            r.deep_view() == ingest(rows.deep_view()),
    {
        let ghost all = rows.deep_view();
        let ghost read = crate::geo::location::location_of_row();
        let mut out: Vec<Location> = Vec::new();
        let mut i: usize = 0;
        proof {
            assert(all.take(0) =~= Seq::<crate::geo::location::DatasetRowView>::empty());
            assert(out.deep_view() =~= Seq::<LocationView>::empty());
        }
        while i < rows.len()
            invariant
                i <= rows.len(),
                all == rows.deep_view(),
                read == crate::geo::location::location_of_row(),
                out.deep_view() == all.take(i as int).filter_map(read),
            decreases rows.len() - i,
        {
            let ghost kept = out.deep_view();
            proof {
                assert(all.take(i + 1).drop_last() =~= all.take(i as int));
                assert(all.take(i + 1).last() == rows@[i as int]@);
            }
            match parse_row(&rows[i]) {
                Some(place) => {
                    out.push(place);
                    assert(out.deep_view() =~= kept + seq![place@]);
                },
                None => {},
            }
            i += 1;
        }
        assert(all.take(rows.len() as int) =~= all);
        out
    }

    /// An index of the places that the rows of a dataset describe.
    pub fn new(rows: &Vec<DatasetRow>) -> (r: Self)
        ensures
            r.index() == loaded(Map::empty(), ingest(rows.deep_view())),
            r.total() == ingest(rows.deep_view()).len(),
            all_ranked(r.index()),
    {
        let locations = Self::read_file(rows);
        let mut geo = Geo { entries: Vec::new(), count: 0 };
        assert(geo.index() =~= Map::<Seq<char>, Seq<LocationView>>::empty());
        geo.load(locations);
        geo
    }

    /// Loads places into the index: see [`loaded`].
    pub fn load(&mut self, locations: Vec<Location>)
        requires
            old(self).total() + locations.len() <= usize::MAX,
        ensures
            final(self).index() == loaded(old(self).index(), locations.deep_view()),
            final(self).total() == old(self).total() + locations.len(),
            all_ranked(final(self).index()),
    {
        proof {
            use_type_invariant(&*self);
            lemma_loaded_ranked(self.index(), locations.deep_view());
        }
        let mut entries: Vec<Entry> = Vec::new();
        std::mem::swap(&mut entries, &mut self.entries);
        load_entries(&mut entries, &locations);
        self.entries = entries;
        self.count = self.count + locations.len();
    }

    /// Looks a query up: see [`lookup`].
    pub fn query(&self, q: &str) -> (r: Option<Vec<Location>>)
        ensures
            match r {
                Some(places) => lookup(self.index(), q@) == Some(places.deep_view()) && is_ranked(
                    places.deep_view(),
                ),
                None => lookup(self.index(), q@) is None,
            },
    {
        proof {
            use_type_invariant(self);
        }
        let chars = chars_of(q);
        let p: usize = find_char(&chars, '/');
        proof {
            lemma_first_position(chars@, '/');
        }
        let filtered: bool = count_char(&chars, '/') == 1 && chars.len() - p == 3;
        let term = if filtered {
            let head = copy_range(&chars, 0, p);
            assert(head@ =~= chars@.take(p as int));
            head
        } else {
            chars.clone()
        };
        let key = normalize_chars(&term);
        let ghost keys = keys_of(self.entries@);
        match find_key(&self.entries, &key) {
            None => None,
            Some(j) => {
                proof {
                    lemma_slot(keys, j as int);
                }
                if filtered {
                    let tail = copy_range(&chars, p + 1, chars.len());
                    assert(tail@ =~= chars@.skip(p + 1));
                    let country = uppercase_chars(&tail);
                    let kept = places_in_country(&self.entries[j].locations, &country);
                    proof {
                        lemma_filter_ranked(
                            lists_of(self.entries@)[j as int],
                            in_country(country@),
                        );
                    }
                    if kept.len() == 0 {
                        None
                    } else {
                        Some(kept)
                    }
                } else {
                    Some(clone_places(&self.entries[j].locations))
                }
            },
        }
    }

    /// How many places were loaded.
    pub fn count(&self) -> (r: usize)
        ensures
            r == self.total(),
    {
        self.count
    }
}

} // verus!
