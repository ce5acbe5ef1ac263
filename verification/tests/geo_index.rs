use rdns_toys::geo::index::{alias_of, normalize};
use rdns_toys::geo::location::{clean_name, parse_row};
use rdns_toys::geo::rank::rank_locations;
use rdns_toys::geo::{Coordinate, DatasetRow, Geo, Location};

fn coordinate(value: f64) -> Coordinate {
    Coordinate { plain: format!("{}", value), fixed: format!("{:.4}", value) }
}

fn row(id: &str, name: &str, lat: &str, lon: &str, country: &str, pop: &str, tz: &str) -> DatasetRow {
    let mut fields: Vec<String> = vec!["-".to_string(); 19];
    fields[0] = id.to_string();
    fields[2] = name.to_string();
    fields[4] = lat.to_string();
    fields[5] = lon.to_string();
    fields[8] = country.to_string();
    fields[14] = pop.to_string();
    fields[17] = tz.to_string();
    DatasetRow {
        fields,
        latitude: lat.parse::<f64>().ok().map(coordinate),
        longitude: lon.parse::<f64>().ok().map(coordinate),
    }
}

fn place(id: &str, name: &str, country: &str, population: u64, tz: &str) -> Location {
    Location {
        id: id.to_string(),
        name: name.to_string(),
        latitude: coordinate(1.5),
        longitude: coordinate(-2.25),
        timezone_name: tz.to_string(),
        population,
        country: country.to_string(),
    }
}

fn two_paris() -> Vec<DatasetRow> {
    vec![
        row("1", "Paris (France)", "48.85341", "2.3488", "FR", "2000000", "Europe/Paris"),
        row("2", "Paris", "33.66094", "-95.55551", "US", "25000", "America/Chicago"),
    ]
}

fn ids(found: Option<Vec<Location>>) -> Option<Vec<String>> {
    found.map(|places| places.into_iter().map(|p| p.id).collect())
}

fn some(ids: &[&str]) -> Option<Vec<String>> {
    Some(ids.iter().map(|s| s.to_string()).collect())
}

#[test]
fn normalization_is_idempotent() {
    let samples = [
        "",
        "Paris",
        "New York (NY)",
        "S\u{e3}o Paulo",
        "a/b/c",
        "\u{130}stanbul",
        "\u{212a}elvin",
        "12345",
        "MiXeD-CaSe_/x",
        "\u{4e1c}\u{4eac}",
        "\u{3a3}\u{3a3}",
    ];
    for sample in samples {
        let once = normalize(sample);
        assert_eq!(normalize(&once), once);
        assert!(once.chars().all(|c| c.is_ascii_lowercase() || c == '/'));
    }
}

#[test]
fn normalization_lowers_then_filters() {
    assert_eq!(normalize("New York"), "newyork");
    assert_eq!(normalize("New_York"), "newyork");
    assert_eq!(normalize("Paris (France)"), "parisfrance");
    assert_eq!(normalize("America/New_York"), "america/newyork");
    assert_eq!(normalize("S\u{e3}o Paulo"), "sopaulo");
    assert_eq!(normalize("42"), "");
    assert_eq!(normalize(""), "");
    assert_eq!(normalize("\u{212a}\u{f6}ln"), "kln");
    assert_eq!(normalize("\u{130}zmir"), "izmir");
}

#[test]
fn normalization_agrees_with_the_pattern() {
    let pattern = regex::Regex::new("[^a-z/]+").unwrap();
    let samples = ["Paris", "ST. LOUIS", "a/B/c", "\u{130}\u{212a}x", "X\u{4e1c}y", " - ", ""];
    for sample in samples {
        let expected = pattern.replace_all(&sample.to_lowercase(), "").to_string();
        assert_eq!(normalize(sample), expected);
    }
}

#[test]
fn two_paris_are_ranked_by_population() {
    let geo = Geo::new(&two_paris());
    assert_eq!(geo.count(), 2);
    let found = geo.query("paris").unwrap();
    assert_eq!(found.len(), 2);
    assert_eq!(found[0].id, "1");
    assert_eq!(found[0].name, "Paris");
    assert_eq!(found[0].country, "FR");
    assert_eq!(found[0].population, 2000000);
    assert_eq!(found[0].timezone_name, "Europe/Paris");
    assert_eq!(found[0].latitude, coordinate(48.85341));
    assert_eq!(found[0].longitude.fixed, "2.3488");
    assert_eq!(found[1].id, "2");
    assert_eq!(ids(geo.query("paris/us")), some(&["2"]));
    assert_eq!(ids(geo.query("Paris/FR")), some(&["1"]));
    assert_eq!(ids(geo.query("P-a-r-i-s")), some(&["1", "2"]));
}

#[test]
fn no_matching_country_is_no_result() {
    let geo = Geo::new(&two_paris());
    assert_eq!(geo.query("paris/gb"), None);
    assert_eq!(geo.query("london"), None);
    assert_eq!(geo.query(""), None);
}

#[test]
fn country_filter_is_sound() {
    let mut rows = two_paris();
    rows.push(row("3", "Paris", "1", "2", "US", "900", "America/Denver"));
    rows.push(row("4", "Paris", "1", "2", "CA", "12000", "America/Toronto"));
    rows.push(row("5", "Paramaribo", "5.8", "-55.1", "SR", "223757", "America/Paramaribo"));
    let geo = Geo::new(&rows);
    for (query, country) in [("paris/us", "US"), ("paris/Us", "US"), ("paris/fr", "FR"), ("paris/ca", "CA")] {
        let found = geo.query(query).unwrap();
        assert!(!found.is_empty());
        assert!(found.iter().all(|p| p.country == country));
    }
    assert_eq!(ids(geo.query("paris/us")), some(&["2", "3"]));
    assert_eq!(ids(geo.query("paramaribo/\u{17f}r")), some(&["5"]));
    assert_eq!(geo.query("paris/de"), None);
}

#[test]
fn a_filter_needs_one_slash_and_two_characters() {
    let rows = vec![
        row("1", "A/B", "1", "2", "FR", "10", "Europe/Paris"),
        row("2", "A", "1", "2", "BX", "20", "Europe/Paris"),
        row("3", "A/B/US", "1", "2", "DE", "30", "Europe/Berlin"),
        row("4", "A/USA", "1", "2", "US", "40", "Europe/Berlin"),
    ];
    let geo = Geo::new(&rows);
    assert_eq!(ids(geo.query("a/b")), some(&["1"]));
    assert_eq!(ids(geo.query("a/bx")), some(&["2"]));
    assert_eq!(ids(geo.query("a/b/us")), some(&["3"]));
    assert_eq!(ids(geo.query("a/usa")), some(&["4"]));
    assert_eq!(geo.query("a//b"), None);
    assert_eq!(ids(geo.query("a/\u{e9}x")), None);
}

#[test]
fn every_list_is_non_increasing_in_population() {
    let rows = vec![
        row("1", "Springfield", "1", "2", "US", "30", "America/Chicago"),
        row("2", "Springfield", "1", "2", "US", "500", "America/Chicago"),
        row("3", "Springfield", "1", "2", "US", "30", "America/New_York"),
        row("4", "Springfield", "1", "2", "US", "0", "America/Chicago"),
        row("5", "Springfield", "1", "2", "US", "500", "America/Denver"),
        row("6", "Chicago", "1", "2", "US", "2700000", "America/Chicago"),
    ];
    let geo = Geo::new(&rows);
    assert_eq!(ids(geo.query("springfield")), some(&["2", "5", "1", "3", "4"]));
    for key in ["springfield", "chicago", "newyork", "denver"] {
        let found = geo.query(key).unwrap();
        assert!(found.windows(2).all(|w| w[0].population >= w[1].population));
    }
}

#[test]
fn ranking_is_stable() {
    let ranked = rank_locations(vec![
        place("a", "x", "US", 5, "UTC"),
        place("b", "x", "US", 9, "UTC"),
        place("c", "x", "US", 5, "UTC"),
        place("d", "x", "US", 9, "UTC"),
        place("e", "x", "US", 1, "UTC"),
        place("f", "x", "US", u64::MAX, "UTC"),
    ]);
    let order: Vec<&str> = ranked.iter().map(|p| p.id.as_str()).collect();
    assert_eq!(order, vec!["f", "b", "d", "a", "c", "e"]);
    assert!(rank_locations(vec![]).is_empty());
}

#[test]
fn alias_is_filed_only_under_a_free_key() {
    let rows = vec![
        row("1", "Big Apple", "1", "2", "US", "8000000", "America/New_York"),
        row("2", "Yonkers", "1", "2", "US", "200000", "America/New_York"),
        row("3", "Chicago", "1", "2", "US", "2700000", "America/Chicago"),
        row("4", "Evanston", "1", "2", "US", "75000", "America/Chicago"),
        row("5", "Buenos Aires", "1", "2", "AR", "13000000", "America/Argentina/Buenos_Aires"),
        row("6", "Greenwich", "1", "2", "GB", "30000", "UTC"),
    ];
    let geo = Geo::new(&rows);
    assert_eq!(geo.count(), 6);
    assert_eq!(ids(geo.query("newyork")), some(&["1"]));
    assert_eq!(ids(geo.query("new_york")), some(&["1"]));
    assert_eq!(ids(geo.query("chicago")), some(&["3"]));
    assert_eq!(ids(geo.query("argentina")), some(&["5"]));
    assert_eq!(ids(geo.query("buenos_aires")), some(&["5"]));
    assert_eq!(ids(geo.query("buenosaires")), some(&["5"]));
    assert_eq!(geo.query("utc"), None);
}

#[test]
fn alias_segment_is_the_second_part() {
    let text = |r: Option<Vec<char>>| r.map(|v| v.into_iter().collect::<String>());
    assert_eq!(text(alias_of("America/New_York")), Some("New_York".to_string()));
    assert_eq!(text(alias_of("America/Argentina/Buenos_Aires")), Some("Argentina".to_string()));
    assert_eq!(text(alias_of("UTC")), None);
    assert_eq!(text(alias_of("Etc/")), Some(String::new()));
    assert_eq!(text(alias_of("/x")), Some("x".to_string()));
    assert_eq!(text(alias_of("")), None);
}

#[test]
fn a_row_with_eighteen_fields_is_dropped() {
    let mut rows = two_paris();
    let mut short = row("77", "Lyon", "45.7", "4.8", "FR", "500000", "Europe/Paris");
    short.fields.pop();
    assert_eq!(short.fields.len(), 18);
    rows.insert(1, short);
    let with_short = Geo::new(&rows);
    let without = Geo::new(&two_paris());
    assert_eq!(with_short.count(), 2);
    for query in ["paris", "lyon", "chicago", "paris/fr", "paris/us"] {
        assert_eq!(with_short.query(query), without.query(query));
    }
    assert_eq!(with_short.query("lyon"), None);
    let read = Geo::read_file(&rows);
    assert!(read.iter().all(|p| p.id != "77"));
    assert_eq!(read.len(), 2);
}

#[test]
fn rows_that_do_not_parse_are_dropped() {
    let good = row("1", "Lyon", "45.7", "4.8", "FR", "500000", "Europe/Paris");
    assert!(parse_row(&good).is_some());
    let mut long = row("1", "Lyon", "45.7", "4.8", "FR", "500000", "Europe/Paris");
    long.fields.push("extra".to_string());
    assert_eq!(parse_row(&long), None);
    assert_eq!(parse_row(&row("1", "Lyon", "north", "4.8", "FR", "500000", "Europe/Paris")), None);
    assert_eq!(parse_row(&row("1", "Lyon", "45.7", "", "FR", "500000", "Europe/Paris")), None);
    assert_eq!(parse_row(&row("1", "Lyon", "45.7", "4.8", "FR", "-5", "Europe/Paris")), None);
    assert_eq!(parse_row(&row("1", "Lyon", "45.7", "4.8", "FR", "", "Europe/Paris")), None);
    assert_eq!(parse_row(&row("1", "Lyon", "45.7", "4.8", "FR", "1.5", "Europe/Paris")), None);
    assert_eq!(
        parse_row(&row("1", "Lyon", "45.7", "4.8", "FR", "18446744073709551616", "Europe/Paris")),
        None
    );
    assert_eq!(parse_row(&row("1", "Lyon", "45.7", "4.8", "FR", "500000", "Europe/Lyon")), None);
    assert_eq!(parse_row(&row("1", "Lyon", "45.7", "4.8", "FR", "500000", "europe/paris")), None);
    assert_eq!(parse_row(&row("1", "Lyon", "45.7", "4.8", "FR", "500000", "")), None);
    assert_eq!(Geo::read_file(&vec![]).len(), 0);
}

#[test]
fn a_row_is_read_field_by_field() {
    let parsed =
        parse_row(&row("2988507", "  Paris (France) ", "48.85341", "2.3488", "FR", "+2138551", "Europe/Paris"))
            .unwrap();
    assert_eq!(
        parsed,
        Location {
            id: "2988507".to_string(),
            name: "Paris".to_string(),
            latitude: coordinate(48.85341),
            longitude: coordinate(2.3488),
            timezone_name: "Europe/Paris".to_string(),
            population: 2138551,
            country: "FR".to_string(),
        }
    );
    let largest =
        parse_row(&row("1", "X", "1", "2", "FR", "18446744073709551615", "UTC")).unwrap();
    assert_eq!(largest.population, u64::MAX);
}

#[test]
fn display_name_loses_its_qualifier() {
    assert_eq!(clean_name("New York (NY)"), "New York");
    assert_eq!(clean_name("  Paris (France) "), "Paris");
    assert_eq!(clean_name("(all)"), "");
    assert_eq!(clean_name("A (b) (c)"), "A");
    assert_eq!(clean_name("Plain"), "Plain");
    assert_eq!(clean_name("\u{a0}Tab\tbed\u{2003}"), "Tab\tbed");
    assert_eq!(clean_name(""), "");
    for sample in ["New York (NY)", " x ( y", "\u{3000}z\u{85}", "()", " ", "a\u{200b} (b)"] {
        let expected = sample.trim().split('(').next().unwrap().trim().to_string();
        assert_eq!(clean_name(sample), expected);
    }
}

#[test]
fn loading_twice_adds_to_the_index() {
    let mut geo = Geo::new(&two_paris());
    geo.load(vec![
        place("9", "Paris", "TX", 3000000, "America/Chicago"),
        place("10", "Lille", "FR", 230000, "Europe/Paris"),
    ]);
    assert_eq!(geo.count(), 4);
    assert_eq!(ids(geo.query("paris")), some(&["9", "1", "2"]));
    assert_eq!(ids(geo.query("lille")), some(&["10"]));
    assert_eq!(ids(geo.query("chicago")), some(&["2"]));
    geo.load(vec![]);
    assert_eq!(geo.count(), 4);
}

#[test]
fn an_empty_index_finds_nothing() {
    let geo = Geo::new(&vec![]);
    assert_eq!(geo.count(), 0);
    assert_eq!(geo.query("paris"), None);
    assert_eq!(geo.query("/fr"), None);
}
