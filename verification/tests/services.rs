use rdns_toys::dns::{OpCode, Query, RData, Record, RecordType, Request, ServiceFailure, SourceAddr};
use rdns_toys::geo::{Coordinate, DatasetRow, Location};
use rdns_toys::handlers::Service;
use rdns_toys::services::geo::GeoService;
use rdns_toys::services::ip::{format_source, IpService};
use rdns_toys::services::pi::PiService;
use rdns_toys::services::random::{is_number, RandomService};
use rdns_toys::services::uuid::UUidService;
use rdns_toys::services::AnyService;

fn asked_from(src: SourceAddr) -> Request {
    Request {
        queries: vec![Query { name: "q.".to_string(), query_type: RecordType::TXT }],
        op_code: OpCode::Query,
        src,
    }
}

fn asked() -> Request {
    asked_from(SourceAddr::V4(203, 0, 113, 9))
}

fn txt(name: &str, ttl: u32, text: &str) -> Record {
    Record { name: name.to_string(), ttl, data: RData::TXT(text.to_string()) }
}

fn failure(message: &str) -> ServiceFailure {
    ServiceFailure { message: message.to_string() }
}

fn is_uuid(text: &str) -> bool {
    let bytes = text.as_bytes();
    bytes.len() == 36
        && bytes.iter().enumerate().all(|(i, b)| match i {
            8 | 13 | 18 | 23 => *b == b'-',
            _ => b.is_ascii_digit() || (b'a'..=b'f').contains(b),
        })
        && bytes[14] == b'4'
        && matches!(bytes[19], b'8' | b'9' | b'a' | b'b')
}

#[test]
fn pi_is_served_in_three_forms() {
    let pi = PiService::new();
    assert_eq!(
        pi.query(&asked(), "pi.d.", RecordType::TXT, "ignored"),
        Ok(Some(vec![txt("pi.d.", 31536000, "3.141592653589793238462643383279502884197169")]))
    );
    assert_eq!(
        pi.query(&asked(), "pi.d.", RecordType::A, ""),
        Ok(Some(vec![Record {
            name: "pi.d.".to_string(),
            ttl: 31536000,
            data: RData::A(3, 141, 59, 27)
        }]))
    );
    assert_eq!(
        pi.query(&asked(), "pi.d.", RecordType::AAAA, ""),
        Ok(Some(vec![Record {
            name: "pi.d.".to_string(),
            ttl: 31536000,
            data: RData::AAAA(0x3141, 0x5926, 0x5358, 0x9793, 0x2384, 0x6264, 0x3383, 0x2795)
        }]))
    );
    assert_eq!(pi.query(&asked(), "pi.d.", RecordType::Other(15), ""), Ok(None));
    assert_eq!(
        pi.dump(),
        Ok(b"3.141592653589793238462643383279502884197169".to_vec())
    );
}

#[test]
fn ip_echoes_the_source_address() {
    let ip = IpService::new();
    let v4 = asked_from(SourceAddr::V4(203, 0, 113, 9));
    assert_eq!(
        ip.handle_ip_query(&v4, "ip.d.", RecordType::TXT),
        Some(txt("ip.d.", 60, "203.0.113.9"))
    );
    assert_eq!(
        ip.handle_ip_query(&v4, "ip.d.", RecordType::A),
        Some(Record { name: "ip.d.".to_string(), ttl: 60, data: RData::A(203, 0, 113, 9) })
    );
    assert_eq!(ip.handle_ip_query(&v4, "ip.d.", RecordType::AAAA), None);
    assert_eq!(ip.handle_ip_query(&v4, "ip.d.", RecordType::Other(2)), None);
    let v6 = asked_from(SourceAddr::V6("2001:db8::1".to_string()));
    assert_eq!(
        ip.handle_ip_query(&v6, "ip.d.", RecordType::TXT),
        Some(txt("ip.d.", 60, "2001:db8::1"))
    );
    assert_eq!(ip.handle_ip_query(&v6, "ip.d.", RecordType::A), None);
    assert_eq!(
        ip.query(&v4, "ip.d.", RecordType::TXT, "whatever"),
        Ok(Some(vec![txt("ip.d.", 60, "203.0.113.9")]))
    );
    assert_eq!(ip.query(&v6, "ip.d.", RecordType::A, ""), Ok(None));
    assert_eq!(
        ip.dump(),
        Ok(b"IP Service - Returns client IP address in TXT and A record formats".to_vec())
    );
}

#[test]
fn ipv4_text_is_dotted_decimal() {
    for octets in [[0u8, 0, 0, 0], [255, 255, 255, 255], [10, 0, 200, 1], [127, 0, 0, 1], [9, 99, 100, 101]] {
        let expected = format!("{}.{}.{}.{}", octets[0], octets[1], octets[2], octets[3]);
        assert_eq!(
            format_source(&SourceAddr::V4(octets[0], octets[1], octets[2], octets[3])),
            expected
        );
    }
    assert_eq!(format_source(&SourceAddr::V6("::1".to_string())), "::1");
}

#[test]
fn uuid_limit_is_at_least_one() {
    let service = UUidService::new(0);
    assert_eq!(service.generate_uuids("").unwrap().len(), 1);
    assert_eq!(service.generate_uuids("1").unwrap().len(), 1);
    assert_eq!(
        service.generate_uuids("2"),
        Err(failure("Number of UUIDs must be between 1 and 1. Got 2"))
    );
    assert_eq!(service.dump(), Ok(b"UUID Service - Max results: 1".to_vec()));
    assert_eq!(UUidService::new(10).dump(), Ok(b"UUID Service - Max results: 10".to_vec()));
}

#[test]
fn uuids_are_generated_up_to_the_limit() {
    let service = UUidService::new(10);
    for (query, count) in [("", 1usize), ("1", 1), ("5", 5), ("10", 10), ("+3", 3), ("007", 7)] {
        let uuids = service.generate_uuids(query).unwrap();
        assert_eq!(uuids.len(), count);
        assert!(uuids.iter().all(|u| is_uuid(u)));
    }
    assert_eq!(
        service.generate_uuids("0"),
        Err(failure("Number of UUIDs must be between 1 and 10. Got 0"))
    );
    assert_eq!(
        service.generate_uuids("11"),
        Err(failure("Number of UUIDs must be between 1 and 10. Got 11"))
    );
    assert_eq!(service.generate_uuids("five"), Err(failure("Invalid number format: 'five'")));
    assert_eq!(service.generate_uuids("-1"), Err(failure("Invalid number format: '-1'")));
    assert_eq!(service.generate_uuids("5 "), Err(failure("Invalid number format: '5 '")));
    assert_eq!(
        service.generate_uuids("99999999999999999999999"),
        Err(failure("Invalid number format: '99999999999999999999999'"))
    );
}

#[test]
fn uuids_are_random() {
    let service = UUidService::new(10);
    let mut uuids = service.generate_uuids("10").unwrap();
    uuids.extend(service.generate_uuids("10").unwrap());
    let parsed: Vec<uuid::Uuid> = uuids.iter().map(|u| uuid::Uuid::parse_str(u).unwrap()).collect();
    assert!(parsed.iter().all(|u| u.get_version_num() == 4));
    uuids.sort();
    uuids.dedup();
    assert_eq!(uuids.len(), 20);
}

#[test]
fn uuid_service_answers_text_questions_only() {
    let service = UUidService::new(10);
    let records = service.query(&asked(), "3.uuid.d.", RecordType::TXT, "3").unwrap().unwrap();
    assert_eq!(records.len(), 3);
    for record in &records {
        assert_eq!(record.name, "3.uuid.d.");
        assert_eq!(record.ttl, 60);
        assert!(matches!(&record.data, RData::TXT(text) if is_uuid(text)));
    }
    assert_eq!(service.query(&asked(), "3.uuid.d.", RecordType::A, "3"), Ok(None));
    assert_eq!(service.query(&asked(), "x.uuid.d.", RecordType::TXT, "x"), Ok(None));
    assert_eq!(service.query(&asked(), "11.uuid.d.", RecordType::TXT, "11"), Ok(None));
}

#[test]
fn random_numbers_stay_in_their_range() {
    let service = RandomService::new();
    for _ in 0..200 {
        let value = service.generate_random_number("1-100").unwrap();
        assert!((1..=100).contains(&value));
        let value = service.generate_random_number("10-12").unwrap();
        assert!((10..=12).contains(&value));
    }
    assert_eq!(service.generate_random_number("7-7"), Ok(7));
    assert_eq!(service.generate_random_number("0-0"), Ok(0));
    assert_eq!(service.generate_random_number("2147483647-2147483647"), Ok(i32::MAX));
    assert_eq!(service.generate_random_number("007-7"), Ok(7));
    let seen: std::collections::BTreeSet<i32> =
        (0..400).map(|_| service.generate_random_number("0-3").unwrap()).collect();
    assert_eq!(seen.into_iter().collect::<Vec<i32>>(), vec![0, 1, 2, 3]);
}

#[test]
fn random_ranges_are_checked() {
    let service = RandomService::new();
    let format = Err(failure("Invalid random query format"));
    for query in ["", "-", "5", "5-", "-5", "1-2-3", "a-b", "1 - 2", "+1-2", "1-+2", "1--2", "1-2\n", "\u{661}-\u{662}"] {
        assert_eq!(service.generate_random_number(query), format);
    }
    assert_eq!(
        service.generate_random_number("2147483648-5"),
        Err(failure("Invalid minimum value 2147483648"))
    );
    assert_eq!(
        service.generate_random_number("5-99999999999999999999"),
        Err(failure("Invalid maximum value 99999999999999999999"))
    );
    assert_eq!(
        service.generate_random_number("9-3"),
        Err(failure("Minimum value must be less than maximum value"))
    );
}

#[test]
fn random_range_form_agrees_with_the_pattern() {
    let pattern = regex::Regex::new(r"^([0-9]+)-([0-9]+)$").unwrap();
    let service = RandomService::new();
    for query in ["1-2", "", "-", "12-", "-12", "1-2-3", "0-0", "a1-2", "1-2b", "1-2\n", " 1-2", "3-4 5"] {
        let formed = service.generate_random_number(query) != Err(failure("Invalid random query format"));
        assert_eq!(formed, pattern.is_match(query));
    }
    let digits = |s: &str| is_number(&s.chars().collect());
    assert!(digits("0123456789"));
    assert!(!digits(""));
    assert!(!digits("12a"));
}

#[test]
fn random_service_answers_text_questions_only() {
    let service = RandomService::new();
    assert_eq!(
        service.query(&asked(), "5-5.random.d.", RecordType::TXT, "5-5"),
        Ok(Some(vec![txt("5-5.random.d.", 1, "5")]))
    );
    assert_eq!(service.query(&asked(), "5-5.random.d.", RecordType::A, "5-5"), Ok(None));
    assert_eq!(service.query(&asked(), "x.random.d.", RecordType::A, "x"), Ok(None));
    assert_eq!(
        service.query(&asked(), "x.random.d.", RecordType::TXT, "x"),
        Err(failure("Invalid random query format"))
    );
    assert_eq!(
        service.dump(),
        Ok(b"Random service - Returns a random number between a given range".to_vec())
    );
}

fn coordinate(value: f64) -> Coordinate {
    Coordinate { plain: format!("{}", value), fixed: format!("{:.4}", value) }
}

fn mumbai() -> Location {
    Location {
        id: "123".to_string(),
        name: "Mumbai".to_string(),
        latitude: coordinate(19.0760),
        longitude: coordinate(72.8777),
        timezone_name: "Asia/Kolkata".to_string(),
        population: 20411000,
        country: "IN".to_string(),
    }
}

fn mumbai_rows() -> Vec<DatasetRow> {
    let mut fields: Vec<String> = vec![String::new(); 19];
    fields[0] = "123".to_string();
    fields[2] = "Mumbai".to_string();
    fields[4] = "19.0760".to_string();
    fields[5] = "72.8777".to_string();
    fields[8] = "IN".to_string();
    fields[14] = "20411000".to_string();
    fields[17] = "Asia/Kolkata".to_string();
    let mut small = fields.clone();
    small[0] = "124".to_string();
    small[4] = "-0.00005".to_string();
    small[5] = "100".to_string();
    small[8] = "XX".to_string();
    small[14] = "7".to_string();
    vec![
        DatasetRow {
            fields: small,
            latitude: Some(coordinate(-0.00005)),
            longitude: Some(coordinate(100.0)),
        },
        DatasetRow {
            fields,
            latitude: Some(coordinate(19.0760)),
            longitude: Some(coordinate(72.8777)),
        },
    ]
}

#[test]
fn places_are_described_in_two_forms() {
    let service = GeoService::new(&vec![]);
    assert_eq!(
        service.format_location_txt(&mumbai()),
        "Mumbai (IN) - Pop: 20411000, TZ: Asia/Kolkata, Lat: 19.0760, Lon: 72.8777"
    );
    assert_eq!(service.format_location_a(&mumbai()), "Mumbai,IN,19.076,72.8777");
}

#[test]
fn geo_service_answers_with_ranked_places() {
    let service = GeoService::new(&mumbai_rows());
    assert_eq!(
        service.handle_txt_query("mumbai"),
        Some(vec![
            txt(".", 60, "Mumbai (IN) - Pop: 20411000, TZ: Asia/Kolkata, Lat: 19.0760, Lon: 72.8777"),
            txt(".", 60, "Mumbai (XX) - Pop: 7, TZ: Asia/Kolkata, Lat: -0.0001, Lon: 100.0000"),
        ])
    );
    assert_eq!(
        service.handle_a_query("mumbai/xx"),
        Some(vec![txt(".", 60, "Mumbai,XX,-0.00005,100")])
    );
    assert_eq!(service.handle_txt_query("delhi"), None);
    assert_eq!(service.handle_a_query("mumbai/us"), None);
    assert_eq!(
        service.query(&asked(), "q.", RecordType::A, "Mumbai/IN"),
        Ok(Some(vec![txt(".", 60, "Mumbai,IN,19.076,72.8777")]))
    );
    assert_eq!(service.query(&asked(), "q.", RecordType::TXT, "kolkata").unwrap().unwrap().len(), 1);
    assert_eq!(service.query(&asked(), "q.", RecordType::AAAA, "mumbai"), Ok(None));
    assert_eq!(service.query(&asked(), "q.", RecordType::TXT, "delhi"), Ok(None));
    assert_eq!(service.dump(), Ok(b"Geo service loaded with 2 locations".to_vec()));
}

#[test]
fn any_service_hands_on_to_the_service_inside() {
    let services = vec![
        AnyService::Ip(IpService::new()),
        AnyService::Uuid(UUidService::new(3)),
        AnyService::Pi(PiService::new()),
        AnyService::Geo(GeoService::new(&mumbai_rows())),
        AnyService::Random(RandomService::new()),
    ];
    let dumps: Vec<Vec<u8>> = services.iter().map(|s| s.dump().unwrap()).collect();
    assert_eq!(dumps[0], IpService::new().dump().unwrap());
    assert_eq!(dumps[1], b"UUID Service - Max results: 3".to_vec());
    assert_eq!(dumps[2], PiService::new().dump().unwrap());
    assert_eq!(dumps[3], b"Geo service loaded with 2 locations".to_vec());
    assert_eq!(dumps[4], RandomService::new().dump().unwrap());
    assert_eq!(
        services[0].query(&asked(), "n.", RecordType::TXT, ""),
        Ok(Some(vec![txt("n.", 60, "203.0.113.9")]))
    );
    assert_eq!(services[1].query(&asked(), "n.", RecordType::TXT, "2").unwrap().unwrap().len(), 2);
    assert_eq!(
        services[2].query(&asked(), "n.", RecordType::TXT, ""),
        PiService::new().query(&asked(), "n.", RecordType::TXT, "")
    );
    assert_eq!(
        services[3].query(&asked(), "n.", RecordType::A, "mumbai/in"),
        Ok(Some(vec![txt(".", 60, "Mumbai,IN,19.076,72.8777")]))
    );
    assert_eq!(
        services[4].query(&asked(), "n.", RecordType::TXT, "4-4"),
        Ok(Some(vec![txt("n.", 1, "4")]))
    );
}
