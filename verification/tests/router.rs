use rdns_toys::dns::{Answer, OpCode, Query, RData, Record, RecordType, Request, ServiceFailure, SourceAddr};
use rdns_toys::geo::{Coordinate, DatasetRow};
use rdns_toys::handlers::{DnsHandlers, QueryError, Service};
use rdns_toys::routing::{Registered, Route};
use rdns_toys::services::{create_help_records, register_services, AnyService};

/// A service that answers every question with its cleaned argument, and
/// fails on the argument `boom`.
struct Echo;

impl Service for Echo {
    fn query(
        &self,
        _request: &Request,
        _query_name: &str,
        query_type: RecordType,
        cleaned_query: &str,
    ) -> Answer {
        if cleaned_query == "boom" {
            return Err(ServiceFailure { message: "exploded".to_string() });
        }
        if cleaned_query == "none" {
            return Ok(None);
        }
        let tag = match query_type {
            RecordType::TXT => "txt",
            RecordType::A => "a",
            _ => "other",
        };
        Ok(Some(vec![
            Record { name: "inner.".to_string(), ttl: 7, data: RData::TXT(cleaned_query.to_string()) },
            Record { name: "inner.".to_string(), ttl: 8, data: RData::TXT(tag.to_string()) },
        ]))
    }

    fn dump(&self) -> Result<Vec<u8>, ServiceFailure> {
        Ok(b"echo".to_vec())
    }
}

fn question(name: &str, query_type: RecordType) -> Query {
    Query { name: name.to_string(), query_type }
}

fn request(queries: Vec<Query>) -> Request {
    Request { queries, op_code: OpCode::Query, src: SourceAddr::V4(192, 0, 2, 7) }
}

fn echo_router() -> DnsHandlers<Echo> {
    let mut handlers = DnsHandlers::new("example.com".to_string());
    handlers.register("echo".to_string(), Echo);
    handlers.register("uuid".to_string(), Echo);
    handlers
}

fn txt(name: &str, ttl: u32, text: &str) -> Record {
    Record { name: name.to_string(), ttl, data: RData::TXT(text.to_string()) }
}

fn standard_router() -> DnsHandlers<AnyService> {
    let mut handlers = DnsHandlers::new("example.com".to_string());
    let rows: Vec<DatasetRow> = vec![paris_row()];
    register_services(&mut handlers, &rows);
    handlers
}

fn paris_row() -> DatasetRow {
    let mut fields: Vec<String> = vec![String::new(); 19];
    fields[0] = "1".to_string();
    fields[1] = "Paris".to_string();
    fields[2] = "Paris (France)".to_string();
    fields[4] = "48.85341".to_string();
    fields[5] = "2.3488".to_string();
    fields[8] = "FR".to_string();
    fields[14] = "2000000".to_string();
    fields[17] = "Europe/Paris".to_string();
    DatasetRow {
        fields,
        latitude: Some(Coordinate { plain: format!("{}", 48.85341f64), fixed: format!("{:.4}", 48.85341f64) }),
        longitude: Some(Coordinate { plain: format!("{}", 2.3488f64), fixed: format!("{:.4}", 2.3488f64) }),
    }
}

#[test]
fn empty_request_is_an_error() {
    let handlers = echo_router();
    assert_eq!(handlers.process_dns_query(&request(vec![])), Err(QueryError::EmptyRequest));
}

#[test]
fn cleaned_argument_reaches_the_service() {
    let handlers = echo_router();
    let name = "5.uuid.example.com.";
    let response = handlers.process_dns_query(&request(vec![question(name, RecordType::TXT)]));
    assert_eq!(response, Ok(vec![txt(name, 7, "5"), txt(name, 8, "txt")]));
}

#[test]
fn uuid_service_receives_five() {
    let handlers = standard_router();
    let name = "5.uuid.example.com.";
    let records = handlers
        .process_dns_query(&request(vec![question(name, RecordType::TXT)]))
        .unwrap();
    assert_eq!(records.len(), 5);
    for record in &records {
        assert_eq!(record.name, name);
        assert_eq!(record.ttl, 60);
        match &record.data {
            RData::TXT(text) => assert_eq!(text.len(), 36),
            _ => panic!("a text record was expected"),
        }
    }
}

#[test]
fn bare_suffix_hands_over_an_empty_argument() {
    let handlers = echo_router();
    let name = "echo.example.com.";
    let response = handlers.process_dns_query(&request(vec![question(name, RecordType::A)]));
    assert_eq!(response, Ok(vec![txt(name, 7, ""), txt(name, 8, "a")]));
}

#[test]
fn bare_uuid_query_gets_one_identifier() {
    let handlers = standard_router();
    let records = handlers
        .process_dns_query(&request(vec![question("uuid.example.com.", RecordType::TXT)]))
        .unwrap();
    assert_eq!(records.len(), 1);
}

#[test]
fn seven_questions_are_too_many() {
    let handlers = echo_router();
    let queries: Vec<Query> =
        (0..7).map(|i| question(&format!("q{}.echo.example.com.", i), RecordType::TXT)).collect();
    assert_eq!(handlers.process_dns_query(&request(queries)), Err(QueryError::TooManyQuestions));
}

#[test]
fn six_questions_are_too_many_and_five_are_not() {
    let handlers = echo_router();
    let six: Vec<Query> =
        (0..6).map(|i| question(&format!("q{}.echo.example.com.", i), RecordType::TXT)).collect();
    assert_eq!(handlers.process_dns_query(&request(six)), Err(QueryError::TooManyQuestions));
    let five: Vec<Query> =
        (0..5).map(|i| question(&format!("q{}.echo.example.com.", i), RecordType::TXT)).collect();
    let records = handlers.process_dns_query(&request(five)).unwrap();
    assert_eq!(records.len(), 10);
    assert_eq!(records[0], txt("q0.echo.example.com.", 7, "q0"));
    assert_eq!(records[9], txt("q4.echo.example.com.", 8, "txt"));
}

#[test]
fn many_questions_under_help_are_answered_with_help() {
    let handlers = echo_router();
    let queries: Vec<Query> =
        (0..6).map(|_| question("help.example.com.", RecordType::TXT)).collect();
    let records = handlers.process_dns_query(&request(queries)).unwrap();
    assert_eq!(records.len(), 8);
}

#[test]
fn other_operations_are_refused() {
    let handlers = echo_router();
    let mut update = request(vec![question("x.echo.example.com.", RecordType::TXT)]);
    update.op_code = OpCode::Update;
    assert_eq!(handlers.process_dns_query(&update), Err(QueryError::NotAQuery));
    let mut many = request(
        (0..9).map(|_| question("x.echo.example.com.", RecordType::TXT)).collect(),
    );
    many.op_code = OpCode::Status;
    assert_eq!(handlers.process_dns_query(&many), Err(QueryError::NotAQuery));
}

#[test]
fn help_is_answered_under_the_queried_name() {
    let handlers = echo_router();
    let name = "help.example.com.";
    let records = handlers
        .process_dns_query(&request(vec![question(name, RecordType::TXT)]))
        .unwrap();
    let expected: Vec<Record> = vec![
        txt(name, 60, "Welcome! Available DNS services:"),
        txt(name, 60, "dig TXT ip.example.com"),
        txt(name, 60, "dig A ip.example.com"),
        txt(name, 60, "dig A pi.example.com"),
        txt(name, 60, "dig TXT <location>.geo.example.com"),
        txt(name, 60, "dig TXT <number>.uuid.example.com"),
        txt(name, 60, "dig TXT <min>-<max>.random.example.com"),
        txt(name, 60, "dig TXT help.example.com"),
    ];
    assert_eq!(records, expected);
    let deeper = "what.help.example.com.";
    let records = handlers
        .process_dns_query(&request(vec![question(deeper, RecordType::A)]))
        .unwrap();
    assert_eq!(records.len(), 8);
    assert!(records.iter().all(|r| r.name == deeper));
}

#[test]
fn help_records_stand_under_help() {
    let records = create_help_records("localhost");
    assert_eq!(records.len(), 8);
    assert_eq!(records[0], txt("help.", 60, "Welcome! Available DNS services:"));
    assert_eq!(records[6], txt("help.", 60, "dig TXT <min>-<max>.random.localhost"));
    let handlers: DnsHandlers<Echo> = DnsHandlers::new("localhost".to_string());
    assert_eq!(handlers.help_records, records);
    assert_eq!(handlers.domain, "localhost");
    assert!(handlers.services.is_empty());
}

#[test]
fn unknown_name_is_sent_to_help() {
    let handlers = echo_router();
    let name = "bogus.example.com.";
    let response = handlers.process_dns_query(&request(vec![question(name, RecordType::TXT)]));
    assert_eq!(
        response,
        Ok(vec![txt(name, 1, "error: unknown query, try: dig help @example.com")])
    );
    assert_eq!(
        handlers.handle_default_query("x."),
        txt("x.", 1, "error: unknown query, try: dig help @example.com")
    );
}

#[test]
fn error_response_has_short_ttl() {
    assert_eq!(
        DnsHandlers::<Echo>::create_error_response("a.b.", "nope"),
        txt("a.b.", 1, "error: nope")
    );
}

#[test]
fn create_response_wraps_each_answer() {
    let records =
        DnsHandlers::<Echo>::create_response(vec!["Hello, world!".to_string(), "two".to_string()]);
    assert_eq!(records, vec![txt(".", 60, "Hello, world!"), txt(".", 60, "two")]);
    assert!(DnsHandlers::<Echo>::create_response(vec![]).is_empty());
}

#[test]
fn questions_of_other_types_are_skipped() {
    let handlers = echo_router();
    let response = handlers.process_dns_query(&request(vec![
        question("a.echo.example.com.", RecordType::AAAA),
        question("b.echo.example.com.", RecordType::Other(15)),
        question("c.echo.example.com.", RecordType::A),
    ]));
    assert_eq!(
        response,
        Ok(vec![txt("c.echo.example.com.", 7, "c"), txt("c.echo.example.com.", 8, "a")])
    );
}

#[test]
fn no_answer_adds_nothing_and_the_batch_goes_on() {
    let handlers = echo_router();
    let response = handlers.process_dns_query(&request(vec![
        question("none.echo.example.com.", RecordType::TXT),
        question("d.echo.example.com.", RecordType::TXT),
    ]));
    assert_eq!(
        response,
        Ok(vec![txt("d.echo.example.com.", 7, "d"), txt("d.echo.example.com.", 8, "txt")])
    );
}

#[test]
fn a_failure_ends_the_batch() {
    let handlers = echo_router();
    let response = handlers.process_dns_query(&request(vec![
        question("a.echo.example.com.", RecordType::TXT),
        question("boom.echo.example.com.", RecordType::TXT),
        question("c.echo.example.com.", RecordType::TXT),
    ]));
    assert_eq!(
        response,
        Err(QueryError::ServiceFailure(ServiceFailure { message: "exploded".to_string() }))
    );
}

#[test]
fn a_failure_behind_a_skipped_type_is_not_seen() {
    let handlers = echo_router();
    let response = handlers.process_dns_query(&request(vec![
        question("boom.echo.example.com.", RecordType::AAAA),
        question("c.echo.example.com.", RecordType::TXT),
    ]));
    assert_eq!(
        response,
        Ok(vec![txt("c.echo.example.com.", 7, "c"), txt("c.echo.example.com.", 8, "txt")])
    );
}

#[test]
fn later_questions_go_to_the_service_of_the_first() {
    let handlers = echo_router();
    let response = handlers.process_dns_query(&request(vec![
        question("a.echo.example.com.", RecordType::TXT),
        question("Other.Name.", RecordType::TXT),
    ]));
    assert_eq!(
        response,
        Ok(vec![
            txt("a.echo.example.com.", 7, "a"),
            txt("a.echo.example.com.", 8, "txt"),
            txt("Other.Name.", 7, "Other.Name"),
            txt("Other.Name.", 8, "txt"),
        ])
    );
}

#[test]
fn routing_is_the_same_every_time() {
    let handlers = echo_router();
    for _ in 0..50 {
        assert_eq!(handlers.route("5.uuid.example.com."), Route::Service(1));
        assert_eq!(handlers.route("x.echo.example.com."), Route::Service(0));
        assert_eq!(handlers.route("echo.example.com."), Route::Service(0));
        assert_eq!(handlers.route("help.example.com."), Route::Help);
        assert_eq!(handlers.route("bogus.example.com."), Route::Unknown);
        assert_eq!(handlers.route("uuid.example.org."), Route::Unknown);
        assert_eq!(handlers.route("uuid.example.com"), Route::Unknown);
    }
    let again = echo_router();
    assert_eq!(again.route("5.uuid.example.com."), handlers.route("5.uuid.example.com."));
}

#[test]
fn help_comes_before_a_service_named_help() {
    let mut handlers = echo_router();
    handlers.register("help".to_string(), Echo);
    assert_eq!(handlers.route("x.help.example.com."), Route::Help);
}

#[test]
fn first_registered_suffix_wins_where_two_overlap() {
    let mut handlers: DnsHandlers<Echo> = DnsHandlers::new("example.com".to_string());
    handlers.register("id".to_string(), Echo);
    handlers.register("uuid".to_string(), Echo);
    assert_eq!(handlers.route("3.uuid.example.com."), Route::Service(0));
    let mut other: DnsHandlers<Echo> = DnsHandlers::new("example.com".to_string());
    other.register("uuid".to_string(), Echo);
    other.register("id".to_string(), Echo);
    assert_eq!(other.route("3.uuid.example.com."), Route::Service(0));
    assert_eq!(other.route("3.id.example.com."), Route::Service(1));
}

#[test]
fn registering_again_replaces_the_service() {
    let mut handlers = echo_router();
    assert_eq!(handlers.services.len(), 2);
    handlers.register("echo".to_string(), Echo);
    assert_eq!(handlers.services.len(), 2);
    assert_eq!(handlers.services[0].suffix, "echo");
    assert_eq!(handlers.services[1].suffix, "uuid");
    handlers.register("third".to_string(), Echo);
    assert_eq!(handlers.services.len(), 3);
    assert_eq!(handlers.services[2].suffix, "third");
    let Registered { suffix, service: _ } = &handlers.services[2];
    assert_eq!(suffix, "third");
}

#[test]
fn process_service_request_looks_the_suffix_up() {
    let handlers = echo_router();
    let asked = request(vec![question("9.echo.example.com.", RecordType::TXT)]);
    assert_eq!(
        handlers.process_service_request(&asked, "echo"),
        Ok(vec![txt("9.echo.example.com.", 7, "9"), txt("9.echo.example.com.", 8, "txt")])
    );
    assert_eq!(handlers.process_service_request(&asked, "absent"), Ok(vec![]));
    assert_eq!(handlers.serve(&asked, 0), handlers.process_service_request(&asked, "echo"));
    let mut notify = request(vec![]);
    notify.op_code = OpCode::Notify;
    assert_eq!(handlers.process_service_request(&notify, "absent"), Err(QueryError::NotAQuery));
    let crowd =
        request((0..6).map(|_| question("x.echo.example.com.", RecordType::TXT)).collect());
    assert_eq!(
        handlers.process_service_request(&crowd, "absent"),
        Err(QueryError::TooManyQuestions)
    );
}

#[test]
fn clean_query_strips_suffix_and_dot() {
    let clean = DnsHandlers::<Echo>::clean_query;
    assert_eq!(clean("mumbai.time.example.com.", ".time.example.com"), "mumbai");
    assert_eq!(clean("mumbai.time.example.com", ".time.example.com"), "mumbai");
    assert_eq!(clean("mumbai.time.example.com...", ".time.example.com"), "mumbai");
    assert_eq!(clean("a.s.d.s.d.", ".s.d"), "a");
    assert_eq!(clean("aaa", "aa"), "a");
    assert_eq!(clean("abc.", ""), "abc");
    assert_eq!(clean("", ".x"), "");
    assert_eq!(clean("....", "x"), "");
    assert_eq!(clean("New York!_(a/b-c:d,e).x.y.", ".x.y"), "NewYorka/b-c:d,e");
    assert_eq!(clean("caf\u{e9}.geo.example.com.", ".geo.example.com"), "caf");
    assert_eq!(clean("1-100.random.localhost.", ".random.localhost"), "1-100");
    assert_eq!(clean("time.example.com.", ".time.example.com"), "time.example.com");
}

#[test]
fn clean_query_agrees_with_the_standard_library_and_the_pattern() {
    let pattern = regex::Regex::new("[^a-zA-Z0-9/\\-\\.:,]").unwrap();
    let queries = [
        "mumbai.time.example.com.",
        "a.b.c.b.c.b.c",
        "..",
        "",
        "x y\tz.geo.d.",
        "\u{4e1c}\u{4eac}/jp.geo.d.",
        "geo.d.geo.d",
        "A-Z_0-9,:;.geo.d..",
    ];
    let suffixes = [".time.example.com", ".b.c", "", ".", ".geo.d", "geo.d", "d"];
    for query in queries {
        for suffix in suffixes {
            let trimmed = query.trim_end_matches('.').trim_end_matches(suffix);
            let expected = pattern.replace_all(trimmed, "").to_string();
            assert_eq!(DnsHandlers::<Echo>::clean_query(query, suffix), expected);
        }
    }
}

#[test]
fn error_messages_are_spelled_out() {
    assert_eq!(QueryError::EmptyRequest.message(), "No queries in request");
    assert_eq!(QueryError::NotAQuery.message(), "Not a query operation");
    assert_eq!(QueryError::TooManyQuestions.message(), "Too many queries");
    assert_eq!(
        QueryError::ServiceFailure(ServiceFailure { message: "why".to_string() }).message(),
        "why"
    );
}

#[test]
fn standard_services_are_registered_in_order() {
    let handlers = standard_router();
    let suffixes: Vec<&str> = handlers.services.iter().map(|e| e.suffix.as_str()).collect();
    assert_eq!(suffixes, vec!["ip", "uuid", "pi", "geo", "random"]);
    assert!(matches!(handlers.services[0].service, AnyService::Ip(_)));
    assert!(matches!(handlers.services[1].service, AnyService::Uuid(_)));
    assert!(matches!(handlers.services[2].service, AnyService::Pi(_)));
    assert!(matches!(handlers.services[3].service, AnyService::Geo(_)));
    assert!(matches!(handlers.services[4].service, AnyService::Random(_)));
}

#[test]
fn standard_router_answers_ip_pi_and_geo() {
    let handlers = standard_router();
    assert_eq!(
        handlers.process_dns_query(&request(vec![question("ip.example.com.", RecordType::TXT)])),
        Ok(vec![txt("ip.example.com.", 60, "192.0.2.7")])
    );
    assert_eq!(
        handlers.process_dns_query(&request(vec![question("pi.example.com.", RecordType::A)])),
        Ok(vec![Record {
            name: "pi.example.com.".to_string(),
            ttl: 31536000,
            data: RData::A(3, 141, 59, 27),
        }])
    );
    assert_eq!(
        handlers
            .process_dns_query(&request(vec![question("paris.geo.example.com.", RecordType::TXT)])),
        Ok(vec![txt(
            "paris.geo.example.com.",
            60,
            "Paris (FR) - Pop: 2000000, TZ: Europe/Paris, Lat: 48.8534, Lon: 2.3488"
        )])
    );
    assert_eq!(
        handlers.process_dns_query(&request(vec![question(
            "nowhere.geo.example.com.",
            RecordType::TXT
        )])),
        Ok(vec![])
    );
}

#[test]
fn random_service_failure_surfaces() {
    let handlers = standard_router();
    let response = handlers.process_dns_query(&request(vec![
        question("9-3.random.example.com.", RecordType::TXT),
        question("1-2.random.example.com.", RecordType::TXT),
    ]));
    assert_eq!(
        response,
        Err(QueryError::ServiceFailure(ServiceFailure {
            message: "Minimum value must be less than maximum value".to_string()
        }))
    );
    let ok = handlers
        .process_dns_query(&request(vec![question("7-7.random.example.com.", RecordType::TXT)]));
    assert_eq!(ok, Ok(vec![txt("7-7.random.example.com.", 1, "7")]));
}
