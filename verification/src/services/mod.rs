//! The services that the router can answer from, and the help they print.

pub mod geo;
pub mod ip;
pub mod pi;
pub mod random;
pub mod uuid;

use vstd::prelude::*;
use crate::dns::{
    txt_record, Answer, AnswerView, Record, RecordType, RecordView, Request, RequestView,
    ServiceFailure,
};
use crate::geo::index::loaded;
use crate::geo::location::{ingest, DatasetRow};
use crate::handlers::{DnsHandlers, Service};
use crate::routing::{lemma_registered, service_at, Registered};
use crate::services::geo::GeoService;
use crate::services::ip::IpService;
use crate::services::pi::PiService;
use crate::services::random::RandomService;
use crate::services::uuid::UUidService;

verus! {

/// How long a help record may be cached, in seconds.
pub const HELP_TTL: u32 = 60;

/// The lines of the help, for the authoritative domain `domain`.
pub open spec fn help_texts(domain: Seq<char>) -> Seq<Seq<char>> {
    seq![
        "Welcome! Available DNS services:"@,
        "dig TXT ip."@ + domain,
        "dig A ip."@ + domain,
        "dig A pi."@ + domain,
        "dig TXT <location>.geo."@ + domain,
        "dig TXT <number>.uuid."@ + domain,
        "dig TXT <min>-<max>.random."@ + domain,
        "dig TXT help."@ + domain,
    ]
}

/// The help records: one text record for each line of [`help_texts`], under
/// the name `help.`.
pub open spec fn help_records(domain: Seq<char>) -> Seq<RecordView> {
    Seq::new(
        help_texts(domain).len(),
        |i: int| txt_record("help."@, HELP_TTL, help_texts(domain)[i]),
    )
}

/// One help record whose text is `line` followed by `domain`.
fn help_line(line: &str, domain: &str) -> (r: Record)
    ensures
        r@ == txt_record("help."@, HELP_TTL, line@ + domain@),
{
    let mut text = String::from_str(line);
    text.append(domain);
    Record::txt(String::from_str("help."), HELP_TTL, text)
}

/// Writes the help records for the authoritative domain `domain`.
pub fn create_help_records(domain: &str) -> (r: Vec<Record>)
    ensures
        r.deep_view() == help_records(domain@),
{
    let mut records: Vec<Record> = Vec::new();
    records.push(
        Record::txt(
            String::from_str("help."),
            HELP_TTL,
            String::from_str("Welcome! Available DNS services:"),
        ),
    );
    records.push(help_line("dig TXT ip.", domain));
    records.push(help_line("dig A ip.", domain));
    records.push(help_line("dig A pi.", domain));
    records.push(help_line("dig TXT <location>.geo.", domain));
    records.push(help_line("dig TXT <number>.uuid.", domain));
    records.push(help_line("dig TXT <min>-<max>.random.", domain));
    records.push(help_line("dig TXT help.", domain));
    assert(records.deep_view() =~= help_records(domain@));
    records
}

/// Any one of the services of this library.
pub enum AnyService {
    Ip(IpService),
    Uuid(UUidService),
    Pi(PiService),
    Geo(GeoService),
    Random(RandomService),
}

impl AnyService {
    /// What the service inside describes itself with, as bytes.
    pub open spec fn description(&self) -> Seq<u8> {
        match *self {
            AnyService::Ip(service) => service.description(),
            AnyService::Uuid(service) => service.description(),
            AnyService::Pi(service) => service.description(),
            AnyService::Geo(service) => service.description(),
            AnyService::Random(service) => service.description(),
        }
    }
}

impl Service for AnyService {
    /// What the service inside may answer.
    open spec fn may_answer(
        &self,
        request: RequestView,
        query_name: Seq<char>,
        query_type: RecordType,
        cleaned_query: Seq<char>,
        answer: AnswerView,
    ) -> bool {
        match *self {
            AnyService::Ip(service) => service.may_answer(
                request,
                query_name,
                query_type,
                cleaned_query,
                answer,
            ),
            AnyService::Uuid(service) => service.may_answer(
                request,
                query_name,
                query_type,
                cleaned_query,
                answer,
            ),
            AnyService::Pi(service) => service.may_answer(
                request,
                query_name,
                query_type,
                cleaned_query,
                answer,
            ),
            AnyService::Geo(service) => service.may_answer(
                request,
                query_name,
                query_type,
                cleaned_query,
                answer,
            ),
            AnyService::Random(service) => service.may_answer(
                request,
                query_name,
                query_type,
                cleaned_query,
                answer,
            ),
        }
    }

    fn query(
        &self,
        request: &Request,
        query_name: &str,
        query_type: RecordType,
        cleaned_query: &str,
    ) -> (answer: Answer) {
        match self {
            AnyService::Ip(service) => service.query(request, query_name, query_type, cleaned_query),
            AnyService::Uuid(service) => service.query(
                request,
                query_name,
                query_type,
                cleaned_query,
            ),
            AnyService::Pi(service) => service.query(request, query_name, query_type, cleaned_query),
            AnyService::Geo(service) => service.query(
                request,
                query_name,
                query_type,
                cleaned_query,
            ),
            AnyService::Random(service) => service.query(
                request,
                query_name,
                query_type,
                cleaned_query,
            ),
        }
    }

    /// The description of the service inside, as bytes.
    fn dump(&self) -> (r: Result<Vec<u8>, ServiceFailure>)
        ensures
            r matches Ok(bytes) && bytes@ == self.description(),
    {
        match self {
            AnyService::Ip(service) => service.dump(),
            AnyService::Uuid(service) => service.dump(),
            AnyService::Pi(service) => service.dump(),
            AnyService::Geo(service) => service.dump(),
            AnyService::Random(service) => service.dump(),
        }
    }
}

/// The most identifiers that the registered identifier service hands out
/// for one question.
pub const MAX_UUIDS: usize = 10;

/// `suffix` is one of the suffixes that [`register_services`] registers.
pub open spec fn is_standard_suffix(suffix: Seq<char>) -> bool {
    suffix == "ip"@ || suffix == "uuid"@ || suffix == "pi"@ || suffix == "geo"@ || suffix
        == "random"@
}

/// Registers the services of this library: the address service under `ip`,
/// the identifier service under `uuid`, the pi service under `pi`, the
/// place service, over the places that `rows` describe, under `geo`, and
/// the random service under `random`. What was registered under another
/// suffix stays.
pub fn register_services(handlers: &mut DnsHandlers<AnyService>, rows: &Vec<DatasetRow>)
    ensures
        final(handlers).domain == old(handlers).domain,
        final(handlers).help_records == old(handlers).help_records,
        service_at(final(handlers).services@, "ip"@) matches Some(AnyService::Ip(_)),
        service_at(final(handlers).services@, "uuid"@) matches Some(AnyService::Uuid(service))
            && service.limit() == MAX_UUIDS,
        service_at(final(handlers).services@, "pi"@) matches Some(AnyService::Pi(_)),
        service_at(final(handlers).services@, "geo"@) matches Some(AnyService::Geo(service))
            && service.index() == loaded(Map::empty(), ingest(rows.deep_view())),
        service_at(final(handlers).services@, "random"@) matches Some(AnyService::Random(_)),
        forall|suffix: Seq<char>|
            !is_standard_suffix(suffix) ==> #[trigger] service_at(
                final(handlers).services@,
                suffix,
            ) == service_at(old(handlers).services@, suffix),
{
    proof {
        reveal_strlit("ip");
        reveal_strlit("uuid");
        reveal_strlit("pi");
        reveal_strlit("geo");
        reveal_strlit("random");
        assert("ip"@[0] == 'i' && "uuid"@[0] == 'u' && "pi"@[0] == 'p' && "geo"@[0] == 'g'
            && "random"@[0] == 'r');
    }
    let ghost s0 = handlers.services@;
    let ip = String::from_str("ip");
    let ip_service = AnyService::Ip(IpService::new());
    proof {
        lemma_registered(s0, Registered { suffix: ip, service: ip_service });
    }
    handlers.register(ip, ip_service);
    let ghost s1 = handlers.services@;
    let uuid = String::from_str("uuid");
    let uuid_service = AnyService::Uuid(UUidService::new(MAX_UUIDS));
    proof {
        lemma_registered(s1, Registered { suffix: uuid, service: uuid_service });
    }
    handlers.register(uuid, uuid_service);
    let ghost s2 = handlers.services@;
    let pi = String::from_str("pi");
    let pi_service = AnyService::Pi(PiService::new());
    proof {
        lemma_registered(s2, Registered { suffix: pi, service: pi_service });
    }
    handlers.register(pi, pi_service);
    let ghost s3 = handlers.services@;
    let geo = String::from_str("geo");
    let geo_service = AnyService::Geo(GeoService::new(rows));
    proof {
        lemma_registered(s3, Registered { suffix: geo, service: geo_service });
    }
    handlers.register(geo, geo_service);
    let ghost s4 = handlers.services@;
    let random = String::from_str("random");
    let random_service = AnyService::Random(RandomService::new());
    proof {
        lemma_registered(s4, Registered { suffix: random, service: random_service });
    }
    handlers.register(random, random_service);
    proof {
        let s5 = handlers.services@;
        assert forall|suffix: Seq<char>| !is_standard_suffix(suffix) implies #[trigger] service_at(
            s5,
            suffix,
        ) == service_at(s0, suffix) by {
            assert(service_at(s1, suffix) == service_at(s0, suffix));
            assert(service_at(s2, suffix) == service_at(s1, suffix));
            assert(service_at(s3, suffix) == service_at(s2, suffix));
            assert(service_at(s4, suffix) == service_at(s3, suffix));
        }
        assert(service_at(s1, "ip"@) == Some(ip_service));
        assert(service_at(s2, "ip"@) == service_at(s1, "ip"@));
        assert(service_at(s3, "ip"@) == service_at(s2, "ip"@));
        assert(service_at(s4, "ip"@) == service_at(s3, "ip"@));
        assert(service_at(s5, "ip"@) == service_at(s4, "ip"@));
        assert(service_at(s2, "uuid"@) == Some(uuid_service));
        assert(service_at(s3, "uuid"@) == service_at(s2, "uuid"@));
        assert(service_at(s4, "uuid"@) == service_at(s3, "uuid"@));
        assert(service_at(s5, "uuid"@) == service_at(s4, "uuid"@));
        assert(service_at(s3, "pi"@) == Some(pi_service));
        assert(service_at(s4, "pi"@) == service_at(s3, "pi"@));
        assert(service_at(s5, "pi"@) == service_at(s4, "pi"@));
        assert(service_at(s4, "geo"@) == Some(geo_service));
        assert(service_at(s5, "geo"@) == service_at(s4, "geo"@));
        assert(service_at(s5, "random"@) == Some(random_service));
    }
}

} // verus!
