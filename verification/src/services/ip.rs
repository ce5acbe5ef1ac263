//! The service that tells a client its own address.

use vstd::prelude::*;
use vstd::string::StringSliceAdditionalSpecFns;
use crate::decimal::{decimal_text, push_decimal};
use crate::dns::{
    txt_record, Answer, AnswerView, RData, RDataView, Record, RecordType, RecordView, Request,
    RequestView, ServiceFailure, SourceAddr, SourceAddrView,
};
use crate::handlers::Service;
use crate::text::string_of;

verus! {

/// Answers with the address that the request came from.
pub struct IpService;

/// How long an answer of the address service may be cached, in seconds.
pub const IP_TTL: u32 = 60;

/// An address as text: the four octets of an IPv4 address in decimal, with
/// dots between them; an IPv6 address as it is held.
pub open spec fn source_text(src: SourceAddrView) -> Seq<char> {
    match src {
        SourceAddrView::V4(a, b, c, d) => decimal_text(a as nat) + "."@ + decimal_text(b as nat)
            + "."@ + decimal_text(c as nat) + "."@ + decimal_text(d as nat),
        SourceAddrView::V6(text) => text,
    }
}

/// The record that tells the client at `src` its address, for a question
/// for `query_name` and `query_type`: a text record for a text question; an
/// address record for an address question from an IPv4 address; none
/// otherwise.
pub open spec fn ip_record(
    src: SourceAddrView,
    query_name: Seq<char>,
    query_type: RecordType,
) -> Option<RecordView> {
    match query_type {
        RecordType::TXT => Some(txt_record(query_name, IP_TTL, source_text(src))),
        RecordType::A => match src {
            SourceAddrView::V4(a, b, c, d) => Some(
                RecordView { name: query_name, ttl: IP_TTL, data: RDataView::A(a, b, c, d) },
            ),
            SourceAddrView::V6(_) => None,
        },
        _ => None,
    }
}

/// Writes an address as text: see [`source_text`].
pub fn format_source(src: &SourceAddr) -> (r: String)
    ensures
        r@ == source_text(src@),
{
    match src {
        SourceAddr::V4(a, b, c, d) => {
            let mut out: Vec<char> = Vec::new();
            push_decimal(&mut out, *a as u64);
            out.push('.');
            push_decimal(&mut out, *b as u64);
            out.push('.');
            push_decimal(&mut out, *c as u64);
            out.push('.');
            push_decimal(&mut out, *d as u64);
            proof {
                reveal_strlit(".");
                assert("."@ =~= seq!['.']);
                assert(out@ =~= source_text(src@));
            }
            string_of(&out)
        },
        SourceAddr::V6(text) => text.clone(),
    }
}

impl IpService {
    /// What the address service describes itself with, as bytes.
    pub open spec fn description(&self) -> Seq<u8> {
        "IP Service - Returns client IP address in TXT and A record formats".spec_bytes()
    }

    /// The address service.
    pub fn new() -> (r: Self)
        ensures
            r == IpService,
    {
        IpService
    }

    /// The record that tells the client its address: see [`ip_record`].
    pub fn handle_ip_query(
        &self,
        request: &Request,
        query_name: &str,
        query_type: RecordType,
    ) -> (r: Option<Record>)
        ensures
            match r {
                Some(record) => ip_record(request@.src, query_name@, query_type) == Some(record@),
                None => ip_record(request@.src, query_name@, query_type) is None,
            },
    {
        match query_type {
            RecordType::TXT => Some(
                Record::txt(String::from_str(query_name), IP_TTL, format_source(&request.src)),
            ),
            RecordType::A => match &request.src {
                SourceAddr::V4(a, b, c, d) => Some(
                    Record {
                        name: String::from_str(query_name),
                        ttl: IP_TTL,
                        data: RData::A(*a, *b, *c, *d),
                    },
                ),
                SourceAddr::V6(_) => None,
            },
            _ => None,
        }
    }
}

impl Service for IpService {
    open spec fn may_answer(
        &self,
        request: RequestView,
        query_name: Seq<char>,
        query_type: RecordType,
        cleaned_query: Seq<char>,
        answer: AnswerView,
    ) -> bool {
        answer == match ip_record(request.src, query_name, query_type) {
            Some(record) => Ok::<Option<Seq<RecordView>>, Seq<char>>(Some(seq![record])),
            None => Ok(None),
        }
    }

    fn query(
        &self,
        request: &Request,
        query_name: &str,
        query_type: RecordType,
        cleaned_query: &str,
    ) -> (answer: Answer) {
        match self.handle_ip_query(request, query_name, query_type) {
            Some(record) => {
                let mut records: Vec<Record> = Vec::new();
                records.push(record);
                assert(records.deep_view() =~= seq![record@]);
                Ok(Some(records))
            },
            None => Ok(None),
        }
    }

    /// A description of the service, as bytes.
    fn dump(&self) -> (r: Result<Vec<u8>, ServiceFailure>)
        ensures
            r matches Ok(bytes) && bytes@ == self.description(),
    {
        Ok("IP Service - Returns client IP address in TXT and A record formats".as_bytes_vec())
    }
}

} // verus!
