//! The service that answers with the digits of pi.

use vstd::prelude::*;
use vstd::string::StringSliceAdditionalSpecFns;
use crate::dns::{
    txt_record, Answer, AnswerView, RData, RDataView, Record, RecordType, RecordView, Request,
    RequestView, ServiceFailure,
};
use crate::handlers::Service;

verus! {

/// Answers with pi: as text, or with its digits in the place of an address.
pub struct PiService;

/// How long an answer of the pi service may be cached, in seconds: a year.
pub const PI_TTL: u32 = 31536000;

/// What the pi service says to a question for `query_name` and
/// `query_type`.
pub open spec fn pi_answer(query_name: Seq<char>, query_type: RecordType) -> AnswerView {
    match query_type {
        RecordType::TXT => Ok(
            Some(
                seq![
                    txt_record(
                        query_name,
                        PI_TTL,
                        "3.141592653589793238462643383279502884197169"@,
                    ),
                ],
            ),
        ),
        RecordType::A => Ok(
            Some(
                seq![
                    RecordView { name: query_name, ttl: PI_TTL, data: RDataView::A(3, 141, 59, 27) },
                ],
            ),
        ),
        RecordType::AAAA => Ok(
            Some(
                seq![
                    RecordView {
                        name: query_name,
                        ttl: PI_TTL,
                        data: RDataView::AAAA(
                            0x3141,
                            0x5926,
                            0x5358,
                            0x9793,
                            0x2384,
                            0x6264,
                            0x3383,
                            0x2795,
                        ),
                    },
                ],
            ),
        ),
        RecordType::Other(_) => Ok(None),
    }
}

impl PiService {
    /// What the pi service describes itself with: the digits of pi, as
    /// bytes.
    pub open spec fn description(&self) -> Seq<u8> {
        "3.141592653589793238462643383279502884197169".spec_bytes()
    }

    /// The pi service.
    pub fn new() -> (r: Self)
        ensures
            r == PiService,
    {
        PiService
    }
}

impl Service for PiService {
    open spec fn may_answer(
        &self,
        request: RequestView,
        query_name: Seq<char>,
        query_type: RecordType,
        cleaned_query: Seq<char>,
        answer: AnswerView,
    ) -> bool {
        answer == pi_answer(query_name, query_type)
    }

    fn query(
        &self,
        request: &Request,
        query_name: &str,
        query_type: RecordType,
        cleaned_query: &str,
    ) -> (answer: Answer) {
        let data = match query_type {
            RecordType::TXT => RData::TXT(
                String::from_str("3.141592653589793238462643383279502884197169"),
            ),
            RecordType::A => RData::A(3, 141, 59, 27),
            RecordType::AAAA => RData::AAAA(
                0x3141,
                0x5926,
                0x5358,
                0x9793,
                0x2384,
                0x6264,
                0x3383,
                0x2795,
            ),
            RecordType::Other(_) => { return Ok(None); },
        };
        let mut records: Vec<Record> = Vec::new();
        let record = Record { name: String::from_str(query_name), ttl: PI_TTL, data };
        records.push(record);
        assert(records.deep_view() =~= seq![record@]);
        Ok(Some(records))
    }

    /// The digits of pi, as bytes.
    fn dump(&self) -> (r: Result<Vec<u8>, ServiceFailure>)
        ensures
            r matches Ok(bytes) && bytes@ == self.description(),
    {
        Ok("3.141592653589793238462643383279502884197169".as_bytes_vec())
    }
}

} // verus!
