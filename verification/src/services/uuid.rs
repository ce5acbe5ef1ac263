//! The service that hands out random identifiers.

use vstd::prelude::*;
use crate::decimal::{decimal_string, decimal_text, parse_bounded, parse_unsigned};
use crate::dns::{
    Answer, AnswerView, RDataView, Record, RecordType, RecordView, Request, RequestView,
    ServiceFailure,
};
use crate::handlers::Service;
use crate::text::chars_of;

verus! {

/// Answers with as many random identifiers as the question asks for, up to
/// a limit.
pub struct UUidService {
    max_results: usize,
}

/// How long an answer of the identifier service may be cached, in seconds.
pub const UUID_TTL: u32 = 60;

/// `c` is a digit of a lower-case hexadecimal number.
pub open spec fn is_hex_digit(c: char) -> bool {
    '0' <= c <= '9' || 'a' <= c <= 'f'
}

/// `s` has the form of a random identifier: 36 characters, hyphens at the
/// positions 8, 13, 18 and 23 and lower-case hexadecimal digits elsewhere,
/// the version 4 and the variant of RFC 9562.
pub open spec fn is_uuid_text(s: Seq<char>) -> bool {
    &&& s.len() == 36
    &&& forall|i: int|
        0 <= i < 36 ==> if i == 8 || i == 13 || i == 18 || i == 23 {
            #[trigger] s[i] == '-'
        } else {
            is_hex_digit(s[i])
        }
    &&& s[14] == '4'
    &&& (s[19] == '8' || s[19] == '9' || s[19] == 'a' || s[19] == 'b')
}

/// Makes a random identifier with `Uuid::new_v4` and writes it out. Whatever
/// the random bits are, the text has the form [`is_uuid_text`]: `new_v4`
/// sets version and variant, and the identifier prints hyphenated in lower
/// case.
#[verifier::external_body]
fn random_uuid() -> (r: String)
    ensures
        is_uuid_text(r@),
{
    ::uuid::Uuid::new_v4().to_string()
}

/// The number that a query names: one for the empty query, else the query
/// read as an unsigned integer.
pub open spec fn wanted(query: Seq<char>) -> Option<nat> {
    if query.len() == 0 {
        Some(1)
    } else {
        parse_unsigned(query, usize::MAX as nat)
    }
}

/// The number of identifiers that a query is granted: the number that it
/// names, if that is at least one and at most `limit`.
pub open spec fn granted(query: Seq<char>, limit: nat) -> Option<nat> {
    match wanted(query) {
        Some(n) => if 1 <= n <= limit {
            Some(n)
        } else {
            None
        },
        None => None,
    }
}

/// Why a query is granted nothing.
pub open spec fn refusal(query: Seq<char>, limit: nat) -> Seq<char> {
    match wanted(query) {
        Some(n) => "Number of UUIDs must be between 1 and "@ + decimal_text(limit) + ". Got "@
            + decimal_text(n),
        None => "Invalid number format: '"@ + query + "'"@,
    }
}

impl UUidService {
    /// The most identifiers that one question is answered with.
    pub closed spec fn limit(&self) -> nat {
        self.max_results as nat
    }

    /// What the identifier service describes itself with: its limit, as
    /// bytes.
    pub open spec fn description(&self) -> Seq<u8> {
        vstd::utf8::encode_utf8("UUID Service - Max results: "@ + decimal_text(self.limit()))
    }

    /// An identifier service that answers with at most `max_results`
    /// identifiers, and with at most one where `max_results` is zero.
    pub fn new(max_results: usize) -> (r: Self)
        ensures
            r.limit() == if max_results < 1 {
                1
            } else {
                max_results as nat
            },
    {
        let max_results: usize = if max_results < 1 {
            1
        } else {
            max_results
        };
        UUidService { max_results }
    }

    /// As many random identifiers as `query` is granted, or the reason why
    /// it is granted none.
    pub fn generate_uuids(&self, query: &str) -> (r: Result<Vec<String>, ServiceFailure>)
        ensures
            match r {
                Ok(uuids) => granted(query@, self.limit()) == Some(uuids@.len()) && forall|i: int|
                    0 <= i < uuids@.len() ==> is_uuid_text(#[trigger] uuids@[i]@),
                Err(failure) => granted(query@, self.limit()) is None && failure.message@
                    == refusal(query@, self.limit()),
            },
    {
        let chars = chars_of(query);
        let num: usize = if chars.len() == 0 {
            1
        } else {
            match parse_bounded(&chars, usize::MAX as u64) {
                Some(n) => n as usize,
                None => {
                    let mut message = String::from_str("Invalid number format: '");
                    message.append(query);
                    message.append("'");
                    return Err(ServiceFailure { message });
                },
            }
        };
        if num < 1 || num > self.max_results {
            let mut message = String::from_str("Number of UUIDs must be between 1 and ");
            message.append(decimal_string(self.max_results as u64).as_str());
            message.append(". Got ");
            message.append(decimal_string(num as u64).as_str());
            return Err(ServiceFailure { message });
        }
        let mut result: Vec<String> = Vec::new();
        let mut i: usize = 0;
        while i < num
            invariant
                i <= num,
                result@.len() == i,
                forall|j: int| 0 <= j < i ==> is_uuid_text(#[trigger] result@[j]@),
            decreases num - i,
        {
            result.push(random_uuid());
            i += 1;
        }
        Ok(result)
    }
}

/// `records` are text records under `name`, each with a random identifier.
pub open spec fn are_uuid_records(records: Seq<RecordView>, name: Seq<char>) -> bool {
    forall|i: int|
        0 <= i < records.len() ==> {
            &&& (#[trigger] records[i]).name == name
            &&& records[i].ttl == UUID_TTL
            &&& records[i].data matches RDataView::TXT(text) && is_uuid_text(text)
        }
}

impl Service for UUidService {
    /// Only text questions are answered, and only where the argument is
    /// granted a number of identifiers: with that many.
    open spec fn may_answer(
        &self,
        request: RequestView,
        query_name: Seq<char>,
        query_type: RecordType,
        cleaned_query: Seq<char>,
        answer: AnswerView,
    ) -> bool {
        if query_type != RecordType::TXT {
            answer == Ok::<Option<Seq<RecordView>>, Seq<char>>(None)
        } else {
            match granted(cleaned_query, self.limit()) {
                None => answer == Ok::<Option<Seq<RecordView>>, Seq<char>>(None),
                Some(n) => answer matches Ok(Some(records)) && records.len() == n
                    && are_uuid_records(records, query_name),
            }
        }
    }

    fn query(
        &self,
        request: &Request,
        query_name: &str,
        query_type: RecordType,
        cleaned_query: &str,
    ) -> (answer: Answer) {
        if query_type != RecordType::TXT {
            return Ok(None);
        }
        match self.generate_uuids(cleaned_query) {
            Ok(uuids) => {
                let ghost texts = uuids@;
                let mut records: Vec<Record> = Vec::new();
                for uuid in it: uuids
                    invariant
                        it.seq() == texts,
                        forall|j: int| 0 <= j < texts.len() ==> is_uuid_text(#[trigger] texts[j]@),
                        records@.len() == it.index(),
                        are_uuid_records(records.deep_view(), query_name@),
                {
                    let ghost done = records.deep_view();
                    assert(is_uuid_text(texts[it.index()]@));
                    let record = Record::txt(String::from_str(query_name), UUID_TTL, uuid);
                    records.push(record);
                    assert(records.deep_view() =~= done.push(record@));
                }
                Ok(Some(records))
            },
            Err(_) => Ok(None),
        }
    }

    /// A description of the service, as bytes.
    fn dump(&self) -> (r: Result<Vec<u8>, ServiceFailure>)
        ensures
            r matches Ok(bytes) && bytes@ == self.description(),
    {
        let mut text = String::from_str("UUID Service - Max results: ");
        text.append(decimal_string(self.max_results as u64).as_str());
        Ok(text.as_str().as_bytes_vec())
    }
}

} // verus!
