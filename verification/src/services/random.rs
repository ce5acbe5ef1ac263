//! The service that draws a number from a range.

use vstd::prelude::*;
use vstd::string::StringSliceAdditionalSpecFns;
use rand::Rng;
use crate::decimal::{
    all_digits, decimal_string, decimal_text, decimal_value, is_digit, parse_bounded,
};
use crate::dns::{
    txt_record, Answer, AnswerView, Record, RecordType, RecordView, Request, RequestView,
    ServiceFailure,
};
use crate::handlers::Service;
use crate::text::{chars_of, copy_range, find_char, first_position, lemma_first_position, string_of};

verus! {

/// Answers with a number drawn from the range that the question names, as
/// `<min>-<max>`.
pub struct RandomService;

/// How long an answer of the random service may be cached, in seconds.
pub const RANDOM_TTL: u32 = 1;

/// Draws a number from `min..=max` with the thread's generator of `rand`,
/// whose `random_range` returns a value of the range and panics on an empty
/// one.
#[verifier::external_body]
fn draw(min: i32, max: i32) -> (r: i32)
    requires
        min <= max,
    ensures
        min <= r <= max,
{
    rand::rng().random_range(min..=max)
}

/// The part of a range query before its first `-`.
pub open spec fn low_text(query: Seq<char>) -> Seq<char> {
    query.take(first_position(query, '-'))
}

/// The part of a range query after its first `-`.
pub open spec fn high_text(query: Seq<char>) -> Seq<char> {
    query.skip(first_position(query, '-') + 1)
}

/// The query has the form of a range: digits, one `-`, digits.
pub open spec fn is_range(query: Seq<char>) -> bool {
    &&& first_position(query, '-') < query.len()
    &&& low_text(query).len() > 0
    &&& all_digits(low_text(query))
    &&& high_text(query).len() > 0
    &&& all_digits(high_text(query))
}

/// The range that a query names, or why it names none: it has not the form
/// of a range; a bound is too large for a signed integer of 32 bits; or the
/// lower bound is the greater.
pub open spec fn range_of(query: Seq<char>) -> Result<(int, int), Seq<char>> {
    let low = low_text(query);
    let high = high_text(query);
    if !is_range(query) {
        Err("Invalid random query format"@)
    } else if decimal_value(low) > i32::MAX {
        Err("Invalid minimum value "@ + low)
    } else if decimal_value(high) > i32::MAX {
        Err("Invalid maximum value "@ + high)
    } else if decimal_value(low) > decimal_value(high) {
        Err("Minimum value must be less than maximum value"@)
    } else {
        Ok((decimal_value(low) as int, decimal_value(high) as int))
    }
}

/// Decides whether a text is made of one or more digits.
pub fn is_number(s: &Vec<char>) -> (r: bool)
    ensures
        r == (s@.len() > 0 && all_digits(s@)),
{
    if s.len() == 0 {
        return false;
    }
    let mut i: usize = 0;
    while i < s.len()
        invariant
            i <= s.len(),
            forall|j: int| 0 <= j < i ==> is_digit(#[trigger] s@[j]),
        decreases s.len() - i,
    {
        if !('0' <= s[i] && s[i] <= '9') {
            assert(!is_digit(s@[i as int]));
            return false;
        }
        i += 1;
    }
    true
}

/// A failure with the message `head` followed by `tail`.
fn failure(head: &str, tail: &Vec<char>) -> (r: ServiceFailure)
    ensures
        r.message@ == head@ + tail@,
{
    let mut message = String::from_str(head);
    message.append(string_of(tail).as_str());
    ServiceFailure { message }
}

impl RandomService {
    /// What the random service describes itself with, as bytes.
    pub open spec fn description(&self) -> Seq<u8> {
        "Random service - Returns a random number between a given range".spec_bytes()
    }

    /// The random service.
    pub fn new() -> (r: Self)
        ensures
            r == RandomService,
    {
        RandomService
    }

    /// A number drawn from the range that `query` names, or why it names
    /// none: see [`range_of`].
    pub fn generate_random_number(&self, query: &str) -> (r: Result<i32, ServiceFailure>)
        ensures
            match r {
                Ok(value) => range_of(query@) matches Ok((min, max)) && min <= value <= max,
                Err(failure) => range_of(query@) == Err::<(int, int), Seq<char>>(failure.message@),
            },
    {
        let chars = chars_of(query);
        let p: usize = find_char(&chars, '-');
        proof {
            lemma_first_position(chars@, '-');
        }
        if p == chars.len() {
            return Err(failure("Invalid random query format", &Vec::new()));
        }
        let low = copy_range(&chars, 0, p);
        let high = copy_range(&chars, p + 1, chars.len());
        proof {
            assert(low@ =~= low_text(query@));
            assert(high@ =~= high_text(query@));
        }
        if !is_number(&low) || !is_number(&high) {
            return Err(failure("Invalid random query format", &Vec::new()));
        }
        proof {
            assert(low@[0] != '+') by {
                assert(is_digit(low@[0]));
            }
            assert(high@[0] != '+') by {
                assert(is_digit(high@[0]));
            }
        }
        let min: i32 = match parse_bounded(&low, i32::MAX as u64) {
            Some(v) => v as i32,
            None => { return Err(failure("Invalid minimum value ", &low)); },
        };
        let max: i32 = match parse_bounded(&high, i32::MAX as u64) {
            Some(v) => v as i32,
            None => { return Err(failure("Invalid maximum value ", &high)); },
        };
        if min > max {
            return Err(failure("Minimum value must be less than maximum value", &Vec::new()));
        }
        Ok(draw(min, max))
    }
}

impl Service for RandomService {
    /// Only text questions are answered: with one record that holds a
    /// number of the range that the argument names; where it names none,
    /// the service fails.
    open spec fn may_answer(
        &self,
        request: RequestView,
        query_name: Seq<char>,
        query_type: RecordType,
        cleaned_query: Seq<char>,
        answer: AnswerView,
    ) -> bool {
        if query_type != RecordType::TXT {
            answer == Ok::<Option<Seq<RecordView>>, Seq<char>>(None)
        } else {
            match range_of(cleaned_query) {
                Err(message) => answer == Err::<Option<Seq<RecordView>>, Seq<char>>(message),
                Ok((min, max)) => exists|value: int|
                    min <= value <= max && #[trigger] random_answer(query_name, value) == answer,
            }
        }
    }

    fn query(
        &self,
        request: &Request,
        query_name: &str,
        query_type: RecordType,
        cleaned_query: &str,
    ) -> (answer: Answer) {
        if query_type != RecordType::TXT {
            return Ok(None);
        }
        match self.generate_random_number(cleaned_query) {
            Ok(value) => {
                let mut records: Vec<Record> = Vec::new();
                let record = Record::txt(
                    String::from_str(query_name),
                    RANDOM_TTL,
                    decimal_string(value as u64),
                );
                records.push(record);
                proof {
                    assert(records.deep_view() =~= seq![record@]);
                    assert(random_answer(query_name@, value as int) == crate::dns::answer_view(
                        Ok(Some(records)),
                    ));
                }
                Ok(Some(records))
            },
            Err(failure) => Err(failure),
        }
    }

    /// A description of the service, as bytes.
    fn dump(&self) -> (r: Result<Vec<u8>, ServiceFailure>)
        ensures
            r matches Ok(bytes) && bytes@ == self.description(),
    {
        Ok("Random service - Returns a random number between a given range".as_bytes_vec())
    }
}

/// The answer that holds the number `value`.
pub open spec fn random_answer(query_name: Seq<char>, value: int) -> AnswerView {
    Ok(Some(seq![txt_record(query_name, RANDOM_TTL, decimal_text(value as nat))]))
}

} // verus!
