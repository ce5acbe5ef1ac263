//! The query router: it picks the service that a queried name belongs to,
//! cleans the argument out of the name, asks the service, and names the
//! records of the answer after the question.

use vstd::prelude::*;
use crate::dns::{
    answer_view, renamed, txt_record, Answer, AnswerView, OpCode, QueryView, Record, RecordType,
    RecordView, Request, RequestView, ServiceFailure,
};
use crate::routing::{
    argument_chars, bare_suffix, cleaned, cleaned_argument, dotted_suffix, equals_at, error_text,
    forwards, help_pattern, matches_at, position, registered, route_of, suffixes_of,
    unknown_record, Registered, Route, ERROR_TTL, RESPONSE_TTL,
};
use crate::search::{lemma_first_index, lemma_first_index_is, lemma_first_index_none};
use crate::text::{
    chars_end_with, chars_of, ends_with, extend_chars, retain, same_chars, string_of,
    trim_end_char_in_place, trim_end_seq_in_place,
};

verus! {

/// A service that answers the questions under one suffix.
pub trait Service {
    /// The answers that this service may give to a question. A service whose
    /// answer follows from the question alone admits exactly one; one that
    /// says nothing of its answers admits them all.
    open spec fn may_answer(
        &self,
        request: RequestView,
        query_name: Seq<char>,
        query_type: RecordType,
        cleaned_query: Seq<char>,
        answer: AnswerView,
    ) -> bool {
        true
    }

    /// Answers one question of `request`: the queried name, the type asked
    /// for and the argument cleaned out of the name.
    fn query(
        &self,
        request: &Request,
        query_name: &str,
        query_type: RecordType,
        cleaned_query: &str,
    ) -> (answer: Answer)
        ensures
            self.may_answer(request@, query_name@, query_type, cleaned_query@, answer_view(answer)),
    ;

    /// A description of the service and its data, for diagnostics.
    fn dump(&self) -> Result<Vec<u8>, ServiceFailure>;
}

/// Why a request was not answered.
#[derive(Debug, PartialEq, Eq)]
pub enum QueryError {
    /// The request holds no question.
    EmptyRequest,
    /// The request's operation is not a standard query.
    NotAQuery,
    /// The request holds more questions than a batch may.
    TooManyQuestions,
    /// The matched service failed on a question.
    ServiceFailure(ServiceFailure),
}

/// The mathematical value of a [`QueryError`].
pub enum QueryErrorView {
    EmptyRequest,
    NotAQuery,
    TooManyQuestions,
    ServiceFailure(Seq<char>),
}

impl View for QueryError {
    type V = QueryErrorView;

    open spec fn view(&self) -> QueryErrorView {
        match *self {
            QueryError::EmptyRequest => QueryErrorView::EmptyRequest,
            QueryError::NotAQuery => QueryErrorView::NotAQuery,
            QueryError::TooManyQuestions => QueryErrorView::TooManyQuestions,
            QueryError::ServiceFailure(failure) => QueryErrorView::ServiceFailure(failure.message@),
        }
    }
}

impl QueryError {
    /// The text of the error.
    pub fn message(&self) -> (r: String)
        ensures
            r@ == match self@ {
                QueryErrorView::EmptyRequest => "No queries in request"@,
                QueryErrorView::NotAQuery => "Not a query operation"@,
                QueryErrorView::TooManyQuestions => "Too many queries"@,
                QueryErrorView::ServiceFailure(message) => message,
            },
    {
        match self {
            QueryError::EmptyRequest => String::from_str("No queries in request"),
            QueryError::NotAQuery => String::from_str("Not a query operation"),
            QueryError::TooManyQuestions => String::from_str("Too many queries"),
            QueryError::ServiceFailure(failure) => failure.message.clone(),
        }
    }
}

/// The most questions that a request to a service may hold.
pub const MAX_QUESTIONS: usize = 5;

/// Deletes from `s` every character that may not stand in an argument.
pub fn retain_argument_chars(s: &Vec<char>) -> (r: Vec<char>)
    ensures
        r@ == retain(s@, argument_chars()),
{
    let mut out: Vec<char> = Vec::new();
    let mut i: usize = 0;
    proof {
        reveal(Seq::filter);
        assert(s@.take(0).filter(argument_chars()) =~= Seq::<char>::empty());
    }
    while i < s.len()
        invariant
            i <= s.len(),
            out@ == s@.take(i as int).filter(argument_chars()),
        decreases s.len() - i,
    {
        let c = s[i];
        proof {
            assert(s@.take(i + 1) =~= s@.take(i as int).push(c));
            s@.take(i as int).lemma_filter_push(c, argument_chars());
        }
        if (c >= 'a' && c <= 'z') || (c >= 'A' && c <= 'Z') || (c >= '0' && c <= '9') || c == '/'
            || c == '-' || c == '.' || c == ':' || c == ',' {
            out.push(c);
        }
        i += 1;
    }
    assert(s@.take(s.len() as int) =~= s@);
    out
}

/// [`cleaned`] on character vectors.
pub fn clean_chars(query: &Vec<char>, suffix: &Vec<char>) -> (r: Vec<char>)
    ensures
        r@ == cleaned(query@, suffix@),
{
    let mut rest: Vec<char> = query.clone();
    trim_end_char_in_place(&mut rest, '.');
    trim_end_seq_in_place(&mut rest, suffix);
    retain_argument_chars(&rest)
}

/// Appends the records of an answer to `out`, each under the queried name.
pub fn append_answer(out: &mut Vec<Record>, query_name: &str, records: Vec<Record>)
    ensures
        final(out).deep_view() == old(out).deep_view() + renamed(records.deep_view(), query_name@),
{
    let ghost before = out.deep_view();
    let ghost given = records.deep_view();
    for record in it: records
        invariant
            it.seq().len() == given.len(),
            forall|j: int| 0 <= j < given.len() ==> (#[trigger] it.seq()[j])@ == given[j],
            out.deep_view() == before + renamed(given.take(it.index()), query_name@),
    {
        let ghost done = out.deep_view();
        assert(record@ == given[it.index()]);
        let mut record = record;
        record.name = String::from_str(query_name);
        out.push(record);
        assert(out.deep_view() =~= done.push(record@));
        assert(out.deep_view() =~= before + renamed(given.take(it.index() + 1), query_name@));
    }
    assert(given.take(given.len() as int) =~= given);
}

/// What a request, or a service, is answered with.
pub type Response = Result<Vec<Record>, QueryError>;

/// The mathematical value of a [`Response`].
pub type ResponseView = Result<Seq<RecordView>, QueryErrorView>;

/// The value of a response.
pub open spec fn response_view(response: Response) -> ResponseView {
    match response {
        Ok(records) => Ok(records.deep_view()),
        Err(e) => Err(e@),
    }
}

/// What a batch of questions comes to, given what the service said to each
/// of them. The questions are taken in their order. One of a type that is
/// not forwarded adds nothing, whatever stands for its answer. A failure ends
/// the batch and is its outcome. Otherwise the records of each answer follow
/// those of the answers before, under the name of their question.
pub open spec fn batch_outcome(questions: Seq<QueryView>, answers: Seq<AnswerView>) -> ResponseView
    decreases questions.len(),
{
    if questions.len() == 0 {
        Ok(Seq::empty())
    } else {
        let question = questions.last();
        match batch_outcome(questions.drop_last(), answers.drop_last()) {
            Err(e) => Err(e),
            Ok(records) => if !forwards(question.query_type) {
                Ok(records)
            } else {
                match answers.last() {
                    Err(message) => Err(QueryErrorView::ServiceFailure(message)),
                    Ok(None) => Ok(records),
                    Ok(Some(answer)) => Ok(records + renamed(answer, question.name)),
                }
            },
        }
    }
}

/// Once a batch has failed, more questions do not change its outcome.
pub proof fn lemma_batch_failure_stays(
    questions: Seq<QueryView>,
    answers: Seq<AnswerView>,
    k: int,
    m: int,
)
    requires
        0 <= k <= m <= questions.len(),
        answers.len() == questions.len(),
        batch_outcome(questions.take(k), answers.take(k)) is Err,
    ensures
        batch_outcome(questions.take(m), answers.take(m)) == batch_outcome(
            questions.take(k),
            answers.take(k),
        ),
    decreases m - k,
{
    if k < m {
        lemma_batch_failure_stays(questions, answers, k, m - 1);
        assert(questions.take(m).drop_last() =~= questions.take(m - 1));
        assert(answers.take(m).drop_last() =~= answers.take(m - 1));
    }
}

/// The router: the registered services in the order of their registration,
/// the authoritative domain without a final dot, and the help records.
pub struct DnsHandlers<S: Service> {
    pub services: Vec<Registered<S>>,
    pub domain: String,
    pub help_records: Vec<Record>,
}

impl<S: Service> DnsHandlers<S> {
    /// The registered suffixes, in the order of their registration.
    pub open spec fn suffixes(&self) -> Seq<Seq<char>> {
        suffixes_of(self.services@)
    }

    /// No suffix is registered twice.
    pub open spec fn distinct_suffixes(&self) -> bool {
        forall|i: int, j: int|
            0 <= i < j < self.services@.len() ==> self.services@[i].suffix@
                != self.services@[j].suffix@
    }

    /// What the service at `index` was asked for question `k` of `request`, and
    /// whether it may have said `answer`.
    pub open spec fn admits(
        &self,
        index: int,
        request: RequestView,
        k: int,
        answer: AnswerView,
    ) -> bool {
        self.services@[index].service.may_answer(
            request,
            request.queries[k].name,
            request.queries[k].query_type,
            cleaned_argument(
                request.queries[k].name,
                self.services@[index].suffix@,
                self.domain@,
            ),
            answer,
        )
    }

    /// `answers` holds, for each question of `request` that was put to the
    /// service at `index`, an answer that the service may give to it. A
    /// question is put to the service where its type is forwarded and no
    /// earlier question has failed.
    pub open spec fn answers_admitted(
        &self,
        index: int,
        request: RequestView,
        answers: Seq<AnswerView>,
    ) -> bool {
        &&& answers.len() == request.queries.len()
        &&& forall|k: int|
            0 <= k < answers.len() && forwards(request.queries[k].query_type) && batch_outcome(
                request.queries.take(k),
                answers.take(k),
            ) is Ok ==> #[trigger] self.admits(index, request, k, answers[k])
    }

    /// `response` is what the service at `index` may answer `request` with:
    /// no request but a standard query is answered, nor one with more than
    /// [`MAX_QUESTIONS`] questions; any other comes to the
    /// [`batch_outcome`] of answers that the service may give.
    pub open spec fn is_service_response(
        &self,
        index: int,
        request: RequestView,
        response: ResponseView,
    ) -> bool {
        if request.op_code != OpCode::Query {
            response == Err::<Seq<RecordView>, QueryErrorView>(QueryErrorView::NotAQuery)
        } else if request.queries.len() > MAX_QUESTIONS {
            response == Err::<Seq<RecordView>, QueryErrorView>(QueryErrorView::TooManyQuestions)
        } else {
            exists|answers: Seq<AnswerView>|
                #![auto]
                self.answers_admitted(index, request, answers) && response == batch_outcome(
                    request.queries,
                    answers,
                )
        }
    }

    /// `response` is what `request` may be answered with. A request without
    /// a question is an error. Otherwise the name of the first question
    /// decides, by [`route_of`]: the help records under that name; the
    /// answer of the matched service to the whole request; or the one record
    /// that sends the client to the help.
    pub open spec fn is_response(&self, request: RequestView, response: ResponseView) -> bool {
        if request.queries.len() == 0 {
            response == Err::<Seq<RecordView>, QueryErrorView>(QueryErrorView::EmptyRequest)
        } else {
            let name = request.queries[0].name;
            match route_of(self.suffixes(), self.domain@, name) {
                Route::Help => response == Ok::<Seq<RecordView>, QueryErrorView>(
                    renamed(self.help_records.deep_view(), name),
                ),
                Route::Service(index) => self.is_service_response(index as int, request, response),
                Route::Unknown => response == Ok::<Seq<RecordView>, QueryErrorView>(
                    seq![unknown_record(name, self.domain@)],
                ),
            }
        }
    }

    /// Where a request leads depends on nothing but the registered suffixes
    /// in their order, the domain and the name of the first question: two
    /// routers that agree in these answer alike to the question where a name
    /// leads.
    pub proof fn lemma_route_determined<T: Service>(
        &self,
        other: &DnsHandlers<T>,
        name: Seq<char>,
    )
        requires
            self.suffixes() == other.suffixes(),
            self.domain@ == other.domain@,
        ensures
            route_of(self.suffixes(), self.domain@, name) == route_of(
                other.suffixes(),
                other.domain@,
                name,
            ),
    {
    }

    /// The service at `index` has one answer at most to each question of
    /// `request`.
    pub open spec fn single_valued(&self, index: int, request: RequestView) -> bool {
        forall|k: int, x: AnswerView, y: AnswerView|
            #![trigger self.admits(index, request, k, x), self.admits(index, request, k, y)]
            self.admits(index, request, k, x) && self.admits(index, request, k, y) ==> x == y
    }

    /// Two batches of admitted answers come to the same as far as the
    /// service has one answer at most to each question.
    proof fn lemma_same_outcome(
        &self,
        index: int,
        request: RequestView,
        a: Seq<AnswerView>,
        b: Seq<AnswerView>,
        m: int,
    )
        requires
            self.single_valued(index, request),
            self.answers_admitted(index, request, a),
            self.answers_admitted(index, request, b),
            0 <= m <= request.queries.len(),
        ensures
            batch_outcome(request.queries.take(m), a.take(m)) == batch_outcome(
                request.queries.take(m),
                b.take(m),
            ),
        decreases m,
    {
        if m > 0 {
            self.lemma_same_outcome(index, request, a, b, m - 1);
            let questions = request.queries;
            assert(questions.take(m).drop_last() =~= questions.take(m - 1));
            assert(a.take(m).drop_last() =~= a.take(m - 1));
            assert(b.take(m).drop_last() =~= b.take(m - 1));
            assert(questions.take(m).last() == questions[m - 1]);
            if forwards(questions[m - 1].query_type) && batch_outcome(
                questions.take(m - 1),
                a.take(m - 1),
            ) is Ok {
                assert(self.admits(index, request, m - 1, a[m - 1]));
                assert(self.admits(index, request, m - 1, b[m - 1]));
            }
        }
    }

    /// A service that has one answer at most to each question answers a
    /// request in one way only.
    pub proof fn lemma_response_determined(
        &self,
        index: int,
        request: RequestView,
        first: ResponseView,
        second: ResponseView,
    )
        requires
            self.single_valued(index, request),
            self.is_service_response(index, request, first),
            self.is_service_response(index, request, second),
        ensures
            first == second,
    {
        if request.op_code == OpCode::Query && request.queries.len() <= MAX_QUESTIONS {
            let a = choose|answers: Seq<AnswerView>|
                #![auto]
                self.answers_admitted(index, request, answers) && first == batch_outcome(
                    request.queries,
                    answers,
                );
            let b = choose|answers: Seq<AnswerView>|
                #![auto]
                self.answers_admitted(index, request, answers) && second == batch_outcome(
                    request.queries,
                    answers,
                );
            let n = request.queries.len() as int;
            self.lemma_same_outcome(index, request, a, b, n);
            assert(request.queries.take(n) =~= request.queries);
            assert(a.take(n) =~= a);
            assert(b.take(n) =~= b);
        }
    }

    /// A standard query with more than [`MAX_QUESTIONS`] questions, whose
    /// first name belongs to a service, is answered with the error
    /// `TooManyQuestions` and with nothing else.
    pub proof fn lemma_batch_limit(&self, request: RequestView, response: ResponseView)
        requires
            self.is_response(request, response),
            request.queries.len() > MAX_QUESTIONS,
            request.op_code == OpCode::Query,
            route_of(self.suffixes(), self.domain@, request.queries[0].name) is Service,
        ensures
            response == Err::<Seq<RecordView>, QueryErrorView>(QueryErrorView::TooManyQuestions),
    {
    }

    /// A router for the authoritative domain `domain`, with its help records
    /// and no service yet.
    pub fn new(domain: String) -> (r: Self)
        ensures
            r.domain@ == domain@,
            r.services@.len() == 0,
            r.help_records.deep_view() == crate::services::help_records(domain@),
    {
        let help_records = crate::services::create_help_records(domain.as_str());
        DnsHandlers { services: Vec::new(), domain, help_records }
    }

    /// Registers `service` under `suffix`. It takes the place of the service
    /// that was registered under `suffix` before, if there was one, and else
    /// comes last.
    pub fn register(&mut self, suffix: String, service: S)
        ensures
            final(self).domain == old(self).domain,
            final(self).help_records == old(self).help_records,
            final(self).services@ == registered(
                old(self).services@,
                Registered { suffix, service },
            ),
            old(self).distinct_suffixes() ==> final(self).distinct_suffixes(),
    {
        let wanted = chars_of(suffix.as_str());
        let ghost suffixes = self.suffixes();
        let ghost holds = equals_at(suffixes, suffix@);
        let mut i: usize = 0;
        while i < self.services.len()
            invariant
                i <= self.services.len(),
                *self == *old(self),
                suffixes == self.suffixes(),
                holds == equals_at(suffixes, suffix@),
                wanted@ == suffix@,
                forall|j: int| 0 <= j < i ==> !(#[trigger] holds(j)),
            decreases self.services.len() - i,
        {
            let here = chars_of(self.services[i].suffix.as_str());
            if same_chars(&here, &wanted) {
                proof {
                    assert(holds(i as int));
                    lemma_first_index_is(suffixes.len() as int, holds, i as int);
                }
                self.services.set(i, Registered { suffix, service });
                return ;
            }
            assert(!holds(i as int));
            i += 1;
        }
        proof {
            lemma_first_index_none(suffixes.len() as int, holds);
            assert forall|j: int| 0 <= j < suffixes.len() implies suffixes[j] != suffix@ by {
                assert(!holds(j));
            }
        }
        self.services.push(Registered { suffix, service });
        proof {
            if old(self).distinct_suffixes() {
                assert forall|a: int, b: int| 0 <= a < b < self.services@.len() implies self.services@[a].suffix@
                    != self.services@[b].suffix@ by {
                    if b == self.services@.len() - 1 {
                        assert(suffixes[a] != suffix@);
                    } else {
                        assert(old(self).services@[a].suffix@ != old(self).services@[b].suffix@);
                    }
                }
            }
        }
    }

    /// Where a queried name leads: see [`route_of`].
    pub fn route(&self, query_name: &str) -> (r: Route)
        ensures
            r == route_of(self.suffixes(), self.domain@, query_name@),
    {
        let name = chars_of(query_name);
        let domain = chars_of(self.domain.as_str());
        let dot = chars_of(".");
        let mut help = chars_of("help.");
        extend_chars(&mut help, &domain);
        extend_chars(&mut help, &dot);
        if chars_end_with(&name, &help) {
            return Route::Help;
        }
        let ghost suffixes = self.suffixes();
        let ghost holds = matches_at(suffixes, self.domain@, query_name@);
        let mut i: usize = 0;
        while i < self.services.len()
            invariant
                i <= self.services.len(),
                suffixes == self.suffixes(),
                holds == matches_at(suffixes, self.domain@, query_name@),
                name@ == query_name@,
                domain@ == self.domain@,
                dot@ == "."@,
                !ends_with(query_name@, help_pattern(self.domain@)),
                forall|j: int| 0 <= j < i ==> !(#[trigger] holds(j)),
            decreases self.services.len() - i,
        {
            let suffix = chars_of(self.services[i].suffix.as_str());
            let mut bare = suffix.clone();
            extend_chars(&mut bare, &dot);
            extend_chars(&mut bare, &domain);
            extend_chars(&mut bare, &dot);
            let mut dotted = dot.clone();
            extend_chars(&mut dotted, &bare);
            proof {
                assert(bare@ =~= bare_suffix(suffixes[i as int], self.domain@) + "."@);
                assert(dotted@ =~= dotted_suffix(suffixes[i as int], self.domain@) + "."@);
            }
            if chars_end_with(&name, &dotted) || chars_end_with(&name, &bare) {
                proof {
                    assert(holds(i as int));
                    lemma_first_index_is(suffixes.len() as int, holds, i as int);
                }
                return Route::Service(i);
            }
            assert(!holds(i as int));
            i += 1;
        }
        proof {
            lemma_first_index_none(suffixes.len() as int, holds);
        }
        Route::Unknown
    }

    /// The argument that `name` hands to the service at `index`: see
    /// [`cleaned_argument`].
    fn clean_argument(&self, index: usize, name: &str) -> (r: String)
        requires
            index < self.services@.len(),
        ensures
            r@ == cleaned_argument(name@, self.services@[index as int].suffix@, self.domain@),
    {
        let name = chars_of(name);
        let dot = chars_of(".");
        let mut bare = chars_of(self.services[index].suffix.as_str());
        extend_chars(&mut bare, &dot);
        extend_chars(&mut bare, &chars_of(self.domain.as_str()));
        let mut dotted = dot.clone();
        extend_chars(&mut dotted, &bare);
        proof {
            assert(bare@ =~= bare_suffix(self.services@[index as int].suffix@, self.domain@));
            assert(dotted@ =~= dotted_suffix(self.services@[index as int].suffix@, self.domain@));
        }
        let mut trimmed = name.clone();
        trim_end_char_in_place(&mut trimmed, '.');
        let out = if chars_end_with(&trimmed, &dotted) {
            clean_chars(&name, &dotted)
        } else {
            clean_chars(&name, &bare)
        };
        string_of(&out)
    }

    /// Puts the questions of `request` to the service at `index` and gathers
    /// its answers: see [`Self::is_service_response`].
    pub fn serve(&self, request: &Request, index: usize) -> (r: Response)
        requires
            index < self.services@.len(),
        ensures
            self.is_service_response(index as int, request@, response_view(r)),
    {
        if request.op_code != OpCode::Query {
            return Err(QueryError::NotAQuery);
        }
        if request.queries.len() > MAX_QUESTIONS {
            return Err(QueryError::TooManyQuestions);
        }
        let n: usize = request.queries.len();
        let ghost questions = request@.queries;
        let mut out: Vec<Record> = Vec::new();
        let ghost mut answers: Seq<AnswerView> = Seq::empty();
        let mut k: usize = 0;
        proof {
            assert(questions.take(0) =~= Seq::<QueryView>::empty());
            assert(out.deep_view() =~= Seq::<RecordView>::empty());
        }
        while k < n
            invariant
                k <= n,
                n == request.queries.len(),
                n <= MAX_QUESTIONS,
                request.op_code == OpCode::Query,
                questions == request@.queries,
                index < self.services@.len(),
                answers.len() == k,
                batch_outcome(questions.take(k as int), answers) == Ok::<
                    Seq<RecordView>,
                    QueryErrorView,
                >(out.deep_view()),
                forall|j: int|
                    0 <= j < k && forwards(questions[j].query_type) && batch_outcome(
                        questions.take(j),
                        answers.take(j),
                    ) is Ok ==> #[trigger] self.admits(index as int, request@, j, answers[j]),
            decreases n - k,
        {
            let question = &request.queries[k];
            let ghost before = answers;
            let ghost gathered = out.deep_view();
            assert(questions[k as int] == question@);
            proof {
                assert(questions.take(k + 1).drop_last() =~= questions.take(k as int));
            }
            match question.query_type {
                RecordType::TXT | RecordType::A => {
                    let cleaned = self.clean_argument(index, question.name.as_str());
                    let answer = self.services[index].service.query(
                        request,
                        question.name.as_str(),
                        question.query_type,
                        cleaned.as_str(),
                    );
                    proof {
                        answers = before.push(answer_view(answer));
                        assert(answers.drop_last() =~= before);
                        assert(answers.take(k as int) =~= before);
                        assert(self.admits(index as int, request@, k as int, answers[k as int]));
                        assert forall|j: int|
                            0 <= j < k + 1 && forwards(questions[j].query_type) && batch_outcome(
                                questions.take(j),
                                answers.take(j),
                            ) is Ok implies #[trigger] self.admits(
                            index as int,
                            request@,
                            j,
                            answers[j],
                        ) by {
                            if j < k {
                                assert(answers.take(j) =~= before.take(j));
                                assert(answers[j] == before[j]);
                            }
                        }
                    }
                    match answer {
                        Err(failure) => {
                            proof {
                                let rest = Seq::new(
                                    (n - k - 1) as nat,
                                    |i: int| Ok::<Option<Seq<RecordView>>, Seq<char>>(None),
                                );
                                let all = answers + rest;
                                let failed = Err::<Seq<RecordView>, QueryErrorView>(
                                    QueryErrorView::ServiceFailure(failure.message@),
                                );
                                assert(answers.last() == answer_view(answer));
                                assert(batch_outcome(questions.take(k + 1), answers) == failed);
                                assert(all.take(k + 1) =~= answers);
                                assert(questions.take(n as int) =~= questions);
                                assert(all.take(n as int) =~= all);
                                lemma_batch_failure_stays(questions, all, k + 1, n as int);
                                assert forall|j: int|
                                    0 <= j < all.len() && forwards(questions[j].query_type)
                                        && batch_outcome(questions.take(j), all.take(j))
                                        is Ok implies #[trigger] self.admits(
                                    index as int,
                                    request@,
                                    j,
                                    all[j],
                                ) by {
                                    if j <= k {
                                        assert(all.take(j) =~= answers.take(j));
                                        assert(all[j] == answers[j]);
                                    } else {
                                        lemma_batch_failure_stays(questions, all, k + 1, j);
                                    }
                                }
                                assert(self.answers_admitted(index as int, request@, all));
                                assert(batch_outcome(questions, all) == failed);
                            }
                            return Err(QueryError::ServiceFailure(failure));
                        },
                        Ok(None) => {},
                        Ok(Some(records)) => {
                            append_answer(&mut out, question.name.as_str(), records);
                        },
                    }
                },
                _ => {
                    proof {
                        answers = before.push(Ok(None));
                        assert(answers.drop_last() =~= before);
                        assert forall|j: int|
                            0 <= j < k + 1 && forwards(questions[j].query_type) && batch_outcome(
                                questions.take(j),
                                answers.take(j),
                            ) is Ok implies #[trigger] self.admits(
                            index as int,
                            request@,
                            j,
                            answers[j],
                        ) by {
                            if j < k {
                                assert(answers.take(j) =~= before.take(j));
                                assert(answers[j] == before[j]);
                            }
                        }
                    }
                },
            }
            k += 1;
        }
        proof {
            assert(questions.take(n as int) =~= questions);
            assert(self.answers_admitted(index as int, request@, answers));
        }
        Ok(out)
    }

    /// Answers `request` from the service registered under `suffix`: see
    /// [`Self::is_service_response`]. Where no service is registered under
    /// `suffix`, a request that passes the two checks is answered with no
    /// record.
    pub fn process_service_request(&self, request: &Request, suffix: &str) -> (r: Response)
        ensures
            match position(self.suffixes(), suffix@) {
                Some(index) => self.is_service_response(index, request@, response_view(r)),
                None => response_view(r) == if request.op_code != OpCode::Query {
                    Err::<Seq<RecordView>, QueryErrorView>(QueryErrorView::NotAQuery)
                } else if request.queries.len() > MAX_QUESTIONS {
                    Err(QueryErrorView::TooManyQuestions)
                } else {
                    Ok(Seq::empty())
                },
            },
    {
        let wanted = chars_of(suffix);
        let ghost suffixes = self.suffixes();
        let ghost holds = equals_at(suffixes, suffix@);
        let mut i: usize = 0;
        while i < self.services.len()
            invariant
                i <= self.services.len(),
                suffixes == self.suffixes(),
                holds == equals_at(suffixes, suffix@),
                wanted@ == suffix@,
                forall|j: int| 0 <= j < i ==> !(#[trigger] holds(j)),
            decreases self.services.len() - i,
        {
            let here = chars_of(self.services[i].suffix.as_str());
            if same_chars(&here, &wanted) {
                proof {
                    assert(holds(i as int));
                    lemma_first_index_is(suffixes.len() as int, holds, i as int);
                }
                return self.serve(request, i);
            }
            assert(!holds(i as int));
            i += 1;
        }
        proof {
            lemma_first_index_none(suffixes.len() as int, holds);
        }
        if request.op_code != OpCode::Query {
            return Err(QueryError::NotAQuery);
        }
        if request.queries.len() > MAX_QUESTIONS {
            return Err(QueryError::TooManyQuestions);
        }
        let none: Vec<Record> = Vec::new();
        assert(none.deep_view() =~= Seq::<RecordView>::empty());
        Ok(none)
    }

    /// Answers a request: see [`Self::is_response`].
    pub fn process_dns_query(&self, request: &Request) -> (r: Response)
        ensures
            self.is_response(request@, response_view(r)),
    {
        if request.queries.len() == 0 {
            return Err(QueryError::EmptyRequest);
        }
        let query_name = request.queries[0].name.as_str();
        assert(request@.queries[0].name == query_name@);
        match self.route(query_name) {
            Route::Help => Ok(self.handle_help_query(query_name)),
            Route::Service(index) => {
                proof {
                    lemma_first_index(
                        self.suffixes().len() as int,
                        matches_at(self.suffixes(), self.domain@, query_name@),
                    );
                }
                self.serve(request, index)
            },
            Route::Unknown => {
                let mut records: Vec<Record> = Vec::new();
                records.push(self.handle_default_query(query_name));
                assert(records.deep_view() =~= seq![unknown_record(query_name@, self.domain@)]);
                Ok(records)
            },
        }
    }

    /// Cuts the argument out of a queried name: see [`cleaned`].
    pub fn clean_query(query: &str, suffix: &str) -> (r: String)
        ensures
            r@ == cleaned(query@, suffix@),
    {
        let q = chars_of(query);
        let s = chars_of(suffix);
        let out = clean_chars(&q, &s);
        string_of(&out)
    }

    /// One text record for each answer, under the root name and cacheable for
    /// a minute.
    pub fn create_response(answers: Vec<String>) -> (r: Vec<Record>)
        ensures
            r.deep_view() == Seq::new(
                answers@.len(),
                |i: int| txt_record("."@, RESPONSE_TTL, answers@[i]@),
            ),
    {
        let mut records: Vec<Record> = Vec::new();
        for answer in it: answers
            invariant
                it.seq() == answers@,
                records.deep_view() == Seq::new(
                    it.index() as nat,
                    |i: int| txt_record("."@, RESPONSE_TTL, answers@[i]@),
                ),
        {
            let ghost done = records.deep_view();
            let record = Record::txt(String::from_str("."), RESPONSE_TTL, answer);
            records.push(record);
            assert(records.deep_view() =~= done.push(record@));
            assert(records.deep_view() =~= Seq::new(
                (it.index() + 1) as nat,
                |i: int| txt_record("."@, RESPONSE_TTL, answers@[i]@),
            ));
        }
        records
    }

    /// The record that reports an error to the client: a text record under
    /// the queried name, cacheable for a second only.
    pub fn create_error_response(query_name: &str, error_msg: &str) -> (r: Record)
        ensures
            r@ == txt_record(query_name@, ERROR_TTL, error_text(error_msg@)),
    {
        let mut text = String::from_str("error: ");
        text.append(error_msg);
        Record::txt(String::from_str(query_name), ERROR_TTL, text)
    }

    /// The record that answers a name that leads nowhere: it sends the client
    /// to the help.
    pub fn handle_default_query(&self, query_name: &str) -> (r: Record)
        ensures
            r@ == unknown_record(query_name@, self.domain@),
    {
        let mut msg = String::from_str("unknown query, try: dig help @");
        msg.append(self.domain.as_str());
        Self::create_error_response(query_name, msg.as_str())
    }

    /// The help records, each under the queried name.
    pub fn handle_help_query(&self, query_name: &str) -> (r: Vec<Record>)
        ensures
            r.deep_view() == renamed(self.help_records.deep_view(), query_name@),
    {
        let mut records: Vec<Record> = Vec::new();
        let mut i: usize = 0;
        while i < self.help_records.len()
            invariant
                i <= self.help_records.len(),
                records.deep_view() == renamed(
                    self.help_records.deep_view().take(i as int),
                    query_name@,
                ),
            decreases self.help_records.len() - i,
        {
            let ghost done = records.deep_view();
            let mut record = self.help_records[i].clone();
            record.name = String::from_str(query_name);
            records.push(record);
            assert(records.deep_view() =~= done.push(record@));
            assert(records.deep_view() =~= renamed(
                self.help_records.deep_view().take(i + 1),
                query_name@,
            ));
            i += 1;
        }
        assert(self.help_records.deep_view().take(i as int) =~= self.help_records.deep_view());
        records
    }
}

} // verus!
