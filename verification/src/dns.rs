//! Requests and resource records as the router and the services see them.

use vstd::prelude::*;

verus! {

/// The type of record that a question asks for.
#[derive(Clone, Copy, Debug, PartialEq, Eq, Structural)]
pub enum RecordType {
    /// An IPv4 address.
    A,
    /// An IPv6 address.
    AAAA,
    /// Text.
    TXT,
    /// Any other type, by its number.
    Other(u16),
}

/// The operation that a request asks for.
#[derive(Clone, Copy, Debug, PartialEq, Eq, Structural)]
pub enum OpCode {
    /// A standard query.
    Query,
    /// A server status request.
    Status,
    /// A zone change notification.
    Notify,
    /// A dynamic update.
    Update,
    /// Any other operation, by its number.
    Unknown(u8),
}

/// The payload of a resource record.
#[derive(Debug, PartialEq, Eq)]
pub enum RData {
    /// One text string.
    TXT(String),
    /// The four octets of an IPv4 address.
    A(u8, u8, u8, u8),
    /// The eight segments of an IPv6 address.
    AAAA(u16, u16, u16, u16, u16, u16, u16, u16),
}

/// The mathematical value of an [`RData`].
pub enum RDataView {
    TXT(Seq<char>),
    A(u8, u8, u8, u8),
    AAAA(u16, u16, u16, u16, u16, u16, u16, u16),
}

impl View for RData {
    type V = RDataView;

    open spec fn view(&self) -> RDataView {
        match *self {
            RData::TXT(text) => RDataView::TXT(text@),
            RData::A(a, b, c, d) => RDataView::A(a, b, c, d),
            RData::AAAA(a, b, c, d, e, f, g, h) => RDataView::AAAA(a, b, c, d, e, f, g, h),
        }
    }
}

impl Clone for RData {
    fn clone(&self) -> (r: Self)
        ensures
            r@ == self@,
    {
        match self {
            RData::TXT(text) => RData::TXT(text.clone()),
            RData::A(a, b, c, d) => RData::A(*a, *b, *c, *d),
            RData::AAAA(a, b, c, d, e, f, g, h) => RData::AAAA(*a, *b, *c, *d, *e, *f, *g, *h),
        }
    }
}

/// A resource record: the name it answers for, how long it may be cached, in
/// seconds, and its payload.
#[derive(Debug, PartialEq, Eq)]
pub struct Record {
    pub name: String,
    pub ttl: u32,
    pub data: RData,
}

/// The mathematical value of a [`Record`].
pub struct RecordView {
    pub name: Seq<char>,
    pub ttl: u32,
    pub data: RDataView,
}

impl View for Record {
    type V = RecordView;

    open spec fn view(&self) -> RecordView {
        RecordView { name: self.name@, ttl: self.ttl, data: self.data@ }
    }
}

impl DeepView for Record {
    type V = RecordView;

    open spec fn deep_view(&self) -> RecordView {
        self@
    }
}

impl Clone for Record {
    fn clone(&self) -> (r: Self)
        ensures
            r@ == self@,
    {
        Record { name: self.name.clone(), ttl: self.ttl, data: self.data.clone() }
    }
}

impl Record {
    /// A text record.
    pub fn txt(name: String, ttl: u32, text: String) -> (r: Record)
        ensures
            r@ == txt_record(name@, ttl, text@),
    {
        Record { name, ttl, data: RData::TXT(text) }
    }
}

/// The text record with the given name, time to live and text.
pub open spec fn txt_record(name: Seq<char>, ttl: u32, text: Seq<char>) -> RecordView {
    RecordView { name, ttl, data: RDataView::TXT(text) }
}

/// The records of `records`, each under the name `name`.
pub open spec fn renamed(records: Seq<RecordView>, name: Seq<char>) -> Seq<RecordView> {
    Seq::new(records.len(), |i: int| RecordView { name, ..records[i] })
}

/// One question of a request.
#[derive(Debug, PartialEq, Eq)]
pub struct Query {
    /// The queried name, in its absolute textual form with the final dot.
    pub name: String,
    /// The type of record asked for.
    pub query_type: RecordType,
}

/// The mathematical value of a [`Query`].
pub struct QueryView {
    pub name: Seq<char>,
    pub query_type: RecordType,
}

impl View for Query {
    type V = QueryView;

    open spec fn view(&self) -> QueryView {
        QueryView { name: self.name@, query_type: self.query_type }
    }
}

impl DeepView for Query {
    type V = QueryView;

    open spec fn deep_view(&self) -> QueryView {
        self@
    }
}

/// The network address that a request came from.
#[derive(Debug, PartialEq, Eq)]
pub enum SourceAddr {
    /// An IPv4 address, by its four octets.
    V4(u8, u8, u8, u8),
    /// An IPv6 address, in its textual form.
    V6(String),
}

/// The mathematical value of a [`SourceAddr`].
pub enum SourceAddrView {
    V4(u8, u8, u8, u8),
    V6(Seq<char>),
}

impl View for SourceAddr {
    type V = SourceAddrView;

    open spec fn view(&self) -> SourceAddrView {
        match *self {
            SourceAddr::V4(a, b, c, d) => SourceAddrView::V4(a, b, c, d),
            SourceAddr::V6(text) => SourceAddrView::V6(text@),
        }
    }
}

/// A parsed request: its questions, its operation and where it came from.
#[derive(Debug, PartialEq, Eq)]
pub struct Request {
    pub queries: Vec<Query>,
    pub op_code: OpCode,
    pub src: SourceAddr,
}

/// The mathematical value of a [`Request`].
pub struct RequestView {
    pub queries: Seq<QueryView>,
    pub op_code: OpCode,
    pub src: SourceAddrView,
}

impl View for Request {
    type V = RequestView;

    open spec fn view(&self) -> RequestView {
        RequestView {
            queries: self.queries.deep_view(),
            op_code: self.op_code,
            src: self.src@,
        }
    }
}

/// Why a service could not compute its answer.
#[derive(Debug, PartialEq, Eq)]
pub struct ServiceFailure {
    pub message: String,
}

/// What a service says to one question: records, possibly none; `None` where
/// it has no answer for the question and its type; or a failure.
pub type Answer = Result<Option<Vec<Record>>, ServiceFailure>;

/// The mathematical value of an [`Answer`]; a failure is its message.
pub type AnswerView = Result<Option<Seq<RecordView>>, Seq<char>>;

/// The value of an answer.
pub open spec fn answer_view(answer: Answer) -> AnswerView {
    match answer {
        Ok(Some(records)) => Ok(Some(records.deep_view())),
        Ok(None) => Ok(None),
        Err(failure) => Err(failure.message@),
    }
}

} // verus!
