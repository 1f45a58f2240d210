//! The decoder of DNS messages: the header, the question section and, as
//! far as answers are simple back-pointers to the question, the answers.
//!
//! Every function here is total: bytes that end too early give a
//! `FormatError`, whatever they hold.
use vstd::prelude::*;
use crate::address::{address, address_text};
use crate::text::{byte_char, string_of};

verus! {

/// The bytes are not a DNS message: they end before a field that the
/// decoder has to read.
#[derive(Debug, Clone, Copy, PartialEq, Eq, Structural)]
pub struct FormatError;

/// Whether a message asks or answers.
#[derive(Debug, Clone, Copy, PartialEq, Eq, Structural)]
pub enum Qr {
    Request,
    Response,
}

/// The kind of query.
#[derive(Debug, Clone, Copy, PartialEq, Eq, Structural)]
pub enum Opcode {
    StandardQuery,
    InverseQuery,
    Status,
    Reserved,
}

/// The outcome that a response reports.
#[derive(Debug, Clone, Copy, PartialEq, Eq, Structural)]
pub enum Rcode {
    NoError,
    Malformed,
    ServerFailure,
    NameError,
    NotImplemented,
    Refused,
    Reserved,
}

/// The twelve bytes at the start of every message, decoded.
#[derive(Debug, Clone, Copy, PartialEq, Eq, Structural)]
pub struct Header {
    pub id: u16,
    pub qr: Qr,
    pub opcode: Opcode,
    pub rcode: Rcode,
    pub qdcount: u16,
    pub ancount: u16,
    pub nscount: u16,
    pub arcount: u16,
}

/// The number of bytes of a header.
pub const HEADER_LEN: usize = 12;

/// The message inside a buffer: what stands from `offset` on. An offset
/// behind the end leaves an empty message.
pub open spec fn message_of(value: Seq<u8>, offset: int) -> Seq<u8> {
    if 0 <= offset <= value.len() {
        value.subrange(offset, value.len() as int)
    } else {
        Seq::empty()
    }
}

/// The 16-bit number whose high byte stands at `at` and whose low byte
/// follows it.
pub open spec fn word_at(b: Seq<u8>, at: int) -> u16 {
    (b[at] as int * 256 + b[at + 1] as int) as u16
}

/// The direction that the first flag byte gives: its highest bit.
pub open spec fn qr_of(flags: u8) -> Qr {
    if flags < 128 {
        Qr::Request
    } else {
        Qr::Response
    }
}

/// The kind of query that the first flag byte gives: the four bits below
/// its highest.
pub open spec fn opcode_of(flags: u8) -> Opcode {
    let code = (flags as int / 8) % 16;
    if code == 0 {
        Opcode::StandardQuery
    } else if code == 1 {
        Opcode::InverseQuery
    } else if code == 2 {
        Opcode::Status
    } else {
        Opcode::Reserved
    }
}

/// The outcome that the second flag byte gives: its four lowest bits.
pub open spec fn rcode_of(flags: u8) -> Rcode {
    let code = flags as int % 16;
    if code == 0 {
        Rcode::NoError
    } else if code == 1 {
        Rcode::Malformed
    } else if code == 2 {
        Rcode::ServerFailure
    } else if code == 3 {
        Rcode::NameError
    } else if code == 4 {
        Rcode::NotImplemented
    } else if code == 5 {
        Rcode::Refused
    } else {
        Rcode::Reserved
    }
}

/// The header of a message, where the message is long enough to hold one.
pub open spec fn header_of(b: Seq<u8>) -> Option<Header> {
    if b.len() < HEADER_LEN {
        None
    } else {
        Some(
            Header {
                id: word_at(b, 0),
                qr: qr_of(b[2]),
                opcode: opcode_of(b[2]),
                rcode: rcode_of(b[3]),
                qdcount: word_at(b, 4),
                ancount: word_at(b, 6),
                nscount: word_at(b, 8),
                arcount: word_at(b, 10),
            },
        )
    }
}

/// What a decoding step returns for a value that the message may or may
/// not hold.
pub open spec fn decoded_as<T>(found: Option<T>) -> Result<T, FormatError> {
    match found {
        Some(v) => Ok(v),
        None => Err(FormatError),
    }
}

impl Qr {
    /// The word for the direction.
    pub open spec fn text_spec(self) -> Seq<char> {
        match self {
            Qr::Request => "request"@,
            Qr::Response => "response"@,
        }
    }

    /// The word for the direction.
    pub fn text(&self) -> (s: &'static str)
        ensures
            s@ == self.text_spec(),
    {
        match self {
            Qr::Request => "request",
            Qr::Response => "response",
        }
    }
}

impl Opcode {
    /// The words for the kind of query.
    pub open spec fn text_spec(self) -> Seq<char> {
        match self {
            Opcode::StandardQuery => "standard query"@,
            Opcode::InverseQuery => "inverse query"@,
            Opcode::Status => "status query"@,
            Opcode::Reserved => "reserved"@,
        }
    }

    /// The words for the kind of query.
    pub fn text(&self) -> (s: &'static str)
        ensures
            s@ == self.text_spec(),
    {
        match self {
            Opcode::StandardQuery => "standard query",
            Opcode::InverseQuery => "inverse query",
            Opcode::Status => "status query",
            Opcode::Reserved => "reserved",
        }
    }
}

impl Rcode {
    /// The words for the outcome.
    pub open spec fn text_spec(self) -> Seq<char> {
        match self {
            Rcode::NoError => "no error"@,
            Rcode::Malformed => "format error"@,
            Rcode::ServerFailure => "server failure"@,
            Rcode::NameError => "name error"@,
            Rcode::NotImplemented => "not implemented"@,
            Rcode::Refused => "refused"@,
            Rcode::Reserved => "reserved"@,
        }
    }

    /// The words for the outcome.
    pub fn text(&self) -> (s: &'static str)
        ensures
            s@ == self.text_spec(),
    {
        match self {
            Rcode::NoError => "no error",
            Rcode::Malformed => "format error",
            Rcode::ServerFailure => "server failure",
            Rcode::NameError => "name error",
            Rcode::NotImplemented => "not implemented",
            Rcode::Refused => "refused",
            Rcode::Reserved => "reserved",
        }
    }
}

/// One entry of the question section.
#[derive(Debug, Clone, PartialEq, Eq)]
pub struct Question {
    pub name: String,
    pub qtype: u16,
    pub qclass: u16,
}

/// What a `Question` stands for.
pub struct QuestionView {
    pub name: Seq<char>,
    pub qtype: u16,
    pub qclass: u16,
}

impl View for Question {
    type V = QuestionView;

    open spec fn view(&self) -> QuestionView {
        QuestionView { name: self.name@, qtype: self.qtype, qclass: self.qclass }
    }
}

/// What a list of questions stands for.
pub open spec fn question_views(qs: Seq<Question>) -> Seq<QuestionView> {
    Seq::new(qs.len(), |i: int| qs[i]@)
}

/// The index behind the name that starts at `at`: behind the first label
/// of length zero that a walk from label to label meets. There is none
/// where the walk leaves the message first.
pub open spec fn name_end(b: Seq<u8>, at: int) -> Option<int>
    decreases b.len() - at,
{
    if at < 0 || at >= b.len() {
        None
    } else if b[at] == 0 {
        Some(at + 1)
    } else if at + 1 + b[at] as int >= b.len() {
        None
    } else {
        name_end(b, at + 1 + b[at] as int)
    }
}

/// The characters of the label whose length byte stands at `at`.
pub open spec fn label_text(b: Seq<u8>, at: int) -> Seq<char> {
    Seq::new(b[at] as nat, |i: int| byte_char(b[at + 1 + i]))
}

/// The labels from `at` on, each with a dot before it.
pub open spec fn name_tail(b: Seq<u8>, at: int) -> Seq<char>
    decreases b.len() - at,
{
    if at < 0 || at >= b.len() || b[at] == 0 {
        Seq::empty()
    } else if at + 1 + b[at] as int >= b.len() {
        seq!['.'] + label_text(b, at)
    } else {
        seq!['.'] + label_text(b, at) + name_tail(b, at + 1 + b[at] as int)
    }
}

/// The name that starts at `at`: its labels with a dot between each two.
pub open spec fn name_text(b: Seq<u8>, at: int) -> Seq<char> {
    if at < 0 || at >= b.len() || b[at] == 0 {
        Seq::empty()
    } else {
        label_text(b, at) + name_tail(b, at + 1 + b[at] as int)
    }
}

/// The question that starts at `at`, with the index behind it: a name,
/// then the type and the class, two bytes each.
pub open spec fn question_at(b: Seq<u8>, at: int) -> Option<(QuestionView, int)> {
    match name_end(b, at) {
        Some(end) => if end + 4 <= b.len() {
            Some(
                (
                    QuestionView {
                        name: name_text(b, at),
                        qtype: word_at(b, end),
                        qclass: word_at(b, end + 2),
                    },
                    end + 4,
                ),
            )
        } else {
            None
        },
        None => None,
    }
}

/// The first `count` questions behind the header, with the index behind
/// the last of them.
pub open spec fn questions_upto(b: Seq<u8>, count: nat) -> Option<(Seq<QuestionView>, int)>
    decreases count,
{
    if count == 0 {
        Some((Seq::empty(), HEADER_LEN as int))
    } else {
        match questions_upto(b, (count - 1) as nat) {
            Some((qs, at)) => match question_at(b, at) {
                Some((q, next)) => Some((qs.push(q), next)),
                None => None,
            },
            None => None,
        }
    }
}

/// The question section of a message, with the index behind it: as many
/// questions as the header counts.
pub open spec fn question_section(b: Seq<u8>) -> Option<(Seq<QuestionView>, int)> {
    match header_of(b) {
        Some(h) => questions_upto(b, h.qdcount as nat),
        None => None,
    }
}

/// The questions of a message.
pub open spec fn questions_of(b: Seq<u8>) -> Option<Seq<QuestionView>> {
    match question_section(b) {
        Some((qs, _)) => Some(qs),
        None => None,
    }
}

/// Once the questions cannot be decoded up to some count, they cannot be
/// decoded up to a higher one.
pub proof fn lemma_questions_fail_on(b: Seq<u8>, count: nat, more: nat)
    requires
        questions_upto(b, count) is None,
        count <= more,
    ensures
        questions_upto(b, more) is None,
    decreases more,
{
    if count < more {
        lemma_questions_fail_on(b, count, (more - 1) as nat);
    }
}

/// One decoded entry of the answer section: the text of an address, or a
/// mark that says why decoding stopped there.
#[derive(Debug, Clone, PartialEq, Eq)]
pub enum Answer {
    /// The address of an A or AAAA record, as text.
    Address(String),
    /// A CNAME record: the chain is not followed.
    Cname,
    /// A record of a type that is not decoded.
    UnknownType,
    /// An owner name that is written out instead of pointed to.
    NotPointer,
}

/// What an `Answer` stands for.
pub enum AnswerView {
    Address(Seq<char>),
    Cname,
    UnknownType,
    NotPointer,
}

impl View for Answer {
    type V = AnswerView;

    open spec fn view(&self) -> AnswerView {
        match self {
            Answer::Address(text) => AnswerView::Address(text@),
            Answer::Cname => AnswerView::Cname,
            Answer::UnknownType => AnswerView::UnknownType,
            Answer::NotPointer => AnswerView::NotPointer,
        }
    }
}

/// What a list of answers stands for.
pub open spec fn answer_views(list: Seq<Answer>) -> Seq<AnswerView> {
    Seq::new(list.len(), |i: int| list[i]@)
}

/// The record type of an IPv4 address.
pub const TYPE_A: u16 = 1;

/// The record type of an IPv6 address.
pub const TYPE_AAAA: u16 = 28;

/// The record type of an alias.
pub const TYPE_CNAME: u16 = 5;

/// What decoding one answer gives: an answer and the index of the next,
/// or an answer after which decoding stops.
pub enum Step {
    Next(AnswerView, int),
    Last(AnswerView),
}

/// The 14 bits behind the two high bits of a pointer whose first byte
/// stands at `at`.
pub open spec fn pointer_at(b: Seq<u8>, at: int) -> int {
    (b[at] as int % 64) * 256 + b[at + 1] as int
}

/// The answer whose owner name starts at `at`.
///
/// An owner name that does not start with a pointer (a byte with its two
/// high bits set) ends the decoding, and so does a record that is not an
/// address. For an address, the value of the pointer is taken as the
/// distance from `at` to the data: the two bytes before the data are its
/// length, and the next answer starts behind the data. There is no answer
/// where one of these bytes lies outside the message.
pub open spec fn answer_at(b: Seq<u8>, at: int) -> Option<Step> {
    if at < 0 || at >= b.len() {
        None
    } else if b[at] < 192 {
        Some(Step::Last(AnswerView::NotPointer))
    } else if at + 3 >= b.len() {
        None
    } else {
        let rtype = word_at(b, at + 2);
        if rtype == TYPE_A || rtype == TYPE_AAAA {
            let data = at + pointer_at(b, at);
            if data < 2 || data > b.len() {
                None
            } else {
                let end = data + word_at(b, data - 2) as int;
                if end > b.len() {
                    None
                } else {
                    Some(Step::Next(AnswerView::Address(address_text(b.subrange(data, end))), end))
                }
            }
        } else if rtype == TYPE_CNAME {
            Some(Step::Last(AnswerView::Cname))
        } else {
            Some(Step::Last(AnswerView::UnknownType))
        }
    }
}

/// How far the decoding of answers has come.
pub struct Progress {
    /// The answers so far.
    pub answers: Seq<AnswerView>,
    /// The index at which the next answer starts.
    pub cursor: int,
    /// Whether an answer has ended the decoding.
    pub done: bool,
}

/// The decoding of up to `count` answers from `start` on.
pub open spec fn answers_upto(b: Seq<u8>, start: int, count: nat) -> Option<Progress>
    decreases count,
{
    if count == 0 {
        Some(Progress { answers: Seq::empty(), cursor: start, done: false })
    } else {
        match answers_upto(b, start, (count - 1) as nat) {
            Some(p) => if p.done {
                Some(p)
            } else {
                match answer_at(b, p.cursor) {
                    Some(Step::Next(a, next)) => Some(
                        Progress { answers: p.answers.push(a), cursor: next, done: false },
                    ),
                    Some(Step::Last(a)) => Some(
                        Progress { answers: p.answers.push(a), cursor: p.cursor, done: true },
                    ),
                    None => None,
                }
            },
            None => None,
        }
    }
}

/// The answers of a message: as many as the header counts, from behind
/// the question section on, or fewer where one of them ends the decoding.
pub open spec fn answers_of(b: Seq<u8>) -> Option<Seq<AnswerView>> {
    match (header_of(b), question_section(b)) {
        (Some(h), Some((_, start))) => match answers_upto(b, start, h.ancount as nat) {
            Some(p) => Some(p.answers),
            None => None,
        },
        _ => None,
    }
}

/// Once the answers cannot be decoded up to some count, they cannot be
/// decoded up to a higher one.
pub proof fn lemma_answers_fail_on(b: Seq<u8>, start: int, count: nat, more: nat)
    requires
        answers_upto(b, start, count) is None,
        count <= more,
    ensures
        answers_upto(b, start, more) is None,
    decreases more,
{
    if count < more {
        lemma_answers_fail_on(b, start, count, (more - 1) as nat);
    }
}

/// Once an answer has ended the decoding, a higher count adds nothing.
pub proof fn lemma_answers_stay_done(b: Seq<u8>, start: int, count: nat, more: nat)
    requires
        answers_upto(b, start, count) is Some,
        answers_upto(b, start, count)->0.done,
        count <= more,
    ensures
        answers_upto(b, start, more) == answers_upto(b, start, count),
    decreases more,
{
    if count < more {
        lemma_answers_stay_done(b, start, count, (more - 1) as nat);
    }
}

/// The flag bits of a header: a message with the highest bit of its
/// first flag byte clear is a request, one with the bit set is a response,
/// and a message whose second flag byte has its four low bits clear
/// reports no error.
pub proof fn lemma_header_flags(b: Seq<u8>)
    requires
        b.len() >= HEADER_LEN,
    ensures
        header_of(b) matches Some(h) && (h.qr == Qr::Request <==> b[2] & 0x80 == 0) && (h.qr
            == Qr::Response <==> b[2] & 0x80 == 0x80) && (h.rcode == Rcode::NoError <==> b[3]
            & 0x0F == 0),
{
    let first: u8 = b[2];
    let second: u8 = b[3];
    assert((first & 0x80 == 0) == (first < 128)) by (bit_vector);
    assert((first & 0x80 == 0x80) == (first >= 128)) by (bit_vector);
    assert(second & 0x0F == second % 16) by (bit_vector);
}

/// A whole message, decoded: its header, its questions and its answers
/// as far as they are decoded.
#[derive(Debug, Clone, PartialEq, Eq)]
pub struct Message {
    pub header: Header,
    pub questions: Vec<Question>,
    pub answers: Vec<Answer>,
}

/// What a `Message` stands for.
pub struct MessageView {
    pub header: Header,
    pub questions: Seq<QuestionView>,
    pub answers: Seq<AnswerView>,
}

impl View for Message {
    type V = MessageView;

    open spec fn view(&self) -> MessageView {
        MessageView {
            header: self.header,
            questions: question_views(self.questions@),
            answers: answer_views(self.answers@),
        }
    }
}

/// The message that the bytes hold, where its header, its questions and
/// its answers can all be decoded.
pub open spec fn decoded_message(b: Seq<u8>) -> Option<MessageView> {
    match (header_of(b), questions_of(b), answers_of(b)) {
        (Some(header), Some(questions), Some(answers)) => Some(
            MessageView { header, questions, answers },
        ),
        _ => None,
    }
}

/// A view on the DNS message that a buffer holds from some offset on.
pub struct DNS<'a> {
    value: &'a [u8],
    offset: usize,
}

impl<'a> View for DNS<'a> {
    type V = Seq<u8>;

    /// The bytes of the message.
    closed spec fn view(&self) -> Seq<u8> {
        message_of(self.value@, self.offset as int)
    }
}

impl<'a> DNS<'a> {
    /// The message that `value` holds from `offset` on.
    pub fn with(value: &'a [u8], offset: usize) -> (dns: Self)
        ensures
            dns@ == message_of(value@, offset as int),
    {
        Self { value, offset }
    }

    /// The number of bytes of the message, and how they lie in the buffer.
    fn extent(&self) -> (n: usize)
        ensures
            n == self@.len(),
            n > 0 ==> self.offset + n == self.value@.len(),
            self.value@.len() <= usize::MAX,
            forall|i: int| 0 <= i < n ==> self@[i] == self.value@[self.offset + i],
    {
        if self.offset <= self.value.len() {
            self.value.len() - self.offset
        } else {
            0
        }
    }

    /// The number of bytes of the message.
    pub fn len(&self) -> (n: usize)
        ensures
            n == self@.len(),
    {
        self.extent()
    }

    /// The byte at index `at` of the message.
    pub fn byte(&self, at: usize) -> (r: Result<u8, FormatError>)
        ensures
            r == if at < self@.len() {
                Ok::<u8, FormatError>(self@[at as int])
            } else {
                Err::<u8, FormatError>(FormatError)
            },
    {
        if at < self.extent() {
            Ok(self.value[self.offset + at])
        } else {
            Err(FormatError)
        }
    }

    /// The 16-bit number at index `at` of the message, high byte first.
    pub fn word(&self, at: usize) -> (r: Result<u16, FormatError>)
        ensures
            r == if at + 1 < self@.len() {
                Ok::<u16, FormatError>(word_at(self@, at as int))
            } else {
                Err::<u16, FormatError>(FormatError)
            },
    {
        let n: usize = self.extent();
        if n >= 2 && at < n - 1 {
            let hi: u8 = self.value[self.offset + at];
            let lo: u8 = self.value[self.offset + at + 1];
            Ok(hi as u16 * 256 + lo as u16)
        } else {
            Err(FormatError)
        }
    }

    /// The byte at index `at`, which lies inside the message.
    pub(crate) fn byte_in(&self, at: usize) -> (v: u8)
        requires
            at < self@.len(),
        ensures
            v == self@[at as int],
    {
        let n: usize = self.extent();
        self.value[self.offset + at]
    }

    /// The 16-bit number at index `at`, which lies inside the message.
    fn word_in(&self, at: usize) -> (v: u16)
        requires
            at + 1 < self@.len(),
        ensures
            v == word_at(self@, at as int),
    {
        let n: usize = self.extent();
        let hi: u8 = self.value[self.offset + at];
        let lo: u8 = self.value[self.offset + at + 1];
        hi as u16 * 256 + lo as u16
    }

    /// The bytes from `from` up to `to`, which lie inside the message.
    fn part(&self, from: usize, to: usize) -> (r: &[u8])
        requires
            from <= to <= self@.len(),
        ensures
            r@ == self@.subrange(from as int, to as int),
    {
        let n: usize = self.extent();
        if n == 0 {
            let r = &self.value[0..0];
            assert(r@ =~= self@.subrange(from as int, to as int));
            r
        } else {
            let r = &self.value[self.offset + from..self.offset + to];
            assert(r@ =~= self@.subrange(from as int, to as int));
            r
        }
    }

    /// The header of the message. It fails where the message is shorter
    /// than a header, and only there.
    pub fn header(&self) -> (r: Result<Header, FormatError>)
        ensures
            r == decoded_as(header_of(self@)),
    {
        if self.extent() < HEADER_LEN {
            return Err(FormatError);
        }
        let flags: u8 = self.value[self.offset + 2];
        let status: u8 = self.value[self.offset + 3];
        let qr = if flags >> 7 == 0 {
            Qr::Request
        } else {
            Qr::Response
        };
        let opcode = match (flags & 0b0111_1000) >> 3 {
            0 => Opcode::StandardQuery,
            1 => Opcode::InverseQuery,
            2 => Opcode::Status,
            _ => Opcode::Reserved,
        };
        let rcode = match status & 0b0000_1111 {
            0 => Rcode::NoError,
            1 => Rcode::Malformed,
            2 => Rcode::ServerFailure,
            3 => Rcode::NameError,
            4 => Rcode::NotImplemented,
            5 => Rcode::Refused,
            _ => Rcode::Reserved,
        };
        assert((flags >> 7 == 0) == (flags < 128)) by (bit_vector);
        assert((flags & 0b0111_1000) >> 3 == (flags / 8) % 16) by (bit_vector);
        assert(status & 0b0000_1111 == status % 16) by (bit_vector);
        let id: u16 = self.value[self.offset] as u16 * 256 + self.value[self.offset + 1] as u16;
        let qdcount: u16 = self.value[self.offset + 4] as u16 * 256 + self.value[self.offset
            + 5] as u16;
        let ancount: u16 = self.value[self.offset + 6] as u16 * 256 + self.value[self.offset
            + 7] as u16;
        let nscount: u16 = self.value[self.offset + 8] as u16 * 256 + self.value[self.offset
            + 9] as u16;
        let arcount: u16 = self.value[self.offset + 10] as u16 * 256 + self.value[self.offset
            + 11] as u16;
        Ok(Header { id, qr, opcode, rcode, qdcount, ancount, nscount, arcount })
    }
    /// The transaction ID. It fails where the message is shorter than a
    /// header, and only there.
    pub fn id(&self) -> (r: Result<u16, FormatError>)
        ensures
            r == match header_of(self@) {
                Some(h) => Ok::<u16, FormatError>(h.id),
                None => Err::<u16, FormatError>(FormatError),
            },
    {
        match self.header() {
            Ok(h) => Ok(h.id),
            Err(e) => Err(e),
        }
    }

    /// Whether the message asks or answers. It fails where the message is
    /// shorter than a header, and only there.
    pub fn qr(&self) -> (r: Result<Qr, FormatError>)
        ensures
            r == match header_of(self@) {
                Some(h) => Ok::<Qr, FormatError>(h.qr),
                None => Err::<Qr, FormatError>(FormatError),
            },
    {
        match self.header() {
            Ok(h) => Ok(h.qr),
            Err(e) => Err(e),
        }
    }

    /// The kind of query. It fails where the message is shorter than a
    /// header, and only there.
    pub fn opcode(&self) -> (r: Result<Opcode, FormatError>)
        ensures
            r == match header_of(self@) {
                Some(h) => Ok::<Opcode, FormatError>(h.opcode),
                None => Err::<Opcode, FormatError>(FormatError),
            },
    {
        match self.header() {
            Ok(h) => Ok(h.opcode),
            Err(e) => Err(e),
        }
    }

    /// The outcome that the message reports. It fails where the message
    /// is shorter than a header, and only there.
    pub fn rcode(&self) -> (r: Result<Rcode, FormatError>)
        ensures
            r == match header_of(self@) {
                Some(h) => Ok::<Rcode, FormatError>(h.rcode),
                None => Err::<Rcode, FormatError>(FormatError),
            },
    {
        match self.header() {
            Ok(h) => Ok(h.rcode),
            Err(e) => Err(e),
        }
    }

    /// The number of questions that the header counts. It fails where the
    /// message is shorter than a header, and only there.
    pub fn qdcount(&self) -> (r: Result<u16, FormatError>)
        ensures
            r == match header_of(self@) {
                Some(h) => Ok::<u16, FormatError>(h.qdcount),
                None => Err::<u16, FormatError>(FormatError),
            },
    {
        match self.header() {
            Ok(h) => Ok(h.qdcount),
            Err(e) => Err(e),
        }
    }

    /// The number of answers that the header counts. It fails where the
    /// message is shorter than a header, and only there.
    pub fn ancount(&self) -> (r: Result<u16, FormatError>)
        ensures
            r == match header_of(self@) {
                Some(h) => Ok::<u16, FormatError>(h.ancount),
                None => Err::<u16, FormatError>(FormatError),
            },
    {
        match self.header() {
            Ok(h) => Ok(h.ancount),
            Err(e) => Err(e),
        }
    }

    /// The number of authority records that the header counts. It fails
    /// where the message is shorter than a header, and only there.
    pub fn nscount(&self) -> (r: Result<u16, FormatError>)
        ensures
            r == match header_of(self@) {
                Some(h) => Ok::<u16, FormatError>(h.nscount),
                None => Err::<u16, FormatError>(FormatError),
            },
    {
        match self.header() {
            Ok(h) => Ok(h.nscount),
            Err(e) => Err(e),
        }
    }

    /// The number of additional records that the header counts. It fails
    /// where the message is shorter than a header, and only there.
    pub fn arcount(&self) -> (r: Result<u16, FormatError>)
        ensures
            r == match header_of(self@) {
                Some(h) => Ok::<u16, FormatError>(h.arcount),
                None => Err::<u16, FormatError>(FormatError),
            },
    {
        match self.header() {
            Ok(h) => Ok(h.arcount),
            Err(e) => Err(e),
        }
    }

    /// The name that starts at index `at`, with the index behind it. It
    /// fails where the labels run past the end of the message, and only
    /// there. Pointers are not followed: every length byte counts as one.
    pub fn name(&self, at: usize) -> (r: Result<(String, usize), FormatError>)
        ensures
            match r {
                Ok((text, end)) => name_end(self@, at as int) == Some(end as int) && text@
                    == name_text(self@, at as int) && at < end <= self@.len(),
                Err(_) => name_end(self@, at as int) is None,
            },
    {
        let n: usize = self.extent();
        let mut chars: Vec<char> = Vec::new();
        let mut cur: usize = at;
        let mut first: bool = true;
        while cur < n
            invariant
                n == self@.len(),
                n > 0 ==> self.offset + n == self.value@.len(),
                self.value@.len() <= usize::MAX,
                forall|i: int| 0 <= i < n ==> self@[i] == self.value@[self.offset + i],
                at <= cur,
                name_end(self@, cur as int) == name_end(self@, at as int),
                first ==> cur == at && chars@ =~= Seq::<char>::empty(),
                !first ==> chars@ + name_tail(self@, cur as int) == name_text(self@, at as int),
            decreases n - cur,
        {
            let l: u8 = self.value[self.offset + cur];
            if l == 0 {
                proof {
                    assert(chars@ + Seq::<char>::empty() =~= chars@);
                }
                return Ok((string_of(&chars), cur + 1));
            }
            if l as usize >= n - cur - 1 {
                return Err(FormatError);
            }
            let ghost before = chars@;
            if !first {
                chars.push('.');
            }
            let ghost dotted = chars@;
            let mut k: usize = 0;
            while k < l as usize
                invariant
                    n == self@.len(),
                    n > 0 ==> self.offset + n == self.value@.len(),
                    self.value@.len() <= usize::MAX,
                    forall|i: int| 0 <= i < n ==> self@[i] == self.value@[self.offset + i],
                    cur + 1 + l < n,
                    l == self@[cur as int],
                    k <= l,
                    chars@ == dotted + label_text(self@, cur as int).take(k as int),
                decreases l - k,
            {
                let c: u8 = self.value[self.offset + cur + 1 + k];
                chars.push(c as char);
                assert(chars@ =~= dotted + label_text(self@, cur as int).take(k + 1));
                k += 1;
            }
            proof {
                let label = label_text(self@, cur as int);
                let next = cur + 1 + l;
                assert(label.take(k as int) =~= label);
                if first {
                    assert(chars@ =~= label);
                } else {
                    assert(before + (seq!['.'] + label + name_tail(self@, next)) =~= chars@
                        + name_tail(self@, next));
                }
            }
            cur = cur + 1 + l as usize;
            first = false;
        }
        Err(FormatError)
    }

    /// The question section: its questions in order, and the index behind
    /// it. It fails where the message is shorter than a header or a
    /// question runs past its end, and only there.
    pub fn questions(&self) -> (r: Result<(Vec<Question>, usize), FormatError>)
        ensures
            match r {
                Ok((qs, end)) => question_section(self@) == Some(
                    (question_views(qs@), end as int),
                ) && HEADER_LEN <= end <= self@.len(),
                Err(_) => question_section(self@) is None,
            },
    {
        let header = match self.header() {
            Ok(h) => h,
            Err(e) => {
                return Err(e);
            },
        };
        let count: u16 = header.qdcount;
        let mut list: Vec<Question> = Vec::new();
        let mut at: usize = HEADER_LEN;
        let mut i: u16 = 0;
        while i < count
            invariant
                i <= count,
                list@.len() == i,
                header_of(self@) == Some(header),
                count == header.qdcount,
                questions_upto(self@, i as nat) == Some((question_views(list@), at as int)),
                HEADER_LEN <= at <= self@.len(),
            decreases count - i,
        {
            let (name, end) = match self.name(at) {
                Ok(found) => found,
                Err(e) => {
                    proof {
                        lemma_questions_fail_on(self@, (i + 1) as nat, count as nat);
                    }
                    return Err(e);
                },
            };
            if self.len() - end < 4 {
                proof {
                    lemma_questions_fail_on(self@, (i + 1) as nat, count as nat);
                }
                return Err(FormatError);
            }
            let qtype: u16 = self.word_in(end);
            let qclass: u16 = self.word_in(end + 2);
            let ghost before = list@;
            list.push(Question { name, qtype, qclass });
            proof {
                assert(question_views(list@) =~= question_views(before).push(list@[i as int]@));
            }
            at = end + 4;
            i += 1;
        }
        Ok((list, at))
    }

    /// The questions of the message, in order. It fails where the message
    /// is shorter than a header or a question runs past its end, and only
    /// there.
    pub fn question_list(&self) -> (r: Result<Vec<Question>, FormatError>)
        ensures
            match r {
                Ok(qs) => questions_of(self@) == Some(question_views(qs@)),
                Err(_) => questions_of(self@) is None,
            },
    {
        match self.questions() {
            Ok((qs, _)) => Ok(qs),
            Err(e) => Err(e),
        }
    }
    /// The answer whose owner name starts at index `at`, and the index of
    /// the next one, if decoding goes on behind it. It fails where a byte
    /// that it has to read lies outside the message, and only there.
    pub fn read_answer(&self, at: usize) -> (r: Result<(Answer, Option<usize>), FormatError>)
        ensures
            match r {
                Ok((a, Some(next))) => answer_at(self@, at as int) == Some(
                    Step::Next(a@, next as int),
                ),
                Ok((a, None)) => answer_at(self@, at as int) == Some(Step::Last(a@)),
                Err(_) => answer_at(self@, at as int) is None,
            },
    {
        let n: usize = self.len();
        if at >= n {
            return Err(FormatError);
        }
        let first: u8 = self.byte_in(at);
        assert((first & 0b1100_0000 == 0b1100_0000) == (first >= 192)) by (bit_vector);
        if first & 0b1100_0000 != 0b1100_0000 {
            return Ok((Answer::NotPointer, None));
        }
        if n - at < 4 {
            return Err(FormatError);
        }
        let rtype: u16 = self.word_in(at + 2);
        if rtype == TYPE_A || rtype == TYPE_AAAA {
            let second: u8 = self.byte_in(at + 1);
            assert(first & 0b0011_1111 == first % 64) by (bit_vector);
            let pointer: usize = (first & 0b0011_1111) as usize * 256 + second as usize;
            if pointer > n - at || at + pointer < 2 {
                return Err(FormatError);
            }
            let data: usize = at + pointer;
            let rdlength: usize = self.word_in(data - 2) as usize;
            if rdlength > n - data {
                return Err(FormatError);
            }
            let text: String = address(self.part(data, data + rdlength));
            Ok((Answer::Address(text), Some(data + rdlength)))
        } else if rtype == TYPE_CNAME {
            Ok((Answer::Cname, None))
        } else {
            Ok((Answer::UnknownType, None))
        }
    }

    /// The answers of the message, in order, as far as they are decoded:
    /// decoding ends with the first answer that is no address reached by
    /// a pointer, which is then the last of the list. It fails where the
    /// question section cannot be decoded or an answer reaches past the
    /// end of the message, and only there.
    pub fn answer_list(&self) -> (r: Result<Vec<Answer>, FormatError>)
        ensures
            match r {
                Ok(list) => answers_of(self@) == Some(answer_views(list@)),
                Err(_) => answers_of(self@) is None,
            },
    {
        let start: usize = match self.questions() {
            Ok((_, end)) => end,
            Err(e) => {
                return Err(e);
            },
        };
        let header = match self.header() {
            Ok(h) => h,
            Err(e) => {
                return Err(e);
            },
        };
        let count: u16 = header.ancount;
        let mut list: Vec<Answer> = Vec::new();
        let mut cur: usize = start;
        let mut i: u16 = 0;
        assert(answer_views(list@) =~= Seq::<AnswerView>::empty());
        while i < count
            invariant
                i <= count,
                list@.len() == i,
                header_of(self@) == Some(header),
                count == header.ancount,
                question_section(self@) matches Some((_, end)) && end == start,
                answers_upto(self@, start as int, i as nat) == Some(
                    Progress { answers: answer_views(list@), cursor: cur as int, done: false },
                ),
            decreases count - i,
        {
            let ghost before = list@;
            match self.read_answer(cur) {
                Ok((a, Some(next))) => {
                    list.push(a);
                    assert(answer_views(list@) =~= answer_views(before).push(a@));
                    cur = next;
                },
                Ok((a, None)) => {
                    list.push(a);
                    proof {
                        assert(answer_views(list@) =~= answer_views(before).push(a@));
                        lemma_answers_stay_done(self@, start as int, (i + 1) as nat, count as nat);
                    }
                    return Ok(list);
                },
                Err(e) => {
                    proof {
                        lemma_answers_fail_on(self@, start as int, (i + 1) as nat, count as nat);
                    }
                    return Err(e);
                },
            }
            i += 1;
        }
        Ok(list)
    }
    /// The whole message: its header, its questions and its answers. It
    /// fails where one of the three cannot be decoded, and only there.
    pub fn message(&self) -> (r: Result<Message, FormatError>)
        ensures
            match r {
                Ok(m) => decoded_message(self@) == Some(m@),
                Err(_) => decoded_message(self@) is None,
            },
    {
        let header: Header = match self.header() {
            Ok(h) => h,
            Err(e) => {
                return Err(e);
            },
        };
        let questions: Vec<Question> = match self.question_list() {
            Ok(qs) => qs,
            Err(e) => {
                return Err(e);
            },
        };
        let answers: Vec<Answer> = match self.answer_list() {
            Ok(list) => list,
            Err(e) => {
                return Err(e);
            },
        };
        Ok(Message { header, questions, answers })
    }
}

} // verus!
