//! The texts that describe a message to a reader: its bytes in
//! hexadecimal, its questions, its answers, and the lines of a summary.
//! They are diagnostics only: nothing that is forwarded depends on them.
use vstd::prelude::*;
use crate::address::{lemma_joined_step, pair_parts};
use crate::dns::{
    answer_views, answers_of, header_of, question_views, questions_of, Answer, AnswerView,
    FormatError, Header, Qr, Question, QuestionView, DNS,
};
use crate::text::{decimal, joined, push_chars, push_decimal, push_hex};

verus! {

/// The line that closes a summary.
pub const RULE: &'static str =
    "-----------------------------------------------------------------------------------";

/// What stands before the answers in a summary.
pub const MARGIN: &'static str = "                                      | ";

/// The name of a record type, or an underscore for one without a name
/// here.
pub open spec fn record_name_of(qtype: u16) -> Seq<char> {
    if qtype == 1 {
        "A"@
    } else if qtype == 28 {
        "AAAA"@
    } else if qtype == 2 {
        "NS"@
    } else if qtype == 3 {
        "MD"@
    } else if qtype == 4 {
        "MF"@
    } else if qtype == 5 {
        "CNAME"@
    } else if qtype == 15 {
        "MX"@
    } else if qtype == 16 {
        "TXT"@
    } else {
        "_"@
    }
}

/// The name of a record type, or an underscore for one without a name
/// here.
pub fn record_name(qtype: u16) -> (name: &'static str)
    ensures
        name@ == record_name_of(qtype),
{
    match qtype {
        1 => "A",
        28 => "AAAA",
        2 => "NS",
        3 => "MD",
        4 => "MF",
        5 => "CNAME",
        15 => "MX",
        16 => "TXT",
        _ => "_",
    }
}

/// The bytes in hexadecimal, two digits each, with a space between each
/// two.
pub open spec fn dump_of(b: Seq<u8>) -> Seq<char> {
    joined(pair_parts(b), seq![' '])
}

/// One question as it stands in a summary: the name, then the type in
/// brackets.
pub open spec fn question_entry(q: QuestionView) -> Seq<char> {
    q.name + " ("@ + record_name_of(q.qtype) + ") "@
}

/// The questions as they stand in a summary, one behind the other.
pub open spec fn question_entries(qs: Seq<QuestionView>) -> Seq<char>
    decreases qs.len(),
{
    if qs.len() == 0 {
        Seq::empty()
    } else {
        question_entries(qs.drop_last()) + question_entry(qs.last())
    }
}

/// The questions in braces.
pub open spec fn question_text(qs: Seq<QuestionView>) -> Seq<char> {
    "{ "@ + question_entries(qs) + "}"@
}

/// The text of an answer: the address, or the mark in words.
pub open spec fn answer_text(a: AnswerView) -> Seq<char> {
    match a {
        AnswerView::Address(text) => text,
        AnswerView::Cname => "CNAME"@,
        AnswerView::UnknownType => "Unknown QTYPE"@,
        AnswerView::NotPointer => "Not Pointer"@,
    }
}

/// The texts of the answers.
pub open spec fn answer_parts(list: Seq<AnswerView>) -> Seq<Seq<char>> {
    Seq::new(list.len(), |i: int| answer_text(list[i]))
}

/// The answers with a comma and a space between each two.
pub open spec fn answers_text(list: Seq<AnswerView>) -> Seq<char> {
    joined(answer_parts(list), ", "@)
}

/// What a message without answers shows in their place: the counts of
/// its other two sections.
pub open spec fn counts_text(h: Header) -> Seq<char> {
    "Authority: "@ + decimal(h.nscount as nat) + ", Additional: "@ + decimal(h.arcount as nat)
}

/// The answer part of a summary: the answers of the message, or the
/// counts of its other sections where it has no answers.
pub open spec fn answer_line(b: Seq<u8>) -> Option<Seq<char>> {
    match header_of(b) {
        Some(h) => if h.ancount == 0 {
            Some(counts_text(h))
        } else {
            match answers_of(b) {
                Some(list) => Some(answers_text(list)),
                None => None,
            }
        },
        None => None,
    }
}

/// The first line of a summary: the transaction ID, the kind of query
/// and the questions, and for a response its outcome in brackets.
pub open spec fn head_line(h: Header, qs: Seq<QuestionView>) -> Seq<char> {
    let start = decimal(h.id as nat) + " "@ + h.opcode.text_spec() + " "@ + question_text(qs);
    if h.qr == Qr::Request {
        start
    } else {
        start + " ("@ + h.rcode.text_spec() + ")"@
    }
}

/// The summary of a message, line by line: the first line, for a
/// response its answers, the bytes in hexadecimal and a rule.
pub open spec fn info_of(b: Seq<u8>) -> Option<Seq<Seq<char>>> {
    match (header_of(b), questions_of(b)) {
        (Some(h), Some(qs)) => if h.qr == Qr::Request {
            Some(seq![head_line(h, qs), dump_of(b), RULE@])
        } else {
            match answer_line(b) {
                Some(answers) => Some(
                    seq![head_line(h, qs), MARGIN@ + answers + " |"@, dump_of(b), RULE@],
                ),
                None => None,
            }
        },
        _ => None,
    }
}

/// What a list of lines stands for.
pub open spec fn line_views(lines: Seq<String>) -> Seq<Seq<char>> {
    Seq::new(lines.len(), |i: int| lines[i]@)
}

/// Appends the decimal numeral of `n`.
fn append_decimal(out: &mut String, n: u16)
    ensures
        final(out)@ == old(out)@ + decimal(n as nat),
{
    let mut digits: Vec<char> = Vec::new();
    push_decimal(&mut digits, n);
    assert(digits@ =~= decimal(n as nat));
    push_chars(out, &digits);
}

impl Answer {
    /// The text of the answer: the address, or the mark in words.
    pub fn text(&self) -> (s: String)
        ensures
            s@ == answer_text(self@),
    {
        match self {
            Answer::Address(text) => text.clone(),
            Answer::Cname => String::from_str("CNAME"),
            Answer::UnknownType => String::from_str("Unknown QTYPE"),
            Answer::NotPointer => String::from_str("Not Pointer"),
        }
    }
}

/// The questions in braces, as they stand in a summary.
pub fn question_line(qs: &Vec<Question>) -> (out: String)
    ensures
        out@ == question_text(question_views(qs@)),
{
    let ghost views = question_views(qs@);
    let mut out = String::from_str("{ ");
    let mut i: usize = 0;
    assert(views.take(0) =~= Seq::<QuestionView>::empty());
    assert(out@ =~= "{ "@ + question_entries(views.take(0)));
    while i < qs.len()
        invariant
            i <= qs@.len(),
            views == question_views(qs@),
            out@ == "{ "@ + question_entries(views.take(i as int)),
        decreases qs@.len() - i,
    {
        let ghost before = out@;
        out.append(qs[i].name.as_str());
        out.append(" (");
        out.append(record_name(qs[i].qtype));
        out.append(") ");
        proof {
            assert(views.take(i + 1).drop_last() =~= views.take(i as int));
            assert(views.take(i + 1).last() == qs@[i as int]@);
            assert(out@ =~= before + question_entry(qs@[i as int]@));
            assert(out@ =~= "{ "@ + (question_entries(views.take(i as int)) + question_entry(
                qs@[i as int]@,
            )));
        }
        i += 1;
    }
    assert(views.take(i as int) =~= views);
    out.append("}");
    out
}

/// The answers with a comma and a space between each two.
pub fn answers_line(list: &Vec<Answer>) -> (out: String)
    ensures
        out@ == answers_text(answer_views(list@)),
{
    let ghost parts = answer_parts(answer_views(list@));
    let mut out = String::new();
    let mut i: usize = 0;
    assert(out@ =~= joined(parts.take(0), ", "@));
    while i < list.len()
        invariant
            i <= list@.len(),
            parts == answer_parts(answer_views(list@)),
            out@ == joined(parts.take(i as int), ", "@),
        decreases list@.len() - i,
    {
        let ghost before = out@;
        if i > 0 {
            out.append(", ");
        }
        let text: String = list[i].text();
        out.append(text.as_str());
        proof {
            lemma_joined_step(parts, ", "@, i as int);
            if i > 0 {
                assert(out@ =~= before + ", "@ + parts[i as int]);
            } else {
                assert(out@ =~= parts[0]);
            }
        }
        i += 1;
    }
    assert(parts.take(i as int) =~= parts);
    out
}

impl<'a> DNS<'a> {
    /// The bytes of the message in hexadecimal, two digits each, with a
    /// space between each two.
    pub fn to_string(&self) -> (out: String)
        ensures
            out@ == dump_of(self@),
    {
        let ghost parts = pair_parts(self@);
        let n: usize = self.len();
        let mut chars: Vec<char> = Vec::new();
        let mut i: usize = 0;
        while i < n
            invariant
                i <= n,
                n == self@.len(),
                parts == pair_parts(self@),
                chars@ == joined(parts.take(i as int), seq![' ']),
            decreases n - i,
        {
            let ghost before = chars@;
            if i > 0 {
                chars.push(' ');
            }
            push_hex(&mut chars, self.byte_in(i));
            proof {
                lemma_joined_step(parts, seq![' '], i as int);
                if i > 0 {
                    assert(chars@ =~= before + seq![' '] + parts[i as int]);
                } else {
                    assert(chars@ =~= parts[0]);
                }
            }
            i += 1;
        }
        assert(parts.take(n as int) =~= parts);
        let mut out = String::new();
        push_chars(&mut out, &chars);
        assert(out@ =~= chars@);
        out
    }

    /// The questions of the message in braces. It fails where the
    /// questions cannot be decoded, and only there.
    pub fn question(&self) -> (r: Result<String, FormatError>)
        ensures
            match r {
                Ok(text) => questions_of(self@) matches Some(qs) && text@ == question_text(qs),
                Err(_) => questions_of(self@) is None,
            },
    {
        match self.question_list() {
            Ok(qs) => Ok(question_line(&qs)),
            Err(e) => Err(e),
        }
    }

    /// The answers of the message with a comma and a space between each
    /// two, or the counts of its other sections where it has no answers.
    /// It fails where the message is shorter than a header, or has
    /// answers that cannot be decoded, and only there.
    pub fn answer(&self) -> (r: Result<String, FormatError>)
        ensures
            match r {
                Ok(text) => answer_line(self@) == Some(text@),
                Err(_) => answer_line(self@) is None,
            },
    {
        let h: Header = match self.header() {
            Ok(h) => h,
            Err(e) => {
                return Err(e);
            },
        };
        if h.ancount == 0 {
            let mut out = String::from_str("Authority: ");
            append_decimal(&mut out, h.nscount);
            out.append(", Additional: ");
            append_decimal(&mut out, h.arcount);
            return Ok(out);
        }
        match self.answer_list() {
            Ok(list) => Ok(answers_line(&list)),
            Err(e) => Err(e),
        }
    }

    /// The summary of the message, line by line, as it is shown to a
    /// reader: the transaction ID, the kind of query and the questions,
    /// for a response also its outcome and, on a line of their own, its
    /// answers; then the bytes in hexadecimal and a rule. It fails where
    /// one of these cannot be decoded, and only there.
    pub fn info(&self) -> (r: Result<Vec<String>, FormatError>)
        ensures
            match r {
                Ok(lines) => info_of(self@) == Some(line_views(lines@)),
                Err(_) => info_of(self@) is None,
            },
    {
        let h: Header = match self.header() {
            Ok(h) => h,
            Err(e) => {
                return Err(e);
            },
        };
        let questions: String = match self.question() {
            Ok(text) => text,
            Err(e) => {
                return Err(e);
            },
        };
        let mut head = String::new();
        append_decimal(&mut head, h.id);
        head.append(" ");
        head.append(h.opcode.text());
        head.append(" ");
        head.append(questions.as_str());
        let mut lines: Vec<String> = Vec::new();
        match h.qr {
            Qr::Request => {
                lines.push(head);
            },
            Qr::Response => {
                head.append(" (");
                head.append(h.rcode.text());
                head.append(")");
                let answers: String = match self.answer() {
                    Ok(text) => text,
                    Err(e) => {
                        return Err(e);
                    },
                };
                let mut second = String::from_str(MARGIN);
                second.append(answers.as_str());
                second.append(" |");
                lines.push(head);
                lines.push(second);
            },
        }
        lines.push(self.to_string());
        lines.push(String::from_str(RULE));
        proof {
            let qs = questions_of(self@)->0;
            assert(lines@[0]@ =~= head_line(h, qs));
            assert(line_views(lines@) =~= info_of(self@)->0);
        }
        Ok(lines)
    }
}

} // verus!
