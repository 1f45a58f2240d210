use dns_proxy::address::address;
use dns_proxy::dns::{
    Answer, FormatError, Header, Message, Opcode, Qr, Question, Rcode, DNS,
};
use dns_proxy::report::{answers_line, question_line, record_name, MARGIN, RULE};
use dns_proxy::text::{replace, string_of};

const QUERY: [u8; 30] = [
    0u8, 0, 245, 178, 1, 0, 0, 1, 0, 0, 0, 0, 0, 0, 6, 103, 111, 111, 103, 108, 101, 3, 99, 111,
    109, 0, 0, 1, 0, 1,
];

const RESPONSE: [u8; 51] = [
    0u8, 44, 245, 178, 129, 128, 0, 1, 0, 1, 0, 0, 0, 0, 6, 103, 111, 111, 103, 108, 101, 3, 99,
    111, 109, 0, 0, 1, 0, 1, 192, 12, 0, 1, 0, 1, 0, 0, 0, 176, 0, 4, 142, 0, 176, 0, 4, 142, 250,
    72, 174,
];

fn google() -> Question {
    Question { name: String::from("google.com"), qtype: 1, qclass: 1 }
}

#[test]
fn test() {
    let lines = DNS::with(&QUERY, 2).info().unwrap();
    assert_eq!(
        lines,
        vec![
            String::from("62898 standard query { google.com (A) }"),
            String::from(
                "f5 b2 01 00 00 01 00 00 00 00 00 00 06 67 6f 6f 67 6c 65 03 63 6f 6d 00 00 01 00 01"
            ),
            String::from(RULE),
        ]
    );
    let lines = DNS::with(&RESPONSE, 2).info().unwrap();
    assert_eq!(lines.len(), 4);
    assert_eq!(lines[0], "62898 standard query { google.com (A) } (no error)");
    assert_eq!(lines[1], format!("{}142.0.176.0 |", MARGIN));
    assert_eq!(lines[2], DNS::with(&RESPONSE, 2).to_string());
    assert_eq!(lines[3], RULE);
    assert_eq!(RULE.len(), 83);
    assert_eq!(MARGIN.len(), 40);
}

#[test]
fn labels_decode_to_a_dotted_name() {
    let bytes = [6u8, 103, 111, 111, 103, 108, 101, 3, 99, 111, 109, 0];
    let dns = DNS::with(&bytes, 0);
    assert_eq!(dns.name(0), Ok((String::from("google.com"), 12)));
    assert_eq!(dns.name(7), Ok((String::from("com"), 12)));
    assert_eq!(dns.name(11), Ok((String::new(), 12)));
    assert_eq!(dns.name(12), Err(FormatError));
    let question = DNS::with(&QUERY, 2).question_list().unwrap();
    assert_eq!(question, vec![google()]);
}

#[test]
fn labels_that_run_past_the_end_fail() {
    let bytes = [6u8, 103, 111, 111, 103, 108, 101, 3, 99, 111, 109];
    assert_eq!(DNS::with(&bytes, 0).name(0), Err(FormatError));
    let short = [6u8, 103, 111];
    assert_eq!(DNS::with(&short, 0).name(0), Err(FormatError));
    let exact = [2u8, 97, 98];
    assert_eq!(DNS::with(&exact, 0).name(0), Err(FormatError));
}

#[test]
fn a_length_byte_with_high_bits_is_a_length() {
    let mut bytes: Vec<u8> = vec![200];
    let mut i: u8 = 0;
    while i < 200 {
        bytes.push(b'a');
        i += 1;
    }
    bytes.push(0);
    let (name, end) = DNS::with(&bytes, 0).name(0).unwrap();
    assert_eq!(name.len(), 200);
    assert_eq!(end, 202);
}

#[test]
fn header_of_a_request() {
    let dns = DNS::with(&QUERY, 2);
    assert_eq!(
        dns.header(),
        Ok(Header {
            id: 62898,
            qr: Qr::Request,
            opcode: Opcode::StandardQuery,
            rcode: Rcode::NoError,
            qdcount: 1,
            ancount: 0,
            nscount: 0,
            arcount: 0,
        })
    );
    assert_eq!(dns.qr(), Ok(Qr::Request));
    assert_eq!(dns.qr().unwrap().text(), "request");
    assert_eq!(dns.id(), Ok(62898));
}

#[test]
fn header_of_a_response() {
    let dns = DNS::with(&RESPONSE, 2);
    assert_eq!(dns.qr(), Ok(Qr::Response));
    assert_eq!(dns.qr().unwrap().text(), "response");
    assert_eq!(dns.rcode(), Ok(Rcode::NoError));
    assert_eq!(dns.rcode().unwrap().text(), "no error");
    assert_eq!(dns.opcode(), Ok(Opcode::StandardQuery));
    assert_eq!(dns.id(), Ok(62898));
    assert_eq!(dns.qdcount(), Ok(1));
    assert_eq!(dns.ancount(), Ok(1));
    assert_eq!(dns.nscount(), Ok(0));
    assert_eq!(dns.arcount(), Ok(0));
}

#[test]
fn header_fields_by_value() {
    let mut bytes = [0u8; 12];
    bytes[0] = 0x12;
    bytes[1] = 0x34;
    bytes[2] = 0b1001_0101;
    bytes[3] = 0b1111_0011;
    bytes[4] = 1;
    bytes[5] = 2;
    bytes[6] = 3;
    bytes[7] = 4;
    bytes[8] = 5;
    bytes[9] = 6;
    bytes[10] = 255;
    bytes[11] = 255;
    let h = DNS::with(&bytes, 0).header().unwrap();
    assert_eq!(h.id, 0x1234);
    assert_eq!(h.qr, Qr::Response);
    assert_eq!(h.opcode, Opcode::Status);
    assert_eq!(h.rcode, Rcode::NameError);
    assert_eq!(h.qdcount, 258);
    assert_eq!(h.ancount, 772);
    assert_eq!(h.nscount, 1286);
    assert_eq!(h.arcount, 65535);
}

#[test]
fn opcodes_and_rcodes_by_number() {
    let mut bytes = [0u8; 12];
    let opcodes = [
        Opcode::StandardQuery,
        Opcode::InverseQuery,
        Opcode::Status,
        Opcode::Reserved,
        Opcode::Reserved,
    ];
    let mut i: usize = 0;
    while i < opcodes.len() {
        bytes[2] = (i as u8) << 3;
        assert_eq!(DNS::with(&bytes, 0).opcode(), Ok(opcodes[i]));
        i += 1;
    }
    bytes[2] = 15 << 3;
    assert_eq!(DNS::with(&bytes, 0).opcode(), Ok(Opcode::Reserved));
    let rcodes = [
        Rcode::NoError,
        Rcode::Malformed,
        Rcode::ServerFailure,
        Rcode::NameError,
        Rcode::NotImplemented,
        Rcode::Refused,
        Rcode::Reserved,
    ];
    let mut i: usize = 0;
    while i < rcodes.len() {
        bytes[3] = 0xF0 | i as u8;
        assert_eq!(DNS::with(&bytes, 0).rcode(), Ok(rcodes[i]));
        i += 1;
    }
    bytes[3] = 15;
    assert_eq!(DNS::with(&bytes, 0).rcode(), Ok(Rcode::Reserved));
    assert_eq!(Opcode::StandardQuery.text(), "standard query");
    assert_eq!(Opcode::InverseQuery.text(), "inverse query");
    assert_eq!(Opcode::Status.text(), "status query");
    assert_eq!(Opcode::Reserved.text(), "reserved");
    assert_eq!(Rcode::Malformed.text(), "format error");
    assert_eq!(Rcode::ServerFailure.text(), "server failure");
    assert_eq!(Rcode::NameError.text(), "name error");
    assert_eq!(Rcode::NotImplemented.text(), "not implemented");
    assert_eq!(Rcode::Refused.text(), "refused");
    assert_eq!(Rcode::Reserved.text(), "reserved");
}

#[test]
fn a_short_header_is_a_format_error() {
    let mut n: usize = 0;
    while n < 12 {
        let bytes = vec![0u8; n];
        let dns = DNS::with(&bytes, 0);
        assert_eq!(dns.header(), Err(FormatError));
        assert_eq!(dns.id(), Err(FormatError));
        assert_eq!(dns.qr(), Err(FormatError));
        assert_eq!(dns.opcode(), Err(FormatError));
        assert_eq!(dns.rcode(), Err(FormatError));
        assert_eq!(dns.qdcount(), Err(FormatError));
        assert_eq!(dns.ancount(), Err(FormatError));
        assert_eq!(dns.nscount(), Err(FormatError));
        assert_eq!(dns.arcount(), Err(FormatError));
        assert_eq!(dns.question_list(), Err(FormatError));
        assert_eq!(dns.answer_list(), Err(FormatError));
        assert_eq!(dns.question(), Err(FormatError));
        assert_eq!(dns.answer(), Err(FormatError));
        assert_eq!(dns.info(), Err(FormatError));
        n += 1;
    }
    assert!(DNS::with(&[0u8; 12], 0).header().is_ok());
}

#[test]
fn an_offset_behind_the_end_leaves_an_empty_message() {
    let dns = DNS::with(&QUERY, 31);
    assert_eq!(dns.len(), 0);
    assert_eq!(dns.to_string(), "");
    assert_eq!(dns.header(), Err(FormatError));
    assert_eq!(dns.byte(0), Err(FormatError));
    let end = DNS::with(&QUERY, 30);
    assert_eq!(end.len(), 0);
    let last = DNS::with(&QUERY, 29);
    assert_eq!(last.len(), 1);
    assert_eq!(last.byte(0), Ok(1));
    assert_eq!(last.word(0), Err(FormatError));
    assert_eq!(DNS::with(&QUERY, 28).word(0), Ok(1));
    assert_eq!(DNS::with(&QUERY, 2).word(0), Ok(62898));
}

#[test]
fn compressed_answer_fixture() {
    let dns = DNS::with(&RESPONSE, 2);
    assert_eq!(dns.question_list(), Ok(vec![google()]));
    assert_eq!(record_name(1), "A");
    assert_eq!(dns.questions(), Ok((vec![google()], 28)));
    assert_eq!(dns.answer_list(), Ok(vec![Answer::Address(String::from("142.0.176.0"))]));
    assert_eq!(dns.read_answer(28), Ok((Answer::Address(String::from("142.0.176.0")), Some(44))));
    assert_eq!(dns.question(), Ok(String::from("{ google.com (A) }")));
    assert_eq!(dns.answer(), Ok(String::from("142.0.176.0")));
}

#[test]
fn a_request_shows_the_counts_in_place_of_answers() {
    let dns = DNS::with(&QUERY, 2);
    assert_eq!(dns.answer_list(), Ok(Vec::new()));
    assert_eq!(dns.answer(), Ok(String::from("Authority: 0, Additional: 0")));
    let mut bytes = QUERY.to_vec();
    bytes[10] = 0x30;
    bytes[11] = 0x39;
    bytes[13] = 7;
    assert_eq!(DNS::with(&bytes, 2).answer(), Ok(String::from("Authority: 12345, Additional: 7")));
}

fn response_with(answers: u16, tail: &[u8]) -> Vec<u8> {
    let mut bytes: Vec<u8> = vec![
        245, 178, 129, 128, 0, 1, 0, 0, 0, 0, 0, 0, 6, 103, 111, 111, 103, 108, 101, 3, 99, 111,
        109, 0, 0, 1, 0, 1,
    ];
    bytes[6] = (answers / 256) as u8;
    bytes[7] = (answers % 256) as u8;
    bytes.extend_from_slice(tail);
    bytes
}

#[test]
fn two_addresses_one_behind_the_other() {
    let bytes = response_with(
        2,
        &[
            192, 12, 0, 1, 0, 1, 0, 0, 0, 176, 0, 4, 142, 250, 72, 174, 192, 12, 0, 28, 0, 1, 0, 0,
            0, 9, 0, 16, 0x24, 0x04, 0x68, 0x00, 0x40, 0x03, 0x0c, 0x00, 0, 0, 0, 0, 0, 0, 0, 0x8a,
        ],
    );
    let dns = DNS::with(&bytes, 0);
    assert_eq!(
        dns.answer_list(),
        Ok(vec![
            Answer::Address(String::from("142.250.72.174")),
            Answer::Address(String::from("2404:6800:4003:0c00::008a")),
        ])
    );
    assert_eq!(dns.answer(), Ok(String::from("142.250.72.174, 2404:6800:4003:0c00::008a")));
}

#[test]
fn a_cname_ends_the_decoding() {
    let bytes = response_with(
        3,
        &[192, 12, 0, 5, 0, 1, 0, 0, 0, 176, 0, 2, 192, 12, 192, 12, 0, 1, 0, 1, 0, 0, 0, 1, 0, 4],
    );
    let dns = DNS::with(&bytes, 0);
    assert_eq!(dns.answer_list(), Ok(vec![Answer::Cname]));
    assert_eq!(dns.answer(), Ok(String::from("CNAME")));
    assert_eq!(dns.read_answer(28), Ok((Answer::Cname, None)));
}

#[test]
fn an_unknown_type_ends_the_decoding() {
    let bytes = response_with(2, &[192, 12, 0, 16, 0, 1]);
    let dns = DNS::with(&bytes, 0);
    assert_eq!(dns.answer_list(), Ok(vec![Answer::UnknownType]));
    assert_eq!(dns.answer(), Ok(String::from("Unknown QTYPE")));
}

#[test]
fn a_written_out_name_ends_the_decoding() {
    let bytes = response_with(1, &[6, 103, 111, 111, 103, 108, 101, 0]);
    let dns = DNS::with(&bytes, 0);
    assert_eq!(dns.answer_list(), Ok(vec![Answer::NotPointer]));
    assert_eq!(dns.answer(), Ok(String::from("Not Pointer")));
    let after = response_with(
        2,
        &[192, 12, 0, 1, 0, 1, 0, 0, 0, 176, 0, 4, 1, 2, 3, 4, 0, 0, 0],
    );
    assert_eq!(
        DNS::with(&after, 0).answer_list(),
        Ok(vec![Answer::Address(String::from("1.2.3.4")), Answer::NotPointer])
    );
    assert_eq!(DNS::with(&after, 0).answer(), Ok(String::from("1.2.3.4, Not Pointer")));
}

#[test]
fn answers_that_run_past_the_end_fail() {
    let none = response_with(1, &[]);
    assert_eq!(DNS::with(&none, 0).answer_list(), Err(FormatError));
    assert_eq!(DNS::with(&none, 0).answer(), Err(FormatError));
    assert_eq!(DNS::with(&none, 0).info(), Err(FormatError));
    let no_type = response_with(1, &[192, 12, 0]);
    assert_eq!(DNS::with(&no_type, 0).answer_list(), Err(FormatError));
    let no_data = response_with(1, &[192, 12, 0, 1, 0, 1, 0, 0, 0, 176, 0, 4, 142, 250, 72]);
    assert_eq!(DNS::with(&no_data, 0).answer_list(), Err(FormatError));
    let far = response_with(1, &[255, 255, 0, 1, 0, 1, 0, 0, 0, 176, 0, 4, 142, 250, 72, 174]);
    assert_eq!(DNS::with(&far, 0).answer_list(), Err(FormatError));
    let second = response_with(2, &[192, 12, 0, 1, 0, 1, 0, 0, 0, 176, 0, 4, 142, 250, 72, 174]);
    assert_eq!(DNS::with(&second, 0).answer_list(), Err(FormatError));
}

#[test]
fn every_prefix_of_the_fixture_decodes_or_fails() {
    let mut n: usize = 0;
    while n <= RESPONSE.len() {
        let dns = DNS::with(&RESPONSE[..n], 2);
        let header = dns.header();
        assert_eq!(header.is_ok(), n >= 14);
        assert_eq!(dns.question_list().is_ok(), n >= 30);
        assert_eq!(dns.answer_list().is_ok(), n >= 46);
        assert_eq!(dns.info().is_ok(), n >= 46);
        assert_eq!(dns.to_string().len(), if n > 2 { 3 * (n - 2) - 1 } else { 0 });
        n += 1;
    }
}

#[test]
fn arbitrary_bytes_never_crash_the_decoder() {
    let mut state: u32 = 0x2545_F491;
    let mut round: usize = 0;
    while round < 400 {
        let len = (state >> 8) as usize % 80;
        let mut bytes: Vec<u8> = Vec::new();
        while bytes.len() < len {
            state = state.wrapping_mul(1_664_525).wrapping_add(1_013_904_223);
            bytes.push((state >> 24) as u8);
        }
        if bytes.len() > 7 {
            bytes[4] = 0;
            bytes[5] = bytes[5] % 3;
            bytes[6] = 0;
            bytes[7] = bytes[7] % 4;
        }
        let dns = DNS::with(&bytes, round % 3);
        let questions = dns.question_list();
        let answers = dns.answer_list();
        let info = dns.info();
        if questions.is_err() {
            assert_eq!(answers, Err(FormatError));
            assert_eq!(info, Err(FormatError));
        }
        if bytes.len() < 12 + round % 3 {
            assert_eq!(questions, Err(FormatError));
        }
        assert_eq!(dns.len(), bytes.len().saturating_sub(round % 3));
        round += 1;
    }
}

#[test]
fn two_questions_and_the_root_name() {
    let bytes: Vec<u8> = vec![
        0, 1, 1, 0, 0, 3, 0, 0, 0, 0, 0, 0, 1, 97, 2, 98, 99, 0, 0, 28, 0, 1, 0, 0, 2, 0, 1, 3,
        120, 121, 122, 0, 0, 99, 0, 3,
    ];
    let dns = DNS::with(&bytes, 0);
    assert_eq!(
        dns.question_list(),
        Ok(vec![
            Question { name: String::from("a.bc"), qtype: 28, qclass: 1 },
            Question { name: String::new(), qtype: 2, qclass: 1 },
            Question { name: String::from("xyz"), qtype: 99, qclass: 3 },
        ])
    );
    assert_eq!(dns.question(), Ok(String::from("{ a.bc (AAAA)  (NS) xyz (_) }")));
    assert_eq!(dns.questions().unwrap().1, bytes.len());
    let mut short = bytes.clone();
    short.pop();
    assert_eq!(DNS::with(&short, 0).question_list(), Err(FormatError));
}

#[test]
fn no_questions_give_empty_braces() {
    let bytes = [0u8; 12];
    assert_eq!(DNS::with(&bytes, 0).question_list(), Ok(Vec::new()));
    assert_eq!(DNS::with(&bytes, 0).question(), Ok(String::from("{ }")));
    assert_eq!(question_line(&Vec::new()), "{ }");
    assert_eq!(answers_line(&Vec::new()), "");
}

#[test]
fn record_names() {
    assert_eq!(record_name(1), "A");
    assert_eq!(record_name(28), "AAAA");
    assert_eq!(record_name(2), "NS");
    assert_eq!(record_name(3), "MD");
    assert_eq!(record_name(4), "MF");
    assert_eq!(record_name(5), "CNAME");
    assert_eq!(record_name(15), "MX");
    assert_eq!(record_name(16), "TXT");
    assert_eq!(record_name(0), "_");
    assert_eq!(record_name(255), "_");
}

#[test]
fn bytes_whose_code_is_above_the_ascii_range() {
    let bytes = [2u8, 0xe9, 0x41, 0];
    let (name, _) = DNS::with(&bytes, 0).name(0).unwrap();
    assert_eq!(name, "\u{e9}A");
}

#[test]
fn addresses_as_text() {
    assert_eq!(address(&[142, 0, 176, 4]), "142.0.176.4");
    assert_eq!(address(&[0, 0, 0, 0]), "0.0.0.0");
    assert_eq!(address(&[255, 100, 10, 9]), "255.100.10.9");
    assert_eq!(
        address(&[0x20, 0x01, 0x0d, 0xb8, 0, 0, 0, 0, 0, 0, 0, 0, 0, 0, 0, 1]),
        "2001:0db8:::0001"
    );
    assert_eq!(address(&[0u8; 16]), "::::");
    assert_eq!(
        address(&[0xfe, 0x80, 0, 0, 0, 0, 0, 0, 0x10, 0, 0, 1, 0, 0, 0xab, 0xcd]),
        "fe80::1000:0001:abcd"
    );
    assert_eq!(
        address(&[1, 2, 3, 4, 5, 6, 7, 8, 9, 10, 11, 12, 13, 14, 15, 255]),
        "0102:0304:0506:0708:090a:0b0c:0d0e:0fff"
    );
    assert_eq!(address(&[]), "[]");
    assert_eq!(address(&[0x8e]), "[8e]");
    assert_eq!(address(&[0x8e, 0, 0xb0]), "[8e, 00, b0]");
}

#[test]
fn replace_goes_from_left_to_right() {
    let chars = |s: &str| -> Vec<char> { s.chars().collect() };
    assert_eq!(string_of(&replace(&chars(":::"), &chars("::"), &chars(":"))), "::");
    assert_eq!(string_of(&replace(&chars("aaaa"), &chars("aa"), &chars("b"))), "bb");
    assert_eq!(string_of(&replace(&chars("abc"), &chars(""), &chars("x"))), "abc");
    assert_eq!(string_of(&replace(&chars("abc"), &chars("abcd"), &chars("x"))), "abc");
    assert_eq!(string_of(&replace(&chars("xabcabc"), &chars("abc"), &chars(""))), "x");
}

#[test]
fn the_whole_message_at_once() {
    let message = DNS::with(&RESPONSE, 2).message().unwrap();
    assert_eq!(
        message,
        Message {
            header: Header {
                id: 62898,
                qr: Qr::Response,
                opcode: Opcode::StandardQuery,
                rcode: Rcode::NoError,
                qdcount: 1,
                ancount: 1,
                nscount: 0,
                arcount: 0,
            },
            questions: vec![google()],
            answers: vec![Answer::Address(String::from("142.0.176.0"))],
        }
    );
    assert_eq!(DNS::with(&RESPONSE[..45], 2).message(), Err(FormatError));
    assert_eq!(DNS::with(&RESPONSE[..20], 2).message(), Err(FormatError));
    assert_eq!(DNS::with(&RESPONSE[..5], 2).message(), Err(FormatError));
    let query = DNS::with(&QUERY, 2).message().unwrap();
    assert_eq!(query.header.qr, Qr::Request);
    assert_eq!(query.questions, vec![google()]);
    assert_eq!(query.answers, Vec::new());
}
