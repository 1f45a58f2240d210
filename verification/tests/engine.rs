use dns_proxy::cache::ResponseCache;
use dns_proxy::crypt::{decode, encode};
use dns_proxy::proxy::{
    client_datagram, client_query, fingerprint, on_failure, on_query, on_response, upstream_response,
    upstream_wire, Completion, Mode, Outcome, Session, Upstream,
};

const QUESTION: [u8; 16] = [6, 103, 111, 111, 103, 108, 101, 3, 99, 111, 109, 0, 0, 1, 0, 1];

fn query(id: u16, flags: u8) -> Vec<u8> {
    let mut bytes: Vec<u8> = vec![(id / 256) as u8, (id % 256) as u8, flags, 0, 0, 1, 0, 0, 0, 0, 0, 0];
    bytes.extend_from_slice(&QUESTION);
    bytes
}

fn answer(id: u16) -> Vec<u8> {
    let mut bytes: Vec<u8> =
        vec![(id / 256) as u8, (id % 256) as u8, 129, 128, 0, 1, 0, 1, 0, 0, 0, 0];
    bytes.extend_from_slice(&QUESTION);
    bytes.extend_from_slice(&[192, 12, 0, 1, 0, 1, 0, 0, 0, 176, 0, 4, 142, 250, 72, 174]);
    bytes
}

fn with_id(id: u16, message: &[u8]) -> Vec<u8> {
    let mut bytes: Vec<u8> = vec![(id / 256) as u8, (id % 256) as u8];
    bytes.extend_from_slice(&message[2..]);
    bytes
}

#[test]
fn fingerprint_is_the_question_section() {
    assert_eq!(fingerprint(&query(1, 1)), Some(QUESTION.to_vec()));
    assert_eq!(fingerprint(&query(0xffff, 0)), Some(QUESTION.to_vec()));
    assert_eq!(fingerprint(&answer(7)), Some(QUESTION.to_vec()));
    let mut extended = query(1, 1);
    extended.extend_from_slice(&[0, 0, 41, 16, 0, 0, 0, 0, 0, 0, 0]);
    assert_eq!(fingerprint(&extended), Some(QUESTION.to_vec()));
    assert_eq!(fingerprint(&[0u8; 12]), Some(Vec::new()));
}

#[test]
fn a_query_that_cannot_be_decoded_has_no_fingerprint() {
    assert_eq!(fingerprint(&[]), None);
    assert_eq!(fingerprint(&[1]), None);
    assert_eq!(fingerprint(&[0u8; 11]), None);
    let mut cut = query(1, 1);
    cut.pop();
    assert_eq!(fingerprint(&cut), None);
}

#[test]
fn cache_hit_scenario() {
    let mut cache = ResponseCache::new();
    let q1 = query(0x1111, 1);
    let a1 = answer(0x1111);
    let session = match on_query(Mode::Udp, &cache, &q1) {
        Outcome::Forwarding { session, wire } => {
            assert_eq!(wire, q1);
            assert_eq!(session.fingerprint, Some(QUESTION.to_vec()));
            session
        },
        other => panic!("the first query is not forwarded: {:?}", other),
    };
    let done = on_response(Mode::Udp, &mut cache, session, &a1);
    assert_eq!(done, Completion::RepliedFromUpstream { reply: a1.clone() });
    assert_eq!(cache.len(), 1);
    assert_eq!(cache.get(&QUESTION), Some(&a1[2..].to_vec()));
    let q2 = query(0x2222, 1);
    assert_eq!(
        on_query(Mode::Udp, &cache, &q2),
        Outcome::RepliedFromCache { reply: with_id(0x2222, &a1) }
    );
    let q3 = query(0x3333, 0);
    assert_eq!(
        on_query(Mode::Udp, &cache, &q3),
        Outcome::RepliedFromCache { reply: with_id(0x3333, &a1) }
    );
}

#[test]
fn another_question_is_forwarded() {
    let mut cache = ResponseCache::new();
    cache.put(QUESTION.to_vec(), answer(1)[2..].to_vec());
    let mut other = query(5, 1);
    other[13] = 104;
    match on_query(Mode::Udp, &cache, &other) {
        Outcome::Forwarding { session, wire } => {
            assert_eq!(wire, other);
            assert_eq!(session.fingerprint, Some(other[12..].to_vec()));
        },
        outcome => panic!("not forwarded: {:?}", outcome),
    }
}

#[test]
fn a_second_response_takes_the_place_of_the_first() {
    let mut cache = ResponseCache::new();
    let key = Session { fingerprint: Some(QUESTION.to_vec()) };
    on_response(Mode::Udp, &mut cache, key.clone(), &answer(1));
    let mut later = answer(2);
    later[43] = 1;
    on_response(Mode::Udp, &mut cache, key, &later);
    assert_eq!(cache.len(), 1);
    assert_eq!(
        on_query(Mode::Udp, &cache, &query(9, 1)),
        Outcome::RepliedFromCache { reply: with_id(9, &later) }
    );
}

#[test]
fn a_query_without_fingerprint_is_forwarded_and_not_stored() {
    let mut cache = ResponseCache::new();
    let odd: Vec<u8> = vec![1, 2, 3];
    let session = match on_query(Mode::Udp, &cache, &odd) {
        Outcome::Forwarding { session, wire } => {
            assert_eq!(wire, odd);
            assert_eq!(session.fingerprint, None);
            session
        },
        outcome => panic!("not forwarded: {:?}", outcome),
    };
    let done = on_response(Mode::Udp, &mut cache, session, &[1, 2, 9, 9]);
    assert_eq!(done, Completion::RepliedFromUpstream { reply: vec![1, 2, 9, 9] });
    assert_eq!(cache.len(), 0);
    match on_query(Mode::Udp, &cache, &[]) {
        Outcome::Forwarding { session, wire } => {
            assert_eq!(wire, Vec::<u8>::new());
            assert_eq!(session.fingerprint, None);
        },
        outcome => panic!("not forwarded: {:?}", outcome),
    }
}

#[test]
fn a_response_without_transaction_id_is_dropped() {
    let mut cache = ResponseCache::new();
    let key = Session { fingerprint: Some(QUESTION.to_vec()) };
    assert_eq!(on_response(Mode::Udp, &mut cache, key.clone(), &[]), Completion::Dropped);
    assert_eq!(on_response(Mode::Udp, &mut cache, key.clone(), &[7]), Completion::Dropped);
    assert_eq!(on_response(Mode::TunnelClient, &mut cache, key.clone(), &[7]), Completion::Dropped);
    assert_eq!(on_response(Mode::Tcp, &mut cache, key.clone(), &[0, 1, 7]), Completion::Dropped);
    assert_eq!(on_response(Mode::Tcp, &mut cache, key.clone(), &[0]), Completion::Dropped);
    assert_eq!(cache.len(), 0);
    assert_eq!(
        on_response(Mode::Udp, &mut cache, key, &[7, 8]),
        Completion::RepliedFromUpstream { reply: vec![7, 8] }
    );
    assert_eq!(cache.get(&QUESTION), Some(&Vec::new()));
    assert_eq!(on_failure(Session { fingerprint: None }), Completion::Dropped);
}

#[test]
fn tcp_frames_the_query_and_unframes_the_response() {
    let mut cache = ResponseCache::new();
    let q = query(0x0102, 1);
    let mut framed: Vec<u8> = vec![0, 28];
    framed.extend_from_slice(&q);
    let session = match on_query(Mode::Tcp, &cache, &q) {
        Outcome::Forwarding { session, wire } => {
            assert_eq!(wire, framed);
            session
        },
        outcome => panic!("not forwarded: {:?}", outcome),
    };
    let a = answer(0x0102);
    let mut wire: Vec<u8> = vec![0, 44];
    wire.extend_from_slice(&a);
    assert_eq!(
        on_response(Mode::Tcp, &mut cache, session, &wire),
        Completion::RepliedFromUpstream { reply: a.clone() }
    );
    assert_eq!(cache.get(&QUESTION), Some(&a[2..].to_vec()));
    assert_eq!(
        on_query(Mode::Tcp, &cache, &query(0x0a0b, 1)),
        Outcome::RepliedFromCache { reply: with_id(0x0a0b, &a) }
    );
}

#[test]
fn tcp_length_is_big_endian() {
    let long = vec![0u8; 300];
    let wire = upstream_wire(Mode::Tcp, &long).unwrap();
    assert_eq!(wire.len(), 302);
    assert_eq!(wire[0], 1);
    assert_eq!(wire[1], 44);
    let longest = vec![0u8; 65535];
    let wire = upstream_wire(Mode::Tcp, &longest).unwrap();
    assert_eq!(wire[0], 255);
    assert_eq!(wire[1], 255);
    assert_eq!(wire.len(), 65537);
}

#[test]
fn tcp_cannot_carry_more_than_its_length_field_says() {
    let cache = ResponseCache::new();
    let too_long = vec![0u8; 65536];
    assert_eq!(upstream_wire(Mode::Tcp, &too_long), None);
    assert_eq!(on_query(Mode::Tcp, &cache, &too_long), Outcome::Dropped);
    assert_eq!(upstream_wire(Mode::Udp, &too_long), Some(too_long.clone()));
}

#[test]
fn tunnel_client_encodes_upstream_only() {
    let mut cache = ResponseCache::new();
    let q = query(0x4444, 1);
    let session = match on_query(Mode::TunnelClient, &cache, &q) {
        Outcome::Forwarding { session, wire } => {
            assert_eq!(wire, encode(&q));
            assert_ne!(wire, q);
            session
        },
        outcome => panic!("not forwarded: {:?}", outcome),
    };
    let a = answer(0x4444);
    assert_eq!(
        on_response(Mode::TunnelClient, &mut cache, session, &encode(&a)),
        Completion::RepliedFromUpstream { reply: a.clone() }
    );
    assert_eq!(
        on_query(Mode::TunnelClient, &cache, &query(0x5555, 1)),
        Outcome::RepliedFromCache { reply: with_id(0x5555, &a) }
    );
}

#[test]
fn tunnel_server_encodes_clients_only() {
    let mut cache = ResponseCache::new();
    let q = query(0x6666, 1);
    let session = match on_query(Mode::TunnelServer, &cache, &encode(&q)) {
        Outcome::Forwarding { session, wire } => {
            assert_eq!(wire, q);
            assert_eq!(session.fingerprint, Some(QUESTION.to_vec()));
            session
        },
        outcome => panic!("not forwarded: {:?}", outcome),
    };
    let a = answer(0x6666);
    assert_eq!(
        on_response(Mode::TunnelServer, &mut cache, session, &a),
        Completion::RepliedFromUpstream { reply: encode(&a) }
    );
    match on_query(Mode::TunnelServer, &cache, &encode(&query(0x7777, 1))) {
        Outcome::RepliedFromCache { reply } => {
            assert_eq!(decode(&reply), with_id(0x7777, &a));
        },
        outcome => panic!("not served from the cache: {:?}", outcome),
    }
}

#[test]
fn a_matched_pair_of_tunnel_ends_carries_a_query_through() {
    let near = ResponseCache::new();
    let mut far = ResponseCache::new();
    let q = query(0x0808, 1);
    let hop = match on_query(Mode::TunnelClient, &near, &q) {
        Outcome::Forwarding { wire, .. } => wire,
        outcome => panic!("not forwarded: {:?}", outcome),
    };
    let (session, plain) = match on_query(Mode::TunnelServer, &far, &hop) {
        Outcome::Forwarding { session, wire } => (session, wire),
        outcome => panic!("not forwarded: {:?}", outcome),
    };
    assert_eq!(plain, q);
    let a = answer(0x0808);
    let back = match on_response(Mode::TunnelServer, &mut far, session, &a) {
        Completion::RepliedFromUpstream { reply } => reply,
        Completion::Dropped => panic!("dropped"),
    };
    assert_eq!(upstream_response(Mode::TunnelClient, &back), Some(a));
}

#[test]
fn modes_and_their_transports() {
    assert_eq!(Mode::Udp.upstream(), Upstream::Udp);
    assert_eq!(Mode::Tcp.upstream(), Upstream::Tcp);
    assert_eq!(Mode::TunnelClient.upstream(), Upstream::Tunnel);
    assert_eq!(Mode::TunnelServer.upstream(), Upstream::Udp);
    assert!(Mode::TunnelServer.encodes_clients());
    assert!(!Mode::TunnelClient.encodes_clients());
    assert!(!Mode::Udp.encodes_clients());
    assert!(!Mode::Tcp.encodes_clients());
    assert_eq!(client_query(Mode::Udp, &[1, 2, 3]), vec![1u8, 2, 3]);
    assert_eq!(client_query(Mode::TunnelServer, &[1, 2]), decode(&[1, 2]));
    assert_eq!(client_datagram(Mode::Tcp, vec![1, 2, 3]), vec![1u8, 2, 3]);
    assert_eq!(client_datagram(Mode::TunnelServer, vec![1, 2]), vec![191u8, 179]);
}
