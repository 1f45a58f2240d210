//! The decisions of the proxy engine. The engine itself owns sockets and
//! tasks; what it does with a datagram and with the response of the
//! resolver is decided here, on bytes alone.
//!
//! A datagram from a client is answered from the cache or forwarded. The
//! response to a forwarded query is stored in the cache and relayed. A
//! transport failure ends the request without a reply.
use vstd::prelude::*;
use crate::cache::{found, stored, ResponseCache};
use crate::crypt::{decode, decoded, encode, encoded};
use crate::dns::{question_section, DNS, HEADER_LEN};

verus! {

/// How the proxy talks to its clients and to the resolver.
#[derive(Debug, Clone, Copy, PartialEq, Eq, Structural)]
pub enum Mode {
    /// Plain UDP on both sides.
    Udp,
    /// Plain UDP to the clients, DNS over TCP to the resolver.
    Tcp,
    /// The near end of the tunnel: plain UDP to the clients, encoded UDP
    /// to the far end.
    TunnelClient,
    /// The far end of the tunnel: encoded UDP to the near end, plain UDP
    /// to the resolver.
    TunnelServer,
}

/// The transport to the resolver.
#[derive(Debug, Clone, Copy, PartialEq, Eq, Structural)]
pub enum Upstream {
    /// One datagram each way.
    Udp,
    /// One message each way, with its length in two bytes before it.
    Tcp,
    /// One encoded datagram each way.
    Tunnel,
}

impl Mode {
    /// Whether the datagrams exchanged with clients are encoded.
    pub open spec fn encodes_clients_spec(self) -> bool {
        self == Mode::TunnelServer
    }

    /// The transport to the resolver.
    pub open spec fn upstream_spec(self) -> Upstream {
        match self {
            Mode::Udp => Upstream::Udp,
            Mode::Tcp => Upstream::Tcp,
            Mode::TunnelClient => Upstream::Tunnel,
            Mode::TunnelServer => Upstream::Udp,
        }
    }

    /// Whether the datagrams exchanged with clients are encoded.
    pub fn encodes_clients(&self) -> (yes: bool)
        ensures
            yes == self.encodes_clients_spec(),
    {
        match self {
            Mode::TunnelServer => true,
            _ => false,
        }
    }

    /// The transport to the resolver.
    pub fn upstream(&self) -> (u: Upstream)
        ensures
            u == self.upstream_spec(),
    {
        match self {
            Mode::Udp => Upstream::Udp,
            Mode::Tcp => Upstream::Tcp,
            Mode::TunnelClient => Upstream::Tunnel,
            Mode::TunnelServer => Upstream::Udp,
        }
    }
}

/// The number of bytes of a transaction ID.
pub const ID_LEN: usize = 2;

/// The largest message that a two-byte length can announce.
pub const MAX_FRAMED: usize = 0xFFFF;

/// The fingerprint of a query: the bytes of its question section, from
/// behind the header to behind the last question. The transaction ID, the
/// flags and the counts are no part of it, nor is anything that follows
/// the questions. A query whose question section cannot be decoded has
/// none.
pub open spec fn fingerprint_of(query: Seq<u8>) -> Option<Seq<u8>> {
    match question_section(query) {
        Some((_, end)) => Some(query.subrange(HEADER_LEN as int, end)),
        None => None,
    }
}

/// The query inside a datagram from a client.
pub open spec fn query_of(mode: Mode, datagram: Seq<u8>) -> Seq<u8> {
    if mode.encodes_clients_spec() {
        decoded(datagram)
    } else {
        datagram
    }
}

/// The datagram that carries a message to a client.
pub open spec fn to_client(mode: Mode, message: Seq<u8>) -> Seq<u8> {
    if mode.encodes_clients_spec() {
        encoded(message)
    } else {
        message
    }
}

/// A message with its length before it, in two bytes, the high one first.
pub open spec fn framed(message: Seq<u8>) -> Seq<u8> {
    seq![(message.len() / 256) as u8, (message.len() % 256) as u8] + message
}

/// The bytes that carry a query to the resolver. A query too long for
/// the two-byte length of the TCP transport cannot be carried.
pub open spec fn to_upstream(mode: Mode, query: Seq<u8>) -> Option<Seq<u8>> {
    match mode.upstream_spec() {
        Upstream::Udp => Some(query),
        Upstream::Tunnel => Some(encoded(query)),
        Upstream::Tcp => if query.len() <= MAX_FRAMED {
            Some(framed(query))
        } else {
            None
        },
    }
}

/// The response inside the bytes that came from the resolver. Over TCP
/// the two bytes of the length are taken off; fewer than two bytes hold
/// no response.
pub open spec fn from_upstream(mode: Mode, wire: Seq<u8>) -> Option<Seq<u8>> {
    match mode.upstream_spec() {
        Upstream::Udp => Some(wire),
        Upstream::Tunnel => Some(decoded(wire)),
        Upstream::Tcp => if wire.len() >= 2 {
            Some(wire.subrange(2, wire.len() as int))
        } else {
            None
        },
    }
}

/// What the cache keeps of a response: all that follows its transaction
/// ID.
pub open spec fn kept(response: Seq<u8>) -> Seq<u8> {
    response.subrange(ID_LEN as int, response.len() as int)
}

/// The reply made from what the cache kept: the transaction ID of the
/// query, then the kept bytes.
pub open spec fn reply_from(query: Seq<u8>, cached: Seq<u8>) -> Seq<u8> {
    query.subrange(0, ID_LEN as int) + cached
}

/// What the engine waits with while a query is with the resolver.
#[derive(Debug, Clone, PartialEq, Eq)]
pub struct Session {
    /// The fingerprint under which the response will be stored, if the
    /// query has one.
    pub fingerprint: Option<Vec<u8>>,
}

impl Session {
    /// The fingerprint under which the response will be stored.
    pub open spec fn key(&self) -> Option<Seq<u8>> {
        match self.fingerprint {
            Some(f) => Some(f@),
            None => None,
        }
    }
}

/// What the engine does with a datagram from a client.
#[derive(Debug, Clone, PartialEq, Eq)]
pub enum Outcome {
    /// The cache held the answer: send `reply` to the client. The
    /// resolver is not asked.
    RepliedFromCache { reply: Vec<u8> },
    /// Send `wire` to the resolver and wait for one response.
    Forwarding { session: Session, wire: Vec<u8> },
    /// Send nothing.
    Dropped,
}

/// What an `Outcome` stands for.
pub enum OutcomeView {
    RepliedFromCache { reply: Seq<u8> },
    Forwarding { fingerprint: Option<Seq<u8>>, wire: Seq<u8> },
    Dropped,
}

impl View for Outcome {
    type V = OutcomeView;

    open spec fn view(&self) -> OutcomeView {
        match self {
            Outcome::RepliedFromCache { reply } => OutcomeView::RepliedFromCache { reply: reply@ },
            Outcome::Forwarding { session, wire } => OutcomeView::Forwarding {
                fingerprint: session.key(),
                wire: wire@,
            },
            Outcome::Dropped => OutcomeView::Dropped,
        }
    }
}

/// What the engine does with the response of the resolver.
#[derive(Debug, Clone, PartialEq, Eq)]
pub enum Completion {
    /// The cache is updated: send `reply` to the client.
    RepliedFromUpstream { reply: Vec<u8> },
    /// Send nothing.
    Dropped,
}

/// What a `Completion` stands for.
pub enum CompletionView {
    RepliedFromUpstream { reply: Seq<u8> },
    Dropped,
}

impl View for Completion {
    type V = CompletionView;

    open spec fn view(&self) -> CompletionView {
        match self {
            Completion::RepliedFromUpstream { reply } => CompletionView::RepliedFromUpstream {
                reply: reply@,
            },
            Completion::Dropped => CompletionView::Dropped,
        }
    }
}

/// The answer that the cache holds for a query, if it holds one.
pub open spec fn hit(cache: Map<Seq<u8>, Seq<u8>>, query: Seq<u8>) -> Option<Seq<u8>> {
    match fingerprint_of(query) {
        Some(f) => found(cache, f),
        None => None,
    }
}

/// What is done with a datagram from a client: where the cache holds an
/// answer for the fingerprint of the query, the reply is made from it;
/// otherwise the query is forwarded, unless the transport cannot carry
/// it.
pub open spec fn decision(mode: Mode, cache: Map<Seq<u8>, Seq<u8>>, datagram: Seq<u8>) -> OutcomeView {
    let query = query_of(mode, datagram);
    match hit(cache, query) {
        Some(cached) => OutcomeView::RepliedFromCache {
            reply: to_client(mode, reply_from(query, cached)),
        },
        None => match to_upstream(mode, query) {
            Some(wire) => OutcomeView::Forwarding { fingerprint: fingerprint_of(query), wire },
            None => OutcomeView::Dropped,
        },
    }
}

/// The response that is relayed: what came from the resolver, where it
/// holds at least a transaction ID.
pub open spec fn relayed(mode: Mode, wire: Seq<u8>) -> Option<Seq<u8>> {
    match from_upstream(mode, wire) {
        Some(response) => if response.len() >= ID_LEN {
            Some(response)
        } else {
            None
        },
        None => None,
    }
}

/// The cache after the bytes that came from the resolver are dealt with.
pub open spec fn cache_after(
    mode: Mode,
    cache: Map<Seq<u8>, Seq<u8>>,
    fingerprint: Option<Seq<u8>>,
    wire: Seq<u8>,
) -> Map<Seq<u8>, Seq<u8>> {
    match (relayed(mode, wire), fingerprint) {
        (Some(response), Some(f)) => stored(cache, f, kept(response)),
        _ => cache,
    }
}

/// What is done with the bytes that came from the resolver.
pub open spec fn completion(mode: Mode, wire: Seq<u8>) -> CompletionView {
    match relayed(mode, wire) {
        Some(response) => CompletionView::RepliedFromUpstream { reply: to_client(mode, response) },
        None => CompletionView::Dropped,
    }
}

/// A copy of the bytes from `from` up to `to`.
pub fn copy_of(bytes: &[u8], from: usize, to: usize) -> (out: Vec<u8>)
    requires
        from <= to <= bytes@.len(),
    ensures
        out@ == bytes@.subrange(from as int, to as int),
{
    let mut out: Vec<u8> = Vec::new();
    let mut i: usize = from;
    while i < to
        invariant
            from <= i <= to,
            to <= bytes@.len(),
            out@ == bytes@.subrange(from as int, i as int),
        decreases to - i,
    {
        out.push(bytes[i]);
        assert(out@ =~= bytes@.subrange(from as int, i + 1));
        i += 1;
    }
    out
}

/// The fingerprint of a query, if its question section can be decoded.
pub fn fingerprint(query: &[u8]) -> (key: Option<Vec<u8>>)
    ensures
        match key {
            Some(f) => fingerprint_of(query@) == Some(f@),
            None => fingerprint_of(query@) is None,
        },
{
    let message = DNS::with(query, 0);
    assert(message@ =~= query@);
    match message.questions() {
        Ok((_, end)) => Some(copy_of(query, HEADER_LEN, end)),
        Err(_) => None,
    }
}

/// The query inside a datagram from a client.
pub fn client_query(mode: Mode, datagram: &[u8]) -> (query: Vec<u8>)
    ensures
        query@ == query_of(mode, datagram@),
{
    if mode.encodes_clients() {
        decode(datagram)
    } else {
        let all = copy_of(datagram, 0, datagram.len());
        assert(all@ =~= datagram@);
        all
    }
}

/// The datagram that carries a message to a client.
pub fn client_datagram(mode: Mode, message: Vec<u8>) -> (datagram: Vec<u8>)
    ensures
        datagram@ == to_client(mode, message@),
{
    if mode.encodes_clients() {
        encode(message.as_slice())
    } else {
        message
    }
}

/// The bytes that carry a query to the resolver, unless the query is too
/// long for the transport.
pub fn upstream_wire(mode: Mode, query: &[u8]) -> (wire: Option<Vec<u8>>)
    ensures
        match wire {
            Some(bytes) => to_upstream(mode, query@) == Some(bytes@),
            None => to_upstream(mode, query@) is None,
        },
{
    match mode.upstream() {
        Upstream::Udp => {
            let all = copy_of(query, 0, query.len());
            assert(all@ =~= query@);
            Some(all)
        },
        Upstream::Tunnel => Some(encode(query)),
        Upstream::Tcp => {
            let n: usize = query.len();
            if n > MAX_FRAMED {
                return None;
            }
            let mut out: Vec<u8> = Vec::new();
            out.push((n / 256) as u8);
            out.push((n % 256) as u8);
            out.extend_from_slice(query);
            assert(out@ =~= framed(query@));
            Some(out)
        },
    }
}

/// The response inside the bytes that came from the resolver, where they
/// hold one with a transaction ID.
pub fn upstream_response(mode: Mode, wire: &[u8]) -> (response: Option<Vec<u8>>)
    ensures
        match response {
            Some(bytes) => relayed(mode, wire@) == Some(bytes@),
            None => relayed(mode, wire@) is None,
        },
{
    let response: Vec<u8> = match mode.upstream() {
        Upstream::Udp => {
            let all = copy_of(wire, 0, wire.len());
            assert(all@ =~= wire@);
            all
        },
        Upstream::Tunnel => decode(wire),
        Upstream::Tcp => {
            if wire.len() < 2 {
                return None;
            }
            copy_of(wire, 2, wire.len())
        },
    };
    if response.len() < ID_LEN {
        None
    } else {
        Some(response)
    }
}

/// Decides what to do with a datagram from a client.
///
/// Where the cache holds an answer for the fingerprint of the query, the
/// reply is that answer behind the transaction ID of the query, and the
/// resolver is not asked. Otherwise the query is to be forwarded, with
/// the fingerprint under which its response will be stored; a query
/// without a fingerprint is forwarded all the same. Nothing is sent only
/// where the transport to the resolver cannot carry the query.
pub fn on_query(mode: Mode, cache: &ResponseCache, datagram: &[u8]) -> (out: Outcome)
    requires
        cache.wf(),
    ensures
        out@ == decision(mode, cache@, datagram@),
{
    let query: Vec<u8> = client_query(mode, datagram);
    let key: Option<Vec<u8>> = fingerprint(query.as_slice());
    if let Some(f) = &key {
        if let Some(cached) = cache.get(f.as_slice()) {
            let mut reply: Vec<u8> = copy_of(query.as_slice(), 0, ID_LEN);
            reply.extend_from_slice(cached.as_slice());
            assert(reply@ =~= reply_from(query@, cached@));
            return Outcome::RepliedFromCache { reply: client_datagram(mode, reply) };
        }
    }
    match upstream_wire(mode, query.as_slice()) {
        Some(wire) => Outcome::Forwarding { session: Session { fingerprint: key }, wire },
        None => Outcome::Dropped,
    }
}

/// Decides what to do with the bytes that came from the resolver for a
/// forwarded query.
///
/// A response that holds at least a transaction ID is stored under the
/// fingerprint of the session, without its transaction ID, and relayed to
/// the client as it came. Anything shorter is dropped and leaves the
/// cache as it was.
pub fn on_response(mode: Mode, cache: &mut ResponseCache, session: Session, wire: &[u8]) -> (out:
    Completion)
    requires
        old(cache).wf(),
    ensures
        final(cache).wf(),
        final(cache)@ == cache_after(mode, old(cache)@, session.key(), wire@),
        out@ == completion(mode, wire@),
{
    match upstream_response(mode, wire) {
        Some(response) => {
            if let Some(f) = session.fingerprint {
                let rest: Vec<u8> = copy_of(response.as_slice(), ID_LEN, response.len());
                cache.put(f, rest);
            }
            Completion::RepliedFromUpstream { reply: client_datagram(mode, response) }
        },
        None => Completion::Dropped,
    }
}

/// What is done where the transport to the resolver fails: the request
/// ends without a reply, and the cache stays as it was.
pub fn on_failure(session: Session) -> (out: Completion)
    ensures
        out@ == CompletionView::Dropped,
{
    Completion::Dropped
}

/// A second query for the same question is served from the cache.
///
/// Once the response to a forwarded query with a fingerprint has been
/// relayed, a datagram whose query has that fingerprint is answered
/// without the resolver: with what the cache kept of the response, behind
/// the transaction ID of the new query.
pub proof fn lemma_served_from_cache(
    mode: Mode,
    cache: Map<Seq<u8>, Seq<u8>>,
    first: Seq<u8>,
    wire: Seq<u8>,
    second: Seq<u8>,
)
    requires
        fingerprint_of(query_of(mode, first)) is Some,
        fingerprint_of(query_of(mode, second)) == fingerprint_of(query_of(mode, first)),
        relayed(mode, wire) is Some,
    ensures
        decision(
            mode,
            cache_after(mode, cache, fingerprint_of(query_of(mode, first)), wire),
            second,
        ) == (OutcomeView::RepliedFromCache {
            reply: to_client(
                mode,
                reply_from(query_of(mode, second), kept(relayed(mode, wire)->0)),
            ),
        }),
{
}

} // verus!
