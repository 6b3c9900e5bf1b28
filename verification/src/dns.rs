//! The DNS forwarder on the gateway address: queries are relayed to the
//! upstream resolvers, one after the other, and the first good response is
//! relayed back.

use hickory_proto::op::{Message, MessageType, OpCode, ResponseCode};
use vstd::prelude::*;

use crate::bytes;

verus! {

/// An input or output error of the operating system.
#[verifier::external_type_specification]
#[verifier::external_body]
pub struct ExIoError(std::io::Error);

/// Why an upstream gave no response.
#[derive(Debug)]
pub enum UpstreamError {
    /// It did not answer in time.
    Timeout,
    /// It refused the query.
    Refused,
    /// The query or the response could not be carried.
    Io(std::io::Error),
}

/// `std::io::Error::new`, with the kind and the text of `e`: an error like
/// `e`. Nothing is claimed of it.
#[verifier::external_body]
fn like_io_error(e: &std::io::Error) -> (r: std::io::Error) {
    std::io::Error::new(e.kind(), e.to_string())
}

impl Clone for UpstreamError {
    /// The same error; an input or output error keeps its kind and its text.
    fn clone(&self) -> (r: Self)
        ensures
            r is Timeout <==> self is Timeout,
            r is Refused <==> self is Refused,
            r is Io <==> self is Io,
    {
        match self {
            UpstreamError::Timeout => UpstreamError::Timeout,
            UpstreamError::Refused => UpstreamError::Refused,
            UpstreamError::Io(e) => UpstreamError::Io(like_io_error(e)),
        }
    }
}

/// A resolver that queries are relayed to.
pub trait UpstreamSender: Send + Sync + 'static {
    /// Whether the query with the bytes `query` may have the outcome `o` here:
    /// a response, or none. It may have any, unless an upstream says otherwise.
    open spec fn may_yield(&self, query: Seq<u8>, o: Option<Seq<u8>>) -> bool {
        true
    }

    /// Sends one query and gives the response.
    fn send(&self, query: &[u8]) -> (r: Result<Vec<u8>, UpstreamError>)
        ensures
            self.may_yield(query@, outcome(r)),
    ;
}

// -- the wire format ----------------------------------------------------------

/// What a message's header says, as far as the forwarder reads it.
#[derive(Debug, Clone, Copy, PartialEq, Eq, Structural)]
pub struct DnsHeader {
    pub id: u16,
    /// Whether the message is a response.
    pub response: bool,
    /// How many questions the message holds.
    pub questions: usize,
}

/// Whether `packet` is a DNS message: a header, and behind it the questions
/// and records that it announces.
pub uninterp spec fn dns_decodes(packet: Seq<u8>) -> bool;

/// `hickory_proto`'s `Message::from_vec`: reads a message, where the bytes are
/// one; whether they are is given a name here. The header starts with the
/// identifier, the flags, whose first bit marks a response, and the number of
/// questions, each of which is then read.
#[verifier::external_body]
fn read_header(packet: &[u8]) -> (r: Option<DnsHeader>)
    ensures
        r is Some == dns_decodes(packet@),
        r is Some ==> packet.len() >= 12,
        r is Some ==> r->0.id == bytes::be16(packet@[0], packet@[1]),
        r is Some ==> r->0.response == (packet@[2] >= 128),
        r is Some ==> r->0.questions == bytes::be16(packet@[4], packet@[5]),
{
    let m = Message::from_vec(packet).ok()?;
    Some(DnsHeader {
        id: m.metadata.id,
        response: m.metadata.message_type == MessageType::Response,
        questions: m.queries.len(),
    })
}

/// A response with the identifier `id` that says that the server failed.
pub open spec fn servfail_bytes(id: u16) -> Seq<u8> {
    bytes::be16_bytes(id) + seq![0x80u8, 0x02u8, 0u8, 0u8, 0u8, 0u8, 0u8, 0u8, 0u8, 0u8]
}

/// `hickory_proto`'s `Message::error_msg` for a standard query and a server
/// failure, written by `to_vec`: a header of 12 bytes, in which only the
/// identifier, the mark of a response and the response code are not zero. It
/// does not fail.
#[verifier::external_body]
fn write_servfail(id: u16) -> (r: Option<Vec<u8>>)
    ensures
        r is Some,
        r->0@ == servfail_bytes(id),
{
    Message::error_msg(id, OpCode::Query, ResponseCode::ServFail).to_vec().ok()
}

// -- the forwarder ------------------------------------------------------------

/// The identifier of the message `packet`.
pub open spec fn id_of(packet: Seq<u8>) -> u16 {
    bytes::be16(packet[0], packet[1]) as u16
}

/// Whether `packet` is a message that asks something.
pub open spec fn asks(packet: Seq<u8>) -> bool {
    dns_decodes(packet) && bytes::be16(packet[4], packet[5]) > 0
}

/// Whether `response` is a response to the query with the identifier `id`.
pub open spec fn responds(response: Seq<u8>, id: u16) -> bool {
    dns_decodes(response) && response[2] >= 128 && id_of(response) == id
}

/// What came of an attempt: the response, where there was one.
pub open spec fn outcome(attempt: Result<Vec<u8>, UpstreamError>) -> Option<Seq<u8>> {
    match attempt {
        Ok(response) => Some(response@),
        Err(_) => None,
    }
}

/// What came of each attempt.
pub open spec fn outcomes(attempts: Seq<Result<Vec<u8>, UpstreamError>>) -> Seq<Option<Seq<u8>>> {
    attempts.map_values(|a: Result<Vec<u8>, UpstreamError>| outcome(a))
}

/// Whether an attempt brought a response to the query with the identifier
/// `id`.
pub open spec fn succeeded(o: Option<Seq<u8>>, id: u16) -> bool {
    o is Some && responds(o->0, id)
}

/// The answer to the query with the identifier `id` once the attempts have
/// had the outcomes `os`: the first response to it, else a server failure.
pub open spec fn settled(id: u16, os: Seq<Option<Seq<u8>>>) -> Seq<u8>
    decreases os.len(),
{
    if os.len() == 0 {
        servfail_bytes(id)
    } else if succeeded(os[0], id) {
        os[0]->0
    } else {
        settled(id, os.skip(1))
    }
}

/// Whether attempts with the outcomes `os` are those that are made for the
/// query with the bytes `query`: it is sent to the upstreams one after the
/// other, until one responds to it or all were tried.
pub open spec fn tried(
    query: Seq<u8>,
    os: Seq<Option<Seq<u8>>>,
    upstreams: Seq<Box<dyn UpstreamSender>>,
) -> bool {
    let id = id_of(query);
    &&& os.len() <= upstreams.len()
    &&& forall|i: int| 0 <= i < os.len() ==> upstreams[i].may_yield(query, #[trigger] os[i])
    &&& forall|i: int| 0 <= i < os.len() - 1 ==> !succeeded(#[trigger] os[i], id)
    &&& os.len() < upstreams.len() ==> os.len() > 0 && succeeded(os.last(), id)
}

/// A DNS forwarder: no zones, no cache, and nothing kept from one query to the
/// next.
pub struct DnsForwarder {
    upstreams: Vec<Box<dyn UpstreamSender>>,
}

impl DnsForwarder {
    /// The upstreams, in order.
    pub closed spec fn upstreams(self) -> Seq<Box<dyn UpstreamSender>> {
        self.upstreams@
    }

    /// A forwarder to the given upstreams, which are tried in order.
    pub fn new(upstreams: Vec<Box<dyn UpstreamSender>>) -> (r: Self)
        ensures
            r.upstreams() == upstreams@,
    {
        DnsForwarder { upstreams }
    }

    /// The response to the query in `packet`; nothing where `packet` is not a
    /// message or asks nothing.
    ///
    /// The query goes, byte for byte, to one upstream after the other until
    /// one responds to it, and that response is given, byte for byte. Where
    /// none does, the response says that the server failed.
    pub fn handle(&self, packet: &[u8]) -> (r: Option<Vec<u8>>)
        ensures
            r is Some <==> asks(packet@),
            r is Some ==> exists|os: Seq<Option<Seq<u8>>>| #[trigger]
                tried(packet@, os, self.upstreams()) && r->0@ == settled(id_of(packet@), os),
    {
        let id: u16 = match query_id(read_header(packet)) {
            Some(id) => id,
            None => {
                return None;
            },
        };
        let mut attempts: Vec<Result<Vec<u8>, UpstreamError>> = Vec::new();
        let ghost mut os: Seq<Option<Seq<u8>>> = Seq::empty();
        let mut done = false;
        while attempts.len() < self.upstreams.len() && !done
            invariant
                attempts.len() <= self.upstreams.len(),
                os.len() == attempts.len(),
                forall|i: int| 0 <= i < os.len() ==> #[trigger] os[i] == outcome(attempts[i]),
                forall|i: int|
                    0 <= i < os.len() ==> self.upstreams@[i].may_yield(packet@, #[trigger] os[i]),
                forall|i: int| 0 <= i < os.len() - 1 ==> !succeeded(#[trigger] os[i], id),
                done ==> os.len() > 0,
                os.len() > 0 ==> done == succeeded(os.last(), id),
            decreases self.upstreams.len() - attempts.len(),
        {
            let attempt = self.upstreams[attempts.len()].send(packet);
            done = is_response(id, &attempt);
            proof {
                os = os.push(outcome(attempt));
            }
            attempts.push(attempt);
        }
        proof {
            assert(id == id_of(packet@));
            assert(tried(packet@, os, self.upstreams()));
            assert(os =~= outcomes(attempts@));
        }
        settle(id, attempts)
    }
}

/// The identifier of the query in a message with the given header, which is
/// none where the bytes are no message; nothing where nothing is asked.
pub fn query_id(header: Option<DnsHeader>) -> (r: Option<u16>)
    ensures
        r == (match header {
            Some(h) => if h.questions > 0 {
                Some(h.id)
            } else {
                None
            },
            None => None,
        }),
{
    match header {
        Some(h) => if h.questions > 0 {
            Some(h.id)
        } else {
            None
        },
        None => None,
    }
}

/// Whether a message with the given header, which is none where the bytes are
/// no message, is a response to the query with the identifier `id`.
pub fn is_answer(id: u16, header: Option<DnsHeader>) -> (r: bool)
    ensures
        r == (header is Some && header->0.response && header->0.id == id),
{
    match header {
        Some(h) => h.response && h.id == id,
        None => false,
    }
}

/// Whether the attempt brought a response to the query with the identifier
/// `id`.
pub fn is_response(id: u16, attempt: &Result<Vec<u8>, UpstreamError>) -> (r: bool)
    ensures
        r == succeeded(outcome(*attempt), id),
{
    match attempt {
        Ok(response) => is_answer(id, read_header(response.as_slice())),
        Err(_) => false,
    }
}

/// The answer to the query with the identifier `id` after the given attempts:
/// the first response to it, else a server failure.
pub fn settle(id: u16, attempts: Vec<Result<Vec<u8>, UpstreamError>>) -> (r: Option<Vec<u8>>)
    ensures
        r is Some,
        r->0@ == settled(id, outcomes(attempts@)),
{
    let ghost os = outcomes(attempts@);
    let mut rest = attempts;
    let mut i: usize = 0;
    assert(os.skip(0) =~= os);
    while i < rest.len()
        invariant
            i <= rest.len(),
            os == outcomes(attempts@),
            os.len() == rest.len(),
            forall|j: int| 0 <= j < os.len() ==> #[trigger] os[j] == outcome(rest@[j]),
            settled(id, os) == settled(id, os.skip(i as int)),
        decreases rest.len() - i,
    {
        assert(os.skip(i as int)[0] == os[i as int]);
        assert(os.skip(i as int).skip(1) =~= os.skip(i + 1));
        if is_response(id, &rest[i]) {
            return match rest.swap_remove(i) {
                Ok(response) => Some(response),
                Err(_) => None,
            };
        }
        i = i + 1;
    }
    servfail(id)
}

/// The response that says that the server failed.
fn servfail(id: u16) -> (r: Option<Vec<u8>>)
    ensures
        r is Some,
        r->0@ == servfail_bytes(id),
{
    write_servfail(id)
}

/// Whatever the upstreams do, a query is answered by a response with its own
/// identifier: one of an upstream, or that of a failed server.
pub proof fn law_answer_matches_the_query(id: u16, os: Seq<Option<Seq<u8>>>)
    ensures
        settled(id, os) == servfail_bytes(id) || responds(settled(id, os), id),
        settled(id, os)[2] >= 128,
        id_of(settled(id, os)) == id,
    decreases os.len(),
{
    bytes::lemma_be16(id);
    assert(servfail_bytes(id)[0] == bytes::be16_bytes(id)[0]);
    assert(servfail_bytes(id)[1] == bytes::be16_bytes(id)[1]);
    assert(servfail_bytes(id)[2] == 0x80);
    if os.len() > 0 && !succeeded(os[0], id) {
        law_answer_matches_the_query(id, os.skip(1));
    }
}

/// Upstreams that fail change nothing: the first one that responds is heard,
/// and without any the answer is a server failure.
pub proof fn law_first_response_is_relayed(id: u16, os: Seq<Option<Seq<u8>>>, n: int)
    requires
        0 <= n <= os.len(),
        forall|i: int| 0 <= i < n ==> !succeeded(#[trigger] os[i], id),
        n < os.len() ==> succeeded(os[n], id),
    ensures
        settled(id, os) == (if n < os.len() {
            os[n]->0
        } else {
            servfail_bytes(id)
        }),
    decreases n,
{
    if n > 0 {
        let rest = os.skip(1);
        assert forall|i: int| 0 <= i < n - 1 implies !succeeded(#[trigger] rest[i], id) by {
            assert(rest[i] == os[i + 1]);
        }
        if n < os.len() {
            assert(rest[n - 1] == os[n]);
        }
        assert(!succeeded(os[0], id));
        law_first_response_is_relayed(id, rest, n - 1);
    }
}

// -- laws on bytes ------------------------------------------------------------

/// What the query `query` is answered, whatever the upstreams do: the message of
/// the first attempt that brought a response to it, byte for byte, whatever its
/// response code, its flags and its records. A response is a message that
/// decodes, has the response bit set and the identifier of the query, and
/// nothing else in it matters. Only where none came is a failure of the server
/// made up, of 12 bytes, with the identifier of the query.
///
/// The upstreams were tried in order, up to the first that brought a response,
/// or all of them.
pub proof fn law_whatever_responds_is_relayed(
    query: Seq<u8>,
    os: Seq<Option<Seq<u8>>>,
    upstreams: Seq<Box<dyn UpstreamSender>>,
    n: int,
)
    requires
        tried(query, os, upstreams),
        0 <= n < os.len(),
    ensures
        ({
            let answer = settled(id_of(query), os);
            let good = |i: int|
                os[i] is Some && dns_decodes(os[i]->0) && os[i]->0[2] >= 128 && os[i]->0[0]
                    == query[0] && os[i]->0[1] == query[1];
            &&& good(n) ==> n == os.len() - 1 && answer == os[n]->0
            &&& os.len() < upstreams.len() ==> good(os.len() - 1)
            &&& (forall|i: int| 0 <= i < os.len() ==> !#[trigger] good(i)) ==> os.len()
                == upstreams.len() && answer == seq![
                query[0],
                query[1],
                0x80u8,
                0x02u8,
                0u8,
                0u8,
                0u8,
                0u8,
                0u8,
                0u8,
                0u8,
                0u8,
            ]
            &&& upstreams[n].may_yield(query, os[n])
        }),
{
    let id = id_of(query);
    let good = |i: int|
        os[i] is Some && dns_decodes(os[i]->0) && os[i]->0[2] >= 128 && os[i]->0[0] == query[0]
            && os[i]->0[1] == query[1];
    assert forall|i: int| 0 <= i < os.len() implies good(i) == succeeded(#[trigger] os[i], id) by {
        lemma_same_id(os[i], query);
    }
    if good(n) {
        assert(succeeded(os[n], id));
        law_first_response_is_relayed(id, os, n);
    }
    if os.len() < upstreams.len() {
        assert(good(os.len() - 1));
    }
    if forall|i: int| 0 <= i < os.len() ==> !#[trigger] good(i) {
        assert forall|i: int| 0 <= i < os.len() implies !succeeded(#[trigger] os[i], id) by {
            assert(!good(i));
        }
        law_first_response_is_relayed(id, os, os.len() as int);
        lemma_id_bytes(query);
        assert(servfail_bytes(id) =~= seq![
            query[0],
            query[1],
            0x80u8,
            0x02u8,
            0u8,
            0u8,
            0u8,
            0u8,
            0u8,
            0u8,
            0u8,
            0u8,
        ]);
    }
}

/// Where there is no upstream, the answer is a failure of the server; and what
/// is a query is a matter of its decoding and its number of questions alone.
pub proof fn law_queries_are_answered(query: Seq<u8>)
    ensures
        asks(query) <==> dns_decodes(query) && (query[4] > 0 || query[5] > 0),
        settled(id_of(query), seq![]) == seq![
            query[0],
            query[1],
            0x80u8,
            0x02u8,
            0u8,
            0u8,
            0u8,
            0u8,
            0u8,
            0u8,
            0u8,
            0u8,
        ],
{
    lemma_id_bytes(query);
    assert(servfail_bytes(id_of(query)) =~= seq![
        query[0],
        query[1],
        0x80u8,
        0x02u8,
        0u8,
        0u8,
        0u8,
        0u8,
        0u8,
        0u8,
        0u8,
        0u8,
    ]);
}

proof fn lemma_id_bytes(query: Seq<u8>)
    ensures
        bytes::be16_bytes(id_of(query)) == seq![query[0], query[1]],
{
    assert(bytes::be16_bytes(id_of(query)) =~= seq![query[0], query[1]]);
}

proof fn lemma_same_id(o: Option<Seq<u8>>, query: Seq<u8>)
    ensures
        succeeded(o, id_of(query)) == (o is Some && dns_decodes(o->0) && o->0[2] >= 128 && o->0[0]
            == query[0] && o->0[1] == query[1]),
{
    if o is Some {
        let r = o->0;
        if id_of(r) == id_of(query) {
            assert(r[0] == query[0] && r[1] == query[1]);
        }
    }
}

} // verus!
