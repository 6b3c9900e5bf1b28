//! The DNS forwarder.

use std::str::FromStr;
use std::sync::{Arc, Mutex};

use hickory_proto::op::{Message, MessageType, OpCode, Query, ResponseCode};
use hickory_proto::rr::rdata::{A, AAAA};
use hickory_proto::rr::{DNSClass, Name, RData, Record, RecordType};
use k8netd::dns::{
    is_answer, is_response, query_id, settle, DnsForwarder, DnsHeader, UpstreamError, UpstreamSender,
};

const QUERY_ID: u16 = 0x1234;
const OTHER_ID: u16 = 0xBEEF;
const QUERY_NAME: &str = "upstream.example";
const TTL: u32 = 300;

fn a_ip() -> A {
    A::new(198, 51, 100, 7)
}

fn aaaa_ip() -> AAAA {
    AAAA::new(0x2001, 0x0db8, 0, 0, 0, 0, 0, 0x42)
}

fn name(s: &str) -> Name {
    Name::from_str(s).unwrap()
}

fn query(id: u16, qname: &str) -> Message {
    let mut msg = Message::new(id, MessageType::Query, OpCode::Query);
    msg.add_query(Query::query(name(qname), RecordType::A));
    msg
}

fn response_for(query: &Message, qname: &str, a: A, aaaa: AAAA) -> Message {
    let mut msg = Message::new(query.metadata.id, MessageType::Response, OpCode::Query);
    msg.add_answer(Record::from_rdata(name(qname), TTL, RData::A(a)));
    msg.add_answer(Record::from_rdata(name(qname), TTL, RData::AAAA(aaaa)));
    msg
}

fn encode(msg: &Message) -> Vec<u8> {
    msg.to_vec().unwrap()
}

fn decode(bytes: &[u8]) -> Message {
    Message::from_vec(bytes).unwrap()
}

fn order() -> Arc<Mutex<Vec<&'static str>>> {
    Arc::new(Mutex::new(Vec::new()))
}

fn order_of(rec: &Arc<Mutex<Vec<&'static str>>>) -> Vec<&'static str> {
    rec.lock().unwrap().clone()
}

struct Stub {
    label: &'static str,
    result: Result<Vec<u8>, UpstreamError>,
    sent: Arc<Mutex<Vec<Vec<u8>>>>,
    order: Arc<Mutex<Vec<&'static str>>>,
}

fn stub(
    label: &'static str,
    result: Result<Vec<u8>, UpstreamError>,
    order: &Arc<Mutex<Vec<&'static str>>>,
) -> (Stub, Arc<Mutex<Vec<Vec<u8>>>>) {
    let sent = Arc::new(Mutex::new(Vec::new()));
    (
        Stub {
            label,
            result,
            sent: sent.clone(),
            order: order.clone(),
        },
        sent,
    )
}

impl UpstreamSender for Stub {
    fn send(&self, query: &[u8]) -> Result<Vec<u8>, UpstreamError> {
        self.sent.lock().unwrap().push(query.to_vec());
        self.order.lock().unwrap().push(self.label);
        self.result.clone()
    }
}

struct FlakyStub {
    label: &'static str,
    canned: Vec<u8>,
    fail_calls: Mutex<usize>,
    order: Arc<Mutex<Vec<&'static str>>>,
}

impl UpstreamSender for FlakyStub {
    fn send(&self, query: &[u8]) -> Result<Vec<u8>, UpstreamError> {
        self.order.lock().unwrap().push(self.label);
        let _ = query;
        let mut fails = self.fail_calls.lock().unwrap();
        if *fails > 0 {
            *fails -= 1;
            return Err(UpstreamError::Timeout);
        }
        Ok(self.canned.clone())
    }
}

fn forwarder<S: UpstreamSender>(stubs: Vec<S>) -> DnsForwarder {
    DnsForwarder::new(
        stubs
            .into_iter()
            .map(|s| Box::new(s) as Box<dyn UpstreamSender>)
            .collect(),
    )
}

fn assert_servfail(bytes: &[u8], id: u16) {
    let msg = decode(bytes);
    assert_eq!(msg.metadata.id, id, "the query ID must be echoed");
    assert_eq!(
        msg.metadata.message_type,
        MessageType::Response,
        "a response to the requester"
    );
    assert_eq!(msg.metadata.op_code, OpCode::Query);
    assert_eq!(
        msg.metadata.response_code,
        ResponseCode::ServFail,
        "pinned: SERVFAIL, not REFUSED"
    );
    assert!(msg.queries.is_empty(), "no question section");
    assert!(msg.answers.is_empty(), "no answer section");
    assert!(msg.authorities.is_empty(), "no authority section");
    assert!(msg.additionals.is_empty(), "no additional section");
}

#[test]
fn query_is_forwarded_and_response_relayed_unchanged() {
    let rec = order();
    let q = query(QUERY_ID, QUERY_NAME);
    let canned = response_for(&q, QUERY_NAME, a_ip(), aaaa_ip());
    let canned_bytes = encode(&canned);
    let (stub, sent) = stub("up0", Ok(canned_bytes.clone()), &rec);
    let fwd = forwarder(vec![stub]);

    let relayed = fwd.handle(&encode(&q)).expect("a response is relayed");

    let sent_q = sent.lock().unwrap();
    assert_eq!(sent_q.len(), 1, "the query goes to the upstream exactly once");
    assert_eq!(sent_q[0], encode(&q), "the query is relayed byte-for-byte");
    assert_eq!(relayed, canned_bytes, "the response is relayed byte-for-byte");
}

#[test]
fn relayed_response_preserves_id_and_answers() {
    let rec = order();
    let q = query(QUERY_ID, QUERY_NAME);
    let canned = response_for(&q, QUERY_NAME, a_ip(), aaaa_ip());
    let (stub, _sent) = stub("up0", Ok(encode(&canned)), &rec);
    let fwd = forwarder(vec![stub]);

    let msg = decode(&fwd.handle(&encode(&q)).expect("a response is relayed"));

    assert_eq!(msg.metadata.id, QUERY_ID, "same ID");
    assert_eq!(msg.metadata.message_type, MessageType::Response);
    assert_eq!(msg.metadata.response_code, ResponseCode::NoError);
    assert_eq!(msg.answers.len(), 2, "same answers");
    let a = &msg.answers[0];
    assert_eq!(a.name, name("upstream.example."));
    assert_eq!(a.dns_class, DNSClass::IN);
    assert_eq!(a.ttl, TTL);
    assert_eq!(a.data, RData::A(a_ip()));
    assert_eq!(msg.answers[1].data, RData::AAAA(aaaa_ip()));
}

#[test]
fn query_with_zero_id_is_forwarded_and_relayed() {
    let rec = order();
    let q = query(0, QUERY_NAME);
    let canned = response_for(&q, QUERY_NAME, a_ip(), aaaa_ip());
    let (stub, _sent) = stub("up0", Ok(encode(&canned)), &rec);
    let fwd = forwarder(vec![stub]);

    let relayed = fwd.handle(&encode(&q)).expect("a response is relayed");

    assert_eq!(decode(&relayed).metadata.id, 0, "ID 0 is echoed, not dropped");
}

#[test]
fn tc_bit_on_query_is_forwarded_as_is() {
    let rec = order();
    let mut q = query(QUERY_ID, QUERY_NAME);
    q.metadata.truncation = true;
    let mut canned = response_for(&q, QUERY_NAME, a_ip(), aaaa_ip());
    canned.metadata.truncation = true;
    let canned_bytes = encode(&canned);
    let (stub, sent) = stub("up0", Ok(canned_bytes.clone()), &rec);
    let fwd = forwarder(vec![stub]);

    let relayed = fwd.handle(&encode(&q)).expect("a response is relayed");

    let sent_q = sent.lock().unwrap();
    assert_eq!(
        sent_q[0],
        encode(&q),
        "the TC query is relayed byte-for-byte, flags not interpreted"
    );
    assert_eq!(relayed, canned_bytes, "the truncated response is relayed byte-for-byte");
}

#[test]
fn first_upstream_success_wins_second_never_called() {
    let rec = order();
    let q = query(QUERY_ID, QUERY_NAME);
    let first = response_for(&q, QUERY_NAME, a_ip(), aaaa_ip());
    let second = response_for(&q, QUERY_NAME, A::new(203, 0, 113, 9), aaaa_ip());
    let (s0, _sent0) = stub("up0", Ok(encode(&first)), &rec);
    let (s1, sent1) = stub("up1", Ok(encode(&second)), &rec);
    let fwd = forwarder(vec![s0, s1]);

    let relayed = fwd.handle(&encode(&q)).expect("a response is relayed");

    assert_eq!(
        relayed,
        encode(&first),
        "the first successful upstream's response is used"
    );
    assert_ne!(relayed, encode(&second));
    assert_eq!(order_of(&rec), vec!["up0"], "the second upstream is never called");
    assert!(sent1.lock().unwrap().is_empty());
}

#[test]
fn failed_upstream_falls_through_to_next() {
    let rec = order();
    let q = query(QUERY_ID, QUERY_NAME);
    let good = response_for(&q, QUERY_NAME, a_ip(), aaaa_ip());
    let good_bytes = encode(&good);
    let (s0, _sent0) = stub("up0", Err(UpstreamError::Timeout), &rec);
    let (s1, _sent1) = stub("up1", Ok(good_bytes.clone()), &rec);
    let fwd = forwarder(vec![s0, s1]);

    let relayed = fwd.handle(&encode(&q)).expect("a response is relayed");

    assert_eq!(relayed, good_bytes, "the next upstream's response is used");
    assert_eq!(order_of(&rec), vec!["up0", "up1"], "upstream 0 is tried first");
}

#[test]
fn mismatched_response_id_is_dropped_next_upstream_tried() {
    let rec = order();
    let q = query(QUERY_ID, QUERY_NAME);
    let mut mismatched = response_for(&q, QUERY_NAME, a_ip(), aaaa_ip());
    mismatched.metadata.id = OTHER_ID;
    let good = response_for(&q, QUERY_NAME, a_ip(), aaaa_ip());
    let good_bytes = encode(&good);
    let (s0, _sent0) = stub("up0", Ok(encode(&mismatched)), &rec);
    let (s1, _sent1) = stub("up1", Ok(good_bytes.clone()), &rec);
    let fwd = forwarder(vec![s0, s1]);

    let relayed = fwd.handle(&encode(&q)).expect("a response is relayed");

    assert_eq!(relayed, good_bytes, "the mismatched response is not relayed");
    assert_eq!(order_of(&rec), vec!["up0", "up1"]);
}

#[test]
fn all_upstreams_timeout_yields_servfail() {
    let rec = order();
    let q = query(QUERY_ID, QUERY_NAME);
    let (s0, _sent0) = stub("up0", Err(UpstreamError::Timeout), &rec);
    let fwd = forwarder(vec![s0]);

    let relayed = fwd.handle(&encode(&q)).expect("a response is produced, never a hang");

    assert_servfail(&relayed, QUERY_ID);
}

#[test]
fn mixed_timeout_and_refused_yields_servfail() {
    let rec = order();
    let q = query(QUERY_ID, QUERY_NAME);
    let (s0, _sent0) = stub("up0", Err(UpstreamError::Timeout), &rec);
    let (s1, _sent1) = stub("up1", Err(UpstreamError::Refused), &rec);
    let fwd = forwarder(vec![s0, s1]);

    let relayed = fwd.handle(&encode(&q)).expect("a response is produced");

    assert_servfail(&relayed, QUERY_ID);
    assert_eq!(order_of(&rec), vec!["up0", "up1"], "every upstream is tried");
}

#[test]
fn no_upstreams_yields_servfail() {
    let fwd = forwarder::<Stub>(vec![]);
    let q = query(QUERY_ID, QUERY_NAME);

    let relayed = fwd.handle(&encode(&q)).expect("a response is produced");

    assert_servfail(&relayed, QUERY_ID);
}

#[test]
fn mismatched_response_id_with_single_upstream_yields_servfail() {
    let rec = order();
    let q = query(QUERY_ID, QUERY_NAME);
    let mut mismatched = response_for(&q, QUERY_NAME, a_ip(), aaaa_ip());
    mismatched.metadata.id = OTHER_ID;
    let (s0, _sent0) = stub("up0", Ok(encode(&mismatched)), &rec);
    let fwd = forwarder(vec![s0]);

    let relayed = fwd.handle(&encode(&q)).expect("a response is produced");

    assert_servfail(&relayed, QUERY_ID);
}

#[test]
fn undecodable_packet_yields_no_response() {
    let rec = order();
    let (s0, sent0) = stub("up0", Ok(Vec::new()), &rec);
    let fwd = forwarder(vec![s0]);

    let garbage = vec![0xFFu8; 32];
    assert_eq!(fwd.handle(&garbage), None, "garbage is dropped, no panic");
    assert_eq!(fwd.handle(&[0u8; 8]), None, "a truncated header is dropped");
    assert!(sent0.lock().unwrap().is_empty(), "nothing is forwarded upstream");
}

#[test]
fn empty_packet_yields_no_response() {
    let rec = order();
    let (s0, sent0) = stub("up0", Ok(Vec::new()), &rec);
    let fwd = forwarder(vec![s0]);

    assert_eq!(fwd.handle(&[]), None, "an empty packet is dropped");
    assert!(sent0.lock().unwrap().is_empty(), "nothing is forwarded upstream");
}

#[test]
fn zero_question_query_yields_no_response() {
    let rec = order();
    let (s0, sent0) = stub("up0", Ok(Vec::new()), &rec);
    let fwd = forwarder(vec![s0]);
    let q = Message::new(QUERY_ID, MessageType::Query, OpCode::Query);

    assert_eq!(fwd.handle(&encode(&q)), None, "no questions, no response");
    assert!(sent0.lock().unwrap().is_empty(), "nothing is forwarded upstream");
}

#[test]
fn repeated_queries_are_independent() {
    let rec = order();
    let q = query(QUERY_ID, QUERY_NAME);
    let canned = response_for(&q, QUERY_NAME, a_ip(), aaaa_ip());
    let canned_bytes = encode(&canned);
    let (stub, sent) = stub("up0", Ok(canned_bytes.clone()), &rec);
    let fwd = forwarder(vec![stub]);

    let first = fwd.handle(&encode(&q)).expect("a response is relayed");
    let second = fwd.handle(&encode(&q)).expect("a response is relayed");

    assert_eq!(first, canned_bytes);
    assert_eq!(second, canned_bytes, "the same query gets the same result");
    assert_eq!(sent.lock().unwrap().len(), 2, "each query is forwarded independently");
}

#[test]
fn failed_query_does_not_poison_the_next() {
    let rec = order();
    let q = query(QUERY_ID, QUERY_NAME);
    let canned = response_for(&q, QUERY_NAME, a_ip(), aaaa_ip());
    let canned_bytes = encode(&canned);
    let flaky = FlakyStub {
        label: "up0",
        canned: canned_bytes.clone(),
        fail_calls: Mutex::new(1),
        order: rec.clone(),
    };
    let fwd = forwarder(vec![flaky]);

    let first = fwd.handle(&encode(&q)).expect("a response is produced");
    assert_servfail(&first, QUERY_ID);
    let second = fwd.handle(&encode(&q)).expect("a response is relayed");
    assert_eq!(second, canned_bytes, "a failed attempt is not remembered");
}

#[test]
fn headers_tell_queries_and_responses() {
    let ask = DnsHeader { id: 7, response: false, questions: 1 };
    let reply = DnsHeader { id: 7, response: true, questions: 1 };
    assert_eq!(query_id(Some(ask)), Some(7));
    assert_eq!(query_id(Some(DnsHeader { questions: 0, ..ask })), None);
    assert_eq!(query_id(None), None);
    assert!(is_answer(7, Some(reply)));
    assert!(!is_answer(8, Some(reply)));
    assert!(!is_answer(7, Some(ask)));
    assert!(!is_answer(7, None));
}

#[test]
fn attempts_are_settled_by_the_first_response() {
    let q = query(QUERY_ID, QUERY_NAME);
    let good = encode(&response_for(&q, QUERY_NAME, a_ip(), aaaa_ip()));
    let not_a_response = encode(&q);
    assert!(is_response(QUERY_ID, &Ok(good.clone())));
    assert!(!is_response(OTHER_ID, &Ok(good.clone())));
    assert!(!is_response(QUERY_ID, &Ok(not_a_response.clone())));
    assert!(!is_response(QUERY_ID, &Ok(vec![1, 2, 3])));
    assert!(!is_response(QUERY_ID, &Err(UpstreamError::Refused)));
    let io = UpstreamError::Io(std::io::Error::other("no route"));
    let settled = settle(QUERY_ID, vec![Err(io), Ok(not_a_response), Ok(good.clone())]);
    assert_eq!(settled, Some(good));
    assert_eq!(
        settle(QUERY_ID, vec![]),
        Some(vec![0x12, 0x34, 0x80, 0x02, 0, 0, 0, 0, 0, 0, 0, 0])
    );
}

#[test]
fn errors_are_copied_with_their_kind_and_text() {
    assert!(matches!(UpstreamError::Timeout.clone(), UpstreamError::Timeout));
    assert!(matches!(UpstreamError::Refused.clone(), UpstreamError::Refused));
    let e = UpstreamError::Io(std::io::Error::new(std::io::ErrorKind::NotConnected, "no route"));
    match e.clone() {
        UpstreamError::Io(copy) => {
            assert_eq!(copy.kind(), std::io::ErrorKind::NotConnected);
            assert_eq!(copy.to_string(), "no route");
        }
        other => panic!("another error: {other:?}"),
    }
}
