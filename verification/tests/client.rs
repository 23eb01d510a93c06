use mqttsn_client::message::{Message, MqttMessage, ReturnCode};
use mqttsn_client::mqttsn::{MqttSnClient, MqttSnClientError, SessionState, N_RETRY};
use mqttsn_client::socket::{RecieveBytes, SendBytes, SocketError};
use std::cell::RefCell;
use std::rc::Rc;

/// What the scripted transport saw and will answer.
#[derive(Default)]
struct Wire {
    sent: Vec<Vec<u8>>,
    replies: Vec<Result<Vec<u8>, SocketError>>,
    recv_calls: usize,
}

/// A scripted transport: records every datagram sent, answers each receive
/// from the front of the reply script, and reports an expired bounded wait
/// once the script runs dry.
#[derive(Clone)]
struct MockTransport(Rc<RefCell<Wire>>);

impl MockTransport {
    fn new(replies: Vec<Result<Vec<u8>, SocketError>>) -> Self {
        MockTransport(Rc::new(RefCell::new(Wire {
            sent: Vec::new(),
            replies,
            recv_calls: 0,
        })))
    }

    fn sent(&self) -> Vec<Vec<u8>> {
        self.0.borrow().sent.clone()
    }

    fn recv_calls(&self) -> usize {
        self.0.borrow().recv_calls
    }

    fn push_reply(&self, bytes: Vec<u8>) {
        self.0.borrow_mut().replies.push(Ok(bytes));
    }
}

impl SendBytes for MockTransport {
    fn send(&mut self, buf: &[u8]) -> Result<(), SocketError> {
        self.0.borrow_mut().sent.push(buf.to_vec());
        Ok(())
    }
}

impl RecieveBytes for MockTransport {
    fn recv(&mut self) -> Result<Vec<u8>, SocketError> {
        let mut wire = self.0.borrow_mut();
        wire.recv_calls += 1;
        if wire.replies.is_empty() {
            Err(SocketError::Timeout)
        } else {
            wire.replies.remove(0)
        }
    }
}

/// A transport whose sends always fail.
struct DeadTransport;

impl SendBytes for DeadTransport {
    fn send(&mut self, _buf: &[u8]) -> Result<(), SocketError> {
        Err(SocketError::Generic)
    }
}

impl RecieveBytes for DeadTransport {
    fn recv(&mut self) -> Result<Vec<u8>, SocketError> {
        Err(SocketError::Generic)
    }
}

fn connack_accepted() -> Vec<u8> {
    vec![3, 0x05, 0x00]
}

fn connack_rejected() -> Vec<u8> {
    vec![3, 0x05, 0x01]
}

fn regack_accepted(topic_id: u16, msg_id: u16) -> Vec<u8> {
    vec![
        7,
        0x0B,
        (topic_id >> 8) as u8,
        topic_id as u8,
        (msg_id >> 8) as u8,
        msg_id as u8,
        0x00,
    ]
}

fn puback(topic_id: u16, msg_id: u16, code: u8) -> Vec<u8> {
    vec![
        7,
        0x0D,
        (topic_id >> 8) as u8,
        topic_id as u8,
        (msg_id >> 8) as u8,
        msg_id as u8,
        code,
    ]
}

fn suback_accepted(topic_id: u16, msg_id: u16) -> Vec<u8> {
    vec![
        8,
        0x13,
        0x00,
        (topic_id >> 8) as u8,
        topic_id as u8,
        (msg_id >> 8) as u8,
        msg_id as u8,
        0x00,
    ]
}

fn pingresp() -> Vec<u8> {
    vec![2, 0x17]
}

fn disconnect_echo() -> Vec<u8> {
    vec![2, 0x18]
}

fn inbound_publish(qos: u8, topic_id: u16, msg_id: u16, payload: &str) -> Vec<u8> {
    let mut v = vec![
        7 + payload.len() as u8,
        0x0C,
        qos << 5,
        (topic_id >> 8) as u8,
        topic_id as u8,
        (msg_id >> 8) as u8,
        msg_id as u8,
    ];
    v.extend_from_slice(payload.as_bytes());
    v
}

#[test]
fn connect_accepted_succeeds() {
    let wire = MockTransport::new(vec![Ok(connack_accepted())]);
    let mut client = MqttSnClient::new("cli", wire.clone()).unwrap();
    assert_eq!(client.connect(), Ok(()));
    assert_eq!(client.state(), SessionState::Connected);
    // the connection request frame as the codec lays it out:
    // length, type, flags, protocol id, big-endian duration, client id
    assert_eq!(
        wire.sent()[0],
        vec![9, 0x04, 0x00, 0x01, 0x00, 120, b'c', b'l', b'i']
    );
}

#[test]
fn connect_rejected_is_an_ack_error() {
    let wire = MockTransport::new(vec![Ok(connack_rejected())]);
    let mut client = MqttSnClient::new("cli", wire).unwrap();
    assert_eq!(client.connect(), Err(MqttSnClientError::AckError));
    assert_eq!(client.state(), SessionState::Disconnected);
}

#[test]
fn connect_without_a_reply_is_an_ack_error() {
    let wire = MockTransport::new(vec![]);
    let mut client = MqttSnClient::new("cli", wire).unwrap();
    assert_eq!(client.connect(), Err(MqttSnClientError::AckError));
    assert_eq!(client.state(), SessionState::Disconnected);
}

#[test]
fn connect_over_a_dead_transport_is_a_socket_error() {
    let mut client = MqttSnClient::new("cli", DeadTransport).unwrap();
    assert_eq!(client.connect(), Err(MqttSnClientError::SocketError));
}

#[test]
fn client_id_must_fit_the_byte_bound() {
    let long = "x".repeat(33);
    assert!(matches!(
        MqttSnClient::new(&long, DeadTransport),
        Err(MqttSnClientError::UnknownError)
    ));
    assert!(MqttSnClient::new("ok-id", DeadTransport).is_ok());
}

#[test]
fn publish_qos0_never_waits_for_anything() {
    // the first publish registers the topic (one exchange), the second hits
    // the alias store and issues no receive at all
    let wire = MockTransport::new(vec![Ok(regack_accepted(7, 1))]);
    let mut client = MqttSnClient::new("cli", wire.clone()).unwrap();
    let msg = MqttMessage::new("t", "hello", None).unwrap();
    assert_eq!(client.publish(msg), Ok(()));
    let calls_after_first = wire.recv_calls();
    assert_eq!(calls_after_first, 1);

    let msg2 = MqttMessage::new("t", "again", Some(0)).unwrap();
    assert_eq!(client.publish(msg2), Ok(()));
    assert_eq!(wire.recv_calls(), calls_after_first);
    // register, first publish, second publish
    assert_eq!(wire.sent().len(), 3);
}

#[test]
fn publish_qos1_exhausts_exactly_the_retry_budget() {
    let wire = MockTransport::new(vec![Ok(regack_accepted(7, 1))]);
    let mut client = MqttSnClient::new("cli", wire.clone()).unwrap();
    let opener = MqttMessage::new("t", "x", None).unwrap();
    client.publish(opener).unwrap();
    let calls_before = wire.recv_calls();

    // every acknowledgement is dropped: the script is empty
    let msg = MqttMessage::new("t", "payload", Some(1)).unwrap();
    assert_eq!(client.publish(msg), Err(MqttSnClientError::AckError));
    assert_eq!(wire.recv_calls() - calls_before, N_RETRY as usize);
}

#[test]
fn publish_qos1_succeeds_on_the_matching_acknowledgement() {
    let wire = MockTransport::new(vec![Ok(regack_accepted(7, 1))]);
    let mut client = MqttSnClient::new("cli", wire.clone()).unwrap();
    client
        .publish(MqttMessage::new("t", "x", None).unwrap())
        .unwrap();
    // msg id 1 went to the registration, 2 to the first publish; the
    // acknowledged publish runs under id 3
    wire.push_reply(puback(7, 3, 0x00));
    let msg = MqttMessage::new("t", "payload", Some(1)).unwrap();
    assert_eq!(client.publish(msg), Ok(()));
}

#[test]
fn publish_qos1_ignores_a_mismatched_acknowledgement() {
    let wire = MockTransport::new(vec![Ok(regack_accepted(7, 1))]);
    let mut client = MqttSnClient::new("cli", wire.clone()).unwrap();
    client
        .publish(MqttMessage::new("t", "x", None).unwrap())
        .unwrap();
    // an acknowledgement for a different outstanding id never matches
    wire.push_reply(puback(7, 999, 0x00));
    let msg = MqttMessage::new("t", "payload", Some(1)).unwrap();
    assert_eq!(client.publish(msg), Err(MqttSnClientError::AckError));
}

#[test]
fn subscribe_registers_an_unknown_topic_exactly_once() {
    let wire = MockTransport::new(vec![
        Ok(regack_accepted(9, 1)),
        Ok(suback_accepted(9, 2)),
    ]);
    let mut client = MqttSnClient::new("cli", wire.clone()).unwrap();
    assert_eq!(client.subscribe("a/b"), Ok(()));
    let sent = wire.sent();
    let registers = sent.iter().filter(|f| f[1] == 0x0A).count();
    let subscribes = sent.iter().filter(|f| f[1] == 0x12).count();
    assert_eq!(registers, 1);
    assert_eq!(subscribes, 1);
    assert!(sent[0][1] == 0x0A && sent[1][1] == 0x12);
}

#[test]
fn subscribe_skips_registration_for_a_known_topic() {
    let wire = MockTransport::new(vec![
        Ok(regack_accepted(9, 1)),
        Ok(suback_accepted(9, 2)),
    ]);
    let mut client = MqttSnClient::new("cli", wire.clone()).unwrap();
    client.subscribe("a/b").unwrap();
    let registers_before = wire.sent().iter().filter(|f| f[1] == 0x0A).count();

    wire.push_reply(suback_accepted(9, 3));
    assert_eq!(client.subscribe("a/b"), Ok(()));
    let registers_after = wire.sent().iter().filter(|f| f[1] == 0x0A).count();
    assert_eq!(registers_before, registers_after);
    assert_eq!(wire.sent().iter().filter(|f| f[1] == 0x12).count(), 2);
}

#[test]
fn receive_acknowledges_and_delivers_a_qos1_publish() {
    // make topic id 7 known first
    let wire = MockTransport::new(vec![Ok(regack_accepted(7, 1))]);
    let mut client = MqttSnClient::new("cli", wire.clone()).unwrap();
    client
        .publish(MqttMessage::new("news", "x", None).unwrap())
        .unwrap();

    wire.push_reply(inbound_publish(1, 7, 0x2A, "hi"));
    wire.push_reply(pingresp());
    let got = client.receive().unwrap();
    assert_eq!(got, Some(Message::PingResp));
    // the acknowledgement went out on the transport within the same call
    let acks: Vec<_> = wire.sent().iter().filter(|f| f[1] == 0x0D).cloned().collect();
    assert_eq!(acks, vec![puback(7, 0x2A, 0x00)]);
    // and the reassembled message reached the application queue
    let delivered = client.next_delivered().unwrap();
    assert_eq!(delivered.topic, "news");
    assert_eq!(delivered.payload, "hi");
    assert_eq!(delivered.qos(), Some(1));
    assert!(client.next_delivered().is_none());
}

#[test]
fn receive_does_not_acknowledge_a_qos0_publish() {
    let wire = MockTransport::new(vec![Ok(regack_accepted(7, 1))]);
    let mut client = MqttSnClient::new("cli", wire.clone()).unwrap();
    client
        .publish(MqttMessage::new("news", "x", None).unwrap())
        .unwrap();

    wire.push_reply(inbound_publish(0, 7, 0x2A, "hi"));
    wire.push_reply(pingresp());
    client.receive().unwrap();
    assert_eq!(wire.sent().iter().filter(|f| f[1] == 0x0D).count(), 0);
    assert_eq!(client.delivered().len(), 1);
}

#[test]
fn receive_surfaces_an_unknown_topic_id() {
    let wire = MockTransport::new(vec![Ok(inbound_publish(1, 77, 5, "hi"))]);
    let mut client = MqttSnClient::new("cli", wire).unwrap();
    assert_eq!(
        client.receive(),
        Err(MqttSnClientError::TopicNotRegistered)
    );
}

#[test]
fn undecodable_bytes_are_a_parse_error() {
    let wire = MockTransport::new(vec![Ok(vec![0xFF, 0xFF, 0xFF])]);
    let mut client = MqttSnClient::new("cli", wire).unwrap();
    assert_eq!(client.receive(), Err(MqttSnClientError::ParseError));
}

#[test]
fn ping_expects_its_response() {
    let wire = MockTransport::new(vec![Ok(pingresp())]);
    let mut client = MqttSnClient::new("cli", wire.clone()).unwrap();
    assert_eq!(client.ping(), Ok(()));
    // the keep-alive request frame: length, type, client id
    assert_eq!(wire.sent()[0], vec![5, 0x16, b'c', b'l', b'i']);

    let wire2 = MockTransport::new(vec![Ok(connack_accepted())]);
    let mut client2 = MqttSnClient::new("cli", wire2).unwrap();
    assert_eq!(client2.ping(), Err(MqttSnClientError::NoPingResponse));
}

#[test]
fn disconnect_waits_for_the_peer_echo() {
    let wire = MockTransport::new(vec![Ok(disconnect_echo())]);
    let mut client = MqttSnClient::new("cli", wire.clone()).unwrap();
    assert_eq!(client.disconnect(None), Ok(()));
    assert_eq!(client.state(), SessionState::Disconnected);
    assert_eq!(wire.sent()[0], vec![2, 0x18]);
}

#[test]
fn disconnect_with_a_duration_goes_to_sleep() {
    let wire = MockTransport::new(vec![Ok(disconnect_echo())]);
    let mut client = MqttSnClient::new("cli", wire.clone()).unwrap();
    assert_eq!(client.disconnect(Some(300)), Ok(()));
    assert_eq!(client.state(), SessionState::Sleeping);
    assert_eq!(wire.sent()[0], vec![4, 0x18, 0x01, 0x2C]);
}

#[test]
fn disconnect_without_an_echo_is_an_ack_error() {
    let wire = MockTransport::new(vec![]);
    let mut client = MqttSnClient::new("cli", wire).unwrap();
    assert_eq!(client.disconnect(None), Err(MqttSnClientError::AckError));
}

#[test]
fn run_step_without_a_request_pings() {
    let wire = MockTransport::new(vec![Ok(pingresp())]);
    let mut client = MqttSnClient::new("cli", wire.clone()).unwrap();
    assert_eq!(client.run_step(None, 30), Ok(()));
    assert_eq!(wire.sent().len(), 1);
    assert_eq!(wire.sent()[0][1], 0x16);
}

#[test]
fn run_step_with_a_request_runs_the_wake_publish_sleep_bundle() {
    let wire = MockTransport::new(vec![
        Ok(connack_accepted()),
        Ok(regack_accepted(4, 1)),
        Ok(disconnect_echo()),
    ]);
    let mut client = MqttSnClient::new("cli", wire.clone()).unwrap();
    let msg = MqttMessage::new("t", "data", None).unwrap();
    assert_eq!(client.run_step(Some(msg), 30), Ok(()));
    assert_eq!(client.state(), SessionState::Sleeping);
    let kinds: Vec<u8> = wire.sent().iter().map(|f| f[1]).collect();
    assert_eq!(kinds, vec![0x04, 0x0A, 0x0C, 0x18]);
}

#[test]
fn an_oversize_payload_is_a_codec_error() {
    let wire = MockTransport::new(vec![Ok(regack_accepted(7, 1))]);
    let mut client = MqttSnClient::new("cli", wire).unwrap();
    client
        .publish(MqttMessage::new("t", "x", None).unwrap())
        .unwrap();
    let big = "y".repeat(256);
    let msg = MqttMessage::new("t", &big, None).unwrap();
    assert_eq!(client.publish(msg), Err(MqttSnClientError::CodecError));
}

#[test]
fn message_construction_enforces_the_protocol_bounds() {
    assert!(MqttMessage::new("t", "p", Some(2)).is_ok());
    assert!(matches!(
        MqttMessage::new("t", "p", Some(3)),
        Err(MqttSnClientError::UnknownError)
    ));
    let long = "x".repeat(257);
    assert!(matches!(
        MqttMessage::new(&long, "p", None),
        Err(MqttSnClientError::UnknownError)
    ));
    assert!(matches!(
        MqttMessage::new("t", &long, None),
        Err(MqttSnClientError::UnknownError)
    ));
    // a message built by the application owes no acknowledgement
    assert!(MqttMessage::new("t", "p", Some(1)).unwrap().get_ack().is_none());
}

#[test]
fn a_clients_own_message_kinds_are_the_sendable_ones() {
    let wire = MockTransport::new(vec![]);
    let mut client = MqttSnClient::new("cli", wire.clone()).unwrap();
    assert_eq!(
        client.send(Message::ConnAck { code: ReturnCode::Accepted }),
        Err(MqttSnClientError::CodecError)
    );
    assert_eq!(client.send(Message::Other), Err(MqttSnClientError::CodecError));
    assert_eq!(
        client.send(Message::PingReq { client_id: String::from("cli") }),
        Ok(())
    );
    assert_eq!(wire.sent().len(), 1);
}

#[test]
fn receive_forwards_several_publishes_in_one_attempt() {
    let wire = MockTransport::new(vec![Ok(regack_accepted(7, 1))]);
    let mut client = MqttSnClient::new("cli", wire.clone()).unwrap();
    client
        .publish(MqttMessage::new("news", "x", None).unwrap())
        .unwrap();
    for i in 0..3u16 {
        wire.push_reply(inbound_publish(0, 7, i, "m"));
    }
    wire.push_reply(pingresp());
    assert_eq!(client.receive(), Ok(Some(Message::PingResp)));
    assert_eq!(client.delivered().len(), 3);
}

#[test]
fn one_receive_attempt_is_bounded() {
    let wire = MockTransport::new(vec![Ok(regack_accepted(7, 1))]);
    let mut client = MqttSnClient::new("cli", wire.clone()).unwrap();
    client
        .publish(MqttMessage::new("news", "x", None).unwrap())
        .unwrap();
    // a peer that streams data publishes without end cannot pin one
    // inbound-decode attempt down forever
    for i in 0..200u16 {
        wire.push_reply(inbound_publish(0, 7, i, "m"));
    }
    assert_eq!(client.receive(), Err(MqttSnClientError::AckError));
}


#[test]
fn a_timed_out_wait_is_an_ack_failure_and_a_broken_socket_is_not() {
    // the reply script is dry: the bounded wait expires
    let wire = MockTransport::new(vec![]);
    let mut client = MqttSnClient::new("cli", wire).unwrap();
    assert_eq!(client.receive(), Err(MqttSnClientError::AckError));

    // an I/O failure keeps its own kind
    let mut client2 = MqttSnClient::new("cli", DeadTransport).unwrap();
    assert_eq!(client2.receive(), Err(MqttSnClientError::SocketError));
}

#[test]
fn a_malformed_subscribe_frame_is_a_parse_error() {
    // frames announcing a subscribe or unsubscribe with a length byte below
    // their fixed header must be rejected, not crash the decoder
    let wire = MockTransport::new(vec![Ok(vec![4, 0x12, 0, 0, 0]), Ok(vec![0, 0x14, 9, 9, 9])]);
    let mut client = MqttSnClient::new("cli", wire).unwrap();
    assert_eq!(client.receive(), Err(MqttSnClientError::ParseError));
    assert_eq!(client.receive(), Err(MqttSnClientError::ParseError));
}

#[test]
fn topics_and_payloads_are_bounded_in_bytes_not_characters() {
    // any text within the byte bounds is accepted
    let msg = MqttMessage::new("température/salon", "21°C", Some(1)).unwrap();
    assert_eq!(msg.payload, "21°C");
    // two-byte characters count twice: 129 of them overrun 256 bytes
    let wide = "é".repeat(129);
    assert!(matches!(
        MqttMessage::new(&wide, "p", None),
        Err(MqttSnClientError::UnknownError)
    ));
    assert!(MqttMessage::new(&"é".repeat(128), "p", None).is_ok());
    // the client id bound counts bytes the same way
    assert!(MqttSnClient::new(&"é".repeat(17), DeadTransport).is_err());
    assert!(MqttSnClient::new(&"é".repeat(16), DeadTransport).is_ok());
}

#[test]
fn publishing_a_utf8_topic_round_trips_through_the_codec() {
    let wire = MockTransport::new(vec![Ok(regack_accepted(7, 1))]);
    let mut client = MqttSnClient::new("cli", wire.clone()).unwrap();
    let msg = MqttMessage::new("t/é", "börk", None).unwrap();
    assert_eq!(client.publish(msg), Ok(()));
    // the registration carried the topic's UTF-8 bytes
    let reg = &wire.sent()[0];
    assert_eq!(reg[1], 0x0A);
    assert_eq!(&reg[6..], "t/é".as_bytes());
}

#[test]
fn subscribe_references_a_registered_id_with_its_alias_type() {
    let wire = MockTransport::new(vec![
        Ok(regack_accepted(9, 1)),
        Ok(suback_accepted(9, 2)),
    ]);
    let mut client = MqttSnClient::new("cli", wire.clone()).unwrap();
    client.subscribe("a/b").unwrap();
    let sub = wire.sent()[1].clone();
    // length, type, flags (normal registered id), big-endian message id and topic id
    assert_eq!(sub, vec![7, 0x12, 0x00, 0x00, 0x02, 0x00, 0x09]);
}


#[test]
fn a_registration_ack_for_another_request_is_a_mismatch() {
    // the reply is accepted but answers message id 9, not the freshly minted 1
    let wire = MockTransport::new(vec![Ok(regack_accepted(7, 9))]);
    let mut client = MqttSnClient::new("cli", wire.clone()).unwrap();
    let msg = MqttMessage::new("t", "hello", None).unwrap();
    assert_eq!(client.publish(msg), Err(MqttSnClientError::AckError));
    // nothing was registered, so nothing was published either
    assert_eq!(wire.sent().len(), 1);

    // the matching acknowledgement succeeds (the second attempt mints id 2)
    wire.push_reply(regack_accepted(7, 2));
    let msg2 = MqttMessage::new("t", "hello", None).unwrap();
    assert_eq!(client.publish(msg2), Ok(()));
}

#[test]
fn an_oversize_topic_is_a_codec_error() {
    // between the codec's frame bound (249) and the protocol bound (256)
    let topic = "x".repeat(250);
    let wire = MockTransport::new(vec![]);
    let mut client = MqttSnClient::new("cli", wire.clone()).unwrap();
    assert_eq!(client.subscribe(&topic), Err(MqttSnClientError::CodecError));
    let msg = MqttMessage::new(&topic, "p", None).unwrap();
    assert_eq!(client.publish(msg), Err(MqttSnClientError::CodecError));
    // in both cases nothing went out on the wire
    assert_eq!(wire.sent().len(), 0);
}
