use vstd::prelude::*;
use vstd::string::*;
use crate::codec::{
    decode_frame, encode_connect, encode_disconnect, encode_pingreq, encode_publish,
    encode_puback, encode_register, encode_subscribe,
};
use crate::message::{byte_len, Message, MqttMessage, ReturnCode, MAX_TOPIC_LEN};
use crate::socket::{RecieveBytes, SendBytes, SocketError};
use crate::topics::{seq_lookup_id, seq_lookup_name, Topics};

verus! {

/// Seconds a transport is expected to bound one acknowledgement wait by.
pub const T_RETRY: u8 = 10;

/// Fixed number of acknowledgement waits an acknowledged publish spends
/// before giving up.
pub const N_RETRY: u8 = 10;

/// Keep-alive duration carried in every connection request, in seconds.
pub const KEEP_ALIVE: u16 = 120;

/// Longest client identifier accepted at construction, in bytes.
pub const MAX_CLIENT_ID_LEN: usize = 32;

/// Consecutive inbound data publishes one receive attempt forwards before
/// the attempt is abandoned, so that a single attempt stays bounded.
pub const RECEIVE_BURST: usize = 64;

/// How a numeric topic reference in a packet is to be interpreted; the
/// wire flag bit pattern of each alternative is its position in the list
/// (normal registered id, predefined id, short name).
#[derive(Clone, Copy, Debug, Hash, PartialEq, Eq, PartialOrd, Ord, Structural)]
pub enum TopicIdType {
    Id,
    PreDef,
    Short,
}

impl TopicIdType {
    /// The flag bit pattern this alternative is encoded as.
    pub open spec fn spec_wire_value(self) -> u8 {
        match self {
            TopicIdType::Id => 0,
            TopicIdType::PreDef => 1,
            TopicIdType::Short => 2,
        }
    }

    /// Decodes a wire flag bit pattern; values above the three known
    /// alternatives are a malformed packet.
    pub fn try_from(i: u8) -> (r: Result<Self, MqttSnClientError>)
        ensures
            i == 0 ==> r == Ok::<Self, MqttSnClientError>(TopicIdType::Id),
            i == 1 ==> r == Ok::<Self, MqttSnClientError>(TopicIdType::PreDef),
            i == 2 ==> r == Ok::<Self, MqttSnClientError>(TopicIdType::Short),
            i > 2 ==> r == Err::<Self, MqttSnClientError>(MqttSnClientError::ParseError),
    {
        match i {
            0 => Ok(TopicIdType::Id),
            1 => Ok(TopicIdType::PreDef),
            2 => Ok(TopicIdType::Short),
            _ => Err(MqttSnClientError::ParseError),
        }
    }

    /// Encodes the alternative as its wire flag bit pattern.
    pub fn wire_value(&self) -> (r: u8)
        ensures
            r == self.spec_wire_value(),
    {
        match self {
            TopicIdType::Id => 0,
            TopicIdType::PreDef => 1,
            TopicIdType::Short => 2,
        }
    }
}

/// Every failure a session operation can surface to its caller.
#[derive(Clone, Copy, Debug, PartialEq, Eq, Structural)]
pub enum MqttSnClientError {
    /// A modem-level transport failure (embedded targets).
    ModemError,
    /// The datagram transport failed to send or receive.
    SocketError,
    /// A message could not be serialized for the wire.
    CodecError,
    /// No acceptable acknowledgement arrived within the budget.
    AckError,
    /// A collaborator failure with no more specific mapping.
    UnknownError,
    /// Inbound bytes did not decode to any known message.
    ParseError,
    /// An inbound packet referenced a topic id with no local record.
    TopicNotRegistered,
    /// The topic alias store was full and the id was new.
    TopicFailedInsert,
    /// The peer did not answer a keep-alive request.
    NoPingResponse,
}

/// The session states, transitioned only by explicit calls.
#[derive(Clone, Copy, Debug, PartialEq, Eq, Structural)]
pub enum SessionState {
    Disconnected,
    Connecting,
    Connected,
    Sleeping,
}

/// The 16-bit sequence counter that mints a fresh id per outstanding
/// request, wrapping around. Not unique by construction across the
/// wraparound period: the engine must never keep two concurrently
/// outstanding requests under one id.
pub struct MsgId {
    last_id: u16,
}

/// The successor of a message id, with wraparound.
pub open spec fn next_msg_id(x: u16) -> u16 {
    if x == 0xffff {
        0
    } else {
        (x + 1) as u16
    }
}

impl MsgId {
    /// The id handed out last.
    pub closed spec fn spec_last(self) -> u16 {
        self.last_id
    }

    /// Mints the next id.
    fn next(&mut self) -> (r: u16)
        ensures
            final(self).spec_last() == next_msg_id(old(self).spec_last()),
            r == final(self).spec_last(),
    {
        if self.last_id == 0xffff {
            self.last_id = 0;
        } else {
            self.last_id = self.last_id + 1;
        }
        self.last_id
    }
}

/// One observable I/O action of the client: a protocol message handed
/// whole to the transport, or one inbound-decode attempt together with its
/// outcome.
pub enum Event {
    Sent(Message),
    Received(Result<Option<Message>, MqttSnClientError>),
}

/// The kinds a sent message is counted under.
pub enum MsgKind {
    Connect,
    ConnAck,
    Register,
    RegAck,
    Publish,
    PubAck,
    Subscribe,
    SubAck,
    PingReq,
    PingResp,
    Disconnect,
    Other,
}

/// The kind of a message.
pub open spec fn msg_kind(m: Message) -> MsgKind {
    match m {
        Message::Connect { .. } => MsgKind::Connect,
        Message::ConnAck { .. } => MsgKind::ConnAck,
        Message::Register { .. } => MsgKind::Register,
        Message::RegAck { .. } => MsgKind::RegAck,
        Message::Publish { .. } => MsgKind::Publish,
        Message::PubAck { .. } => MsgKind::PubAck,
        Message::Subscribe { .. } => MsgKind::Subscribe,
        Message::SubAck { .. } => MsgKind::SubAck,
        Message::PingReq { .. } => MsgKind::PingReq,
        Message::PingResp => MsgKind::PingResp,
        Message::Disconnect { .. } => MsgKind::Disconnect,
        Message::Other => MsgKind::Other,
    }
}

/// How many inbound-decode attempts a trace holds.
pub open spec fn num_received(s: Seq<Event>) -> nat
    decreases s.len(),
{
    if s.len() == 0 {
        0
    } else {
        num_received(s.drop_last()) + (if s.last() is Received {
            1nat
        } else {
            0nat
        })
    }
}

/// How many sent messages of kind `k` a trace holds.
pub open spec fn num_sent(s: Seq<Event>, k: MsgKind) -> nat
    decreases s.len(),
{
    if s.len() == 0 {
        0
    } else {
        num_sent(s.drop_last(), k) + (if s.last() matches Event::Sent(m) && msg_kind(m) == k {
            1nat
        } else {
            0nat
        })
    }
}

/// How appending one event moves each counter.
pub proof fn lemma_counts_push(s: Seq<Event>, e: Event)
    ensures
        num_received(s.push(e)) == num_received(s) + (if e is Received {
            1nat
        } else {
            0nat
        }),
        forall|k: MsgKind| #[trigger]
            num_sent(s.push(e), k) == num_sent(s, k) + (if e matches Event::Sent(m) && msg_kind(m)
                == k {
                1nat
            } else {
                0nat
            }),
{
    assert(s.push(e).drop_last() =~= s);
    assert(s.push(e).last() == e);
}

/// The trace only grows: `t1` holds all of `t0`, unchanged, as its start.
pub open spec fn extends(t0: Seq<Event>, t1: Seq<Event>) -> bool {
    t0.len() <= t1.len() && (forall|i: int| 0 <= i < t0.len() ==> t0[i] == #[trigger] t1[i])
}

/// Appending extends, and extension chains.
pub proof fn lemma_extends_push(t: Seq<Event>, e: Event)
    ensures
        extends(t, t.push(e)),
{
    assert forall|i: int| 0 <= i < t.len() implies t[i] == #[trigger] t.push(e)[i] by {}
}

/// Extension is transitive.
pub proof fn lemma_extends_trans(a: Seq<Event>, b: Seq<Event>, c: Seq<Event>)
    requires
        extends(a, b),
        extends(b, c),
    ensures
        extends(a, c),
{
    assert forall|i: int| 0 <= i < a.len() implies a[i] == #[trigger] c[i] by {
        assert(a[i] == b[i]);
    }
}

/// How many messages of a delivered queue declared nonzero quality of
/// service off the wire, and so owed an acknowledgement.
pub open spec fn num_ackable(s: Seq<MqttMessage>) -> nat
    decreases s.len(),
{
    if s.len() == 0 {
        0
    } else {
        num_ackable(s.drop_last()) + (if s.last().spec_qos() matches Some(q) && q > 0 {
            1nat
        } else {
            0nat
        })
    }
}

/// How appending one message moves the acknowledgement debt.
pub proof fn lemma_ackable_push(s: Seq<MqttMessage>, m: MqttMessage)
    ensures
        num_ackable(s.push(m)) == num_ackable(s) + (if m.spec_qos() matches Some(q) && q > 0 {
            1nat
        } else {
            0nat
        }),
{
    assert(s.push(m).drop_last() =~= s);
    assert(s.push(m).last() == m);
}

/// A message the client can serialize: one of the kinds a client emits,
/// with its strings within the codec's frame bounds.
pub open spec fn sendable(m: Message) -> bool {
    match m {
        Message::Connect { client_id, .. } => byte_len(client_id@) <= 64,
        Message::Register { topic_name, .. } => byte_len(topic_name@) <= 249,
        Message::Publish { qos, topic_id_type, data, .. } => qos <= 2 && topic_id_type <= 2
            && byte_len(data@) <= 248,
        Message::Subscribe { topic_id_type, .. } => topic_id_type <= 2,
        Message::PubAck { code, .. } => code == ReturnCode::Accepted,
        Message::PingReq { client_id } => byte_len(client_id@) <= 64,
        Message::Disconnect { .. } => true,
        _ => false,
    }
}

/// A message carries no or zero quality of service: fire-and-forget.
pub open spec fn qos0(m: MqttMessage) -> bool {
    match m.spec_qos() {
        None => true,
        Some(q) => q == 0,
    }
}

/// The quality-of-service level a message is published under.
pub open spec fn qos_level(m: MqttMessage) -> u8 {
    match m.spec_qos() {
        None => 0,
        Some(q) => q,
    }
}

/// What a connect call returns for each possible reply: success exactly on
/// an accepted connection acknowledgement; any other reply, failed receive
/// or timeout is an acknowledgement error.
pub fn connack_outcome(reply: Result<Option<Message>, MqttSnClientError>) -> (r: Result<
    (),
    MqttSnClientError,
>)
    ensures
        r is Ok <==> reply matches Ok(Some(Message::ConnAck { code: ReturnCode::Accepted })),
        r is Err ==> r == Err::<(), MqttSnClientError>(MqttSnClientError::AckError),
{
    match reply {
        Ok(Some(Message::ConnAck { code: ReturnCode::Accepted })) => Ok(()),
        _ => Err(MqttSnClientError::AckError),
    }
}

/// What a register call returns for each possible reply: the server-assigned
/// id exactly on an accepted registration acknowledgement answering the
/// outstanding request `expected`; a mismatched id, any other reply, a
/// failed receive or a timeout is an acknowledgement error.
pub fn regack_outcome(reply: Result<Option<Message>, MqttSnClientError>, expected: u16) -> (r:
    Result<u16, MqttSnClientError>)
    ensures
        (reply matches Ok(Some(Message::RegAck { topic_id, msg_id, code: ReturnCode::Accepted }))
            ==> (msg_id == expected ==> r == Ok::<u16, MqttSnClientError>(topic_id))),
        r is Ok <==> (reply matches Ok(
            Some(Message::RegAck { msg_id, code: ReturnCode::Accepted, .. }),
        ) && msg_id == expected),
        r is Err ==> r == Err::<u16, MqttSnClientError>(MqttSnClientError::AckError),
    {
    match reply {
        Ok(Some(Message::RegAck { topic_id, msg_id, code: ReturnCode::Accepted })) => {
            if msg_id == expected {
                Ok(topic_id)
            } else {
                Err(MqttSnClientError::AckError)
            }
        },
        _ => Err(MqttSnClientError::AckError),
    }
}

/// What a subscribe call returns for each possible reply: success exactly on
/// an accepted subscription acknowledgement.
pub fn suback_outcome(reply: Result<Option<Message>, MqttSnClientError>) -> (r: Result<
    (),
    MqttSnClientError,
>)
    ensures
        r is Ok <==> reply matches Ok(Some(Message::SubAck { code: ReturnCode::Accepted, .. })),
        r is Err ==> r == Err::<(), MqttSnClientError>(MqttSnClientError::AckError),
{
    match reply {
        Ok(Some(Message::SubAck { code: ReturnCode::Accepted, .. })) => Ok(()),
        _ => Err(MqttSnClientError::AckError),
    }
}

/// What a keep-alive call returns for each possible reply: success exactly
/// on the keep-alive response; anything else means the peer is silent.
pub fn pingresp_outcome(reply: Result<Option<Message>, MqttSnClientError>) -> (r: Result<
    (),
    MqttSnClientError,
>)
    ensures
        r is Ok <==> reply matches Ok(Some(Message::PingResp)),
        r is Err ==> r == Err::<(), MqttSnClientError>(MqttSnClientError::NoPingResponse),
{
    match reply {
        Ok(Some(Message::PingResp)) => Ok(()),
        _ => Err(MqttSnClientError::NoPingResponse),
    }
}

/// What a disconnect call returns for each possible reply: success exactly
/// on the peer's disconnect echo.
pub fn disconnect_outcome(reply: Result<Option<Message>, MqttSnClientError>) -> (r: Result<
    (),
    MqttSnClientError,
>)
    ensures
        r is Ok <==> reply matches Ok(Some(Message::Disconnect { .. })),
        r is Err ==> r == Err::<(), MqttSnClientError>(MqttSnClientError::AckError),
{
    match reply {
        Ok(Some(Message::Disconnect { .. })) => Ok(()),
        _ => Err(MqttSnClientError::AckError),
    }
}

/// Whether a reply is the accepted publish acknowledgement for the
/// outstanding request `expected`.
pub fn puback_matches(reply: &Result<Option<Message>, MqttSnClientError>, expected: u16) -> (r:
    bool)
    ensures
        r <==> ((*reply) matches Ok(
            Some(Message::PubAck { msg_id, code: ReturnCode::Accepted, .. }),
        ) && msg_id == expected),
{
    match reply {
        Ok(Some(Message::PubAck { msg_id, code: ReturnCode::Accepted, .. })) => *msg_id
            == expected,
        _ => false,
    }
}

/// The protocol engine: a session against a single peer over a datagram
/// transport, with the topic alias store, the session state and the message
/// id counter it owns exclusively. Inbound data publishes are acknowledged
/// and queued on `delivered` for the host to drain.
pub struct MqttSnClient<S> {
    client_id: String,
    msg_id: MsgId,
    socket: S,
    topics: Topics,
    state: SessionState,
    delivered: Vec<MqttMessage>,
    trace: Ghost<Seq<Event>>,
}

impl<S: SendBytes + RecieveBytes> MqttSnClient<S> {
    /// The client identifier, fixed at construction.
    pub closed spec fn spec_client_id(self) -> Seq<char> {
        self.client_id@
    }

    /// The client identifier, as the owned string value.
    pub closed spec fn spec_client_id_val(self) -> String {
        self.client_id
    }

    /// The id the message counter handed out last.
    pub closed spec fn spec_msg_id(self) -> u16 {
        self.msg_id.spec_last()
    }

    /// The topic alias records.
    pub closed spec fn spec_topics(self) -> Seq<(Seq<char>, TopicIdType, u16)> {
        self.topics.records()
    }

    /// The session state.
    pub closed spec fn spec_state(self) -> SessionState {
        self.state
    }

    /// Data publishes received and not yet drained by the host.
    pub closed spec fn spec_delivered(self) -> Seq<MqttMessage> {
        self.delivered@
    }

    /// Every observable I/O action so far.
    pub closed spec fn spec_trace(self) -> Seq<Event> {
        self.trace@
    }

    /// The engine's invariant: a bounded client id and a well-formed alias
    /// store.
    pub closed spec fn wf(self) -> bool {
        &&& byte_len(self.client_id@) <= MAX_CLIENT_ID_LEN
        &&& self.topics.wf()
    }

    /// A fresh, disconnected session. The client identifier must fit the
    /// protocol's byte bound.
    pub fn new(client_id: &str, socket: S) -> (r: Result<Self, MqttSnClientError>)
        ensures
            r is Ok <==> byte_len(client_id@) <= MAX_CLIENT_ID_LEN,
            r matches Ok(c) ==> c.wf() && c.spec_client_id() == client_id@ && c.spec_msg_id() == 0
                && c.spec_state() == SessionState::Disconnected && c.spec_topics() == Seq::<
                (Seq<char>, TopicIdType, u16),
            >::empty() && c.spec_delivered() == Seq::<MqttMessage>::empty() && c.spec_trace()
                == Seq::<Event>::empty(),
            r is Err ==> r == Err::<Self, MqttSnClientError>(MqttSnClientError::UnknownError),
    {
        if !(client_id.as_bytes().len() <= MAX_CLIENT_ID_LEN) {
            return Err(MqttSnClientError::UnknownError);
        }
        Ok(
            MqttSnClient {
                client_id: client_id.to_owned(),
                msg_id: MsgId { last_id: 0 },
                socket,
                topics: Topics::new(),
                state: SessionState::Disconnected,
                delivered: Vec::new(),
                trace: Ghost(Seq::empty()),
            },
        )
    }

    /// The session state.
    pub fn state(&self) -> (r: SessionState)
        ensures
            r == self.spec_state(),
    {
        self.state
    }

    /// Data publishes received and not yet drained.
    pub fn delivered(&self) -> (r: &Vec<MqttMessage>)
        ensures
            r@ == self.spec_delivered(),
    {
        &self.delivered
    }

    /// Hands the host the oldest undrained data publish.
    pub fn next_delivered(&mut self) -> (r: Option<MqttMessage>)
        ensures
            old(self).spec_delivered().len() == 0 ==> r is None && *final(self) == *old(self),
            old(self).spec_delivered().len() > 0 ==> r == Some(old(self).spec_delivered()[0])
                && final(self).spec_delivered() == old(self).spec_delivered().drop_first()
                && final(self).spec_client_id() == old(self).spec_client_id()
                && final(self).spec_topics() == old(self).spec_topics()
                && final(self).spec_state() == old(self).spec_state()
                && final(self).spec_trace() == old(self).spec_trace()
                && final(self).spec_msg_id() == old(self).spec_msg_id(),
            old(self).wf() ==> final(self).wf(),
    {
        if self.delivered.len() == 0 {
            None
        } else {
            let m = self.delivered.remove(0);
            proof {
                assert(final(self).delivered@ =~= old(self).delivered@.drop_first());
            }
            Some(m)
        }
    }

    /// Serializes `msg` through the external codec and hands the datagram to
    /// the transport whole. Exactly the kinds a client emits can be sent;
    /// any other kind is a codec error. On success the sent message is
    /// appended to the trace; on failure nothing observable happened.
    pub fn send(&mut self, msg: Message) -> (r: Result<(), MqttSnClientError>)
        requires
            old(self).wf(),
        ensures
            final(self).wf(),
            final(self).spec_client_id() == old(self).spec_client_id(),
            final(self).spec_msg_id() == old(self).spec_msg_id(),
            final(self).spec_topics() == old(self).spec_topics(),
            final(self).spec_state() == old(self).spec_state(),
            final(self).spec_delivered() == old(self).spec_delivered(),
            extends(old(self).spec_trace(), final(self).spec_trace()),
            r is Ok ==> final(self).spec_trace() == old(self).spec_trace().push(Event::Sent(msg)),
            r is Err ==> final(self).spec_trace() == old(self).spec_trace(),
            !sendable(msg) ==> r == Err::<(), MqttSnClientError>(MqttSnClientError::CodecError),
            r matches Err(e) ==> (e == MqttSnClientError::CodecError || e
                == MqttSnClientError::SocketError),
            sendable(msg) && r is Err ==> r == Err::<(), MqttSnClientError>(
                MqttSnClientError::SocketError,
            ),
    {
        let bytes: Vec<u8> = match &msg {
            Message::Connect { duration, client_id } => {
                if !(client_id.as_str().as_bytes().len() <= 64) {
                    return Err(MqttSnClientError::CodecError);
                }
                match encode_connect(*duration, client_id) {
                    Ok(b) => b,
                    Err(_) => {
                        return Err(MqttSnClientError::CodecError);
                    },
                }
            },
            Message::Register { topic_id, msg_id, topic_name } => {
                if !(topic_name.as_str().as_bytes().len() <= 249) {
                    return Err(MqttSnClientError::CodecError);
                }
                match encode_register(*topic_id, *msg_id, topic_name) {
                    Ok(b) => b,
                    Err(_) => {
                        return Err(MqttSnClientError::CodecError);
                    },
                }
            },
            Message::Publish { qos, topic_id_type, topic_id, msg_id, data } => {
                if !(*qos <= 2 && *topic_id_type <= 2 && data.as_str().as_bytes().len() <= 248) {
                    return Err(MqttSnClientError::CodecError);
                }
                match encode_publish(*qos, *topic_id_type, *topic_id, *msg_id, data) {
                    Ok(b) => b,
                    Err(_) => {
                        return Err(MqttSnClientError::CodecError);
                    },
                }
            },
            Message::Subscribe { msg_id, topic_id_type, topic_id } => {
                if !(*topic_id_type <= 2) {
                    return Err(MqttSnClientError::CodecError);
                }
                match encode_subscribe(*msg_id, *topic_id_type, *topic_id) {
                    Ok(b) => b,
                    Err(_) => {
                        return Err(MqttSnClientError::CodecError);
                    },
                }
            },
            Message::PubAck { topic_id, msg_id, code } => {
                match code {
                    ReturnCode::Accepted => {},
                    ReturnCode::Rejected => {
                        return Err(MqttSnClientError::CodecError);
                    },
                }
                match encode_puback(*topic_id, *msg_id) {
                    Ok(b) => b,
                    Err(_) => {
                        return Err(MqttSnClientError::CodecError);
                    },
                }
            },
            Message::PingReq { client_id } => {
                if !(client_id.as_str().as_bytes().len() <= 64) {
                    return Err(MqttSnClientError::CodecError);
                }
                match encode_pingreq(client_id) {
                    Ok(b) => b,
                    Err(_) => {
                        return Err(MqttSnClientError::CodecError);
                    },
                }
            },
            Message::Disconnect { duration } => encode_disconnect(*duration),
            _ => {
                return Err(MqttSnClientError::CodecError);
            },
        };
        match self.socket.send(bytes.as_slice()) {
            Ok(()) => {
                proof {
                    lemma_counts_push(self.trace@, Event::Sent(msg));
                    lemma_extends_push(self.trace@, Event::Sent(msg));
                }
                self.trace = Ghost(self.trace@.push(Event::Sent(msg)));
                Ok(())
            },
            Err(_) => Err(MqttSnClientError::SocketError),
        }
    }

    /// Acknowledges (when the packet declared nonzero quality of service)
    /// and queues one inbound data publish, resolving its alias through the
    /// store; an unknown id surfaces as `TopicNotRegistered` and is never
    /// silently dropped.
    fn recieve_publish(&mut self, msg: &Message) -> (r: Result<(), MqttSnClientError>)
        requires
            old(self).wf(),
            (*msg) is Publish,
        ensures
            final(self).wf(),
            final(self).spec_client_id() == old(self).spec_client_id(),
            final(self).spec_msg_id() == old(self).spec_msg_id(),
            final(self).spec_topics() == old(self).spec_topics(),
            final(self).spec_state() == old(self).spec_state(),
            num_received(final(self).spec_trace()) == num_received(old(self).spec_trace()),
            extends(old(self).spec_trace(), final(self).spec_trace()),
            forall|k: MsgKind|
                k != MsgKind::PubAck ==> #[trigger] num_sent(final(self).spec_trace(), k)
                    == num_sent(old(self).spec_trace(), k),
            ((*msg) matches Message::Publish { qos, topic_id, msg_id, data, .. } ==> match
                seq_lookup_id(old(self).spec_topics(), topic_id) {
                None => r == Err::<(), MqttSnClientError>(MqttSnClientError::TopicNotRegistered)
                    && final(self).spec_delivered() == old(self).spec_delivered()
                    && final(self).spec_trace() == old(self).spec_trace(),
                Some(name) => {
                    &&& (r is Ok ==> final(self).spec_delivered().len() == old(self).spec_delivered().len() + 1
                        && final(self).spec_delivered().last().spec_topic() == name
                        && final(self).spec_delivered().last().spec_payload() == data@
                        && final(self).spec_delivered().last().spec_qos() == Some(qos)
                        && final(self).spec_delivered().last().spec_msg_id() == Some(msg_id)
                        && (forall|i: int|
                            0 <= i < old(self).spec_delivered().len()
                                ==> final(self).spec_delivered()[i] == #[trigger] old(self).spec_delivered()[i]))
                    &&& (r is Ok && qos > 0 ==> final(self).spec_trace()
                        == old(self).spec_trace().push(
                            Event::Sent(
                                (Message::PubAck { topic_id, msg_id, code: ReturnCode::Accepted }),
                            ),
                        ))
                    &&& (r is Ok && qos == 0 ==> final(self).spec_trace() == old(self).spec_trace())
                    &&& (r is Err ==> r == Err::<(), MqttSnClientError>(
                        MqttSnClientError::SocketError,
                    ) && final(self).spec_delivered() == old(self).spec_delivered() && final(self).spec_trace() == old(self).spec_trace())
                },
            }),
            num_sent(final(self).spec_trace(), MsgKind::PubAck) + num_ackable(
                old(self).spec_delivered(),
            ) == num_sent(old(self).spec_trace(), MsgKind::PubAck) + num_ackable(
                final(self).spec_delivered(),
            ),
    {
        let m = match MqttMessage::from_publish(msg, &self.topics) {
            Ok(m) => m,
            Err(e) => {
                return Err(e);
            },
        };
        if let Some(ack) = m.get_ack() {
            match self.send(ack) {
                Ok(()) => {
                    proof {
                        lemma_counts_push(old(self).spec_trace(), Event::Sent(ack));
                    }
                },
                Err(e) => {
                    return Err(e);
                },
            }
        }
        proof {
            lemma_ackable_push(self.delivered@, m);
        }
        self.delivered.push(m);
        Ok(())
    }

    /// The single inbound-decode path: one attempt to read and decode
    /// datagrams until a protocol message for the caller arrives. Data
    /// publishes met on the way are acknowledged and queued transparently;
    /// undecodable bytes fail the attempt with `ParseError`. Exactly one
    /// inbound-decode attempt is added to the trace, and no message other
    /// than publish acknowledgements is sent.
    pub fn receive(&mut self) -> (r: Result<Option<Message>, MqttSnClientError>)
        requires
            old(self).wf(),
        ensures
            final(self).wf(),
            final(self).spec_client_id() == old(self).spec_client_id(),
            final(self).spec_msg_id() == old(self).spec_msg_id(),
            final(self).spec_topics() == old(self).spec_topics(),
            final(self).spec_state() == old(self).spec_state(),
            num_received(final(self).spec_trace()) == num_received(old(self).spec_trace()) + 1,
            extends(old(self).spec_trace(), final(self).spec_trace()),
            forall|k: MsgKind|
                k != MsgKind::PubAck ==> #[trigger] num_sent(final(self).spec_trace(), k)
                    == num_sent(old(self).spec_trace(), k),
            old(self).spec_delivered().len() <= final(self).spec_delivered().len(),
            num_sent(final(self).spec_trace(), MsgKind::PubAck) + num_ackable(
                old(self).spec_delivered(),
            ) == num_sent(old(self).spec_trace(), MsgKind::PubAck) + num_ackable(
                final(self).spec_delivered(),
            ),
            final(self).spec_trace().last() == Event::Received(r),
            r matches Ok(Some(m)) ==> !(m is Publish),
            r matches Err(e) ==> (e == MqttSnClientError::AckError
                || e == MqttSnClientError::SocketError || e == MqttSnClientError::ParseError
                || e == MqttSnClientError::TopicNotRegistered),
    {
        let mut burst: usize = 0;
        while burst < RECEIVE_BURST
            invariant
                self.wf(),
                self.spec_client_id() == old(self).spec_client_id(),
                self.spec_msg_id() == old(self).spec_msg_id(),
                self.spec_topics() == old(self).spec_topics(),
                self.spec_state() == old(self).spec_state(),
                num_received(self.spec_trace()) == num_received(old(self).spec_trace()),
                extends(old(self).spec_trace(), self.spec_trace()),
                forall|k: MsgKind|
                    k != MsgKind::PubAck ==> #[trigger] num_sent(self.spec_trace(), k) == num_sent(
                        old(self).spec_trace(),
                        k,
                    ),
                old(self).spec_delivered().len() <= self.spec_delivered().len(),
                num_sent(self.spec_trace(), MsgKind::PubAck) + num_ackable(
                    old(self).spec_delivered(),
                ) == num_sent(old(self).spec_trace(), MsgKind::PubAck) + num_ackable(
                    self.spec_delivered(),
                ),
            decreases RECEIVE_BURST - burst,
        {
            let bytes = match self.socket.recv() {
                Ok(b) => b,
                Err(te) => {
                    // an expired bounded wait is a failed acknowledgement
                    // attempt; a broken socket is a transport failure
                    let e = match te {
                        SocketError::Timeout => MqttSnClientError::AckError,
                        SocketError::Generic => MqttSnClientError::SocketError,
                    };
                    proof {
                        lemma_counts_push(self.trace@, Event::Received(Err(e)));
                        lemma_extends_push(self.trace@, Event::Received(Err(e)));
                    }
                    self.trace = Ghost(self.trace@.push(Event::Received(Err(e))));
                    return Err(e);
                },
            };
            let msg = match decode_frame(bytes.as_slice()) {
                Ok(m) => m,
                Err(e) => {
                    proof {
                        lemma_counts_push(self.trace@, Event::Received(Err(e)));
                        lemma_extends_push(self.trace@, Event::Received(Err(e)));
                    }
                    self.trace = Ghost(self.trace@.push(Event::Received(Err(e))));
                    return Err(e);
                },
            };
            let is_publish = match &msg {
                Message::Publish { .. } => true,
                _ => false,
            };
            if is_publish {
                match self.recieve_publish(&msg) {
                    Ok(()) => {},
                    Err(e) => {
                        proof {
                            lemma_counts_push(self.trace@, Event::Received(Err(e)));
                            lemma_extends_push(self.trace@, Event::Received(Err(e)));
                        }
                        self.trace = Ghost(self.trace@.push(Event::Received(Err(e))));
                        return Err(e);
                    },
                }
            } else {
                let ghost reply = msg;
                proof {
                    lemma_counts_push(self.trace@, Event::Received(Ok(Some(reply))));
                    lemma_extends_push(self.trace@, Event::Received(Ok(Some(reply))));
                }
                self.trace = Ghost(self.trace@.push(Event::Received(Ok(Some(reply)))));
                return Ok(Some(msg));
            }
            burst += 1;
        }
        proof {
            lemma_counts_push(self.trace@, Event::Received(Err(MqttSnClientError::AckError)));
            lemma_extends_push(self.trace@, Event::Received(Err(MqttSnClientError::AckError)));
        }
        self.trace = Ghost(
            self.trace@.push(Event::Received(Err(MqttSnClientError::AckError))),
        );
        Err(MqttSnClientError::AckError)
    }

    /// Sends a connection request carrying the client id and keep-alive
    /// duration and waits once for the peer's answer. Success exactly on an
    /// accepted connection acknowledgement; any other reply or a timed-out
    /// wait is an acknowledgement error. Single attempt: retry policy
    /// belongs to the caller.
    pub fn connect(&mut self) -> (r: Result<(), MqttSnClientError>)
        requires
            old(self).wf(),
        ensures
            final(self).wf(),
            final(self).spec_client_id() == old(self).spec_client_id(),
            final(self).spec_msg_id() == old(self).spec_msg_id(),
            final(self).spec_topics() == old(self).spec_topics(),
            r is Ok ==> final(self).spec_state() == SessionState::Connected,
            r is Err ==> final(self).spec_state() == SessionState::Disconnected,
            num_sent(final(self).spec_trace(), MsgKind::Connect) <= num_sent(
                old(self).spec_trace(),
                MsgKind::Connect,
            ) + 1,
            forall|k: MsgKind|
                k != MsgKind::Connect && k != MsgKind::PubAck ==> #[trigger] num_sent(
                    final(self).spec_trace(),
                    k,
                ) == num_sent(old(self).spec_trace(), k),
            (r is Ok || r == Err::<(), MqttSnClientError>(MqttSnClientError::AckError)) ==> (
            num_sent(final(self).spec_trace(), MsgKind::Connect) == num_sent(
                old(self).spec_trace(),
                MsgKind::Connect,
            ) + 1 && num_received(final(self).spec_trace()) == num_received(
                old(self).spec_trace(),
            ) + 1 && final(self).spec_trace().len() > old(self).spec_trace().len() && final(self).spec_trace()[old(self).spec_trace().len() as int] == Event::Sent(
                (Message::Connect {
                    duration: KEEP_ALIVE,
                    client_id: old(self).spec_client_id_val(),
                }),
            )),
            r is Ok ==> (final(self).spec_trace().last() matches Event::Received(
                Ok(Some(Message::ConnAck { code: ReturnCode::Accepted })),
            )),
            (num_received(final(self).spec_trace()) == num_received(old(self).spec_trace()) + 1
                && (final(self).spec_trace().last() matches Event::Received(
                Ok(Some(Message::ConnAck { code: ReturnCode::Accepted })),
            ))) ==> r is Ok,
            r matches Err(e) ==> (e == MqttSnClientError::AckError
                || e == MqttSnClientError::SocketError),
            r == Err::<(), MqttSnClientError>(MqttSnClientError::SocketError) ==> final(self).spec_trace() == old(self).spec_trace(),
    {
        self.state = SessionState::Connecting;
        let packet = Message::Connect { duration: KEEP_ALIVE, client_id: self.client_id.clone() };
        let ghost sent = packet;
        let ghost t0 = self.trace@;
        match self.send(packet) {
            Ok(()) => {},
            Err(e) => {
                self.state = SessionState::Disconnected;
                return Err(e);
            },
        }
        proof {
            lemma_counts_push(t0, Event::Sent(sent));
        }
        let reply = self.receive();
        let out = connack_outcome(reply);
        if out.is_ok() {
            self.state = SessionState::Connected;
        } else {
            self.state = SessionState::Disconnected;
        }
        out
    }

    /// Mints a fresh message id, sends a topic registration request and
    /// waits once for the accepted registration acknowledgement carrying the
    /// server-assigned numeric id; a mismatched reply or a timed-out wait is
    /// an acknowledgement error.
    fn register(&mut self, topic: &String) -> (r: Result<u16, MqttSnClientError>)
        requires
            old(self).wf(),
        ensures
            final(self).wf(),
            final(self).spec_client_id() == old(self).spec_client_id(),
            final(self).spec_topics() == old(self).spec_topics(),
            final(self).spec_state() == old(self).spec_state(),
            final(self).spec_msg_id() == next_msg_id(old(self).spec_msg_id()),
            extends(old(self).spec_trace(), final(self).spec_trace()),
            num_sent(final(self).spec_trace(), MsgKind::Register) <= num_sent(
                old(self).spec_trace(),
                MsgKind::Register,
            ) + 1,
            forall|k: MsgKind|
                k != MsgKind::Register && k != MsgKind::PubAck ==> #[trigger] num_sent(
                    final(self).spec_trace(),
                    k,
                ) == num_sent(old(self).spec_trace(), k),
            num_received(final(self).spec_trace()) <= num_received(old(self).spec_trace()) + 1,
            (r is Ok || r == Err::<u16, MqttSnClientError>(MqttSnClientError::AckError)) ==> (
            num_sent(final(self).spec_trace(), MsgKind::Register) == num_sent(
                old(self).spec_trace(),
                MsgKind::Register,
            ) + 1 && num_received(final(self).spec_trace()) == num_received(old(self).spec_trace())
                + 1 && final(self).spec_trace().len() > old(self).spec_trace().len() && final(self).spec_trace()[old(self).spec_trace().len() as int] == Event::Sent(
                (Message::Register {
                    topic_id: 0,
                    msg_id: next_msg_id(old(self).spec_msg_id()),
                    topic_name: *topic,
                }),
            )),
            r matches Ok(id) ==> (final(self).spec_trace().last() matches Event::Received(
                Ok(Some(Message::RegAck { topic_id, msg_id, code: ReturnCode::Accepted })),
            ) && topic_id == id && msg_id == next_msg_id(old(self).spec_msg_id())),
            (num_received(final(self).spec_trace()) == num_received(old(self).spec_trace()) + 1
                && (final(self).spec_trace().last() matches Event::Received(
                Ok(Some(Message::RegAck { msg_id, code: ReturnCode::Accepted, .. })),
            ) && msg_id == next_msg_id(old(self).spec_msg_id()))) ==> r is Ok,
            r matches Err(e) ==> (e == MqttSnClientError::AckError
                || e == MqttSnClientError::SocketError || e == MqttSnClientError::CodecError),
            r == Err::<u16, MqttSnClientError>(MqttSnClientError::CodecError) <==> byte_len(topic@)
                > 249,
            r matches Err(e) ==> ((e == MqttSnClientError::SocketError || e
                == MqttSnClientError::CodecError) ==> final(self).spec_trace() == old(self).spec_trace()),
    {
        let msg_id = self.msg_id.next();
        let packet = Message::Register { topic_id: 0, msg_id, topic_name: topic.clone() };
        let ghost sent = packet;
        let ghost t0 = self.trace@;
        match self.send(packet) {
            Ok(()) => {},
            Err(e) => {
                return Err(e);
            },
        }
        proof {
            lemma_counts_push(t0, Event::Sent(sent));
            lemma_extends_push(t0, Event::Sent(sent));
        }
        let reply = self.receive();
        proof {
            lemma_extends_trans(t0, t0.push(Event::Sent(sent)), self.trace@);
        }
        regack_outcome(reply, msg_id)
    }

    /// Sends a keep-alive request and waits once for its response; anything
    /// else means the peer did not answer. Used when no application traffic
    /// is due before the keep-alive deadline.
    pub fn ping(&mut self) -> (r: Result<(), MqttSnClientError>)
        requires
            old(self).wf(),
        ensures
            final(self).wf(),
            final(self).spec_client_id() == old(self).spec_client_id(),
            final(self).spec_msg_id() == old(self).spec_msg_id(),
            final(self).spec_topics() == old(self).spec_topics(),
            final(self).spec_state() == old(self).spec_state(),
            num_sent(final(self).spec_trace(), MsgKind::PingReq) <= num_sent(
                old(self).spec_trace(),
                MsgKind::PingReq,
            ) + 1,
            forall|k: MsgKind|
                k != MsgKind::PingReq && k != MsgKind::PubAck ==> #[trigger] num_sent(
                    final(self).spec_trace(),
                    k,
                ) == num_sent(old(self).spec_trace(), k),
            (r is Ok || r == Err::<(), MqttSnClientError>(MqttSnClientError::NoPingResponse)) ==> (
            num_sent(final(self).spec_trace(), MsgKind::PingReq) == num_sent(
                old(self).spec_trace(),
                MsgKind::PingReq,
            ) + 1 && num_received(final(self).spec_trace()) == num_received(old(self).spec_trace())
                + 1 && final(self).spec_trace().len() > old(self).spec_trace().len() && final(self).spec_trace()[old(self).spec_trace().len() as int] == Event::Sent(
                (Message::PingReq { client_id: old(self).spec_client_id_val() }),
            )),
            r is Ok ==> (final(self).spec_trace().last() matches Event::Received(
                Ok(Some(Message::PingResp)),
            )),
            (num_received(final(self).spec_trace()) == num_received(old(self).spec_trace()) + 1
                && (final(self).spec_trace().last() matches Event::Received(
                Ok(Some(Message::PingResp)),
            ))) ==> r is Ok,
            r matches Err(e) ==> (e == MqttSnClientError::NoPingResponse
                || e == MqttSnClientError::SocketError),
            r == Err::<(), MqttSnClientError>(MqttSnClientError::SocketError) ==> final(self).spec_trace() == old(self).spec_trace(),
    {
        let packet = Message::PingReq { client_id: self.client_id.clone() };
        let ghost sent = packet;
        let ghost t0 = self.trace@;
        match self.send(packet) {
            Ok(()) => {},
            Err(e) => {
                return Err(e);
            },
        }
        proof {
            lemma_counts_push(t0, Event::Sent(sent));
        }
        let reply = self.receive();
        pingresp_outcome(reply)
    }

    /// Sends a disconnect request, optionally asking the peer to queue
    /// messages for `duration` seconds of sleep, and waits once for the
    /// peer's disconnect echo. On success the session is sleeping when a
    /// duration was given, disconnected otherwise.
    pub fn disconnect(&mut self, duration: Option<u16>) -> (r: Result<(), MqttSnClientError>)
        requires
            old(self).wf(),
        ensures
            final(self).wf(),
            final(self).spec_client_id() == old(self).spec_client_id(),
            final(self).spec_msg_id() == old(self).spec_msg_id(),
            final(self).spec_topics() == old(self).spec_topics(),
            num_sent(final(self).spec_trace(), MsgKind::Disconnect) <= num_sent(
                old(self).spec_trace(),
                MsgKind::Disconnect,
            ) + 1,
            forall|k: MsgKind|
                k != MsgKind::Disconnect && k != MsgKind::PubAck ==> #[trigger] num_sent(
                    final(self).spec_trace(),
                    k,
                ) == num_sent(old(self).spec_trace(), k),
            (r is Ok || r == Err::<(), MqttSnClientError>(MqttSnClientError::AckError)) ==> (
            num_sent(final(self).spec_trace(), MsgKind::Disconnect) == num_sent(
                old(self).spec_trace(),
                MsgKind::Disconnect,
            ) + 1 && num_received(final(self).spec_trace()) == num_received(old(self).spec_trace())
                + 1 && final(self).spec_trace().len() > old(self).spec_trace().len() && final(self).spec_trace()[old(self).spec_trace().len() as int] == Event::Sent(
                (Message::Disconnect { duration }),
            )),
            r is Ok ==> final(self).spec_state() == (if duration is Some {
                SessionState::Sleeping
            } else {
                SessionState::Disconnected
            }),
            r is Err ==> final(self).spec_state() == old(self).spec_state(),
            r is Ok ==> (final(self).spec_trace().last() matches Event::Received(
                Ok(Some(Message::Disconnect { .. })),
            )),
            (num_received(final(self).spec_trace()) == num_received(old(self).spec_trace()) + 1
                && (final(self).spec_trace().last() matches Event::Received(
                Ok(Some(Message::Disconnect { .. })),
            ))) ==> r is Ok,
            r matches Err(e) ==> (e == MqttSnClientError::AckError
                || e == MqttSnClientError::SocketError),
            r == Err::<(), MqttSnClientError>(MqttSnClientError::SocketError) ==> final(self).spec_trace() == old(self).spec_trace(),
    {
        let packet = Message::Disconnect { duration };
        let ghost sent = packet;
        let ghost t0 = self.trace@;
        match self.send(packet) {
            Ok(()) => {},
            Err(e) => {
                return Err(e);
            },
        }
        proof {
            lemma_counts_push(t0, Event::Sent(sent));
        }
        let reply = self.receive();
        let out = disconnect_outcome(reply);
        if out.is_ok() {
            self.state = if duration.is_some() {
                SessionState::Sleeping
            } else {
                SessionState::Disconnected
            };
        }
        out
    }

    /// Publishes an application message: resolves the topic's alias (or
    /// creates it with one registration exchange), sends the data-publish
    /// packet under a fresh message id, and for nonzero quality of service
    /// spends exactly the fixed budget of acknowledgement waits before
    /// giving up. Fire-and-forget publishes return as soon as the datagram
    /// is handed to the transport, without a single wait.
    #[verifier::loop_isolation(false)]
    #[verifier::rlimit(60)]
    pub fn publish(&mut self, msg: MqttMessage) -> (r: Result<(), MqttSnClientError>)
        requires
            old(self).wf(),
            msg.wf(),
        ensures
            final(self).wf(),
            final(self).spec_client_id() == old(self).spec_client_id(),
            final(self).spec_state() == old(self).spec_state(),
            seq_lookup_name(old(self).spec_topics(), msg.spec_topic()) is Some ==> final(self).spec_topics() == old(self).spec_topics() && final(self).spec_msg_id() == next_msg_id(
                old(self).spec_msg_id(),
            ) && num_sent(final(self).spec_trace(), MsgKind::Register) == num_sent(
                old(self).spec_trace(),
                MsgKind::Register,
            ),
            num_sent(final(self).spec_trace(), MsgKind::Register) <= num_sent(
                old(self).spec_trace(),
                MsgKind::Register,
            ) + 1,
            num_sent(final(self).spec_trace(), MsgKind::Publish) <= num_sent(
                old(self).spec_trace(),
                MsgKind::Publish,
            ) + 1,
            forall|k: MsgKind|
                k != MsgKind::Publish && k != MsgKind::Register && k != MsgKind::PubAck
                    ==> #[trigger] num_sent(final(self).spec_trace(), k) == num_sent(
                    old(self).spec_trace(),
                    k,
                ),
            (qos0(msg) && seq_lookup_name(old(self).spec_topics(), msg.spec_topic()) is Some)
                ==> num_received(final(self).spec_trace()) == num_received(old(self).spec_trace()),
            (qos0(msg) && r is Ok && seq_lookup_name(old(self).spec_topics(), msg.spec_topic())
                is Some) ==> final(self).spec_trace() == old(self).spec_trace().push(
                Event::Sent(
                    (Message::Publish {
                        qos: qos_level(msg),
                        topic_id_type: seq_lookup_name(
                            old(self).spec_topics(),
                            msg.spec_topic(),
                        ).unwrap().0.spec_wire_value(),
                        topic_id: seq_lookup_name(
                            old(self).spec_topics(),
                            msg.spec_topic(),
                        ).unwrap().1,
                        msg_id: next_msg_id(old(self).spec_msg_id()),
                        data: msg.spec_payload_val(),
                    }),
                ),
            ),
            (!qos0(msg) && seq_lookup_name(old(self).spec_topics(), msg.spec_topic()) is Some)
                ==> num_received(final(self).spec_trace()) <= num_received(old(self).spec_trace())
                + N_RETRY,
            (!qos0(msg) && seq_lookup_name(old(self).spec_topics(), msg.spec_topic()) is Some && r
                == Err::<(), MqttSnClientError>(MqttSnClientError::AckError)) ==> num_received(
                final(self).spec_trace(),
            ) == num_received(old(self).spec_trace()) + (N_RETRY as nat),
            (seq_lookup_name(old(self).spec_topics(), msg.spec_topic()) is None && r is Ok)
                ==> seq_lookup_name(final(self).spec_topics(), msg.spec_topic()) is Some
                && num_sent(final(self).spec_trace(), MsgKind::Register) == num_sent(
                old(self).spec_trace(),
                MsgKind::Register,
            ) + 1,
            r is Ok ==> num_sent(final(self).spec_trace(), MsgKind::Publish) == num_sent(
                old(self).spec_trace(),
                MsgKind::Publish,
            ) + 1,
            (!qos0(msg) && seq_lookup_name(old(self).spec_topics(), msg.spec_topic()) is Some && r
                is Ok) ==> (final(self).spec_trace().last() matches Event::Received(
                Ok(Some(Message::PubAck { msg_id, code: ReturnCode::Accepted, .. })),
            ) && msg_id == next_msg_id(old(self).spec_msg_id())),
            (!qos0(msg) && seq_lookup_name(old(self).spec_topics(), msg.spec_topic()) is Some
                && num_received(final(self).spec_trace()) > num_received(old(self).spec_trace())
                && (final(self).spec_trace().last() matches Event::Received(
                Ok(Some(Message::PubAck { msg_id, code: ReturnCode::Accepted, .. })),
            ) && msg_id == next_msg_id(old(self).spec_msg_id()))) ==> r is Ok,
            ((r is Ok || r == Err::<(), MqttSnClientError>(MqttSnClientError::AckError))
                && seq_lookup_name(old(self).spec_topics(), msg.spec_topic()) is Some) ==> (final(self).spec_trace().len() > old(self).spec_trace().len()
                && final(self).spec_trace()[old(self).spec_trace().len() as int] == Event::Sent(
                (Message::Publish {
                    qos: qos_level(msg),
                    topic_id_type: seq_lookup_name(
                        old(self).spec_topics(),
                        msg.spec_topic(),
                    ).unwrap().0.spec_wire_value(),
                    topic_id: seq_lookup_name(old(self).spec_topics(), msg.spec_topic()).unwrap().1,
                    msg_id: next_msg_id(old(self).spec_msg_id()),
                    data: msg.spec_payload_val(),
                }),
            )),
            (seq_lookup_name(old(self).spec_topics(), msg.spec_topic()) is None && r is Ok) ==> (
            seq_lookup_name(final(self).spec_topics(), msg.spec_topic()).unwrap().0
                == TopicIdType::Id && final(self).spec_msg_id() == next_msg_id(
                next_msg_id(old(self).spec_msg_id()),
            ) && (exists|i: int|
                old(self).spec_trace().len() <= i < final(self).spec_trace().len() && final(self).spec_trace()[i] == Event::Sent(
                    (Message::Publish {
                        qos: qos_level(msg),
                        topic_id_type: TopicIdType::Id.spec_wire_value(),
                        topic_id: seq_lookup_name(
                            final(self).spec_topics(),
                            msg.spec_topic(),
                        ).unwrap().1,
                        msg_id: next_msg_id(next_msg_id(old(self).spec_msg_id())),
                        data: msg.spec_payload_val(),
                    }),
                ))),
            (seq_lookup_name(old(self).spec_topics(), msg.spec_topic()) is None && r is Ok) ==> (
            final(self).spec_trace().len() > old(self).spec_trace().len() && final(self).spec_trace()[old(self).spec_trace().len() as int] == Event::Sent(
                (Message::Register {
                    topic_id: 0,
                    msg_id: next_msg_id(old(self).spec_msg_id()),
                    topic_name: msg.spec_topic_val(),
                }),
            )),
            (seq_lookup_name(old(self).spec_topics(), msg.spec_topic()) is None && r is Err) ==> (
            final(self).spec_topics() == old(self).spec_topics() || (seq_lookup_name(
                final(self).spec_topics(),
                msg.spec_topic(),
            ) is Some && seq_lookup_name(final(self).spec_topics(), msg.spec_topic()).unwrap().0
                == TopicIdType::Id)),
            (seq_lookup_name(old(self).spec_topics(), msg.spec_topic()) is None && seq_lookup_name(
                final(self).spec_topics(),
                msg.spec_topic(),
            ) is None) ==> num_sent(final(self).spec_trace(), MsgKind::Publish) == num_sent(
                old(self).spec_trace(),
                MsgKind::Publish,
            ) && final(self).spec_msg_id() == next_msg_id(old(self).spec_msg_id()),
            forall|n: Seq<char>|
                n != msg.spec_topic() ==> (#[trigger] seq_lookup_name(final(self).spec_topics(), n)
                    == seq_lookup_name(old(self).spec_topics(), n) || (seq_lookup_name(
                    final(self).spec_topics(),
                    n,
                ) is None && seq_lookup_name(old(self).spec_topics(), n) is Some && seq_lookup_name(
                    old(self).spec_topics(),
                    n,
                ).unwrap().1 == seq_lookup_name(
                    final(self).spec_topics(),
                    msg.spec_topic(),
                ).unwrap().1)),
            r matches Err(e) ==> (e == MqttSnClientError::AckError
                || e == MqttSnClientError::SocketError || e == MqttSnClientError::CodecError
                || e == MqttSnClientError::TopicFailedInsert || e == MqttSnClientError::ParseError
                || e == MqttSnClientError::TopicNotRegistered),
            r matches Err(e) ==> (seq_lookup_name(old(self).spec_topics(), msg.spec_topic())
                is Some ==> (e == MqttSnClientError::AckError || e == MqttSnClientError::SocketError
                || e == MqttSnClientError::CodecError)),
            seq_lookup_name(old(self).spec_topics(), msg.spec_topic()) is Some ==> (r == Err::<
                (),
                MqttSnClientError,
            >(MqttSnClientError::CodecError) <==> byte_len(msg.spec_payload()) > 248),
            (seq_lookup_name(old(self).spec_topics(), msg.spec_topic()) is Some && r == Err::<
                (),
                MqttSnClientError,
            >(MqttSnClientError::CodecError)) ==> final(self).spec_trace() == old(self).spec_trace(),
            (seq_lookup_name(old(self).spec_topics(), msg.spec_topic()) is None && r == Err::<
                (),
                MqttSnClientError,
            >(MqttSnClientError::CodecError)) ==> (byte_len(msg.spec_topic()) > 249 || byte_len(
                msg.spec_payload(),
            ) > 248),
            (seq_lookup_name(old(self).spec_topics(), msg.spec_topic()) is None && byte_len(
                msg.spec_topic(),
            ) > 249) ==> r == Err::<(), MqttSnClientError>(MqttSnClientError::CodecError) && final(self).spec_trace() == old(self).spec_trace(),
    {
        let lookup = self.topics.get_by_topic(msg.topic_string());
        let topic_id: u16;
        let tid_type_val: u8;
        match lookup {
            Some((t, id)) => {
                topic_id = id;
                tid_type_val = t.wire_value();
            },
            None => {
                let id = match self.register(msg.topic_string()) {
                    Ok(i) => i,
                    Err(e) => {
                        return Err(e);
                    },
                };
                match self.topics.insert(msg.topic_string().clone(), TopicIdType::Id, id) {
                    Ok(()) => {},
                    Err(e) => {
                        return Err(e);
                    },
                }
                topic_id = id;
                tid_type_val = 0;
            },
        }
        let next = self.msg_id.next();
        let q: u8 = match msg.qos() {
            Some(x) => x,
            None => 0,
        };
        let packet = Message::Publish {
            qos: q,
            topic_id_type: tid_type_val,
            topic_id,
            msg_id: next,
            data: msg.payload_string().clone(),
        };
        let ghost sent = packet;
        let ghost t0 = self.trace@;
        match self.send(packet) {
            Ok(()) => {},
            Err(e) => {
                return Err(e);
            },
        }
        proof {
            lemma_counts_push(t0, Event::Sent(sent));
            lemma_extends_push(t0, Event::Sent(sent));
            assert(self.trace@[t0.len() as int] == Event::Sent(sent));
            lemma_extends_trans(old(self).spec_trace(), t0, self.trace@);
        }
        if q > 0 {
            let ghost base = self.trace@;
            let ghost topics1 = self.spec_topics();
            let ghost mid1 = self.spec_msg_id();
            let mut attempt: u8 = 0;
            while attempt < N_RETRY
                invariant
                    self.wf(),
                    attempt <= N_RETRY,
                    self.spec_client_id() == old(self).spec_client_id(),
                    self.spec_state() == old(self).spec_state(),
                    self.spec_topics() == topics1,
                    self.spec_msg_id() == mid1,
                    num_received(self.spec_trace()) == num_received(base) + attempt as nat,
                    extends(base, self.spec_trace()),
                    forall|k: MsgKind|
                        k != MsgKind::PubAck ==> #[trigger] num_sent(self.spec_trace(), k)
                            == num_sent(base, k),
                    attempt > 0 ==> !(self.spec_trace().last() matches Event::Received(
                        Ok(Some(Message::PubAck { msg_id, code: ReturnCode::Accepted, .. })),
                    ) && msg_id == next),
                decreases N_RETRY - attempt,
            {
                let ghost tb = self.trace@;
                let reply = self.receive();
                proof {
                    lemma_extends_trans(base, tb, self.trace@);
                }
                if puback_matches(&reply, next) {
                    proof {
                        assert(self.trace@[t0.len() as int] == Event::Sent(sent));
                        if old(self).spec_trace().len() < t0.len() {
                            assert(self.trace@[old(self).spec_trace().len() as int] == t0[old(self).spec_trace().len() as int]);
                        }
                    }
                    return Ok(());
                }
                attempt += 1;
            }
            return Err(MqttSnClientError::AckError);
        }
        proof {
            assert(self.trace@[t0.len() as int] == Event::Sent(sent));
            if old(self).spec_trace().len() < t0.len() {
                assert(self.trace@[old(self).spec_trace().len() as int] == t0[old(self).spec_trace().len() as int]);
            }
        }
        Ok(())
    }

    /// Subscribes to a topic: resolves the topic's alias (or creates it with
    /// exactly one registration exchange), then sends a subscribe request by
    /// id and waits once for an accepted subscription acknowledgement. On an
    /// already-registered topic the registration exchange is skipped
    /// entirely.
    pub fn subscribe(&mut self, topic: &str) -> (r: Result<(), MqttSnClientError>)
        requires
            old(self).wf(),
        ensures
            final(self).wf(),
            final(self).spec_client_id() == old(self).spec_client_id(),
            final(self).spec_state() == old(self).spec_state(),
            byte_len(topic@) > MAX_TOPIC_LEN ==> r == Err::<
                (),
                MqttSnClientError,
            >(MqttSnClientError::UnknownError) && final(self).spec_topics() == old(self).spec_topics() && final(self).spec_trace() == old(self).spec_trace() && final(self).spec_msg_id() == old(self).spec_msg_id(),
            num_sent(final(self).spec_trace(), MsgKind::Register) <= num_sent(
                old(self).spec_trace(),
                MsgKind::Register,
            ) + 1,
            num_sent(final(self).spec_trace(), MsgKind::Subscribe) <= num_sent(
                old(self).spec_trace(),
                MsgKind::Subscribe,
            ) + 1,
            forall|k: MsgKind|
                k != MsgKind::Subscribe && k != MsgKind::Register && k != MsgKind::PubAck
                    ==> #[trigger] num_sent(final(self).spec_trace(), k) == num_sent(
                    old(self).spec_trace(),
                    k,
                ),
            seq_lookup_name(old(self).spec_topics(), topic@) is Some ==> final(self).spec_topics()
                == old(self).spec_topics() && num_sent(final(self).spec_trace(), MsgKind::Register)
                == num_sent(old(self).spec_trace(), MsgKind::Register) && num_received(
                final(self).spec_trace(),
            ) <= num_received(old(self).spec_trace()) + 1,
            (seq_lookup_name(old(self).spec_topics(), topic@) is Some && r is Ok) ==> num_sent(
                final(self).spec_trace(),
                MsgKind::Subscribe,
            ) == num_sent(old(self).spec_trace(), MsgKind::Subscribe) + 1 && num_received(
                final(self).spec_trace(),
            ) == num_received(old(self).spec_trace()) + 1,
            (seq_lookup_name(old(self).spec_topics(), topic@) is None && byte_len(topic@)
                <= MAX_TOPIC_LEN && r is Ok) ==> num_sent(
                final(self).spec_trace(),
                MsgKind::Register,
            ) == num_sent(old(self).spec_trace(), MsgKind::Register) + 1 && num_sent(
                final(self).spec_trace(),
                MsgKind::Subscribe,
            ) == num_sent(old(self).spec_trace(), MsgKind::Subscribe) + 1 && num_received(
                final(self).spec_trace(),
            ) == num_received(old(self).spec_trace()) + 2 && seq_lookup_name(
                final(self).spec_topics(),
                topic@,
            ) is Some,
            r is Ok ==> (final(self).spec_trace().last() matches Event::Received(
                Ok(Some(Message::SubAck { code: ReturnCode::Accepted, .. })),
            )),
            (seq_lookup_name(old(self).spec_topics(), topic@) is Some && num_received(
                final(self).spec_trace(),
            ) == num_received(old(self).spec_trace()) + 1 && (final(self).spec_trace().last() matches Event::Received(
                Ok(Some(Message::SubAck { code: ReturnCode::Accepted, .. })),
            ))) ==> r is Ok,
            (seq_lookup_name(old(self).spec_topics(), topic@) is None && byte_len(topic@)
                <= MAX_TOPIC_LEN && num_received(final(self).spec_trace()) == num_received(
                old(self).spec_trace(),
            ) + 2 && (final(self).spec_trace().last() matches Event::Received(
                Ok(Some(Message::SubAck { code: ReturnCode::Accepted, .. })),
            ))) ==> r is Ok,
            (seq_lookup_name(old(self).spec_topics(), topic@) is Some && (r is Ok || r == Err::<
                (),
                MqttSnClientError,
            >(MqttSnClientError::AckError))) ==> (final(self).spec_trace().len() > old(self).spec_trace().len()
                && final(self).spec_trace()[old(self).spec_trace().len() as int] == Event::Sent(
                (Message::Subscribe {
                    msg_id: next_msg_id(old(self).spec_msg_id()),
                    topic_id_type: seq_lookup_name(
                        old(self).spec_topics(),
                        topic@,
                    ).unwrap().0.spec_wire_value(),
                    topic_id: seq_lookup_name(old(self).spec_topics(), topic@).unwrap().1,
                }),
            )),
            (seq_lookup_name(old(self).spec_topics(), topic@) is None && r is Ok) ==> (
            seq_lookup_name(final(self).spec_topics(), topic@) is Some && seq_lookup_name(
                final(self).spec_topics(),
                topic@,
            ).unwrap().0 == TopicIdType::Id && final(self).spec_msg_id() == next_msg_id(
                next_msg_id(old(self).spec_msg_id()),
            ) && (exists|i: int|
                old(self).spec_trace().len() <= i < final(self).spec_trace().len() && final(self).spec_trace()[i] == Event::Sent(
                    (Message::Subscribe {
                        msg_id: next_msg_id(next_msg_id(old(self).spec_msg_id())),
                        topic_id_type: TopicIdType::Id.spec_wire_value(),
                        topic_id: seq_lookup_name(final(self).spec_topics(), topic@).unwrap().1,
                    }),
                ))),
            (seq_lookup_name(old(self).spec_topics(), topic@) is None && r is Ok) ==> (final(self).spec_trace().len() > old(self).spec_trace().len()
                && (final(self).spec_trace()[old(self).spec_trace().len() as int] matches Event::Sent(
                Message::Register { topic_id: 0, msg_id, topic_name },
            ) && msg_id == next_msg_id(old(self).spec_msg_id()) && topic_name@ == topic@)),
            (seq_lookup_name(old(self).spec_topics(), topic@) is None && r is Err) ==> (
            final(self).spec_topics() == old(self).spec_topics() || (seq_lookup_name(
                final(self).spec_topics(),
                topic@,
            ) is Some && seq_lookup_name(final(self).spec_topics(), topic@).unwrap().0
                == TopicIdType::Id)),
            forall|n: Seq<char>|
                n != topic@ ==> (#[trigger] seq_lookup_name(final(self).spec_topics(), n)
                    == seq_lookup_name(old(self).spec_topics(), n) || (seq_lookup_name(
                    final(self).spec_topics(),
                    n,
                ) is None && seq_lookup_name(old(self).spec_topics(), n) is Some && seq_lookup_name(
                    old(self).spec_topics(),
                    n,
                ).unwrap().1 == seq_lookup_name(final(self).spec_topics(), topic@).unwrap().1)),
            r matches Err(e) ==> (e == MqttSnClientError::UnknownError
                || e == MqttSnClientError::AckError || e == MqttSnClientError::SocketError
                || e == MqttSnClientError::CodecError || e == MqttSnClientError::TopicFailedInsert
                || e == MqttSnClientError::ParseError
                || e == MqttSnClientError::TopicNotRegistered),
            r matches Err(e) ==> ((seq_lookup_name(old(self).spec_topics(), topic@) is Some
                && byte_len(topic@) <= MAX_TOPIC_LEN) ==> (e == MqttSnClientError::AckError || e
                == MqttSnClientError::SocketError || e == MqttSnClientError::ParseError
                || e == MqttSnClientError::TopicNotRegistered)),
            (seq_lookup_name(old(self).spec_topics(), topic@) is None && byte_len(topic@)
                <= MAX_TOPIC_LEN) ==> (r == Err::<(), MqttSnClientError>(
                MqttSnClientError::CodecError,
            ) <==> byte_len(topic@) > 249),
            r == Err::<(), MqttSnClientError>(MqttSnClientError::CodecError) ==> final(self).spec_trace() == old(self).spec_trace(),
    {
        if !(topic.as_bytes().len() <= MAX_TOPIC_LEN) {
            return Err(MqttSnClientError::UnknownError);
        }
        let topic_s = topic.to_owned();
        let lookup = self.topics.get_by_topic(&topic_s);
        let topic_id: u16;
        let tid_type_val: u8;
        match lookup {
            Some((t, id)) => {
                topic_id = id;
                tid_type_val = t.wire_value();
            },
            None => {
                let id = match self.register(&topic_s) {
                    Ok(i) => i,
                    Err(e) => {
                        return Err(e);
                    },
                };
                match self.topics.insert(topic_s, TopicIdType::Id, id) {
                    Ok(()) => {},
                    Err(e) => {
                        return Err(e);
                    },
                }
                topic_id = id;
                tid_type_val = 0;
            },
        }
        let msg_id = self.msg_id.next();
        let packet = Message::Subscribe { msg_id, topic_id_type: tid_type_val, topic_id };
        let ghost sent = packet;
        let ghost t0 = self.trace@;
        match self.send(packet) {
            Ok(()) => {},
            Err(e) => {
                return Err(e);
            },
        }
        proof {
            lemma_counts_push(t0, Event::Sent(sent));
            lemma_extends_push(t0, Event::Sent(sent));
        }
        let reply = self.receive();
        proof {
            assert(self.trace@[t0.len() as int] == Event::Sent(sent));
        }
        match reply {
            Err(e) => Err(e),
            Ok(m) => suback_outcome(Ok(m)),
        }
    }

    /// One step of the steady-state wake/publish/sleep cycle: an outgoing
    /// request performs connect, publish and disconnect-to-sleep as one
    /// bundle; an idle period (no request) sends one keep-alive ping
    /// instead. The host loops this, racing its request source against the
    /// idle timeout; the first failure is handed back to it.
    pub fn run_step(&mut self, request: Option<MqttMessage>, sleep: u16) -> (r: Result<
        (),
        MqttSnClientError,
    >)
        requires
            old(self).wf(),
            request matches Some(m) ==> m.wf(),
        ensures
            final(self).wf(),
            final(self).spec_client_id() == old(self).spec_client_id(),
            request is Some && r is Ok ==> final(self).spec_state() == SessionState::Sleeping
                && num_sent(final(self).spec_trace(), MsgKind::Connect) == num_sent(
                old(self).spec_trace(),
                MsgKind::Connect,
            ) + 1 && num_sent(final(self).spec_trace(), MsgKind::Publish) == num_sent(
                old(self).spec_trace(),
                MsgKind::Publish,
            ) + 1 && num_sent(final(self).spec_trace(), MsgKind::Disconnect) == num_sent(
                old(self).spec_trace(),
                MsgKind::Disconnect,
            ) + 1,
            request is None ==> final(self).spec_state() == old(self).spec_state() && final(self).spec_topics() == old(self).spec_topics() && num_sent(
                final(self).spec_trace(),
                MsgKind::PingReq,
            ) <= num_sent(old(self).spec_trace(), MsgKind::PingReq) + 1,
            (request is None && r is Ok) ==> num_sent(final(self).spec_trace(), MsgKind::PingReq)
                == num_sent(old(self).spec_trace(), MsgKind::PingReq) + 1,
            request is Some ==> num_sent(final(self).spec_trace(), MsgKind::Connect) <= num_sent(
                old(self).spec_trace(),
                MsgKind::Connect,
            ) + 1 && num_sent(final(self).spec_trace(), MsgKind::Register) <= num_sent(
                old(self).spec_trace(),
                MsgKind::Register,
            ) + 1 && num_sent(final(self).spec_trace(), MsgKind::Publish) <= num_sent(
                old(self).spec_trace(),
                MsgKind::Publish,
            ) + 1 && num_sent(final(self).spec_trace(), MsgKind::Disconnect) <= num_sent(
                old(self).spec_trace(),
                MsgKind::Disconnect,
            ) + 1,
            request is Some ==> (forall|k: MsgKind|
                k != MsgKind::Connect && k != MsgKind::Register && k != MsgKind::Publish && k
                    != MsgKind::Disconnect && k != MsgKind::PubAck ==> #[trigger] num_sent(
                    final(self).spec_trace(),
                    k,
                ) == num_sent(old(self).spec_trace(), k)),
            r matches Err(e) ==> (request is Some ==> (e == MqttSnClientError::AckError
                || e == MqttSnClientError::SocketError || e == MqttSnClientError::CodecError
                || e == MqttSnClientError::TopicFailedInsert || e == MqttSnClientError::ParseError
                || e == MqttSnClientError::TopicNotRegistered)),
            r matches Err(e) ==> (request is None ==> (e == MqttSnClientError::NoPingResponse
                || e == MqttSnClientError::SocketError)),
    {
        match request {
            Some(m) => {
                match self.connect() {
                    Ok(()) => {},
                    Err(e) => {
                        return Err(e);
                    },
                }
                match self.publish(m) {
                    Ok(()) => {},
                    Err(e) => {
                        return Err(e);
                    },
                }
                self.disconnect(Some(sleep))
            },
            None => self.ping(),
        }
    }
}

} // verus!
