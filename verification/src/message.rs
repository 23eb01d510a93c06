use vstd::prelude::*;
use vstd::utf8::encode_utf8;
use vstd::string::*;
use crate::mqttsn::MqttSnClientError;
use crate::topics::{Topics, seq_lookup_id};

verus! {

/// Longest topic name and longest payload the protocol carries, in bytes.
pub const MAX_TOPIC_LEN: usize = 256;

/// How many bytes a string occupies on the wire: the length of its UTF-8
/// encoding.
pub open spec fn byte_len(s: Seq<char>) -> nat {
    encode_utf8(s).len()
}

/// Whether the peer accepted a request.
#[derive(Clone, Copy, Debug, PartialEq, Eq, Structural)]
pub enum ReturnCode {
    Accepted,
    Rejected,
}

/// The protocol messages a session exchanges, reduced to the fields the
/// client reads or fills. Inbound kinds the client never interprets decode
/// to `Other` and are handed back to the caller unread.
#[derive(Clone, Debug, PartialEq)]
pub enum Message {
    Connect { duration: u16, client_id: String },
    ConnAck { code: ReturnCode },
    Register { topic_id: u16, msg_id: u16, topic_name: String },
    RegAck { topic_id: u16, msg_id: u16, code: ReturnCode },
    Publish { qos: u8, topic_id_type: u8, topic_id: u16, msg_id: u16, data: String },
    PubAck { topic_id: u16, msg_id: u16, code: ReturnCode },
    Subscribe { msg_id: u16, topic_id_type: u8, topic_id: u16 },
    SubAck { topic_id: u16, msg_id: u16, code: ReturnCode },
    PingReq { client_id: String },
    PingResp,
    Disconnect { duration: Option<u16> },
    Other,
}

/// An application-level publication: a topic name, a payload, and the
/// delivery metadata of the packet it came from (absent on messages built
/// by the application itself).
#[derive(Clone, Debug)]
pub struct MqttMessage {
    topic_id: Option<u16>,
    msg_id: Option<u16>,
    qos: Option<u8>,
    pub topic: String,
    pub payload: String,
}

impl MqttMessage {
    /// Delivery metadata of an inbound packet: the numeric topic id it
    /// carried.
    pub closed spec fn spec_topic_id(self) -> Option<u16> {
        self.topic_id
    }

    /// Delivery metadata of an inbound packet: the message id it carried.
    pub closed spec fn spec_msg_id(self) -> Option<u16> {
        self.msg_id
    }

    /// The requested (outbound) or declared (inbound) quality of service.
    pub closed spec fn spec_qos(self) -> Option<u8> {
        self.qos
    }

    /// The topic name, as characters.
    pub closed spec fn spec_topic(self) -> Seq<char> {
        self.topic@
    }

    /// The payload, as characters.
    pub closed spec fn spec_payload(self) -> Seq<char> {
        self.payload@
    }

    /// The topic name, as the owned string value.
    pub closed spec fn spec_topic_val(self) -> String {
        self.topic
    }

    /// The payload, as the owned string value.
    pub closed spec fn spec_payload_val(self) -> String {
        self.payload
    }

    /// A message the application may hand to `publish`: topic and payload
    /// within the protocol's byte bounds, and the quality of service one of
    /// the three defined levels.
    pub open spec fn wf(self) -> bool {
        &&& byte_len(self.spec_topic()) <= MAX_TOPIC_LEN
        &&& byte_len(self.spec_payload()) <= MAX_TOPIC_LEN
        &&& (self.spec_qos() matches Some(q) ==> q <= 2)
    }

    /// The topic name.
    pub fn topic_string(&self) -> (r: &String)
        ensures
            *r == self.spec_topic_val(),
            r@ == self.spec_topic(),
    {
        &self.topic
    }

    /// The payload.
    pub fn payload_string(&self) -> (r: &String)
        ensures
            *r == self.spec_payload_val(),
            r@ == self.spec_payload(),
    {
        &self.payload
    }

    /// The requested or declared quality of service.
    pub fn qos(&self) -> (r: Option<u8>)
        ensures
            r == self.spec_qos(),
    {
        self.qos
    }

    /// The numeric topic id of the packet this message came from, if any.
    pub fn topic_id(&self) -> (r: Option<u16>)
        ensures
            r == self.spec_topic_id(),
    {
        self.topic_id
    }

    /// The message id of the packet this message came from, if any.
    pub fn msg_id(&self) -> (r: Option<u16>)
        ensures
            r == self.spec_msg_id(),
    {
        self.msg_id
    }

    /// Builds an outbound publication; a topic or payload out of bounds, or
    /// an undefined quality-of-service level, is rejected.
    pub fn new(topic: &str, payload: &str, qos: Option<u8>) -> (r: Result<Self, MqttSnClientError>)
        ensures
            r is Ok <==> (byte_len(topic@) <= MAX_TOPIC_LEN && byte_len(payload@) <= MAX_TOPIC_LEN
                && (qos matches Some(q) ==> q <= 2)),
            r matches Ok(m) ==> m.spec_topic() == topic@ && m.spec_payload() == payload@ && m.spec_qos() == qos
                && m.spec_topic_id() is None && m.spec_msg_id() is None && m.wf(),
            r is Err ==> r == Err::<Self, MqttSnClientError>(MqttSnClientError::UnknownError),
    {
        let qos_ok = match qos {
            Some(q) => q <= 2,
            None => true,
        };
        if !(topic.as_bytes().len() <= MAX_TOPIC_LEN && payload.as_bytes().len() <= MAX_TOPIC_LEN
            && qos_ok) {
            return Err(MqttSnClientError::UnknownError);
        }
        Ok(MqttMessage {
            topic_id: None,
            msg_id: None,
            qos,
            topic: topic.to_owned(),
            payload: payload.to_owned(),
        })
    }

    /// Reassembles an inbound data-publish packet into an application
    /// message, resolving its numeric topic id through the alias store; an
    /// id with no record surfaces as `TopicNotRegistered`.
    pub fn from_publish(msg: &Message, topics: &Topics) -> (r: Result<Self, MqttSnClientError>)
        requires
            msg is Publish,
            topics.wf(),
        ensures
            ((*msg) matches Message::Publish { qos, topic_id, msg_id, data, .. } ==> match
                seq_lookup_id(topics.records(), topic_id) {
                Some(name) => r matches Ok(m) && m.spec_topic() == name && m.spec_payload() == data@
                    && m.spec_qos() == Some(qos) && m.spec_topic_id() == Some(topic_id)
                    && m.spec_msg_id() == Some(msg_id),
                None => r == Err::<Self, MqttSnClientError>(MqttSnClientError::TopicNotRegistered),
            }),
    {
        match msg {
            Message::Publish { qos, topic_id, msg_id, data, .. } => {
                let name = topics.get_by_id(*topic_id)?;
                Ok(MqttMessage {
                    topic_id: Some(*topic_id),
                    msg_id: Some(*msg_id),
                    qos: Some(*qos),
                    topic: name.to_owned(),
                    payload: data.clone(),
                })
            },
            _ => Err(MqttSnClientError::ParseError),
        }
    }

    /// The acknowledgement owed for this message: a positive
    /// publish-acknowledgement carrying the packet's ids, owed exactly when
    /// the message came off the wire (both ids present) declaring a nonzero
    /// quality of service.
    pub fn get_ack(&self) -> (r: Option<Message>)
        ensures
            match (self.spec_topic_id(), self.spec_msg_id(), self.spec_qos()) {
                (Some(t), Some(m), Some(q)) if q > 0 => r == Some(
                    Message::PubAck { topic_id: t, msg_id: m, code: ReturnCode::Accepted },
                ),
                _ => r is None,
            },
    {
        if let (Some(topic_id), Some(msg_id), Some(q)) = (self.topic_id, self.msg_id, self.qos) {
            if q > 0 {
                return Some(
                    Message::PubAck { topic_id, msg_id, code: ReturnCode::Accepted },
                );
            }
        }
        None
    }
}

} // verus!
