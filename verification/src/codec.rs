use vstd::prelude::*;
use crate::message::byte_len;
use byte::{TryRead, TryWrite};
use mqtt_sn::defs::Message as WireMessage;
use crate::message::{Message, ReturnCode};
use crate::mqttsn::MqttSnClientError;

verus! {

/// The fixed binary layout the external codec gives a protocol message on
/// the wire. Stated once, applied by every serializing wrapper; the client
/// depends on the codec being correct and never reinterprets the format.
pub uninterp spec fn encoded_message(m: Message) -> Seq<u8>;

/// What the external codec decodes a datagram to: a message, or nothing
/// when the bytes are malformed or of an unknown kind.
pub uninterp spec fn parsed_message(b: Seq<u8>) -> Option<Message>;

/// The external codec's own message type, opaque here: it is only carried
/// from the decoding call to the conversion step.
#[verifier::external_type_specification]
#[verifier::external_body]
pub struct ExWireMessage(WireMessage);

/// Relies on mqtt_sn's `Message::try_write`: encodes a connection request
/// (flags, protocol id, big-endian duration, client id). Writing into the
/// fixed buffer cannot fail for a client id within the bound.
#[verifier::external_body]
pub(crate) fn encode_connect(duration: u16, client_id: &String) -> (r: Result<
    Vec<u8>,
    MqttSnClientError,
>)
    requires
        byte_len(client_id@) <= 64,
    ensures
        r is Ok,
        r matches Ok(v) ==> v@ == encoded_message(
            (Message::Connect { duration, client_id: *client_id }),
        ),
{
    let packet = mqtt_sn::defs::Connect {
        flags: mqtt_sn::defs::Flags::default(),
        duration,
        client_id: mqtt_sn::defs::ClientId::from(client_id.as_str()),
    };
    let mut buf = [0u8; 1024];
    match mqtt_sn::defs::Message::Connect(packet).try_write(&mut buf, ()) {
        Ok(n) => Ok(buf[..n].to_vec()),
        Err(_) => Err(MqttSnClientError::CodecError),
    }
}

/// Relies on mqtt_sn's `Message::try_write`: encodes a topic registration
/// request (big-endian topic id and message id, then the topic name).
/// Writing into the fixed buffer cannot fail for a topic within the bound.
#[verifier::external_body]
pub(crate) fn encode_register(topic_id: u16, msg_id: u16, topic_name: &String) -> (r: Result<
    Vec<u8>,
    MqttSnClientError,
>)
    requires
        byte_len(topic_name@) <= 249,
    ensures
        r is Ok,
        r matches Ok(v) ==> v@ == encoded_message(
            (Message::Register { topic_id, msg_id, topic_name: *topic_name }),
        ),
{
    let packet = mqtt_sn::defs::Register {
        topic_id,
        msg_id,
        topic_name: mqtt_sn::defs::TopicName::from(topic_name.as_str()),
    };
    let mut buf = [0u8; 1024];
    match mqtt_sn::defs::Message::Register(packet).try_write(&mut buf, ()) {
        Ok(n) => Ok(buf[..n].to_vec()),
        Err(_) => Err(MqttSnClientError::CodecError),
    }
}

/// Relies on mqtt_sn's `Message::try_write`: encodes a data-publish packet
/// (flags carrying the quality of service and the topic id kind, big-endian
/// topic id and message id, then the payload). Writing into the fixed
/// buffer cannot fail for a payload within the bound.
#[verifier::external_body]
pub(crate) fn encode_publish(
    qos: u8,
    topic_id_type: u8,
    topic_id: u16,
    msg_id: u16,
    data: &String,
) -> (r: Result<Vec<u8>, MqttSnClientError>)
    requires
        qos <= 2,
        topic_id_type <= 2,
        byte_len(data@) <= 248,
    ensures
        r is Ok,
        r matches Ok(v) ==> v@ == encoded_message(
            (Message::Publish { qos, topic_id_type, topic_id, msg_id, data: *data }),
        ),
{
    let mut flags = mqtt_sn::defs::Flags::default();
    flags.set_qos(qos);
    flags.set_topic_id_type(topic_id_type);
    let packet = mqtt_sn::defs::Publish {
        flags,
        topic_id,
        msg_id,
        data: mqtt_sn::defs::PublishData::from(data.as_str()),
    };
    let mut buf = [0u8; 1024];
    match mqtt_sn::defs::Message::Publish(packet).try_write(&mut buf, ()) {
        Ok(n) => Ok(buf[..n].to_vec()),
        Err(_) => Err(MqttSnClientError::CodecError),
    }
}

/// Relies on mqtt_sn's `Message::try_write`: encodes a subscribe request
/// referencing the topic by its numeric id; the fixed-size frame always
/// fits the buffer.
#[verifier::external_body]
pub(crate) fn encode_subscribe(msg_id: u16, topic_id_type: u8, topic_id: u16) -> (r: Result<
    Vec<u8>,
    MqttSnClientError,
>)
    requires
        topic_id_type <= 2,
    ensures
        r is Ok,
        r matches Ok(v) ==> v@ == encoded_message(
            (Message::Subscribe { msg_id, topic_id_type, topic_id }),
        ),
{
    let mut flags = mqtt_sn::defs::Flags::default();
    flags.set_topic_id_type(topic_id_type);
    let packet = mqtt_sn::defs::Subscribe {
        flags,
        msg_id,
        topic: mqtt_sn::defs::TopicNameOrId::Id(topic_id),
    };
    let mut buf = [0u8; 1024];
    match mqtt_sn::defs::Message::Subscribe(packet).try_write(&mut buf, ()) {
        Ok(n) => Ok(buf[..n].to_vec()),
        Err(_) => Err(MqttSnClientError::CodecError),
    }
}

/// Relies on mqtt_sn's `Message::try_write`: encodes a positive
/// publish-acknowledgement for an inbound packet; the fixed-size frame
/// always fits the buffer.
#[verifier::external_body]
pub(crate) fn encode_puback(topic_id: u16, msg_id: u16) -> (r: Result<Vec<u8>, MqttSnClientError>)
    ensures
        r is Ok,
        r matches Ok(v) ==> v@ == encoded_message(
            (Message::PubAck { topic_id, msg_id, code: ReturnCode::Accepted }),
        ),
{
    let packet = mqtt_sn::defs::PubAck { topic_id, msg_id, code: mqtt_sn::defs::ReturnCode::Accepted };
    let mut buf = [0u8; 1024];
    match mqtt_sn::defs::Message::PubAck(packet).try_write(&mut buf, ()) {
        Ok(n) => Ok(buf[..n].to_vec()),
        Err(_) => Err(MqttSnClientError::CodecError),
    }
}

/// Relies on mqtt_sn's `Message::try_write`: encodes a keep-alive request
/// carrying the client id. Writing into the fixed buffer cannot fail for a
/// client id within the bound.
#[verifier::external_body]
pub(crate) fn encode_pingreq(client_id: &String) -> (r: Result<Vec<u8>, MqttSnClientError>)
    requires
        byte_len(client_id@) <= 64,
    ensures
        r is Ok,
        r matches Ok(v) ==> v@ == encoded_message((Message::PingReq { client_id: *client_id })),
{
    let packet = mqtt_sn::defs::PingReq {
        client_id: mqtt_sn::defs::ClientId::from(client_id.as_str()),
    };
    let mut buf = [0u8; 1024];
    match mqtt_sn::defs::Message::PingReq(packet).try_write(&mut buf, ()) {
        Ok(n) => Ok(buf[..n].to_vec()),
        Err(_) => Err(MqttSnClientError::CodecError),
    }
}

/// Conversion step of `parse_message` (trusted with it): the acknowledgement
/// kinds the client reads, with each return code reduced to accepted or
/// rejected; other kinds are left to `convert_data`.
#[verifier::external_body]
fn convert_ack(m: &WireMessage) -> Option<Message> {
    let rc = |c: mqtt_sn::defs::ReturnCode| match c {
        mqtt_sn::defs::ReturnCode::Accepted => ReturnCode::Accepted,
        mqtt_sn::defs::ReturnCode::Rejected(_) => ReturnCode::Rejected,
    };
    match m {
        WireMessage::ConnAck(a) => Some(Message::ConnAck { code: rc(a.code) }),
        WireMessage::RegAck(a) => Some(Message::RegAck { topic_id: a.topic_id, msg_id: a.msg_id, code: rc(a.code) }),
        WireMessage::PubAck(a) => Some(Message::PubAck { topic_id: a.topic_id, msg_id: a.msg_id, code: rc(a.code) }),
        WireMessage::SubAck(a) => Some(Message::SubAck { topic_id: a.topic_id, msg_id: a.msg_id, code: rc(a.code) }),
        _ => None,
    }
}

/// Conversion step of `parse_message` (trusted with it): the data and
/// keep-alive kinds the client reads; every kind it never interprets
/// collapses to `Other`.
#[verifier::external_body]
fn convert_data(m: WireMessage) -> Message {
    match m {
        WireMessage::Publish(p) => Message::Publish {
            qos: p.flags.qos(),
            topic_id_type: p.flags.topic_id_type(),
            topic_id: p.topic_id,
            msg_id: p.msg_id,
            data: p.data.as_str().to_owned(),
        },
        WireMessage::PingResp(_) => Message::PingResp,
        _ => Message::Other,
    }
}

/// Relies on mqtt_sn's `Message::try_read`: decodes one datagram, keeping
/// the fields the client reads and collapsing the kinds it never interprets
/// to `Other`; malformed bytes are a parse failure. The codec's subscribe
/// and unsubscribe readers subtract the fixed header size from the frame's
/// own length byte unchecked, so frames announcing one of those kinds with a
/// length byte below the header are screened out by the caller.
#[verifier::external_body]
pub(crate) fn parse_message(buf: &[u8]) -> (r: Result<Message, MqttSnClientError>)
    requires
        buf@.len() >= 2 ==> !((buf@[1] == 0x12 || buf@[1] == 0x14) && buf@[0] < 5),
    ensures
        r == match parsed_message(buf@) {
            Some(m) => Ok::<Message, MqttSnClientError>(m),
            None => Err(MqttSnClientError::ParseError),
        },
{
    match WireMessage::try_read(buf, ()) {
        Ok((m, _)) => match convert_ack(&m) {
            Some(converted) => Ok(converted),
            None => Ok(convert_data(m)),
        },
        Err(_) => Err(MqttSnClientError::ParseError),
    }
}

/// Wire layout of the session-disconnect message, which this codec version
/// does not carry: a length byte, the disconnect type byte, and optionally
/// the big-endian sleep duration.
pub open spec fn disconnect_frame(duration: Option<u16>) -> Seq<u8> {
    match duration {
        None => seq![2u8, 0x18u8],
        Some(d) => seq![4u8, 0x18u8, (d / 256) as u8, (d % 256) as u8],
    }
}

/// Encodes a session-disconnect message, with the optional sleep duration
/// the peer is asked to queue messages for.
pub(crate) fn encode_disconnect(duration: Option<u16>) -> (r: Vec<u8>)
    ensures
        r@ == disconnect_frame(duration),
{
    let mut v: Vec<u8> = Vec::new();
    match duration {
        None => {
            v.push(2);
            v.push(0x18);
        },
        Some(d) => {
            v.push(4);
            v.push(0x18);
            v.push((d / 256) as u8);
            v.push((d % 256) as u8);
        },
    }
    proof {
        assert(v@ =~= disconnect_frame(duration));
    }
    v
}

/// What one inbound datagram decodes to: the session-disconnect layouts are
/// decoded by the client itself; a subscribe or unsubscribe frame whose own
/// length byte undercuts its fixed header is malformed and rejected before
/// the external codec sees it; everything else goes to the external codec.
pub open spec fn spec_decode(b: Seq<u8>) -> Result<Message, MqttSnClientError> {
    if b.len() >= 2 && b[1] == 0x18 {
        if b.len() == 2 && b[0] == 2 {
            Ok(Message::Disconnect { duration: None })
        } else if b.len() == 4 && b[0] == 4 {
            Ok(Message::Disconnect { duration: Some((b[2] as u16 * 256 + b[3] as u16) as u16) })
        } else {
            Err(MqttSnClientError::ParseError)
        }
    } else if b.len() >= 2 && (b[1] == 0x12 || b[1] == 0x14) && b[0] < 5 {
        Err(MqttSnClientError::ParseError)
    } else {
        match parsed_message(b) {
            Some(m) => Ok(m),
            None => Err(MqttSnClientError::ParseError),
        }
    }
}

/// Decodes one inbound datagram.
pub(crate) fn decode_frame(buf: &[u8]) -> (r: Result<Message, MqttSnClientError>)
    ensures
        r == spec_decode(buf@),
{
    if buf.len() >= 2 && buf[1] == 0x18 {
        if buf.len() == 2 && buf[0] == 2 {
            Ok(Message::Disconnect { duration: None })
        } else if buf.len() == 4 && buf[0] == 4 {
            let d: u16 = (buf[2] as u16) * 256 + (buf[3] as u16);
            Ok(Message::Disconnect { duration: Some(d) })
        } else {
            Err(MqttSnClientError::ParseError)
        }
    } else if buf.len() >= 2 && (buf[1] == 0x12 || buf[1] == 0x14) && buf[0] < 5 {
        Err(MqttSnClientError::ParseError)
    } else {
        parse_message(buf)
    }
}

} // verus!
