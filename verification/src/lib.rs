//! A client for a compact publish/subscribe messaging protocol over
//! datagram transports, built for constrained, intermittently-connected
//! devices: topic alias registration, acknowledgement-aware publish and
//! subscribe, keep-alive, and sleep-capable sessions against a single peer,
//! all under fixed memory bounds. The protocol engine, the bounded topic
//! alias store and the acknowledgement correlator are specified and
//! verified; the wire codec and the transports are external collaborators
//! reached through narrow trusted interfaces.

pub mod ackmap;
pub mod codec;
pub mod message;
pub mod mqttsn;
pub mod psk;
pub mod socket;
pub mod topics;
