use mqttsn_client::ackmap::{Ack, AckMap, AckMapError};

#[test]
fn insert_before_wait_resolves_without_suspending() {
    let mut acks: AckMap<u32, u8> = AckMap::new(16);
    assert!(matches!(acks.insert(1, 42), Ok(None)));
    assert_eq!(acks.wait(1, 0), Ok(Ack::Ready(42)));
    // the value was consumed exactly once: the next attempt suspends
    assert_eq!(acks.wait(1, 0), Ok(Ack::Pending));
}

#[test]
fn wait_before_insert_resumes_exactly_the_recorded_waiter() {
    let mut acks: AckMap<u32, u8> = AckMap::new(16);
    assert_eq!(acks.wait(1, 7), Ok(Ack::Pending));
    // the delivery hands back handle 7 for the host to resume
    assert!(matches!(acks.insert(1, 42), Ok(Some(7))));
    // the resumed waiter's next attempt consumes the value
    assert_eq!(acks.wait(1, 9), Ok(Ack::Ready(42)));
    assert_eq!(acks.wait(1, 9), Ok(Ack::Pending));
}

#[test]
fn a_rescheduled_wait_replaces_its_own_waiter() {
    let mut acks: AckMap<u32, u8> = AckMap::new(16);
    assert_eq!(acks.wait(1, 7), Ok(Ack::Pending));
    assert_eq!(acks.wait(1, 8), Ok(Ack::Pending));
    assert!(matches!(acks.insert(1, 5), Ok(Some(8))));
}

#[test]
fn duplicate_insert_is_rejected_not_overwritten() {
    let mut acks: AckMap<u32, u8> = AckMap::new(16);
    assert!(matches!(acks.insert(1, 42), Ok(None)));
    assert_eq!(acks.insert(1, 43), Err(AckMapError::IdUsed));
    // the first value is still the one a waiter sees
    assert_eq!(acks.wait(1, 0), Ok(Ack::Ready(42)));
}

#[test]
fn a_brand_new_key_at_capacity_is_refused() {
    let mut acks: AckMap<u32, u8> = AckMap::new(1);
    assert!(matches!(acks.insert(1, 42), Ok(None)));
    assert_eq!(acks.insert(2, 43), Err(AckMapError::Full));
    assert_eq!(acks.wait(2, 0), Err(AckMapError::Full));
    // the occupied key still works
    assert_eq!(acks.wait(1, 0), Ok(Ack::Ready(42)));
}

#[test]
fn keys_are_independent() {
    let mut acks: AckMap<u32, u8> = AckMap::new(16);
    assert!(matches!(acks.insert(1, 10), Ok(None)));
    assert!(matches!(acks.insert(2, 20), Ok(None)));
    assert_eq!(acks.wait(2, 0), Ok(Ack::Ready(20)));
    assert_eq!(acks.wait(1, 0), Ok(Ack::Ready(10)));
}
