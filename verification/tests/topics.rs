use mqttsn_client::mqttsn::{MqttSnClientError, TopicIdType};
use mqttsn_client::topics::{Topics, TOPIC_CAPACITY};

#[test]
fn insert_then_both_lookups_find_the_record() {
    let mut topics = Topics::new();
    topics
        .insert(String::from("sensors/temp"), TopicIdType::Id, 1)
        .unwrap();
    assert_eq!(
        topics.get_by_topic(&String::from("sensors/temp")),
        Some((TopicIdType::Id, 1))
    );
    assert_eq!(topics.get_by_id(1), Ok("sensors/temp"));
}

#[test]
fn bindings_survive_unrelated_insertions() {
    let mut topics = Topics::new();
    topics.insert(String::from("a"), TopicIdType::Id, 1).unwrap();
    topics.insert(String::from("b"), TopicIdType::Short, 2).unwrap();
    topics.insert(String::from("c"), TopicIdType::PreDef, 3).unwrap();
    assert_eq!(topics.get_by_topic(&String::from("a")), Some((TopicIdType::Id, 1)));
    assert_eq!(topics.get_by_id(1), Ok("a"));
    assert_eq!(topics.get_by_topic(&String::from("b")), Some((TopicIdType::Short, 2)));
    assert_eq!(topics.get_by_id(3), Ok("c"));
}

#[test]
fn id_collision_evicts_the_stale_name() {
    let mut topics = Topics::new();
    topics.insert(String::from("a"), TopicIdType::Id, 5).unwrap();
    topics.insert(String::from("b"), TopicIdType::Id, 5).unwrap();
    assert_eq!(topics.get_by_topic(&String::from("a")), None);
    assert_eq!(topics.get_by_id(5), Ok("b"));
    assert_eq!(topics.get_by_topic(&String::from("b")), Some((TopicIdType::Id, 5)));
}

#[test]
fn reinserting_a_name_rebinds_its_id() {
    let mut topics = Topics::new();
    topics.insert(String::from("a"), TopicIdType::Id, 1).unwrap();
    topics.insert(String::from("a"), TopicIdType::Id, 2).unwrap();
    assert_eq!(topics.get_by_topic(&String::from("a")), Some((TopicIdType::Id, 2)));
    assert_eq!(topics.get_by_id(2), Ok("a"));
    assert_eq!(
        topics.get_by_id(1),
        Err(MqttSnClientError::TopicNotRegistered)
    );
}

#[test]
fn unknown_id_is_a_protocol_anomaly() {
    let topics = Topics::new();
    assert_eq!(
        topics.get_by_id(9),
        Err(MqttSnClientError::TopicNotRegistered)
    );
}

#[test]
fn a_full_store_rejects_only_brand_new_records() {
    let mut topics = Topics::new();
    for i in 0..TOPIC_CAPACITY {
        topics
            .insert(format!("topic/{}", i), TopicIdType::Id, i as u16)
            .unwrap();
    }
    assert_eq!(
        topics.insert(String::from("one/more"), TopicIdType::Id, 999),
        Err(MqttSnClientError::TopicFailedInsert)
    );
    // an existing id is still rebindable at capacity
    topics.insert(String::from("one/more"), TopicIdType::Id, 3).unwrap();
    assert_eq!(topics.get_by_id(3), Ok("one/more"));
    assert_eq!(topics.get_by_topic(&String::from("topic/3")), None);
}

#[test]
fn topic_id_type_round_trips_through_its_wire_value() {
    for t in [TopicIdType::Id, TopicIdType::PreDef, TopicIdType::Short] {
        assert_eq!(TopicIdType::try_from(t.wire_value()), Ok(t));
    }
    assert_eq!(
        TopicIdType::try_from(3),
        Err(MqttSnClientError::ParseError)
    );
}
