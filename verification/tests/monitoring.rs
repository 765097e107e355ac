use bitswap_wantlist::monitoring::{
    answer_to, cut, decode_routing_key, join_addresses, pad, plan_after, split_at_dots, Answer,
    BitswapMessage, BlockPresenceType, ConnectionEvent, ConnectionEventType, Delivery, EventType,
    PushedEvent, RoutingKeyError, RoutingKeyInformation, EXCHANGE_NAME_PASSIVE_MONITORING,
    MESSAGE_TTL_MILLIS, ROUTING_KEY_PREFIX_MONITOR, ROUTING_KEY_SUFFIX_BITSWAP_MESSAGES,
    ROUTING_KEY_SUFFIX_CONNECTION_EVENTS,
};
use bitswap_wantlist::timestamp::Timestamp;
use bitswap_wantlist::wantlist::{JSONWantlistEntry, JsonCID};

fn bitswap_event(addresses: Vec<&str>) -> PushedEvent {
    PushedEvent {
        timestamp: Timestamp::new(1_600_000_000, 5),
        peer: "QmPeer".to_string(),
        inner: EventType::BitswapMessage(BitswapMessage {
            wantlist_entries: vec![JSONWantlistEntry {
                priority: 3,
                cancel: false,
                send_dont_have: true,
                cid: JsonCID { path: "QmCid".to_string() },
                want_type: 1,
            }],
            full_wantlist: true,
            blocks: vec![],
            block_presences: vec![],
            connected_addresses: addresses.into_iter().map(|a| a.to_string()).collect(),
        }),
    }
}

#[test]
fn routing_key_constants() {
    assert_eq!(ROUTING_KEY_PREFIX_MONITOR, "monitor");
    assert_eq!(ROUTING_KEY_SUFFIX_BITSWAP_MESSAGES, "bitswap_messages");
    assert_eq!(ROUTING_KEY_SUFFIX_CONNECTION_EVENTS, "conn_events");
    assert_eq!(EXCHANGE_NAME_PASSIVE_MONITORING, "ipfs.passive_monitoring");
    assert_eq!(MESSAGE_TTL_MILLIS, 60_000);
}

#[test]
fn to_routing_key_writes_three_parts() {
    let key = RoutingKeyInformation::BitswapMessages { monitor_name: "de1".to_string() };
    assert_eq!(key.to_routing_key(), "monitor.de1.bitswap_messages");
    let key = RoutingKeyInformation::ConnectionEvents { monitor_name: "us-2".to_string() };
    assert_eq!(key.to_routing_key(), "monitor.us-2.conn_events");
}

#[test]
fn decode_routing_key_reads_what_was_written() {
    for name in ["de1", "", "a b", "ü"] {
        let key = RoutingKeyInformation::BitswapMessages { monitor_name: name.to_string() };
        match decode_routing_key(&key.to_routing_key()) {
            Ok(RoutingKeyInformation::BitswapMessages { monitor_name }) => assert_eq!(
                monitor_name,
                name,
            ),
            other => panic!("unexpected {:?}", other),
        }
        let key = RoutingKeyInformation::ConnectionEvents { monitor_name: name.to_string() };
        match decode_routing_key(&key.to_routing_key()) {
            Ok(RoutingKeyInformation::ConnectionEvents { monitor_name }) => assert_eq!(
                monitor_name,
                name,
            ),
            other => panic!("unexpected {:?}", other),
        }
    }
}

#[test]
fn decode_routing_key_refuses_other_keys() {
    assert_eq!(decode_routing_key("monitor.de1").err(), Some(RoutingKeyError::PartCount(2)));
    assert_eq!(decode_routing_key("").err(), Some(RoutingKeyError::PartCount(1)));
    assert_eq!(
        decode_routing_key("monitor.a.b.conn_events").err(),
        Some(RoutingKeyError::PartCount(4))
    );
    assert_eq!(decode_routing_key("monitors.de1.conn_events").err(), Some(RoutingKeyError::Prefix));
    assert_eq!(decode_routing_key("monitor.de1.blocks").err(), Some(RoutingKeyError::Suffix));
    assert_eq!(decode_routing_key("monitor.de1.").err(), Some(RoutingKeyError::Suffix));
}

#[test]
fn split_at_dots_agrees_with_split() {
    for text in ["", ".", "a", "a.b", "a..b", ".a.", "monitor.x.conn_events", "é.日本.z"] {
        let expected: Vec<String> = text.split('.').map(|p| p.to_string()).collect();
        assert_eq!(split_at_dots(text), expected);
    }
}

#[test]
fn pad_fills_up_with_spaces() {
    assert_eq!(pad("ab", 5), "ab   ");
    assert_eq!(pad("abcde", 5), "abcde");
    assert_eq!(pad("abcdef", 5), "abcdef");
    assert_eq!(pad("é", 3), "é  ");
    assert_eq!(pad("é", 3), format!("{:3}", "é"));
    assert_eq!(pad("", 0), "");
}

#[test]
fn join_addresses_puts_commas_between() {
    assert_eq!(join_addresses(&vec![]), "");
    assert_eq!(join_addresses(&vec!["a".to_string()]), "a");
    assert_eq!(join_addresses(&vec!["a".to_string(), "b".to_string(), "c".to_string()]), "a, b, c");
}

#[test]
fn cut_keeps_the_first_bytes() {
    assert_eq!(cut("abcdef", 4), "abcd");
    assert_eq!(cut("abc", 4), "abc");
    assert_eq!(cut("abcd", 4), "abcd");
    assert_eq!(cut("aéb", 3), "aé");
}

#[test]
fn constant_width_identifier_of_a_bitswap_message() {
    let event = bitswap_event(vec!["/ip4/1.2.3.4/tcp/4001", "/ip4/5.6.7.8/tcp/4001"]);
    assert!(event.has_identifier());
    let id = event.constant_width_identifier();
    let mut addrs = "/ip4/1.2.3.4/tcp/4001, /ip4/5.6.7.8/tcp/4001".to_string();
    addrs.truncate(30);
    assert_eq!(id, format!("{:52} [{:30}]", "QmPeer", addrs));
    assert_eq!(id.len(), 52 + 2 + 30 + 1);

    let short = bitswap_event(vec!["/ip4/1.2.3.4"]);
    assert_eq!(
        short.constant_width_identifier(),
        format!("{:52} [{:30}]", "QmPeer", "/ip4/1.2.3.4"),
    );
    let none = bitswap_event(vec![]);
    assert_eq!(none.constant_width_identifier(), format!("{:52} [{:30}]", "QmPeer", ""));
}

#[test]
fn constant_width_identifier_of_a_connection_event() {
    let event = PushedEvent {
        timestamp: Timestamp::new(1, 0),
        peer: "QmPeer".to_string(),
        inner: EventType::ConnectionEvent(ConnectionEvent {
            remote: "/ip4/9.9.9.9/tcp/1".to_string(),
            connection_event_type: ConnectionEventType::Connected,
        }),
    };
    assert!(event.has_identifier());
    assert_eq!(
        event.constant_width_identifier(),
        format!("{:52} {:32}", "QmPeer", "/ip4/9.9.9.9/tcp/1")
    );
}

#[test]
fn has_identifier_sees_a_cut_inside_a_character() {
    // Twenty-nine bytes, then a character of two bytes.
    let event = bitswap_event(vec!["aaaaaaaaaaaaaaaaaaaaaaaaaaaaaéz"]);
    assert!(!event.has_identifier());
    let event = bitswap_event(vec!["aaaaaaaaaaaaaaaaaaaaaaaaaaaaéz"]);
    assert!(event.has_identifier());
    assert_eq!(
        event.constant_width_identifier(),
        format!("{:52} [{:30}]", "QmPeer", "aaaaaaaaaaaaaaaaaaaaaaaaaaaaé")
    );
}

#[test]
fn wantlist_message_of_a_bitswap_message() {
    let message = bitswap_event(vec![]).wantlist_message().unwrap();
    assert_eq!(message.timestamp, Timestamp::new(1_600_000_000, 5));
    assert_eq!(message.peer, "QmPeer");
    assert!(message.address.is_none());
    assert_eq!(message.full_want_list, Some(true));
    assert!(message.peer_connected.is_none());
    assert!(message.peer_disconnected.is_none());
    assert!(message.connect_event_peer_found.is_none());
    let entries = message.received_entries.unwrap();
    assert_eq!(entries.len(), 1);
    assert_eq!(entries[0].cid.path, "QmCid");
    assert_eq!(entries[0].priority, 3);
    assert!(entries[0].send_dont_have);
    assert!(!entries[0].cancel);
    assert_eq!(entries[0].want_type, 1);
}

#[test]
fn wantlist_message_of_a_connection_event() {
    let event = PushedEvent {
        timestamp: Timestamp::new(1, 0),
        peer: "QmPeer".to_string(),
        inner: EventType::ConnectionEvent(ConnectionEvent {
            remote: "r".to_string(),
            connection_event_type: ConnectionEventType::Disconnected,
        }),
    };
    assert!(event.wantlist_message().is_none());
}

#[test]
fn event_type_numbers() {
    assert_eq!(BlockPresenceType::Have.value(), 0);
    assert_eq!(BlockPresenceType::DontHave.value(), 1);
    assert_eq!(BlockPresenceType::from_value(1), Some(BlockPresenceType::DontHave));
    assert_eq!(BlockPresenceType::from_value(2), None);
    assert_eq!(ConnectionEventType::Connected.value(), 0);
    assert_eq!(ConnectionEventType::Disconnected.value(), 1);
    assert_eq!(ConnectionEventType::from_value(0), Some(ConnectionEventType::Connected));
    assert_eq!(ConnectionEventType::from_value(9), None);
}

#[test]
fn deliveries_are_answered_and_planned() {
    assert_eq!(answer_to(Delivery::Failed), Answer::Nothing);
    assert_eq!(answer_to(Delivery::Undecodable), Answer::Refuse);
    assert_eq!(answer_to(Delivery::Decoded { bitswap_messages: false }), Answer::Acknowledge);

    let plan = plan_after(Delivery::Decoded { bitswap_messages: true }, true);
    assert!(plan.forward_events && plan.archive && !plan.forward_error && !plan.stop);
    let plan = plan_after(Delivery::Decoded { bitswap_messages: false }, true);
    assert!(plan.forward_events && !plan.archive && !plan.forward_error && !plan.stop);
    let plan = plan_after(Delivery::Decoded { bitswap_messages: true }, false);
    assert!(!plan.forward_events && !plan.archive && plan.forward_error && plan.stop);
    for answered in [true, false] {
        for delivery in [Delivery::Failed, Delivery::Undecodable] {
            let plan = plan_after(delivery, answered);
            assert!(!plan.forward_events && !plan.archive && plan.forward_error && plan.stop);
        }
    }
}
