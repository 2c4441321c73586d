use string_metric_server::metrics::Ratio;
use string_metric_server::server::ConnectionEvent;
use string_metric_server::server::ConnectionRegistry;
use string_metric_server::server::DistanceResponse;
use string_metric_server::server::connection_step;

#[test]
fn response_carries_inputs_and_scores() {
    let resp = DistanceResponse::new("karolin".to_string(), "kathrin".to_string());
    assert_eq!(resp.string1, "karolin");
    assert_eq!(resp.string2, "kathrin");
    assert_eq!(resp.hamming_distance, Ratio { num: 3, den: 7 });
    assert_eq!(resp.levenshtein_distance, Ratio { num: 3, den: 7 });
}

#[test]
fn broadcast_reaches_every_registered_queue_once() {
    let mut reg = ConnectionRegistry::new();
    let a = reg.register();
    let b = reg.register();
    let c = reg.register();
    let resp = reg.handle_request("karolin".to_string(), "kathrin".to_string());
    assert_eq!(resp.hamming_distance, Ratio { num: 3, den: 7 });
    for id in [a, b, c] {
        let got = reg.next_outbound(id).expect("every connection receives the broadcast");
        assert_eq!(got.string1, "karolin");
        assert_eq!(got.string2, "kathrin");
        assert_eq!(got.hamming_distance, Ratio { num: 3, den: 7 });
        assert!(reg.next_outbound(id).is_none());
    }
}

#[test]
fn outbound_queues_are_fifo_per_connection() {
    let mut reg = ConnectionRegistry::new();
    let a = reg.register();
    let b = reg.register();
    reg.handle_request("0000".to_string(), "1111".to_string());
    reg.handle_request("ala".to_string(), "axxa".to_string());
    for id in [a, b] {
        let first = reg.next_outbound(id).unwrap();
        assert_eq!(first.string1, "0000");
        let second = reg.next_outbound(id).unwrap();
        assert_eq!(second.string1, "ala");
        assert!(reg.next_outbound(id).is_none());
    }
}

#[test]
fn identifiers_are_fresh_and_strictly_increasing() {
    let mut reg = ConnectionRegistry::new();
    let a = reg.register();
    let b = reg.register();
    assert!(b > a);
    reg.unregister(a);
    reg.unregister(b);
    let c = reg.register();
    assert!(c > b);
    assert_eq!(reg.connection_ids(), vec![c]);
}

#[test]
fn unregistered_connection_no_longer_receives() {
    let mut reg = ConnectionRegistry::new();
    let a = reg.register();
    let b = reg.register();
    reg.unregister(a);
    assert!(!reg.connection_ids().contains(&a));
    reg.handle_request("ala".to_string(), "axxa".to_string());
    assert!(reg.next_outbound(a).is_none());
    let got = reg.next_outbound(b).expect("remaining connection still receives");
    assert_eq!(got.levenshtein_distance, Ratio { num: 2, den: 4 });
}

#[test]
fn lifecycle_steps_request_malformed_disconnect() {
    let mut reg = ConnectionRegistry::new();
    let id = reg.register();
    let other = reg.register();

    let closed = connection_step(&mut reg, id, ConnectionEvent::Malformed);
    assert!(!closed);
    assert_eq!(reg.connection_ids(), vec![id, other]);
    assert!(reg.next_outbound(id).is_none());
    assert!(reg.next_outbound(other).is_none());

    let closed = connection_step(
        &mut reg,
        id,
        ConnectionEvent::Request { string1: "kitten".to_string(), string2: "sitting".to_string() },
    );
    assert!(!closed);
    let got = reg.next_outbound(other).expect("request is broadcast to every connection");
    assert_eq!(got.levenshtein_distance, Ratio { num: 3, den: 7 });

    let closed = connection_step(&mut reg, id, ConnectionEvent::Disconnected);
    assert!(closed);
    assert_eq!(reg.connection_ids(), vec![other]);
}
