use ijoka::bus::{EventBus, RecvOutcome};
use ijoka::model::AgentEvent;

fn event(tag: &str) -> AgentEvent {
    AgentEvent {
        id: None,
        event_type: tag.to_string(),
        source_agent: "test".to_string(),
        session_id: "s".to_string(),
        project_dir: "/p".to_string(),
        tool_name: None,
        payload: None,
        feature_id: None,
        created_at: "t".to_string(),
    }
}

fn expect_event(bus: &EventBus, c: &mut ijoka::bus::BusCursor) -> AgentEvent {
    match bus.recv(c) {
        RecvOutcome::Event(e) => e,
        RecvOutcome::Lagged(n) => panic!("unexpected lag of {}", n),
        RecvOutcome::Empty => panic!("unexpected empty"),
    }
}

#[test]
fn every_fast_consumer_sees_every_event_in_order() {
    let mut bus = EventBus::new(100);
    let mut c1 = bus.subscribe();
    let mut c2 = bus.subscribe();
    let mut c3 = bus.subscribe();
    for k in 0..10 {
        bus.publish(&event(&format!("E{}", k)));
    }
    for c in [&mut c1, &mut c2, &mut c3] {
        for k in 0..10 {
            let e = expect_event(&bus, c);
            assert_eq!(e.event_type, format!("E{}", k));
        }
        assert!(matches!(bus.recv(c), RecvOutcome::Empty));
    }
}

#[test]
fn slow_consumer_lags_but_never_blocks_the_publisher() {
    let mut bus = EventBus::new(4);
    let mut slow = bus.subscribe();
    for k in 0..10 {
        bus.publish(&event(&format!("E{}", k)));
    }
    match bus.recv(&mut slow) {
        RecvOutcome::Lagged(n) => assert_eq!(n, 6),
        _ => panic!("expected a lag"),
    }
    let e = expect_event(&bus, &mut slow);
    assert_eq!(e.event_type, "E6");
    let e = expect_event(&bus, &mut slow);
    assert_eq!(e.event_type, "E7");
}

#[test]
fn subscriber_starts_after_history() {
    let mut bus = EventBus::new(8);
    bus.publish(&event("before"));
    let mut c = bus.subscribe();
    assert!(matches!(bus.recv(&mut c), RecvOutcome::Empty));
    bus.publish(&event("after"));
    let e = expect_event(&bus, &mut c);
    assert_eq!(e.event_type, "after");
}
