use chat_core::broadcaster::Broadcaster;
use chat_core::transport::SendError;
use chat_core::transport::Transport;

#[test]
fn publish_fans_out_to_every_subscriber_in_order() {
    let mut bus = Broadcaster::new();
    let a = bus.subscribe();
    let b = bus.subscribe();
    bus.publish(&"one".to_string());
    bus.publish(&"two".to_string());
    assert_eq!(bus.drain(a), vec!["one".to_string(), "two".to_string()]);
    assert_eq!(bus.drain(b), vec!["one".to_string(), "two".to_string()]);
}

#[test]
fn drain_empties_the_mailbox() {
    let mut bus = Broadcaster::new();
    let a = bus.subscribe();
    bus.publish(&"one".to_string());
    assert_eq!(bus.drain(a).len(), 1);
    assert_eq!(bus.drain(a).len(), 0);
}

#[test]
fn late_subscriber_misses_earlier_frames() {
    let mut bus = Broadcaster::new();
    let a = bus.subscribe();
    bus.publish(&"early".to_string());
    let b = bus.subscribe();
    bus.publish(&"late".to_string());
    assert_eq!(bus.drain(a), vec!["early".to_string(), "late".to_string()]);
    assert_eq!(bus.drain(b), vec!["late".to_string()]);
}

#[test]
fn unsubscribe_stops_delivery_without_touching_others() {
    let mut bus = Broadcaster::new();
    let a = bus.subscribe();
    let b = bus.subscribe();
    assert!(bus.unsubscribe(a));
    assert!(!bus.unsubscribe(a));
    bus.publish(&"frame".to_string());
    assert_eq!(bus.drain(a).len(), 0);
    assert_eq!(bus.drain(b), vec!["frame".to_string()]);
}

#[test]
fn handles_are_never_reused() {
    let mut bus = Broadcaster::new();
    let a = bus.subscribe();
    bus.unsubscribe(a);
    let b = bus.subscribe();
    assert_ne!(a, b);
}

#[test]
fn transport_queues_in_order_and_drains_once() {
    let mut t = Transport::new();
    assert!(t.send("one".to_string()).is_ok());
    assert!(t.send("two".to_string()).is_ok());
    assert_eq!(t.take_outbound(), vec!["one".to_string(), "two".to_string()]);
    assert_eq!(t.take_outbound().len(), 0);
}

#[test]
fn disconnected_transport_refuses_frames() {
    let mut t = Transport::new();
    assert!(t.send("kept".to_string()).is_ok());
    t.disconnect();
    assert_eq!(
        t.send("dropped".to_string()),
        Err(SendError::Disconnected)
    );
    assert_eq!(t.take_outbound(), vec!["kept".to_string()]);
}
