//! The plugin host: registration, dispatch, and the event-queue host calls.

use coppe::event::{Command, Event, SubscriptionEvent};
use coppe::imports::ErrorCode;
use coppe::key::{Key, Keycode, ModMask};
use coppe::plug_mgr::{PluginHost, PluginId};

fn key() -> Key {
    Key { modmask: ModMask(0x40), keycode: Keycode(36) }
}

fn plugin(name: &str) -> PluginId {
    PluginId::from_name(name)
}

fn subscribe_bytes(ev: SubscriptionEvent) -> Vec<u8> {
    ev.encode_to_vec()
}

#[test]
fn register_reports_duplicates() {
    let mut host = PluginHost::new();
    assert!(!host.register(plugin("a")));
    assert!(!host.register(plugin("b")));
    assert!(host.register(plugin("a")));
    assert!(host.is_registered(&plugin("a")));
    assert!(host.is_registered(&plugin("b")));
    assert!(!host.is_registered(&plugin("c")));
}

#[test]
fn key_subscribe_and_dispatch() {
    // Plugin `a` subscribes to the key press; the producer emits the matching
    // event; `a` is told to run, its queue holds one event of seven bytes,
    // and a full read hands back the exact encoding and pops the event.
    let mut host = PluginHost::new();
    host.register(plugin("a"));
    let a = plugin("a");

    let (code, cmd) = host.subscribe(&a, &subscribe_bytes(SubscriptionEvent::KeyPress(key())));
    assert_eq!(code, 0);
    assert_eq!(cmd, Some(Command::Subscribe(SubscriptionEvent::KeyPress(key()))));

    let subs = host.handle(&Event::KeyPress(key()));
    assert_eq!(subs.len(), 1);
    assert!(subs[0] == a);

    assert_eq!(host.event_len(&a), 7);
    let (n, bytes) = host.event_read(&a, 7, 0);
    assert_eq!(n, 7);
    assert_eq!(bytes, vec![0x01, 0x00, 0x00, 0x00, 0x40, 0x00, 0x24]);
    assert_eq!(host.event_len(&a), 0);
}

#[test]
fn partial_read_then_drain() {
    // A three-byte read leaves the head in place; the four-byte rest drains
    // it; the queue is then empty.
    let mut host = PluginHost::new();
    host.register(plugin("a"));
    let a = plugin("a");
    host.subscribe(&a, &subscribe_bytes(SubscriptionEvent::KeyPress(key())));
    host.handle(&Event::KeyPress(key()));

    let (n, bytes) = host.event_read(&a, 3, 0);
    assert_eq!(n, 3);
    assert_eq!(bytes, vec![0x01, 0x00, 0x00]);
    assert_eq!(host.event_len(&a), 7);

    let (n, bytes) = host.event_read(&a, 4, 3);
    assert_eq!(n, 4);
    assert_eq!(bytes, vec![0x00, 0x40, 0x00, 0x24]);
    assert_eq!(host.event_len(&a), 0);
}

#[test]
fn repeated_partial_reads_never_pop() {
    let mut host = PluginHost::new();
    host.register(plugin("a"));
    let a = plugin("a");
    host.subscribe(&a, &subscribe_bytes(SubscriptionEvent::KeyPress(key())));
    host.handle(&Event::KeyPress(key()));

    for _ in 0..5 {
        let (n, _) = host.event_read(&a, 6, 0);
        assert_eq!(n, 6);
        assert_eq!(host.event_len(&a), 7);
    }
}

#[test]
fn read_at_end_offset_returns_zero_and_pops() {
    let mut host = PluginHost::new();
    host.register(plugin("a"));
    let a = plugin("a");
    host.subscribe(&a, &subscribe_bytes(SubscriptionEvent::KeyPress(key())));
    host.handle(&Event::KeyPress(key()));

    let (n, bytes) = host.event_read(&a, 16, 7);
    assert_eq!(n, 0);
    assert!(bytes.is_empty());
    assert_eq!(host.event_len(&a), 0);
}

#[test]
fn read_past_end_offset_is_bad_argument() {
    let mut host = PluginHost::new();
    host.register(plugin("a"));
    let a = plugin("a");
    host.subscribe(&a, &subscribe_bytes(SubscriptionEvent::KeyPress(key())));
    host.handle(&Event::KeyPress(key()));

    let (n, bytes) = host.event_read(&a, 16, 8);
    assert_eq!(n, ErrorCode::BadArgument.code());
    assert_eq!(n, -3);
    assert!(bytes.is_empty());
    assert_eq!(host.event_len(&a), 7);
}

#[test]
fn read_from_empty_queue_returns_zero() {
    let mut host = PluginHost::new();
    host.register(plugin("a"));
    let a = plugin("a");
    let (n, bytes) = host.event_read(&a, 16, 0);
    assert_eq!(n, 0);
    assert!(bytes.is_empty());
    assert_eq!(host.event_len(&a), 0);
}

#[test]
fn window_lifecycle_fan_out() {
    // Two subscribers to window-add both receive the event before either
    // plugin's `handle` would run; their queues hold the same head.
    let mut host = PluginHost::new();
    host.register(plugin("x"));
    host.register(plugin("y"));
    let x = plugin("x");
    let y = plugin("y");

    let (_, cmd) = host.subscribe(&x, &subscribe_bytes(SubscriptionEvent::WindowAdd));
    assert_eq!(cmd, Some(Command::Subscribe(SubscriptionEvent::WindowAdd)));
    let (_, cmd) = host.subscribe(&y, &subscribe_bytes(SubscriptionEvent::WindowAdd));
    assert_eq!(cmd, None);

    let subs = host.handle(&Event::WindowAdd(42));
    assert_eq!(subs.len(), 2);
    assert!(subs[0] == x);
    assert!(subs[1] == y);

    let expected = Event::WindowAdd(42).encode_to_vec();
    for p in [&x, &y] {
        assert_eq!(host.event_len(p), 8);
        let (n, bytes) = host.event_read(p, 8, 0);
        assert_eq!(n, 8);
        assert_eq!(bytes, expected);
    }
}

#[test]
fn dispatch_order_is_fifo_per_plugin() {
    let mut host = PluginHost::new();
    host.register(plugin("a"));
    let a = plugin("a");
    host.subscribe(&a, &subscribe_bytes(SubscriptionEvent::WindowAdd));
    host.subscribe(&a, &subscribe_bytes(SubscriptionEvent::WindowRemove));

    host.handle(&Event::WindowAdd(1));
    host.handle(&Event::WindowRemove(2));
    host.handle(&Event::WindowAdd(3));

    for expected in [Event::WindowAdd(1), Event::WindowRemove(2), Event::WindowAdd(3)] {
        let enc = expected.encode_to_vec();
        let (n, bytes) = host.event_read(&a, 16, 0);
        assert_eq!(n as usize, enc.len());
        assert_eq!(bytes, enc);
    }
    assert_eq!(host.event_len(&a), 0);
}

#[test]
fn malformed_subscription_buffer_is_bad_argument() {
    let mut host = PluginHost::new();
    let a = plugin("a");
    let (code, cmd) = host.subscribe(&a, &[0x09, 0x00]);
    assert_eq!(code, -3);
    assert_eq!(cmd, None);
    let (code, cmd) = host.unsubscribe(&a, &[0x09, 0x00]);
    assert_eq!(code, -3);
    assert_eq!(cmd, None);
}

#[test]
fn unsubscribed_plugin_gets_nothing() {
    let mut host = PluginHost::new();
    host.register(plugin("a"));
    host.register(plugin("b"));
    let a = plugin("a");
    let b = plugin("b");
    host.subscribe(&a, &subscribe_bytes(SubscriptionEvent::WindowAdd));

    let subs = host.handle(&Event::WindowAdd(5));
    assert_eq!(subs.len(), 1);
    assert_eq!(host.event_len(&b), 0);
}
