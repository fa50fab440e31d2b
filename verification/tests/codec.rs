//! Round trips, sizes, and exact byte forms of the wire codec.

use coppe::client::{Client, ClientGeometry};
use coppe::encoding::{DecodeError, EncodeError};
use coppe::event::{Event, Subscription, SubscriptionEvent};
use coppe::key::{Key, Keycode, ModMask};
use coppe::window::{Geometry, Window};

fn sample_key() -> Key {
    Key { modmask: ModMask(0x40), keycode: Keycode(36) }
}

fn sample_geometry() -> Geometry {
    Geometry { x: -5, y: 7, width: 640, height: 480 }
}

fn sample_window() -> Window {
    Window { id: 42, geometry: sample_geometry() }
}

#[test]
fn key_round_trip() {
    let k = sample_key();
    let bytes = k.encode_to_vec();
    assert_eq!(bytes, vec![0x40, 0x00, 0x24]);
    assert_eq!(k.encoded_size(), bytes.len());
    assert_eq!(Key::decode(&bytes), Ok(k));
}

#[test]
fn key_decode_short_buffer() {
    assert_eq!(Key::decode(&[0x40, 0x00]), Err(DecodeError::BadFormat));
}

#[test]
fn geometry_round_trip() {
    let g = sample_geometry();
    let bytes = g.encode_to_vec();
    assert_eq!(g.encoded_size(), 8);
    assert_eq!(bytes.len(), 8);
    assert_eq!(Geometry::decode(&bytes), Ok(g));
}

#[test]
fn window_round_trip() {
    let w = sample_window();
    let bytes = w.encode_to_vec();
    assert_eq!(w.encoded_size(), 12);
    assert_eq!(bytes.len(), 12);
    assert_eq!(Window::decode(&bytes), Ok(w));
}

#[test]
fn client_round_trip() {
    let c = Client { id: 9, geometry: ClientGeometry { x: 1, y: 2, width: 3, height: 4 } };
    let bytes = c.encode_to_vec();
    assert_eq!(c.encoded_size(), 12);
    assert_eq!(Client::decode(&bytes), Ok(c));
}

#[test]
fn event_round_trip_all_variants() {
    let events = vec![
        Event::KeyPress(sample_key()),
        Event::KeyRelease(sample_key()),
        Event::WindowAdd(7),
        Event::WindowRemove(0xFFFF_FFFF),
        Event::WindowConfigure(sample_window()),
    ];
    for ev in events {
        let bytes = ev.encode_to_vec();
        assert_eq!(ev.encoded_size(), bytes.len());
        assert_eq!(Event::decode(&bytes), Ok(ev));
    }
}

#[test]
fn event_key_press_exact_bytes() {
    let ev = Event::KeyPress(sample_key());
    assert_eq!(ev.encode_to_vec(), vec![0x01, 0x00, 0x00, 0x00, 0x40, 0x00, 0x24]);
    assert_eq!(ev.encoded_size(), 7);
}

#[test]
fn event_sizes_fixed_per_tag() {
    assert_eq!(Event::KeyRelease(sample_key()).encoded_size(), 7);
    assert_eq!(Event::WindowAdd(1).encoded_size(), 8);
    assert_eq!(Event::WindowRemove(1).encoded_size(), 8);
    assert_eq!(Event::WindowConfigure(sample_window()).encoded_size(), 16);
}

#[test]
fn event_decode_unknown_tag() {
    assert_eq!(
        Event::decode(&[0x06, 0x00, 0x00, 0x00, 0x40, 0x00, 0x24]),
        Err(DecodeError::BadFormat)
    );
}

#[test]
fn event_decode_truncated_payload() {
    assert_eq!(Event::decode(&[0x01, 0x00, 0x00, 0x00, 0x40]), Err(DecodeError::BadFormat));
    assert_eq!(Event::decode(&[0x03, 0x00, 0x00, 0x00, 0x2A]), Err(DecodeError::BadFormat));
    assert_eq!(Event::decode(&[0x01, 0x00, 0x00]), Err(DecodeError::BadFormat));
}

#[test]
fn event_decode_ignores_trailing_bytes() {
    let mut bytes = Event::WindowAdd(7).encode_to_vec();
    bytes.push(0xAA);
    assert_eq!(Event::decode(&bytes), Ok(Event::WindowAdd(7)));
}

#[test]
fn sub_event_round_trip_all_variants() {
    let subs = vec![
        SubscriptionEvent::KeyPress(sample_key()),
        SubscriptionEvent::KeyRelease(sample_key()),
        SubscriptionEvent::WindowAdd,
        SubscriptionEvent::WindowRemove,
        SubscriptionEvent::WindowConfigure,
    ];
    for s in subs {
        let bytes = s.encode_to_vec();
        assert_eq!(s.encoded_size(), bytes.len());
        assert_eq!(SubscriptionEvent::decode(&bytes), Ok(s));
    }
}

#[test]
fn sub_event_window_variants_take_four_bytes() {
    assert_eq!(SubscriptionEvent::WindowAdd.encode_to_vec(), vec![0x03, 0x00, 0x00, 0x00]);
    assert_eq!(SubscriptionEvent::WindowAdd.encoded_size(), 4);
    assert_eq!(SubscriptionEvent::KeyPress(sample_key()).encoded_size(), 7);
}

#[test]
fn sub_event_projection_from_event() {
    assert_eq!(
        SubscriptionEvent::from_event(&Event::KeyPress(sample_key())),
        SubscriptionEvent::KeyPress(sample_key())
    );
    assert_eq!(
        SubscriptionEvent::from_event(&Event::WindowAdd(42)),
        SubscriptionEvent::WindowAdd
    );
    assert_eq!(
        SubscriptionEvent::from_event(&Event::WindowConfigure(sample_window())),
        SubscriptionEvent::WindowConfigure
    );
}

#[test]
fn encode_to_reports_short_buffer() {
    let ev = Event::KeyPress(sample_key());
    let mut buffer = vec![0u8; 6];
    assert_eq!(ev.encode_to(&mut buffer), Err(EncodeError::BufferSize));
    assert_eq!(buffer, vec![0u8; 6]);
}

#[test]
fn encode_to_overwrites_prefix_and_keeps_rest() {
    let ev = Event::WindowAdd(7);
    let mut buffer = vec![0xEE; 10];
    assert_eq!(ev.encode_to(&mut buffer), Ok(()));
    assert_eq!(buffer, vec![0x03, 0x00, 0x00, 0x00, 0x07, 0x00, 0x00, 0x00, 0xEE, 0xEE]);
}

#[test]
fn subscription_decode_matches_event_and_empty_filters() {
    let sub_ev = SubscriptionEvent::KeyPress(sample_key());
    let mut bytes = sub_ev.encode_to_vec();
    bytes.push(0x99);
    let sub = Subscription::decode(&bytes).unwrap();
    assert_eq!(sub.event, sub_ev);
    assert!(sub.filters.is_empty());
}

#[test]
fn subscription_decode_bad_tag() {
    assert_eq!(Subscription::decode(&[0x00, 0x00, 0x00, 0x00]), Err(DecodeError::BadFormat));
}

#[test]
fn init_without_filters_writes_encoding() {
    let sub_ev = SubscriptionEvent::KeyPress(sample_key());
    let mut buffer = vec![0u8; 16];
    let n = sub_ev.init_without_filters(&mut buffer).unwrap();
    assert_eq!(n, 7);
    assert_eq!(&buffer[..7], &[0x01, 0x00, 0x00, 0x00, 0x40, 0x00, 0x24]);

    let mut small = vec![0u8; 3];
    assert!(sub_ev.init_without_filters(&mut small).is_err());
}

#[test]
fn key_subscription_helpers() {
    let k = Key::new(ModMask(0x40), Keycode(36));
    assert_eq!(k.press_subscription(), SubscriptionEvent::KeyPress(k));
    assert_eq!(k.release_subscription(), SubscriptionEvent::KeyRelease(k));
    let ks = coppe::key::KeySubscription::new(0x40, 36);
    assert_eq!(ks.key(), k);
}
