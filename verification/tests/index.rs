//! The subscription index: accumulation, refcounted commands, and restoration.

use coppe::event::{Command, Event, Subscription, SubscriptionEvent};
use coppe::key::{Key, Keycode, ModMask};
use coppe::plug_mgr::PluginId;
use coppe::sub_mgr::SubscriptionManager;

fn key() -> Key {
    Key { modmask: ModMask(0x40), keycode: Keycode(36) }
}

fn press() -> SubscriptionEvent {
    SubscriptionEvent::KeyPress(key())
}

fn plugin(name: &str) -> PluginId {
    PluginId::from_name(name)
}

fn names(ids: &[PluginId]) -> Vec<String> {
    ids.iter().map(|p| p.text()).collect()
}

#[test]
fn first_subscription_emits_subscribe_command() {
    let mut index = SubscriptionManager::new();
    let cmd = index.subscribe(plugin("a"), Subscription::from_event(press()));
    assert_eq!(cmd, Some(Command::Subscribe(press())));
}

#[test]
fn second_subscription_emits_nothing() {
    let mut index = SubscriptionManager::new();
    index.subscribe(plugin("a"), Subscription::from_event(press()));
    let cmd = index.subscribe(plugin("b"), Subscription::from_event(press()));
    assert_eq!(cmd, None);
}

#[test]
fn refcounted_grab() {
    // Two plugins subscribe to the same key press: one subscribe command.
    // The first unsubscribe emits nothing; the last emits one unsubscribe.
    let mut index = SubscriptionManager::new();
    assert_eq!(
        index.subscribe(plugin("a"), Subscription::from_event(press())),
        Some(Command::Subscribe(press()))
    );
    assert_eq!(index.subscribe(plugin("b"), Subscription::from_event(press())), None);
    assert_eq!(index.unsubscribe(&plugin("a"), &Subscription::from_event(press())), None);
    assert_eq!(
        index.unsubscribe(&plugin("b"), &Subscription::from_event(press())),
        Some(Command::Unsubscribe(press()))
    );
}

#[test]
fn subscribers_lists_registered_plugins_in_order() {
    let mut index = SubscriptionManager::new();
    index.subscribe(plugin("a"), Subscription::from_event(press()));
    index.subscribe(plugin("b"), Subscription::from_event(press()));
    index.subscribe(plugin("c"), Subscription::from_event(SubscriptionEvent::WindowAdd));
    let subs = index.subscribers(&Event::KeyPress(key()));
    assert_eq!(names(&subs), vec!["a".to_string(), "b".to_string()]);
    let subs = index.subscribers(&Event::WindowAdd(42));
    assert_eq!(names(&subs), vec!["c".to_string()]);
    let subs = index.subscribers(&Event::WindowRemove(42));
    assert!(subs.is_empty());
}

#[test]
fn unsubscribe_of_stranger_changes_nothing() {
    let mut index = SubscriptionManager::new();
    index.subscribe(plugin("a"), Subscription::from_event(press()));
    assert_eq!(index.unsubscribe(&plugin("b"), &Subscription::from_event(press())), None);
    assert_eq!(names(&index.subscribers(&Event::KeyPress(key()))), vec!["a".to_string()]);
}

#[test]
fn unsubscribe_of_absent_event_changes_nothing() {
    let mut index = SubscriptionManager::new();
    let cmd = index.unsubscribe(&plugin("a"), &Subscription::from_event(press()));
    assert_eq!(cmd, None);
    assert!(index.subscribers(&Event::KeyPress(key())).is_empty());
}

#[test]
fn subscribe_then_unsubscribe_restores_index() {
    // A fresh subscriber that goes away leaves the index as it was.
    let mut index = SubscriptionManager::new();
    index.subscribe(plugin("a"), Subscription::from_event(press()));
    index.subscribe(plugin("b"), Subscription::from_event(SubscriptionEvent::WindowAdd));

    index.subscribe(plugin("c"), Subscription::from_event(press()));
    index.unsubscribe(&plugin("c"), &Subscription::from_event(press()));

    assert_eq!(names(&index.subscribers(&Event::KeyPress(key()))), vec!["a".to_string()]);
    assert_eq!(names(&index.subscribers(&Event::WindowAdd(1))), vec!["b".to_string()]);
}

#[test]
fn double_subscribe_single_unsubscribe_drops_plugin() {
    // Subscribing twice accumulates two copies of the empty filter group; an
    // unsubscribe with empty filters then drops the whole registration, so
    // the event shape loses its last subscriber and the command is emitted.
    let mut index = SubscriptionManager::new();
    index.subscribe(plugin("a"), Subscription::from_event(press()));
    index.subscribe(plugin("a"), Subscription::from_event(press()));
    let cmd = index.unsubscribe(&plugin("a"), &Subscription::from_event(press()));
    assert_eq!(cmd, Some(Command::Unsubscribe(press())));
    assert!(index.subscribers(&Event::KeyPress(key())).is_empty());
}

#[test]
fn balanced_run_emits_equal_command_counts() {
    let mut index = SubscriptionManager::new();
    let mut subscribe_count = 0;
    let mut unsubscribe_count = 0;
    let mut count = |cmd: Option<Command>| match cmd {
        Some(Command::Subscribe(_)) => subscribe_count += 1,
        Some(Command::Unsubscribe(_)) => unsubscribe_count += 1,
        _ => {}
    };
    count(index.subscribe(plugin("a"), Subscription::from_event(press())));
    count(index.subscribe(plugin("b"), Subscription::from_event(press())));
    count(index.unsubscribe(&plugin("a"), &Subscription::from_event(press())));
    count(index.unsubscribe(&plugin("b"), &Subscription::from_event(press())));
    count(index.subscribe(plugin("a"), Subscription::from_event(press())));
    count(index.unsubscribe(&plugin("a"), &Subscription::from_event(press())));
    drop(count);
    assert_eq!(subscribe_count, 2);
    assert_eq!(unsubscribe_count, 2);
}
