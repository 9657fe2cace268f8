//! Reloading of scripts.

use mq_http::watch::{Debounce, WatchAction, WatchEvent};

const MILLISECOND: u128 = 1_000_000;

#[test]
fn bursts_reload_once() {
    let mut debounce = Debounce::new();
    assert_eq!(
        debounce.on_event(WatchEvent::Changed, 0),
        WatchAction::Reload
    );
    assert_eq!(
        debounce.on_event(WatchEvent::Changed, 199 * MILLISECOND),
        WatchAction::Ignore
    );
    assert_eq!(
        debounce.on_event(WatchEvent::Changed, 200 * MILLISECOND),
        WatchAction::Reload
    );
    assert_eq!(
        debounce.on_event(WatchEvent::Changed, 399 * MILLISECOND),
        WatchAction::Ignore
    );
}

#[test]
fn other_events_are_ignored_and_errors_stop() {
    let mut debounce = Debounce::new();
    assert_eq!(
        debounce.on_event(WatchEvent::Other, 0),
        WatchAction::Ignore
    );
    assert_eq!(debounce.last, None);
    assert_eq!(
        debounce.on_event(WatchEvent::Failed, 0),
        WatchAction::Stop
    );
}
