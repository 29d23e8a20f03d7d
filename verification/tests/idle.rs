use asahi_brightness::idle::{binding, subscribe, Binding, Unsupported};

#[test]
fn seat_is_bound_in_a_known_version() {
    assert!(matches!(binding("wl_seat", 9), Binding::Seat { version: 7 }));
    assert!(matches!(binding("wl_seat", 5), Binding::Seat { version: 5 }));
}

#[test]
fn notifier_is_bound_in_a_known_version() {
    assert!(matches!(binding("ext_idle_notifier_v1", 2), Binding::Notifier { version: 1 }));
    assert!(matches!(binding("ext_idle_notifier_v1", 0), Binding::Notifier { version: 0 }));
}

#[test]
fn other_globals_are_left() {
    assert!(matches!(binding("wl_output", 4), Binding::Ignore));
    assert!(matches!(binding("", 1), Binding::Ignore));
}

#[test]
fn subscription_takes_both_globals() {
    assert!(matches!(subscribe(Some(1), Some('s')), Ok((1, 's'))));
    assert!(subscribe(None::<u8>, Some('s')).is_err());
    assert!(subscribe(Some(1), None::<char>).is_err());
    assert!(subscribe(None::<u8>, None::<char>).is_err());
    assert_eq!(
        Unsupported.message(),
        "compositor does not advertise ext-idle-notify-v1; idle integration disabled"
    );
}
