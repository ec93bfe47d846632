use dreamberd::clock::Clock;
use dreamberd::events::{event_key, event_matches, parse_event, take_in, EventBus, InputEvent};

#[test]
fn events_are_named_by_kind_and_key() {
    assert_eq!(event_key(&InputEvent::KeyDown("A".to_string())), "keydown:A");
    assert_eq!(event_key(&InputEvent::KeyUp("A".to_string())), "keyup:A");
    assert_eq!(event_key(&InputEvent::MouseClick("Left".to_string())), "click:Left");
    assert_eq!(event_key(&InputEvent::MouseRelease("Left".to_string())), "release:Left");
}

#[test]
fn names_are_read_back_as_events() {
    assert_eq!(parse_event("keydown:A"), InputEvent::KeyDown("A".to_string()));
    assert_eq!(parse_event("keyup:Space"), InputEvent::KeyUp("Space".to_string()));
    assert_eq!(parse_event("click:Left"), InputEvent::MouseClick("Left".to_string()));
    assert_eq!(parse_event("release:"), InputEvent::MouseRelease(String::new()));
    assert_eq!(parse_event("click"), InputEvent::MouseClick("Synthetic".to_string()));
    assert_eq!(parse_event("anything"), InputEvent::KeyDown("anything".to_string()));
    assert_eq!(parse_event(""), InputEvent::KeyDown(String::new()));
    for name in ["keydown:A", "keyup:B", "click:Left", "release:Right"] {
        assert_eq!(event_key(&parse_event(name)), name);
    }
}

#[test]
fn click_waits_for_any_click() {
    assert!(event_matches("keydown:A", "keydown:A"));
    assert!(!event_matches("keydown:A", "keydown:B"));
    assert!(!event_matches("keydown:A", "keyup:A"));
    assert!(event_matches("click", "click:Left"));
    assert!(event_matches("click", "click:Right"));
    assert!(!event_matches("click", "release:Left"));
    assert!(!event_matches("click:Left", "click:Right"));
}

#[test]
fn bus_hands_events_out_in_the_order_they_came() {
    let bus = EventBus::new();
    assert_eq!(bus.poll(), None);
    assert!(bus.publish(InputEvent::KeyDown("A".to_string())));
    let publisher = bus.publisher();
    publisher.send(InputEvent::KeyUp("A".to_string())).unwrap();
    assert!(bus.publish(InputEvent::MouseClick("Left".to_string())));
    assert_eq!(
        bus.drain(),
        vec![
            InputEvent::KeyDown("A".to_string()),
            InputEvent::KeyUp("A".to_string()),
            InputEvent::MouseClick("Left".to_string()),
        ]
    );
    assert_eq!(bus.drain(), Vec::<InputEvent>::new());
}

#[test]
fn clock_can_be_set_ahead() {
    let mut clock = Clock::start();
    let start = clock.seconds();
    assert!(start < 5);
    clock.advance(100);
    let later = clock.seconds();
    assert!(later >= 100 && later < 105);
    clock.advance(u64::MAX);
    assert_eq!(clock.seconds(), u64::MAX);
}

#[test]
fn an_event_that_was_polled_joins_the_others_and_none_ends_the_taking() {
    let mut events = vec![InputEvent::KeyDown("A".to_string())];
    assert!(take_in(&mut events, Some(InputEvent::KeyUp("A".to_string()))));
    assert_eq!(
        events,
        vec![InputEvent::KeyDown("A".to_string()), InputEvent::KeyUp("A".to_string())]
    );
    assert!(!take_in(&mut events, None));
    assert_eq!(
        events,
        vec![InputEvent::KeyDown("A".to_string()), InputEvent::KeyUp("A".to_string())]
    );
}
