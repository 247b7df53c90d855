use classic_menu::watcher::{Debouncer, Event, DEBOUNCE_MS};

#[test]
fn nothing_emits_inside_the_first_window() {
    let mut d = Debouncer::new(0);
    assert_eq!(d.observe(1), None);
    assert_eq!(d.observe(1500), None);
    assert_eq!(d.observe(DEBOUNCE_MS - 1), None);
}

#[test]
fn a_full_window_after_start_emits() {
    let mut d = Debouncer::new(0);
    assert_eq!(d.observe(DEBOUNCE_MS), Some(Event::Changed));
}

#[test]
fn a_burst_inside_one_window_emits_at_most_once() {
    let mut d = Debouncer::new(0);
    let mut events: u32 = 0;
    for t in [3000u64, 3001, 3050, 3900, 5999] {
        if d.observe(t).is_some() {
            events += 1;
        }
    }
    assert_eq!(events, 1);
}

#[test]
fn two_spaced_notifications_emit_twice() {
    let mut d = Debouncer::new(0);
    let mut events: u32 = 0;
    for t in [3000u64, 6000] {
        if d.observe(t).is_some() {
            events += 1;
        }
    }
    assert_eq!(events, 2);
}

#[test]
fn the_window_restarts_at_each_emission() {
    let mut d = Debouncer::new(1000);
    assert_eq!(d.observe(4000), Some(Event::Changed));
    // swallowed: the window reopened at 4000
    assert_eq!(d.observe(6999), None);
    // no buffered replay: only the next qualifying notification fires
    assert_eq!(d.observe(7000), Some(Event::Changed));
}
