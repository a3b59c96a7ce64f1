//! Behavior of the press registry, the scanner, the monitor and the
//! dispatcher queue, on concrete scenarios.

use raspi_silence_alerts::dispatch::DispatchQueue;
use raspi_silence_alerts::monitor::{handle_edge, EdgeEvent, EdgeKind};
use raspi_silence_alerts::names::NameTable;
use raspi_silence_alerts::notify::{resolution_notification, silence_notification, Notification};
use raspi_silence_alerts::registry::PressRegistry;
use raspi_silence_alerts::scanner::scan_tick;

fn table(pairs: &[(&str, &str)]) -> NameTable {
    let owned: Vec<(String, String)> = pairs
        .iter()
        .map(|(n, p)| (n.to_string(), p.to_string()))
        .collect();
    NameTable::build(&owned)
}

#[test]
fn entry_exists_exactly_while_pressed() {
    let mut reg = PressRegistry::new();
    assert!(reg.get(4).is_none());
    reg.record_press(4, 100);
    let info = reg.get(4).expect("entry must exist after press");
    assert_eq!(info.started, 100);
    assert_eq!(info.last_alert, None);
    assert!(!info.alerted);
    let removed = reg.record_release(4).expect("release returns the entry");
    assert_eq!(removed.started, 100);
    assert!(reg.get(4).is_none());
    assert!(reg.record_release(4).is_none());
}

#[test]
fn duplicate_press_resets_episode() {
    let mut reg = PressRegistry::new();
    reg.record_press(4, 100);
    reg.scan(200, 10, 60);
    assert!(reg.get(4).unwrap().alerted);
    reg.record_press(4, 300);
    let info = reg.get(4).unwrap();
    assert_eq!(info.started, 300);
    assert_eq!(info.last_alert, None);
    assert!(!info.alerted);
}

#[test]
fn short_press_produces_no_notifications() {
    let mut reg = PressRegistry::new();
    let names = table(&[("door", "4")]);
    reg.record_press(4, 0);
    for now in 0..10 {
        let out = scan_tick(&mut reg, &names, now, 10, 60);
        assert!(out.is_empty(), "no alert may fire before the threshold");
    }
    let release = EdgeEvent { kind: EdgeKind::Released, id: 4, time: 9 };
    let out = handle_edge(&mut reg, &names, &release, "release-stamp");
    assert!(out.is_none(), "an episode without alerts resolves silently");
}

#[test]
fn first_alert_fires_exactly_at_threshold() {
    let mut reg = PressRegistry::new();
    let names = table(&[("door", "4")]);
    reg.record_press(4, 0);
    let out = scan_tick(&mut reg, &names, 9, 10, 60);
    assert!(out.is_empty());
    let out = scan_tick(&mut reg, &names, 10, 10, 60);
    assert_eq!(out.len(), 1);
    assert_eq!(out[0].0, 4);
    let info = reg.get(4).unwrap();
    assert!(info.alerted);
    assert_eq!(info.last_alert, Some(10));
}

#[test]
fn repeat_alert_waits_for_the_full_interval() {
    let mut reg = PressRegistry::new();
    let names = table(&[("door", "4")]);
    reg.record_press(4, 0);
    assert_eq!(scan_tick(&mut reg, &names, 10, 10, 60).len(), 1);
    for now in 11..70 {
        assert!(
            scan_tick(&mut reg, &names, now, 10, 60).is_empty(),
            "no repeat before the interval has passed"
        );
    }
    let out = scan_tick(&mut reg, &names, 70, 10, 60);
    assert_eq!(out.len(), 1);
    assert_eq!(reg.get(4).unwrap().last_alert, Some(70));
}

#[test]
fn release_after_alert_notifies_once_with_held_duration() {
    let mut reg = PressRegistry::new();
    let names = table(&[("door", "4")]);
    reg.record_press(4, 0);
    scan_tick(&mut reg, &names, 10, 10, 60);
    let release = EdgeEvent { kind: EdgeKind::Released, id: 4, time: 75 };
    let out = handle_edge(&mut reg, &names, &release, "250101T1200");
    let n = out.expect("an alerted episode owes one resolution notice");
    assert_eq!(n.subject, "door ENDED SILENCE");
    assert_eq!(
        n.body,
        "door ended silence. Silent for 1 minute 15 seconds - ended at 250101T1200"
    );
    assert!(reg.get(4).is_none());
}

#[test]
fn release_without_alert_notifies_nobody() {
    let mut reg = PressRegistry::new();
    let names = table(&[("door", "4")]);
    reg.record_press(4, 0);
    let release = EdgeEvent { kind: EdgeKind::Released, id: 4, time: 5 };
    assert!(handle_edge(&mut reg, &names, &release, "stamp").is_none());
}

#[test]
fn concurrent_inputs_are_independent() {
    let mut reg = PressRegistry::new();
    reg.record_press(4, 0);
    reg.record_press(17, 3);
    let removed = reg.record_release(4).unwrap();
    assert_eq!(removed.started, 0);
    let other = reg.get(17).expect("the other entry must survive");
    assert_eq!(other.started, 3);
    assert_eq!(other.last_alert, None);
    assert!(!other.alerted);
}

#[test]
fn both_inputs_alert_in_one_scan() {
    let mut reg = PressRegistry::new();
    let names = table(&[("door", "4"), ("hall", "17")]);
    reg.record_press(4, 0);
    reg.record_press(17, 2);
    let mut out = scan_tick(&mut reg, &names, 20, 10, 60);
    out.sort_by_key(|(id, _)| *id);
    assert_eq!(out.len(), 2);
    assert_eq!(out[0].0, 4);
    assert_eq!(out[1].0, 17);
    assert_eq!(out[0].1.subject, "door SILENCE");
    assert_eq!(out[1].1.subject, "hall SILENCE");
}

#[test]
fn falling_edge_records_and_stays_silent() {
    let mut reg = PressRegistry::new();
    let names = table(&[("door", "4")]);
    let press = EdgeEvent { kind: EdgeKind::Asserted, id: 4, time: 42 };
    let out = handle_edge(&mut reg, &names, &press, "stamp");
    assert!(out.is_none());
    assert_eq!(reg.get(4).unwrap().started, 42);
}

#[test]
fn release_of_untracked_input_is_quiet() {
    let mut reg = PressRegistry::new();
    let names = table(&[("door", "4")]);
    let release = EdgeEvent { kind: EdgeKind::Released, id: 9, time: 100 };
    assert!(handle_edge(&mut reg, &names, &release, "stamp").is_none());
    assert!(reg.get(9).is_none());
}

fn note(tag: &str) -> Notification {
    silence_notification(tag, 0, 0)
}

#[test]
fn full_queue_drops_instead_of_blocking() {
    let mut q = DispatchQueue::new(3);
    assert!(q.enqueue(note("a")));
    assert!(q.enqueue(note("b")));
    assert!(q.enqueue(note("c")));
    assert_eq!(q.len(), 3);
    let accepted = q.enqueue(note("d"));
    assert!(!accepted, "a full queue reports exactly one drop");
    assert_eq!(q.len(), 3, "a full queue keeps what it held");
    assert_eq!(q.capacity(), 3);
}

#[test]
fn queue_hands_out_notifications_in_order() {
    let mut q = DispatchQueue::new(10);
    q.enqueue(note("first"));
    q.enqueue(note("second"));
    let a = q.dequeue().unwrap();
    let b = q.dequeue().unwrap();
    assert_eq!(a.subject, "first SILENCE");
    assert_eq!(b.subject, "second SILENCE");
    assert!(q.dequeue().is_none());
}

#[test]
fn end_to_end_episode_counts_two_alerts_and_one_resolution() {
    let mut reg = PressRegistry::new();
    let names = table(&[("X", "4")]);
    let threshold = 10;
    let repeat = 60;
    let press = EdgeEvent { kind: EdgeKind::Asserted, id: 4, time: 0 };
    assert!(handle_edge(&mut reg, &names, &press, "stamp").is_none());

    let mut alerts: Vec<(u64, Notification)> = Vec::new();
    for now in 0..=74 {
        for (_, n) in scan_tick(&mut reg, &names, now, threshold, repeat) {
            alerts.push((now, n));
        }
        if now == 9 {
            assert!(alerts.is_empty(), "no alert through t=9");
        }
        if now == 10 {
            assert_eq!(alerts.len(), 1, "first alert exactly at t=10");
            assert!(reg.get(4).unwrap().alerted);
        }
        if now == 69 {
            assert_eq!(alerts.len(), 1, "no repeat before t=70");
        }
        if now == 70 {
            assert_eq!(alerts.len(), 2, "second alert exactly at t=70");
        }
    }
    assert_eq!(alerts.len(), 2);
    assert_eq!(alerts[0].0, 10);
    assert_eq!(alerts[1].0, 70);

    let release = EdgeEvent { kind: EdgeKind::Released, id: 4, time: 75 };
    let resolution = handle_edge(&mut reg, &names, &release, "250101T0115")
        .expect("exactly one resolution notice");
    assert_eq!(resolution.subject, "X ENDED SILENCE");
    assert_eq!(
        resolution.body,
        "X ended silence. Silent for 1 minute 15 seconds - ended at 250101T0115"
    );
    assert!(reg.get(4).is_none());
    assert!(scan_tick(&mut reg, &names, 80, threshold, repeat).is_empty());
}

#[test]
fn resolution_notification_renders_exactly() {
    let n = resolution_notification("door", 125, "250101T1200");
    assert_eq!(n.subject, "door ENDED SILENCE");
    assert_eq!(
        n.body,
        "door ended silence. Silent for 2 minutes 5 seconds - ended at 250101T1200"
    );
}

#[test]
fn silence_notification_renders_exactly() {
    let n = silence_notification("door", 75, 3);
    assert_eq!(n.subject, "door SILENCE");
    assert_eq!(n.body, "door SILENCE for 1 minute 15 seconds\nSILENCE BEGINS:\t3");
}
