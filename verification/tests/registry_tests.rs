use timers::binding::{handle_trigger, keybind_id, name_from_id};
use timers::present::EditSession;
use timers::registry::Registry;
use timers::timer::{Dur, Timer};

fn reg_with(names: &[&str], secs: u64) -> Registry {
    let mut reg = Registry::new();
    for n in names {
        assert!(reg.create(n.to_string(), Dur::from_secs(secs)));
    }
    reg
}

#[test]
fn create_keeps_insertion_order_and_unique_lookup() {
    let reg = reg_with(&["alpha", "beta", "gamma"], 5);
    assert_eq!(reg.timers.len(), 3);
    assert_eq!(reg.find_by_name("alpha"), Some(0));
    assert_eq!(reg.find_by_name("beta"), Some(1));
    assert_eq!(reg.find_by_name("gamma"), Some(2));
    assert_eq!(reg.find_by_name("delta"), None);
    assert_eq!(reg.timers[0].name, "alpha");
    assert_eq!(reg.timers[1].name, "beta");
    assert_eq!(reg.timers[2].name, "gamma");
}

#[test]
fn create_rejects_duplicate_and_empty_names() {
    let mut reg = reg_with(&["alpha"], 5);
    assert!(!reg.create("alpha".to_string(), Dur::from_secs(9)));
    assert!(!reg.create(String::new(), Dur::from_secs(9)));
    assert_eq!(reg.timers.len(), 1);
    assert_eq!(reg.timers[0].duration.secs, 5);
}

#[test]
fn restart_later_wins() {
    let mut t = Timer::new("t".to_string(), Dur::from_secs(10));
    assert_eq!(t.started, None);
    t.restart(100);
    t.restart(250);
    assert_eq!(t.started, Some(250));
}

#[test]
fn remaining_decreases_and_clamps_at_zero() {
    let mut t = Timer::new("t".to_string(), Dur::from_secs(10));
    t.restart(1_000_000_000);
    // 3 seconds in: 7 seconds left.
    let r = t.elapsed_remaining(4_000_000_000);
    assert_eq!((r.secs, r.nanos), (7, 0));
    // Exactly at expiry: zero.
    let r = t.elapsed_remaining(11_000_000_000);
    assert_eq!((r.secs, r.nanos), (0, 0));
    // Long past expiry: still zero, timer still running.
    let r = t.elapsed_remaining(99_000_000_000);
    assert_eq!((r.secs, r.nanos), (0, 0));
    assert_eq!(t.started, Some(1_000_000_000));
}

#[test]
fn remaining_keeps_subsecond_part() {
    let mut t = Timer::new("t".to_string(), Dur { secs: 2, nanos: 500_000_000 });
    t.restart(0);
    let r = t.elapsed_remaining(1_750_000_000);
    assert_eq!((r.secs, r.nanos), (0, 750_000_000));
}

#[test]
fn edit_rejected_while_running_or_negative() {
    let mut reg = reg_with(&["alpha"], 5);
    // Not running: accepted.
    assert!(reg.edit_duration(0, 42));
    assert_eq!(reg.timers[0].duration.secs, 42);
    // Negative: rejected, prior value kept.
    assert!(!reg.edit_duration(0, -1));
    assert_eq!(reg.timers[0].duration.secs, 42);
    // Running: rejected until stopped.
    reg.restart_at(0, 7);
    assert!(!reg.edit_duration(0, 3));
    assert_eq!(reg.timers[0].duration.secs, 42);
    reg.timers[0].started = None;
    assert!(reg.edit_duration(0, 3));
    assert_eq!(reg.timers[0].duration.secs, 3);
}

#[test]
fn remove_keeps_relative_order() {
    let mut reg = reg_with(&["a", "b", "c", "d"], 1);
    reg.remove(&vec![0, 2]);
    assert_eq!(reg.timers.len(), 2);
    assert_eq!(reg.timers[0].name, "b");
    assert_eq!(reg.timers[1].name, "d");
}

#[test]
fn deletion_removes_binding_effect() {
    let mut reg = reg_with(&["alpha", "beta"], 5);
    let id = reg.timers[0].keybind_id();
    reg.remove(&vec![0]);
    assert_eq!(reg.find_by_name("alpha"), None);
    // A trigger for the deleted timer is a silent no-op.
    handle_trigger(&mut reg, &id, false, 123);
    assert_eq!(reg.timers.len(), 1);
    assert_eq!(reg.timers[0].name, "beta");
    assert_eq!(reg.timers[0].started, None);
}

#[test]
fn trigger_restarts_named_timer_and_ignores_release() {
    let mut reg = reg_with(&["alpha", "beta"], 5);
    let id = keybind_id("beta");
    handle_trigger(&mut reg, &id, true, 50);
    assert_eq!(reg.timers[1].started, None);
    handle_trigger(&mut reg, &id, false, 50);
    assert_eq!(reg.timers[1].started, Some(50));
    assert_eq!(reg.timers[0].started, None);
    // Re-triggering re-arms from the newer instant.
    handle_trigger(&mut reg, &id, false, 80);
    assert_eq!(reg.timers[1].started, Some(80));
}

#[test]
fn keybind_identifier_round_trip() {
    assert_eq!(keybind_id("mytimer"), "KB_TIMER_START_mytimer");
    assert_eq!(name_from_id("KB_TIMER_START_mytimer"), "mytimer");
    // Without the prefix the identifier itself comes back.
    assert_eq!(name_from_id("OTHER_ID"), "OTHER_ID");
    // Only one prefix is stripped: a name that itself starts with the
    // prefix still resolves to that name.
    let tricky = "KB_TIMER_START_inner";
    assert_eq!(name_from_id(&keybind_id(tricky)), tricky);
}

#[test]
fn localization_covers_all_locales() {
    let t = Timer::new("mytimer".to_string(), Dur::from_secs(1));
    let entries = t.register_localization();
    let langs: Vec<&str> = vec!["br", "cn", "cz", "de", "en", "es", "fr", "it", "pl", "ru"];
    assert_eq!(entries.len(), langs.len());
    for (e, l) in entries.iter().zip(langs.iter()) {
        assert_eq!(e.lang, *l);
        assert_eq!(e.key, "KB_TIMER_START_mytimer");
        assert_eq!(e.label, "mytimer");
    }
}

#[test]
fn edit_session_submit_appends_and_resets() {
    let mut reg = Registry::new();
    let mut s = EditSession::new();
    s.new_name = "alpha".to_string();
    s.new_secs = 30;
    assert!(s.submit(&mut reg));
    assert_eq!(s.new_name, "");
    assert_eq!(s.new_secs, 0);
    assert_eq!(reg.timers.len(), 1);
    assert_eq!(reg.timers[0].name, "alpha");
    assert_eq!(reg.timers[0].duration.secs, 30);
    assert_eq!(reg.timers[0].started, None);
}

#[test]
fn edit_session_rejects_bad_input() {
    let mut reg = reg_with(&["alpha"], 5);
    let mut s = EditSession::new();
    // Empty name.
    s.new_secs = 10;
    assert!(!s.submit(&mut reg));
    // Negative duration: inputs kept.
    s.new_name = "beta".to_string();
    s.new_secs = -4;
    assert!(!s.submit(&mut reg));
    assert_eq!(s.new_name, "beta");
    assert_eq!(s.new_secs, -4);
    // Duplicate name.
    s.new_name = "alpha".to_string();
    s.new_secs = 10;
    assert!(!s.submit(&mut reg));
    assert_eq!(reg.timers.len(), 1);
}
