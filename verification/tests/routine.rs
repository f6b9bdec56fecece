use devdeck::routine::{set_routine, RoutineAction};

#[test]
fn an_event_routine_needs_a_bot() {
    let r = set_routine("Website", None, "check the build", "event", 0, "test.failed");
    assert_eq!(
        r.unwrap_err(),
        "An event routine wakes a bot, and Website has none yet. Give it a bot first."
    );
}

#[test]
fn an_event_routine_needs_an_event() {
    let r = set_routine("Website", Some("Site bot"), "check", "event", 0, "  ");
    assert_eq!(r.unwrap_err(), "Say which event should fire it, e.g. test.failed.");
}

#[test]
fn an_event_routine_is_a_row_named_for_the_bot() {
    let (a, m) = set_routine("Website", Some(" Site bot "), " check the build ", "event", 0, " test.failed ").unwrap();
    match a {
        RoutineAction::Event { name, on } => {
            assert_eq!(name, "Site bot · check the build");
            assert_eq!(on, "test.failed");
        }
        other => panic!("expected an event, got {other:?}"),
    }
    assert_eq!(m, "Set. \"check the build\" now runs when test.failed happens — an event on the clock, not a time.");
}

#[test]
fn a_space_with_a_bot_changes_its_heartbeat() {
    let (a, m) = set_routine("Website", Some("Site bot"), "wake", " hourly ", 9 * 60 + 5, "").unwrap();
    match a {
        RoutineAction::Heartbeat { every, at_min } => {
            assert_eq!(every, "hourly");
            assert_eq!(at_min, 545);
        }
        other => panic!("expected a heartbeat, got {other:?}"),
    }
    assert_eq!(
        m,
        "Set. Site bot wakes every hour at 09:05 — it is a row on the clock and a line in _bot.md, so editing either changes it."
    );
    let (_, m) = set_routine("Website", Some("Site bot"), "wake", "daily", 480, "").unwrap();
    assert!(m.starts_with("Set. Site bot wakes daily at 08:00"));
}

#[test]
fn a_space_without_a_bot_gets_a_reminder() {
    let (a, m) = set_routine("Website", None, " pay the host ", "weekly", 600, "").unwrap();
    match a {
        RoutineAction::Reminder { name, every, at_min } => {
            assert_eq!(name, "pay the host");
            assert_eq!(every, "weekly");
            assert_eq!(at_min, 600);
        }
        other => panic!("expected a reminder, got {other:?}"),
    }
    assert_eq!(
        m,
        "Set. \"pay the host\" is a reminder on Website — weekly at 10:00. Nothing watches this space yet, so it tells you rather than doing anything."
    );
}
