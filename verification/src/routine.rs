//! Setting when something happens, from a sentence.
//!
//! A sentence writes the same two things the form writes: a line in
//! `_bot.md` and a row on the clock, never a third kind of routine. A space
//! with no bot gets a plain reminder instead of a bot invented for it, and
//! an event routine, which wakes a bot, is refused where there is none.
use vstd::prelude::*;
use crate::text::{copy_str, push_str, str_eq, trim, trim_str, is_blank};
use crate::bots::{fmt_at, fmt_at_spec};

verus! {

/// What the clock and the bot's file are to be told.
#[derive(Debug)]
pub enum RoutineAction {
    /// Replace the space's routine for this event with one of this name.
    Event { name: String, on: String },
    /// The bot's own heartbeat: its file and its row take this routine.
    Heartbeat { every: String, at_min: i64 },
    /// A reminder on the clock, with this name.
    Reminder { name: String, every: String, at_min: i64 },
}

/// How a routine is said back: "every hour" for an hourly one.
pub open spec fn cadence(every: Seq<char>) -> Seq<char> {
    if every == "hourly"@ {
        "every hour"@
    } else {
        every
    }
}

/// The refusal, or the action and the reply, for a routine on a space
/// named `node_name` whose bot, if it has one, is named `bot_name`.
pub open spec fn routine_spec(
    node_name: Seq<char>,
    bot_name: Option<Seq<char>>,
    what: Seq<char>,
    every: Seq<char>,
    at_min: int,
    on: Seq<char>,
) -> Result<(RoutineActionV, Seq<char>), Seq<char>> {
    if every == "event"@ {
        match bot_name {
            None => Err(
                "An event routine wakes a bot, and "@ + node_name + " has none yet. Give it a bot first."@,
            ),
            Some(b) => if trim(on).len() == 0 {
                Err("Say which event should fire it, e.g. test.failed."@)
            } else {
                Ok(
                    (
                        RoutineActionV::Event { name: trim(b) + " · "@ + trim(what), on: trim(on) },
                        "Set. \""@ + trim(what) + "\" now runs when "@ + trim(on)
                            + " happens — an event on the clock, not a time."@,
                    ),
                )
            },
        }
    } else {
        match bot_name {
            Some(b) => Ok(
                (
                    RoutineActionV::Heartbeat { every: trim(every), at_min },
                    "Set. "@ + trim(b) + " wakes "@ + cadence(trim(every)) + " at "@ + fmt_at_spec(at_min)
                        + " — it is a row on the clock and a line in _bot.md, so editing either changes it."@,
                ),
            ),
            None => Ok(
                (
                    RoutineActionV::Reminder { name: trim(what), every: trim(every), at_min },
                    "Set. \""@ + trim(what) + "\" is a reminder on "@ + node_name + " — "@ + trim(every) + " at "@
                        + fmt_at_spec(at_min)
                        + ". Nothing watches this space yet, so it tells you rather than doing anything."@,
                ),
            ),
        }
    }
}

pub ghost enum RoutineActionV {
    Event { name: Seq<char>, on: Seq<char> },
    Heartbeat { every: Seq<char>, at_min: int },
    Reminder { name: Seq<char>, every: Seq<char>, at_min: int },
}

impl View for RoutineAction {
    type V = RoutineActionV;

    open spec fn view(&self) -> RoutineActionV {
        match self {
            RoutineAction::Event { name, on } => RoutineActionV::Event { name: name@, on: on@ },
            RoutineAction::Heartbeat { every, at_min } => RoutineActionV::Heartbeat {
                every: every@,
                at_min: *at_min as int,
            },
            RoutineAction::Reminder { name, every, at_min } => RoutineActionV::Reminder {
                name: name@,
                every: every@,
                at_min: *at_min as int,
            },
        }
    }
}

/// Decide a routine set from a sentence: what to write, and what to answer.
pub fn set_routine(
    node_name: &str,
    bot_name: Option<&str>,
    what: &str,
    every: &str,
    at_min: i64,
    on: &str,
) -> (r: Result<(RoutineAction, String), String>)
    ensures
        match (r, routine_spec(
            node_name@,
            match bot_name {
                Some(b) => Some(b@),
                None => None,
            },
            what@,
            every@,
            at_min as int,
            on@,
        )) {
            (Ok((a, m)), Ok((av, mv))) => a@ == av && m@ == mv,
            (Err(e), Err(ev)) => e@ == ev,
            _ => false,
        },
{
    let w = trim_str(what);
    if str_eq(every, "event") {
        proof {
            reveal_strlit("event");
        }
        let b = match bot_name {
            None => {
                let mut e = copy_str("An event routine wakes a bot, and ");
                push_str(&mut e, node_name);
                push_str(&mut e, " has none yet. Give it a bot first.");
                return Err(e);
            },
            Some(b) => b,
        };
        if is_blank(on) {
            return Err(copy_str("Say which event should fire it, e.g. test.failed."));
        }
        let o = trim_str(on);
        let mut name = trim_str(b);
        push_str(&mut name, " · ");
        push_str(&mut name, w.as_str());
        let mut m = copy_str("Set. \"");
        push_str(&mut m, w.as_str());
        push_str(&mut m, "\" now runs when ");
        push_str(&mut m, o.as_str());
        push_str(&mut m, " happens — an event on the clock, not a time.");
        return Ok((RoutineAction::Event { name, on: o }, m));
    }
    proof {
        reveal_strlit("event");
    }
    let e = trim_str(every);
    let at = fmt_at(at_min);
    match bot_name {
        Some(b) => {
            let mut m = copy_str("Set. ");
            let n = trim_str(b);
            push_str(&mut m, n.as_str());
            push_str(&mut m, " wakes ");
            if str_eq(e.as_str(), "hourly") {
                push_str(&mut m, "every hour");
            } else {
                push_str(&mut m, e.as_str());
            }
            push_str(&mut m, " at ");
            push_str(&mut m, at.as_str());
            push_str(&mut m, " — it is a row on the clock and a line in _bot.md, so editing either changes it.");
            Ok((RoutineAction::Heartbeat { every: e, at_min }, m))
        },
        None => {
            let mut m = copy_str("Set. \"");
            push_str(&mut m, w.as_str());
            push_str(&mut m, "\" is a reminder on ");
            push_str(&mut m, node_name);
            push_str(&mut m, " — ");
            push_str(&mut m, e.as_str());
            push_str(&mut m, " at ");
            push_str(&mut m, at.as_str());
            push_str(&mut m, ". Nothing watches this space yet, so it tells you rather than doing anything.");
            Ok((RoutineAction::Reminder { name: w, every: e, at_min }, m))
        },
    }
}

} // verus!
