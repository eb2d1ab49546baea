//! Global schedule records: a workspace-scoped weekly pattern plus date-bounded exceptions,
//! referenced by id from flow nodes. Day indices are Sunday-based on the wire; exception instants are
//! RFC 3339; a disabled schedule evaluates inactive without consulting the engine.
use vstd::prelude::*;

use crate::errors::FlowsError;
use crate::text::{decimal, push_decimal};

verus! {

/// One time-of-day window (`HH:MM`, local to the schedule's zone).
pub struct TimeRangeSpec {
    pub start: String,
    pub stop: String,
}

/// The weekly pattern of one weekday (`0 = Sunday ... 6 = Saturday`).
pub struct DayScheduleSpec {
    pub day: u8,
    pub time_ranges: Vec<TimeRangeSpec>,
}

/// A date-bounded override (RFC 3339 instants).
pub struct ExceptionSpec {
    pub start: String,
    pub stop: String,
    pub exception_type: String,
    pub priority: i32,
}

/// A global, workspace-scoped schedule.
pub struct ScheduleRecord {
    pub id: String,
    pub name: String,
    pub priority: i32,
    pub use_utc: bool,
    pub timezone: String,
    pub enabled: bool,
    pub weekly: Vec<DayScheduleSpec>,
    pub exceptions: Vec<ExceptionSpec>,
}

/// The evaluated answer for a schedule.
pub struct ScheduleEvaluation {
    pub id: String,
    pub name: String,
    pub is_active: bool,
    pub weekly_active: bool,
    pub exception_active: bool,
    pub priority: i32,
    pub active_source: String,
    pub next_transition: Option<String>,
}

/// An exception's type when unset.
pub fn default_exception_type() -> (s: String)
    ensures
        s@ == "override"@,
{
    String::from_str("override")
}

/// An exception's priority when unset.
pub fn default_exception_priority() -> (p: i32)
    ensures
        p == 50,
{
    50
}

/// A schedule's priority when unset (local).
pub fn default_priority() -> (p: i32)
    ensures
        p == 1,
{
    1
}

/// A schedule is enabled unless said otherwise.
pub fn default_enabled() -> (b: bool)
    ensures
        b,
{
    true
}

/// A weekday, Sunday first.
#[derive(Clone, Copy, Debug, PartialEq, Eq, Structural)]
pub enum Weekday {
    Sun,
    Mon,
    Tue,
    Wed,
    Thu,
    Fri,
    Sat,
}

/// Map the wire's Sunday-based day index onto a weekday; `None` past Saturday.
pub fn weekday_from_sunday_index(day: u8) -> (w: Option<Weekday>)
    ensures
        w == match day {
            0 => Some(Weekday::Sun),
            1 => Some(Weekday::Mon),
            2 => Some(Weekday::Tue),
            3 => Some(Weekday::Wed),
            4 => Some(Weekday::Thu),
            5 => Some(Weekday::Fri),
            6 => Some(Weekday::Sat),
            _ => None,
        },
{
    match day {
        0 => Some(Weekday::Sun),
        1 => Some(Weekday::Mon),
        2 => Some(Weekday::Tue),
        3 => Some(Weekday::Wed),
        4 => Some(Weekday::Thu),
        5 => Some(Weekday::Fri),
        6 => Some(Weekday::Sat),
        _ => None,
    }
}

/// The refusal of an out-of-range day index.
pub fn bad_day_error(id: &str, day: u8) -> (e: FlowsError)
    ensures
        e matches FlowsError::BadInput(m) && m@ == "schedule `"@ + id@ + "`: day must be 0..=6 (0=Sunday), got "@ + decimal(day as nat),
{
    let mut m = String::from_str("schedule `");
    m.append(id);
    m.append("`: day must be 0..=6 (0=Sunday), got ");
    push_decimal(&mut m, day as u64);
    FlowsError::BadInput(m)
}

/// What `chrono` reads from an RFC 3339 instant: its Unix seconds, or the parse error's text.
pub uninterp spec fn rfc3339_seconds(text: Seq<char>) -> Result<i64, Seq<char>>;

/// Parse an RFC 3339 instant with `chrono::DateTime::parse_from_rfc3339`, as Unix seconds (UTC), or
/// the parse error's text.
#[verifier::external_body]
fn parse_rfc3339(text: &str) -> (r: Result<i64, String>)
    ensures
        match r {
            Ok(t) => rfc3339_seconds(text@) == Ok::<i64, Seq<char>>(t),
            Err(e) => rfc3339_seconds(text@) == Err::<i64, Seq<char>>(e@),
        },
{
    match chrono::DateTime::parse_from_rfc3339(text) {
        Ok(t) => Ok(t.timestamp()),
        Err(e) => Err(e.to_string()),
    }
}

/// An exception instant of schedule `id` given what the RFC 3339 reading of `text` gave: its Unix
/// seconds, or the refusal naming the bad text and the reader's message.
pub fn exception_instant_of(id: &str, text: &str, parsed: Result<i64, String>) -> (r: Result<i64, FlowsError>)
    ensures
        match parsed {
            Ok(t) => r matches Ok(u) && u == t,
            Err(msg) => r matches Err(FlowsError::BadInput(m)) && m@ == "schedule `"@ + id@ + "`: bad RFC3339 `"@ + text@ + "`: "@ + msg@,
        },
{
    match parsed {
        Ok(t) => Ok(t),
        Err(e) => {
            let mut m = String::from_str("schedule `");
            m.append(id);
            m.append("`: bad RFC3339 `");
            m.append(text);
            m.append("`: ");
            m.append(e.as_str());
            Err(FlowsError::BadInput(m))
        },
    }
}

/// Read an exception instant of schedule `id`: its Unix seconds, or the refusal naming the bad text.
pub fn exception_instant(id: &str, text: &str) -> (r: Result<i64, FlowsError>)
    ensures
        match rfc3339_seconds(text@) {
            Ok(t) => r matches Ok(u) && u == t,
            Err(msg) => r matches Err(FlowsError::BadInput(m)) && m@ == "schedule `"@ + id@ + "`: bad RFC3339 `"@ + text@ + "`: "@ + msg,
        },
{
    exception_instant_of(id, text, parse_rfc3339(text))
}

/// What the schedule engine reports for an enabled schedule at the moment of evaluation.
pub struct EngineState {
    pub is_active: bool,
    pub weekly_active: bool,
    pub exception_active: bool,
    pub active_priority: i32,
    pub active_source: String,
    pub next_transition: Option<String>,
}

impl ScheduleRecord {
    /// Evaluate this schedule. A disabled schedule is inactive by definition and never consults the
    /// engine; an enabled one reports what the engine answered (or the engine's refusal to build).
    pub fn evaluate(&self, engine: Result<EngineState, FlowsError>) -> (r: Result<ScheduleEvaluation, FlowsError>)
        ensures
            !self.enabled ==> (r matches Ok(e) && e.id@ == self.id@ && e.name@ == self.name@ && !e.is_active
                && !e.weekly_active && !e.exception_active && e.priority == self.priority
                && e.active_source@ == "disabled"@ && e.next_transition.is_none()),
            self.enabled ==> match engine {
                Ok(st) => r matches Ok(e) && e.id@ == self.id@ && e.name@ == self.name@
                    && e.is_active == st.is_active && e.weekly_active == st.weekly_active
                    && e.exception_active == st.exception_active && e.priority == st.active_priority
                    && e.active_source@ == st.active_source@ && e.next_transition == st.next_transition,
                Err(err) => r == Err::<ScheduleEvaluation, FlowsError>(err),
            },
    {
        if !self.enabled {
            return Ok(self.disabled_evaluation());
        }
        match engine {
            Ok(st) => Ok(ScheduleEvaluation {
                id: self.id.clone(),
                name: self.name.clone(),
                is_active: st.is_active,
                weekly_active: st.weekly_active,
                exception_active: st.exception_active,
                priority: st.active_priority,
                active_source: st.active_source,
                next_transition: st.next_transition,
            }),
            Err(err) => Err(err),
        }
    }

    /// The evaluation of a disabled schedule: inactive, from the source `disabled`, with no next
    /// transition, at the record's priority.
    pub fn disabled_evaluation(&self) -> (e: ScheduleEvaluation)
        ensures
            e.id@ == self.id@,
            e.name@ == self.name@,
            !e.is_active && !e.weekly_active && !e.exception_active,
            e.priority == self.priority,
            e.active_source@ == "disabled"@,
            e.next_transition.is_none(),
    {
        ScheduleEvaluation {
            id: self.id.clone(),
            name: self.name.clone(),
            is_active: false,
            weekly_active: false,
            exception_active: false,
            priority: self.priority,
            active_source: String::from_str("disabled"),
            next_transition: None,
        }
    }
}

/// A save needs a non-blank id.
pub fn check_schedule_id(id: &str) -> (r: Result<(), FlowsError>)
    ensures
        crate::trigger_store::blank(id@) ==> (r matches Err(FlowsError::BadInput(m)) && m@ == "schedule needs a non-empty `id`"@),
        !crate::trigger_store::blank(id@) ==> (r is Ok),
{
    if crate::trigger_store::is_blank(id) {
        Err(FlowsError::BadInput(String::from_str("schedule needs a non-empty `id`")))
    } else {
        Ok(())
    }
}

/// The refusal when a schedule id names no record.
pub fn schedule_not_found(id: &str) -> (e: FlowsError)
    ensures
        e matches FlowsError::BadInput(m) && m@ == "schedule `"@ + id@ + "` not found"@,
{
    FlowsError::BadInput(crate::text::concat3("schedule `", id, "` not found"))
}

} // verus!
