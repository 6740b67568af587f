//! Scheduled-job declarations: a schedule given as an interval or as a cron
//! expression.
use vstd::prelude::*;

verus! {

/// A cron expression that has been checked to parse.
#[derive(Debug, Clone)]
pub struct CronExpr(pub String);

/// When a job runs.
#[derive(Debug, Clone)]
pub enum CronJobSchedule {
    /// Every N minutes.
    Every(u32),
    Cron(CronExpr),
}

/// Why a schedule was refused.
#[derive(Debug, Clone, Copy, PartialEq, Eq, Structural)]
pub enum ScheduleError {
    /// `every` is not a whole number of minutes.
    NotWholeMinutes,
    /// `every` is longer than a day.
    LongerThanDay,
    /// Neither `every` nor `schedule` is set.
    Missing,
    /// Both `every` and `schedule` are set.
    Both,
}

/// The longest interval accepted, in minutes: one day.
pub const MAX_EVERY_MINUTES: u64 = 1440;

/// The message reported for a refused schedule.
pub open spec fn schedule_message(e: ScheduleError) -> Seq<char> {
    match e {
        ScheduleError::NotWholeMinutes => "`every` must be a multiple of 60 seconds"@,
        ScheduleError::LongerThanDay => "`every` must be at most 24 hours"@,
        ScheduleError::Missing => "expected either `every` or `schedule` to be set"@,
        ScheduleError::Both => "expected either `every` or `schedule` to be set, not both"@,
    }
}

impl ScheduleError {
    /// The message reported for this error.
    pub fn message(&self) -> (r: &'static str)
        ensures
            r@ == schedule_message(*self),
    {
        match self {
            ScheduleError::NotWholeMinutes => "`every` must be a multiple of 60 seconds",
            ScheduleError::LongerThanDay => "`every` must be at most 24 hours",
            ScheduleError::Missing => "expected either `every` or `schedule` to be set",
            ScheduleError::Both => "expected either `every` or `schedule` to be set, not both",
        }
    }
}

/// The schedule of a job declared with an interval of `every_secs` seconds,
/// a cron expression `schedule`, or both or neither. Exactly one must be
/// set; an interval must be a whole number of minutes, at most a day.
pub fn parse_schedule(every_secs: Option<u64>, schedule: Option<CronExpr>) -> (r: Result<
    CronJobSchedule,
    ScheduleError,
>)
    ensures
        match (every_secs, schedule) {
            (None, Some(s)) => r matches Ok(CronJobSchedule::Cron(c)) && c.0 == s.0,
            (Some(secs), None) => if secs % 60 != 0 {
                r == Err::<CronJobSchedule, ScheduleError>(ScheduleError::NotWholeMinutes)
            } else if secs / 60 > MAX_EVERY_MINUTES {
                r == Err::<CronJobSchedule, ScheduleError>(ScheduleError::LongerThanDay)
            } else {
                r matches Ok(CronJobSchedule::Every(m)) && m == secs / 60
            },
            (None, None) => r == Err::<CronJobSchedule, ScheduleError>(ScheduleError::Missing),
            (Some(_), Some(_)) => r == Err::<CronJobSchedule, ScheduleError>(ScheduleError::Both),
        },
{
    match (every_secs, schedule) {
        (None, Some(s)) => Ok(CronJobSchedule::Cron(s)),
        (Some(secs), None) => {
            if secs % 60 != 0 {
                return Err(ScheduleError::NotWholeMinutes);
            }
            let mins = secs / 60;
            if mins > MAX_EVERY_MINUTES {
                return Err(ScheduleError::LongerThanDay);
            }
            Ok(CronJobSchedule::Every(mins as u32))
        },
        (None, None) => Err(ScheduleError::Missing),
        (Some(_), Some(_)) => Err(ScheduleError::Both),
    }
}

/// Relies on cron_parser's `parse`, asked from chrono's `Utc::now`: whether
/// `expr` is a cron expression with an occurrence after the current time,
/// and the parser's message when it is not. Nothing is known of the outcome.
#[verifier::external_body]
fn cron_check(expr: &str) -> (r: Result<(), String>) {
    cron_parser::parse(expr, &chrono::Utc::now()).map(|_| ()).map_err(|e| e.to_string())
}

/// The cron expression `expr` given the parser's verdict on it: the
/// expression when the parser accepted it, else the parser's message.
pub fn cron_expr_from_check(expr: &str, check: Result<(), String>) -> (r: Result<CronExpr, String>)
    ensures
        match check {
            Ok(()) => r matches Ok(c) && c.0@ == expr@,
            Err(m) => r == Err::<CronExpr, String>(m),
        },
{
    match check {
        Ok(()) => Ok(CronExpr(expr.to_owned())),
        Err(m) => Err(m),
    }
}

impl CronExpr {
    /// Checks that `expr` is a cron expression with an occurrence after the
    /// current time. When it is accepted, the expression is kept as given.
    pub fn parse(expr: &str) -> (r: Result<CronExpr, String>)
        ensures
            r matches Ok(c) ==> c.0@ == expr@,
    {
        cron_expr_from_check(expr, cron_check(expr))
    }
}

} // verus!
