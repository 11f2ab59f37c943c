//! Process helpers of the node binary: the deadlock watch's decisions and the
//! names of the profiler's output files.

use vstd::prelude::*;

verus! {

/// Deadlock detection is off by default: this does nothing. A program that
/// wants the watch runs its own loop around [`deadlock_watch_step`].
pub fn deadlock_detection() {
}

/// What the deadlock watch thread waits for.
#[derive(Clone, Copy, Debug, PartialEq, Eq, Structural)]
pub enum WatchEvent {
    /// The ticker fired and the lock graph held this many deadlocks.
    Tick(usize),
    /// The process asked its threads to exit.
    Exit,
}

/// What the watch thread does next.
#[derive(Clone, Copy, Debug, PartialEq, Eq, Structural)]
pub enum WatchAction {
    /// Nothing to report: wait for the next event.
    Wait,
    /// Warn of `count` deadlocks, each with its threads, then wait again.
    Report { count: usize },
    /// Leave the loop.
    Stop,
}

/// The watch's rule: an exit signal stops it, a tick without deadlocks is
/// passed over, a tick with deadlocks is reported.
pub open spec fn watch_action(event: WatchEvent) -> WatchAction {
    match event {
        WatchEvent::Exit => WatchAction::Stop,
        WatchEvent::Tick(n) => if n == 0 {
            WatchAction::Wait
        } else {
            WatchAction::Report { count: n }
        },
    }
}

/// One turn of the deadlock watch.
pub fn deadlock_watch_step(event: WatchEvent) -> (action: WatchAction)
    ensures
        action == watch_action(event),
{
    match event {
        WatchEvent::Exit => WatchAction::Stop,
        WatchEvent::Tick(n) => {
            if n == 0 {
                WatchAction::Wait
            } else {
                WatchAction::Report { count: n }
            }
        },
    }
}

/// The file name under which a flame graph taken at `timestamp` is kept.
pub open spec fn perf_file_name_spec(timestamp: Seq<char>) -> Seq<char> {
    "perf_"@ + timestamp + ".svg"@
}

/// Builds the flame graph's file name from the text of its time stamp.
pub fn perf_file_name(timestamp: &str) -> (name: String)
    ensures
        name@ == perf_file_name_spec(timestamp@),
{
    let head = String::from_str("perf_");
    head.concat(timestamp).concat(".svg")
}

/// The calendar fields of a point in time.
#[derive(Clone, Copy, Debug, PartialEq, Eq, Structural)]
pub struct TimeStamp {
    pub year: i32,
    pub month: u32,
    pub day: u32,
    pub hour: u32,
    pub minute: u32,
    pub second: u32,
}

/// The text that chrono writes for the calendar fields under `pattern`;
/// `None` where chrono knows no such date or no such time of day.
pub uninterp spec fn formatted_time(
    pattern: Seq<char>,
    year: int,
    month: int,
    day: int,
    hour: int,
    minute: int,
    second: int,
) -> Option<Seq<char>>;

/// Writes the time stamp out with chrono's `NaiveDateTime::format`, after
/// `NaiveDate::from_ymd_opt` and `NaiveDate::and_hms_opt` have taken the
/// fields. The only pattern admitted is that of year, month, day, hour, minute
/// and second which the file names use, and which chrono accepts. The result
/// is believed to be what [`formatted_time`] names, and to be missing exactly
/// where chrono refuses the fields.
#[verifier::external_body]
fn format_time(stamp: &TimeStamp, pattern: &str) -> (text: Option<String>)
    requires
        pattern@ == "%Y-%m-%d_%H-%M-%S"@,
    ensures
        match text {
            Some(t) => formatted_time(
                pattern@,
                stamp.year as int,
                stamp.month as int,
                stamp.day as int,
                stamp.hour as int,
                stamp.minute as int,
                stamp.second as int,
            ) == Some(t@),
            None => formatted_time(
                pattern@,
                stamp.year as int,
                stamp.month as int,
                stamp.day as int,
                stamp.hour as int,
                stamp.minute as int,
                stamp.second as int,
            ).is_none(),
        },
{
    let date = chrono::NaiveDate::from_ymd_opt(stamp.year, stamp.month, stamp.day)?;
    let time = date.and_hms_opt(stamp.hour, stamp.minute, stamp.second)?;
    Some(time.format(pattern).to_string())
}

/// The file name for a flame graph taken at `stamp`, where `stamp` is a
/// point in time.
pub open spec fn perf_file_name_of(stamp: TimeStamp) -> Option<Seq<char>> {
    match formatted_time(
        "%Y-%m-%d_%H-%M-%S"@,
        stamp.year as int,
        stamp.month as int,
        stamp.day as int,
        stamp.hour as int,
        stamp.minute as int,
        stamp.second as int,
    ) {
        Some(text) => Some(perf_file_name_spec(text)),
        None => None,
    }
}

/// Builds the file name for a flame graph taken at `stamp`. `None` where
/// the fields are no point in time.
pub fn perf_file_name_at(stamp: &TimeStamp) -> (name: Option<String>)
    ensures
        match name {
            Some(n) => perf_file_name_of(*stamp) == Some(n@),
            None => perf_file_name_of(*stamp).is_none(),
        },
{
    match format_time(stamp, "%Y-%m-%d_%H-%M-%S") {
        Some(text) => Some(perf_file_name(text.as_str())),
        None => None,
    }
}

} // verus!
