use chain_engine::helper::{
    deadlock_detection, deadlock_watch_step, perf_file_name, perf_file_name_at, TimeStamp,
    WatchAction, WatchEvent,
};

#[test]
fn deadlock_detection_returns() {
    deadlock_detection();
}

#[test]
fn watch_stops_on_exit() {
    assert_eq!(deadlock_watch_step(WatchEvent::Exit), WatchAction::Stop);
}

#[test]
fn watch_waits_when_nothing_is_locked() {
    assert_eq!(deadlock_watch_step(WatchEvent::Tick(0)), WatchAction::Wait);
}

#[test]
fn watch_reports_each_deadlock() {
    assert_eq!(
        deadlock_watch_step(WatchEvent::Tick(3)),
        WatchAction::Report { count: 3 }
    );
    assert_eq!(
        deadlock_watch_step(WatchEvent::Tick(1)),
        WatchAction::Report { count: 1 }
    );
}

#[test]
fn perf_file_name_wraps_the_time_stamp() {
    assert_eq!(
        perf_file_name("2024-03-09_07-05-01"),
        "perf_2024-03-09_07-05-01.svg"
    );
    assert_eq!(perf_file_name(""), "perf_.svg");
}

fn stamp(year: i32, month: u32, day: u32, hour: u32, minute: u32, second: u32) -> TimeStamp {
    TimeStamp { year, month, day, hour, minute, second }
}

#[test]
fn perf_file_name_at_writes_the_fields_with_two_digits_each() {
    assert_eq!(
        perf_file_name_at(&stamp(2024, 3, 9, 7, 5, 1)),
        Some(String::from("perf_2024-03-09_07-05-01.svg"))
    );
    assert_eq!(
        perf_file_name_at(&stamp(1999, 12, 31, 23, 59, 59)),
        Some(String::from("perf_1999-12-31_23-59-59.svg"))
    );
    assert_eq!(
        perf_file_name_at(&stamp(2024, 2, 29, 0, 0, 0)),
        Some(String::from("perf_2024-02-29_00-00-00.svg"))
    );
}

#[test]
fn perf_file_name_at_refuses_what_is_no_point_in_time() {
    assert_eq!(perf_file_name_at(&stamp(2023, 2, 29, 0, 0, 0)), None);
    assert_eq!(perf_file_name_at(&stamp(2024, 13, 1, 0, 0, 0)), None);
    assert_eq!(perf_file_name_at(&stamp(2024, 1, 0, 0, 0, 0)), None);
    assert_eq!(perf_file_name_at(&stamp(2024, 1, 1, 24, 0, 0)), None);
    assert_eq!(perf_file_name_at(&stamp(2024, 1, 1, 0, 60, 0)), None);
    assert_eq!(perf_file_name_at(&stamp(2024, 1, 1, 0, 0, 60)), None);
}
