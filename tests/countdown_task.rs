use countdown_clock::task::{split_hms, CountdownTask, TaskState};

fn ten_second_task(t0: u64) -> CountdownTask {
    CountdownTask::new(3, "tea".to_string(), "10".to_string(), 10, t0, 1_700_000_000_000)
}

#[test]
fn new_task_runs_from_creation() {
    let t = ten_second_task(500);
    assert_eq!(t.id, 3);
    assert_eq!(t.label, "tea");
    assert_eq!(t.input, "10");
    assert_eq!(t.created_at, 1_700_000_000_000);
    assert_eq!(t.elapsed(500), 0);
    assert_eq!(t.elapsed(2_750), 2_250);
    assert!(!t.is_paused());
    assert_eq!(t.finished_at, None);
}

#[test]
fn remaining_and_state_around_the_target() {
    let t0 = 1_000;
    let t = ten_second_task(t0);
    assert_eq!(t.remaining_secs(t0 + 9_000), 1);
    assert_eq!(t.state(t0 + 9_000), TaskState::Running);
    assert_eq!(t.remaining_secs(t0 + 10_000), 0);
    assert_eq!(t.state(t0 + 10_000), TaskState::Finished);
    assert_eq!(t.remaining_secs(t0 + 60_000), 0);
    assert_eq!(t.state(t0 + 60_000), TaskState::Finished);
}

#[test]
fn remaining_seconds_round_up_and_reach_zero_only_when_finished() {
    let t = ten_second_task(0);
    assert_eq!(t.remaining_secs(0), 10);
    assert_eq!(t.remaining_secs(1), 10);
    assert_eq!(t.remaining_secs(1_000), 9);
    assert_eq!(t.remaining_secs(9_500), 1);
    assert_eq!(t.state(9_500), TaskState::Running);
    assert_eq!(t.remaining_secs(9_999), 1);
    assert_eq!(t.remaining_secs(10_000), 0);
    assert_eq!(t.state(10_000), TaskState::Finished);
}

#[test]
fn remaining_milliseconds_are_exact() {
    let t = ten_second_task(0);
    assert_eq!(t.remaining_ms(0), 10_000);
    assert_eq!(t.remaining_ms(9_500), 500);
    assert_eq!(t.remaining_ms(10_000), 0);
    assert_eq!(t.remaining_ms(20_000), 0);
    let big = CountdownTask::new(0, String::new(), String::new(), u64::MAX, 0, 0);
    assert_eq!(big.remaining_ms(0), u64::MAX as u128 * 1000);
}

#[test]
fn pause_freezes_and_resume_does_not_charge_the_gap() {
    let mut t = ten_second_task(0);
    t.pause(4_000);
    assert!(t.is_paused());
    assert_eq!(t.state(4_000), TaskState::Paused);
    assert_eq!(t.elapsed(4_000), 4_000);
    assert_eq!(t.elapsed(100_000), 4_000);
    assert_eq!(t.state(100_000), TaskState::Paused);
    t.resume(100_000);
    assert_eq!(t.elapsed(100_000), 4_000);
    assert_eq!(t.state(100_000), TaskState::Running);
    assert_eq!(t.remaining_secs(101_000), 5);
    assert_eq!(t.state(106_000), TaskState::Finished);
}

#[test]
fn repeated_pause_and_resume_are_no_ops() {
    let mut t = ten_second_task(0);
    t.pause(2_000);
    t.pause(3_000);
    assert_eq!(t.elapsed(9_000), 2_000);
    t.resume(5_000);
    t.resume(7_000);
    assert_eq!(t.running_since, Some(5_000));
    assert_eq!(t.elapsed(7_000), 4_000);
}

#[test]
fn finished_task_ignores_pause_and_resume() {
    let mut t = ten_second_task(0);
    t.pause(12_000);
    assert!(!t.is_paused());
    assert_eq!(t.accumulated_ms, 0);
    t.resume(13_000);
    assert_eq!(t.running_since, Some(0));
}

#[test]
fn clock_reading_earlier_counts_as_no_time() {
    let t = ten_second_task(5_000);
    assert_eq!(t.elapsed(1_000), 0);
    assert_eq!(t.remaining_secs(1_000), 10);
}

#[test]
fn elapsed_saturates() {
    let mut t = CountdownTask::new(0, String::new(), String::new(), u64::MAX, 0, 0);
    t.pause(u64::MAX - 1);
    t.resume(0);
    assert_eq!(t.elapsed(u64::MAX), u64::MAX);
}

#[test]
fn splits_seconds_for_display() {
    assert_eq!(split_hms(0), (0, 0, 0));
    assert_eq!(split_hms(3723), (1, 2, 3));
    assert_eq!(split_hms(59), (0, 0, 59));
    assert_eq!(split_hms(360_000), (100, 0, 0));
}
