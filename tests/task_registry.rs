use countdown_clock::duration::ParseError;
use countdown_clock::label::label_for;
use countdown_clock::registry::{AddError, HistoryEntry, TaskRegistry};
use countdown_clock::task::TaskState;

fn add(reg: &mut TaskRegistry, label: &str, input: &str, now: u64) -> Result<u64, AddError> {
    reg.add(label, input.to_string(), now, 1_000 + now as i64)
}

fn entry(id: u64, label: &str, secs: u64) -> HistoryEntry {
    HistoryEntry {
        id,
        label: label.to_string(),
        input: secs.to_string(),
        target_secs: secs,
        created_at: 1_600_000_000_000 + id as i64,
    }
}

#[test]
fn add_assigns_increasing_ids_in_order() {
    let mut reg = TaskRegistry::new();
    assert_eq!(add(&mut reg, "a", "5", 0), Ok(0));
    assert_eq!(add(&mut reg, "b", "1:00", 10), Ok(1));
    assert_eq!(reg.next_id(), 2);
    let ids: Vec<u64> = reg.tasks().iter().map(|t| t.id).collect();
    assert_eq!(ids, vec![0, 1]);
    assert_eq!(reg.tasks()[1].target_secs, 60);
    assert_eq!(reg.tasks()[1].input, "1:00");
    assert_eq!(reg.tasks()[1].created_at, 1_010);
}

#[test]
fn zero_duration_creates_nothing() {
    let mut reg = TaskRegistry::new();
    assert_eq!(add(&mut reg, "x", "0", 0), Err(AddError::InvalidDuration));
    assert_eq!(add(&mut reg, "x", "0:0:0", 0), Err(AddError::InvalidDuration));
    assert_eq!(reg.tasks().len(), 0);
    assert_eq!(reg.next_id(), 0);
}

#[test]
fn malformed_duration_creates_nothing() {
    let mut reg = TaskRegistry::new();
    assert_eq!(add(&mut reg, "x", "soon", 0), Err(AddError::Parse(ParseError::Malformed)));
    assert_eq!(
        add(&mut reg, "x", "99999999999999999999", 0),
        Err(AddError::Parse(ParseError::Overflow))
    );
    assert_eq!(reg.tasks().len(), 0);
}

#[test]
fn ids_run_out_at_the_top() {
    let mut reg = TaskRegistry::restore(vec![entry(u64::MAX - 1, "last", 1)]).unwrap();
    assert_eq!(reg.next_id(), u64::MAX);
    assert_eq!(add(&mut reg, "x", "5", 0), Err(AddError::IdsExhausted));
    assert_eq!(reg.tasks().len(), 0);
}

#[test]
fn tick_finalizes_exactly_once() {
    let mut reg = TaskRegistry::new();
    add(&mut reg, "short", "2", 0).unwrap();
    add(&mut reg, "long", "1:00", 0).unwrap();
    add(&mut reg, "mid", "3", 0).unwrap();
    assert_eq!(reg.tick(1_000), Vec::<u64>::new());
    assert_eq!(reg.tick(5_000), vec![0, 2]);
    assert_eq!(reg.tick(5_000), Vec::<u64>::new());
    assert_eq!(reg.tick(6_000), Vec::<u64>::new());
    let hist: Vec<u64> = reg.history().iter().map(|e| e.id).collect();
    assert_eq!(hist, vec![0, 2]);
    assert_eq!(reg.history()[1].label, "mid");
    assert_eq!(reg.tasks()[0].finished_at, Some(5_000));
    assert_eq!(reg.tasks()[1].finished_at, None);
    assert_eq!(reg.tasks().len(), 3);
    assert_eq!(reg.tick(60_000), vec![1]);
    assert_eq!(reg.history().len(), 3);
}

#[test]
fn paused_task_never_finishes() {
    let mut reg = TaskRegistry::new();
    add(&mut reg, "p", "2", 0).unwrap();
    reg.pause(0, 1_000);
    assert_eq!(reg.tick(1_000_000), Vec::<u64>::new());
    assert_eq!(reg.tasks()[0].state(1_000_000), TaskState::Paused);
    reg.resume(0, 1_000_000);
    assert_eq!(reg.tick(1_000_500), Vec::<u64>::new());
    assert_eq!(reg.tick(1_001_000), vec![0]);
}

#[test]
fn unknown_ids_change_nothing() {
    let mut reg = TaskRegistry::new();
    add(&mut reg, "a", "5", 0).unwrap();
    reg.pause(7, 1_000);
    reg.resume(7, 1_000);
    reg.remove(7);
    reg.delete_from_history(7);
    assert_eq!(reg.tasks().len(), 1);
    assert_eq!(reg.tasks()[0].running_since, Some(0));
    assert_eq!(reg.tasks()[0].accumulated_ms, 0);
    assert_eq!(reg.next_id(), 1);
}

#[test]
fn finished_id_ignores_pause_and_resume() {
    let mut reg = TaskRegistry::new();
    add(&mut reg, "a", "1", 0).unwrap();
    assert_eq!(reg.tick(2_000), vec![0]);
    reg.pause(0, 3_000);
    assert!(!reg.tasks()[0].is_paused());
    assert_eq!(reg.tasks()[0].accumulated_ms, 0);
    reg.resume(0, 3_000);
    assert_eq!(reg.tasks()[0].running_since, Some(0));
    assert_eq!(reg.tasks()[0].state(3_000), TaskState::Finished);
}

#[test]
fn remove_keeps_history_and_order() {
    let mut reg = TaskRegistry::new();
    add(&mut reg, "a", "1", 0).unwrap();
    add(&mut reg, "b", "9", 0).unwrap();
    add(&mut reg, "c", "9", 0).unwrap();
    reg.tick(1_000);
    reg.remove(0);
    reg.remove(2);
    let ids: Vec<u64> = reg.tasks().iter().map(|t| t.id).collect();
    assert_eq!(ids, vec![1]);
    assert_eq!(reg.history().len(), 1);
    assert_eq!(add(&mut reg, "d", "4", 0), Ok(3));
}

#[test]
fn delete_from_history_removes_every_record_of_the_id() {
    let mut reg = TaskRegistry::restore(vec![entry(4, "x", 1), entry(2, "y", 2), entry(4, "z", 3)]).unwrap();
    reg.delete_from_history(4);
    assert_eq!(reg.history().len(), 1);
    assert_eq!(reg.history()[0].label, "y");
    assert_eq!(reg.next_id(), 5);
}

#[test]
fn restore_keeps_records_and_never_reuses_ids() {
    let mut reg = TaskRegistry::new();
    add(&mut reg, "a", "1", 0).unwrap();
    add(&mut reg, "b", "2", 0).unwrap();
    reg.tick(3_000);
    let saved: Vec<HistoryEntry> = reg.history().iter().map(|e| e.duplicate()).collect();
    let mut again = TaskRegistry::restore(saved).unwrap();
    assert_eq!(again.tasks().len(), 0);
    assert_eq!(again.history().len(), 2);
    for (a, b) in again.history().iter().zip(reg.history().iter()) {
        assert_eq!(a.id, b.id);
        assert_eq!(a.label, b.label);
        assert_eq!(a.input, b.input);
        assert_eq!(a.target_secs, b.target_secs);
        assert_eq!(a.created_at, b.created_at);
    }
    assert_eq!(add(&mut again, "c", "5", 0), Ok(2));
}

#[test]
fn restore_of_empty_history_starts_at_zero() {
    let reg = TaskRegistry::restore(Vec::new()).unwrap();
    assert_eq!(reg.next_id(), 0);
    assert!(TaskRegistry::restore(vec![entry(u64::MAX, "m", 1)]).is_none());
}

#[test]
fn blank_name_gets_a_placeholder_label() {
    let mut reg = TaskRegistry::new();
    add(&mut reg, "a", "5", 0).unwrap();
    assert_eq!(add(&mut reg, "", "5", 0), Ok(1));
    assert_eq!(add(&mut reg, "  \t ", "5", 0), Ok(2));
    assert_eq!(reg.tasks()[1].label, "任务#1");
    assert_eq!(reg.tasks()[2].label, "任务#2");
}

#[test]
fn name_is_trimmed_for_the_label() {
    let mut reg = TaskRegistry::new();
    add(&mut reg, "  tea break \n", "5", 0).unwrap();
    assert_eq!(reg.tasks()[0].label, "tea break");
}

#[test]
fn labels_for_large_ids() {
    assert_eq!(label_for("", 0), "任务#0");
    assert_eq!(label_for("", 10), "任务#10");
    assert_eq!(label_for("", 1_234_567), "任务#1234567");
    assert_eq!(label_for("", u64::MAX), "任务#18446744073709551615");
    assert_eq!(label_for(" x ", 3), "x");
}
