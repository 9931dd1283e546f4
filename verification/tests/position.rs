use my_task_manager::domain::position::CurrentPosition;
use my_task_manager::domain::switch::{SwitchRecord, SwitchRecordId};
use my_task_manager::domain::task::{StepId, TaskId};
use my_task_manager::domain::Timestamp;

fn t0() -> Timestamp {
    Timestamp::from_unix_millis(1_789_000_000_000)
}
fn t1() -> Timestamp {
    Timestamp::from_unix_millis(1_789_000_060_000)
}
fn t2() -> Timestamp {
    Timestamp::from_unix_millis(1_789_000_120_000)
}

fn ids() -> (TaskId, StepId, StepId) {
    (TaskId::new(t0()), StepId::new(t0()), StepId::new(t0()))
}

#[test]
fn nothing_registered_means_not_started() {
    let position = CurrentPosition::default();
    assert_eq!(position, CurrentPosition::NotStarted);
    assert_eq!(position.step_id(), None);
    assert!(!position.is_active());
    assert_eq!(position.activated_at(), None);
}

#[test]
fn moving_from_not_started_starts_the_clock() {
    let (task, step, _) = ids();
    let position = CurrentPosition::NotStarted.move_to(task, step, t0());
    assert_eq!(position.task_id(), Some(task));
    assert_eq!(position.step_id(), Some(step));
    assert!(position.is_active());
    assert_eq!(position.activated_at(), Some(t0()));
}

#[test]
fn only_one_position_exists_at_a_time() {
    let (task, first, second) = ids();
    let position = CurrentPosition::NotStarted.move_to(task, first, t0()).move_to(task, second, t1());
    assert_eq!(position.step_id(), Some(second));
    assert_ne!(position.step_id(), Some(first));
}

#[test]
fn a_switch_while_active_does_not_reset_the_work_clock() {
    let (task, first, second) = ids();
    let position = CurrentPosition::NotStarted.move_to(task, first, t0()).move_to(task, second, t1());
    assert_eq!(position.activated_at(), Some(t0()));
    assert!(position.is_active());
}

#[test]
fn deactivating_keeps_the_value() {
    let (task, step, _) = ids();
    let position = CurrentPosition::NotStarted.move_to(task, step, t0()).deactivate();
    assert!(!position.is_active());
    assert_eq!(position.step_id(), Some(step));
    assert_eq!(position.task_id(), Some(task));
    assert_eq!(position.activated_at(), Some(t0()));
}

#[test]
fn activating_from_inactive_restarts_the_work_clock() {
    let (task, step, _) = ids();
    let position = CurrentPosition::NotStarted.move_to(task, step, t0()).deactivate().activate(t2());
    assert!(position.is_active());
    assert_eq!(position.activated_at(), Some(t2()));
}

#[test]
fn moving_while_inactive_restarts_the_work_clock() {
    let (task, first, second) = ids();
    let position = CurrentPosition::NotStarted
        .move_to(task, first, t0())
        .deactivate()
        .move_to(task, second, t2());
    assert!(position.is_active());
    assert_eq!(position.activated_at(), Some(t2()));
}

#[test]
fn activating_an_already_active_position_changes_nothing() {
    let (task, step, _) = ids();
    let active = CurrentPosition::NotStarted.move_to(task, step, t0());
    assert_eq!(active.activate(t2()), active);
}

#[test]
fn not_started_has_nothing_to_activate() {
    assert_eq!(CurrentPosition::NotStarted.activate(t0()), CurrentPosition::NotStarted);
    assert_eq!(CurrentPosition::NotStarted.deactivate(), CurrentPosition::NotStarted);
}

#[test]
fn activity_is_modelled_as_active_and_inactive() {
    let (task, step, _) = ids();
    let active = CurrentPosition::NotStarted.move_to(task, step, t0());
    assert!(matches!(active, CurrentPosition::Active { .. }));
    assert!(matches!(active.deactivate(), CurrentPosition::Inactive { .. }));
    assert!(matches!(active.deactivate().activate(t1()), CurrentPosition::Active { .. }));
}

#[test]
fn a_rehydrated_position_reads_back_identically() {
    let (task, step, _) = ids();
    let position = CurrentPosition::rehydrate(task, step, false, t1());
    assert_eq!(position.task_id(), Some(task));
    assert_eq!(position.step_id(), Some(step));
    assert!(!position.is_active());
    assert_eq!(position.activated_at(), Some(t1()));
}

#[test]
fn a_record_holds_the_instant_the_origin_and_whether_a_note_was_written() {
    let step_id = StepId::new(t0());
    let record = SwitchRecord::new(t0(), step_id, true);
    assert_eq!(record.departed_step_id(), step_id);
    assert_eq!(record.occurred_at(), t0());
    assert!(record.note_written());
}

#[test]
fn omitting_the_note_still_leaves_a_record() {
    let record = SwitchRecord::new(t0(), StepId::new(t0()), false);
    assert!(!record.note_written());
}

#[test]
fn switch_an_id_is_a_v7_uuid_stamped_by_the_core_clock() {
    let record = SwitchRecord::new(t0(), StepId::new(t0()), false);
    let uuid = uuid::Uuid::parse_str(&record.id().to_text()).expect("UUID として読める");
    assert_eq!(uuid.get_version_num(), 7);
}

#[test]
fn switch_an_id_round_trips_through_its_text_form() {
    let id = SwitchRecordId::new(t0());
    assert_eq!(SwitchRecordId::parse(&id.to_text()).expect("読める"), id);
    assert!(SwitchRecordId::parse("not-a-uuid").is_err());
}

#[test]
fn a_record_has_no_field_for_the_note_text() {
    let record = SwitchRecord::new(t0(), StepId::new(t0()), true);
    let rendered = format!("{record:?}");
    assert!(rendered.contains("note_written"));
    assert!(
        !rendered.contains("note_text") && !rendered.contains("interruption_note"),
        "履歴に本文の欄を持たせない: {rendered}"
    );
}
