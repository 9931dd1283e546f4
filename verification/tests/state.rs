#![allow(unused_mut)]

use std::sync::atomic::{AtomicI64, Ordering};
use std::sync::{Arc, Mutex};

use my_task_manager::commands::{create_and_start, CreateTaskOutcome};
use my_task_manager::domain::position::CurrentPosition;
use my_task_manager::domain::rest::{
    Intervention, InterventionChoice, RestSettings, GRACE_PERIOD_KEY, REST_THRESHOLD_KEY,
    TICK_INTERVAL_MILLIS,
};
use my_task_manager::domain::setting::Setting;
use my_task_manager::domain::state::{Core, CoreError};
use my_task_manager::domain::task::{InterruptionNote, Step, StepId, Task, TaskId};
use my_task_manager::domain::{Clock, DomainError, Timestamp};
use my_task_manager::ports::storage::{Commit, RestoredState, Storage, StorageError};

/// A clock shared between a test and the core it drives.
#[derive(Clone)]
struct SharedClock(Arc<AtomicI64>);

impl SharedClock {
    fn at(unix_millis: i64) -> Self {
        SharedClock(Arc::new(AtomicI64::new(unix_millis)))
    }

    fn advance(&self, millis: i64) {
        self.0.fetch_add(millis, Ordering::SeqCst);
    }
}

impl Clock for SharedClock {
    fn now(&self) -> Timestamp {
        Timestamp::from_unix_millis(self.0.load(Ordering::SeqCst))
    }
}

/// A storage that only records what it is asked to write, and can be made to fail.
#[derive(Default)]
struct RecordingStorage {
    restored: RestoredState,
    commits: Mutex<Vec<Commit>>,
    fail_on_write: Mutex<bool>,
}

#[derive(Clone)]
struct Recorder(Arc<RecordingStorage>);

impl Recorder {
    fn shared() -> Self {
        Recorder(Arc::new(RecordingStorage::default()))
    }

    fn commits(&self) -> Vec<Commit> {
        self.0.commits.lock().expect("錠は毒されていない").clone()
    }

    fn set_failing(&self, failing: bool) {
        *self.0.fail_on_write.lock().expect("錠は毒されていない") = failing;
    }
}

impl Storage for Recorder {
    fn restore(&self) -> Result<RestoredState, StorageError> {
        Ok(self.0.restored.clone())
    }

    fn apply(&self, commit: &Commit) -> Result<(), StorageError> {
        if *self.0.fail_on_write.lock().expect("錠は毒されていない") {
            return Err(StorageError::Write("試験用の失敗".to_string()));
        }
        self.0.commits.lock().expect("錠は毒されていない").push(commit.clone());
        Ok(())
    }
}

type TestCore = Core<SharedClock, Recorder>;

fn contents(items: &[&str]) -> Vec<String> {
    items.iter().map(|item| (*item).to_string()).collect()
}

fn note(text: &str) -> InterruptionNote {
    InterruptionNote::new(text.to_string())
}

fn a_core() -> (TestCore, Recorder, SharedClock) {
    let storage = Recorder::shared();
    let clock = SharedClock::at(1_789_000_000_000);
    let core = Core::restore(clock.clone(), storage.clone()).ok().expect("空の状態は復元できる");
    (core, storage, clock)
}

fn first_two(core: &TestCore, task_id: TaskId) -> (StepId, StepId) {
    let snapshot = core.snapshot();
    let task = snapshot.task(task_id).expect("ある");
    (task.steps()[0].id(), task.steps()[1].id())
}

fn note_of(core: &TestCore, task_id: TaskId, step_id: StepId) -> Option<String> {
    core.snapshot()
        .task(task_id)
        .expect("ある")
        .step(step_id)
        .expect("ある")
        .interruption_note()
        .map(|n| n.text().to_string())
}

fn completed(core: &TestCore, task_id: TaskId, step_id: StepId) -> bool {
    core.snapshot().task(task_id).expect("ある").step(step_id).expect("ある").is_completed()
}

#[test]
fn an_empty_store_starts_as_not_started() {
    let (core, _, _) = a_core();
    assert_eq!(core.current_position(), CurrentPosition::NotStarted);
    assert!(core.snapshot().tasks().is_empty());
}

#[test]
fn completing_the_current_step_stays_where_it_is() {
    let (mut core, storage, _) = a_core();
    let task = core.create_task("原稿".to_string(), contents(&["下書き", "推敲"])).expect("作れる");
    let first = core.snapshot().task(task).expect("在る").steps()[0].id();
    core.move_current_position(first).expect("着手できる");
    let before = core.current_position();
    let commits_before = storage.commits().len();

    core.complete_current_step(Some(note("ここまで"))).expect("宣言できる");

    let commits = storage.commits();
    assert_eq!(commits.len(), commits_before + 1, "1 操作 = 1 トランザクション");
    let commit = commits.last().expect("在る");
    assert!(commit.current_position.is_none(), "現在地は動かない");
    assert!(commit.switch_record.is_none(), "離脱していない以上、履歴も積まない");
    assert_eq!(core.current_position(), before);

    let step = core.snapshot().task(task).expect("在る").steps()[0].clone();
    assert!(step.is_completed(), "完了は宣言されている");
    assert_eq!(
        step.interruption_note().map(InterruptionNote::text),
        Some("ここまで"),
        "メモも同じトランザクションで確定する"
    );
}

#[test]
fn completing_without_a_current_position_is_refused_before_any_write() {
    let (mut core, storage, _) = a_core();
    assert_eq!(
        core.complete_current_step(None),
        Err(CoreError::Domain(DomainError::NoCurrentPosition))
    );
    assert!(storage.commits().is_empty(), "拒否は何も書かない");
}

#[test]
fn a_second_completion_writes_nothing() {
    let (mut core, storage, _) = a_core();
    let task = core.create_task("原稿".to_string(), contents(&["下書き"])).expect("作れる");
    let first = core.snapshot().task(task).expect("在る").steps()[0].id();
    core.move_current_position(first).expect("着手できる");
    core.complete_current_step(None).expect("宣言できる");
    let commits_before = storage.commits().len();

    core.complete_current_step(None).expect("二度目も拒まれない");

    assert_eq!(storage.commits().len(), commits_before, "変わるものが無いなら書かない");
}

#[test]
fn editing_a_task_commits_once_and_keeps_every_mark() {
    let (mut core, storage, _) = a_core();
    let task = core.create_task("原稿".to_string(), contents(&["下書き", "推敲"])).expect("作れる");
    let steps: Vec<StepId> =
        core.snapshot().task(task).expect("在る").steps().iter().map(Step::id).collect();
    core.move_current_position(steps[1]).expect("着手できる");
    core.declare_completion(steps[0]).expect("完了できる");
    let before = core.current_position();
    let commits_before = storage.commits().len();

    core.edit_task(
        task,
        "原稿を仕上げる".to_string(),
        vec![(steps[1], "推敲する".to_string())],
        contents(&["投稿する"]),
    )
    .expect("直せる");

    assert_eq!(storage.commits().len(), commits_before + 1, "三つの変更で 1 トランザクション");
    let state = core.snapshot();
    let edited = state.task(task).expect("在る");
    assert_eq!(edited.title(), "原稿を仕上げる");
    assert_eq!(
        edited.steps().iter().map(Step::content).collect::<Vec<_>>(),
        vec!["下書き", "推敲する", "投稿する"]
    );
    assert_eq!(
        edited.steps()[..2].iter().map(Step::id).collect::<Vec<_>>(),
        steps,
        "既存のステップの ID は変わらない"
    );
    assert!(edited.steps()[0].is_completed(), "完了は落ちない");
    assert_eq!(core.current_position(), before, "現在地も動かない");
}

#[test]
fn an_edit_naming_an_unknown_step_writes_nothing() {
    let (mut core, storage, _) = a_core();
    let task = core.create_task("原稿".to_string(), contents(&["下書き"])).expect("作れる");
    let elsewhere = StepId::new(Timestamp::from_unix_millis(1_789_000_000_000));
    let commits_before = storage.commits().len();

    assert_eq!(
        core.edit_task(
            task,
            "別の題名".to_string(),
            vec![(elsewhere, "どこにも無い".to_string())],
            Vec::new(),
        ),
        Err(CoreError::Domain(DomainError::UnknownStep))
    );

    assert_eq!(storage.commits().len(), commits_before, "拒否は何も書かない");
    assert_eq!(core.snapshot().task(task).expect("在る").title(), "原稿", "題名も元のままである");
}

#[test]
fn creating_a_task_commits_once() {
    let (mut core, storage, _) = a_core();
    let id = core.create_task("原稿".to_string(), contents(&["下書き", "推敲"])).expect("作れる");

    let commits = storage.commits();
    assert_eq!(commits.len(), 1, "1 操作 = 1 トランザクション");
    assert_eq!(commits[0].task.as_ref().map(Task::id), Some(id));
    assert!(commits[0].current_position.is_none());
    assert_eq!(core.snapshot().tasks().len(), 1);
}

#[test]
fn a_task_without_steps_is_refused_before_any_write() {
    let (mut core, storage, _) = a_core();
    assert_eq!(
        core.create_task("題名だけ".to_string(), Vec::new()),
        Err(CoreError::Domain(DomainError::EmptyTask))
    );
    assert!(storage.commits().is_empty(), "拒否は何も書かない");
}

#[test]
fn a_failed_write_leaves_memory_untouched() {
    let (mut core, storage, _) = a_core();
    storage.set_failing(true);

    let outcome = core.create_task("原稿".to_string(), contents(&["下書き"]));
    assert!(matches!(outcome, Err(CoreError::Storage(_))));
    assert!(core.snapshot().tasks().is_empty(), "書けなかった変更をメモリにだけ残さない");
}

#[test]
fn a_failed_write_leaves_a_completion_undeclared() {
    let (mut core, storage, _) = a_core();
    let task_id = core.create_task("原稿".to_string(), contents(&["下書き"])).expect("作れる");
    let step_id = core.snapshot().task(task_id).expect("ある").steps()[0].id();

    storage.set_failing(true);
    let outcome = core.declare_completion(step_id);

    assert!(matches!(outcome, Err(CoreError::Storage(_))));
    assert!(!completed(&core, task_id, step_id), "書けなかった完了をメモリにだけ残さない");
}

#[test]
fn a_failed_write_leaves_the_current_position_unchanged() {
    let (mut core, storage, _) = a_core();
    let task_id = core.create_task("原稿".to_string(), contents(&["下書き", "推敲"])).expect("作れる");
    let (first, second) = first_two(&core, task_id);
    core.move_current_position(first).expect("移せる");
    let before = core.current_position();

    storage.set_failing(true);
    let outcome = core.move_current_position(second);

    assert!(matches!(outcome, Err(CoreError::Storage(_))));
    assert_eq!(core.current_position(), before, "書けなかった移動をメモリにだけ残さない");
}

#[test]
fn re_selecting_the_current_step_writes_nothing() {
    let (mut core, storage, _) = a_core();
    let task_id = core.create_task("原稿".to_string(), contents(&["下書き"])).expect("作れる");
    let step_id = core.snapshot().task(task_id).expect("ある").steps()[0].id();
    core.move_current_position(step_id).expect("移せる");
    let commits = storage.commits().len();

    core.move_current_position(step_id).expect("失敗しない");

    assert_eq!(storage.commits().len(), commits, "無変更は書かない");
}

#[test]
fn declaring_a_completion_does_not_move_the_current_position() {
    let (mut core, _, _) = a_core();
    let task_id = core.create_task("原稿".to_string(), contents(&["下書き", "推敲"])).expect("作れる");
    let (first, second) = first_two(&core, task_id);

    core.move_current_position(first).expect("移せる");
    core.declare_completion(second).expect("宣言できる");

    assert_eq!(core.current_position().step_id(), Some(first), "完了の宣言で現在地は動かない");
    assert!(completed(&core, task_id, second));
    assert!(!completed(&core, task_id, first));
}

#[test]
fn moving_the_current_position_never_touches_completion() {
    let (mut core, _, _) = a_core();
    let task_id = core.create_task("原稿".to_string(), contents(&["下書き", "推敲"])).expect("作れる");
    let (first, second) = first_two(&core, task_id);

    core.declare_completion(second).expect("宣言できる");
    core.move_current_position(first).expect("戻せる");

    assert!(completed(&core, task_id, second), "現在地が前へ戻っても後続の完了は取り消されない");
}

#[test]
fn inserting_before_the_current_position_keeps_it_on_the_same_step() {
    let (mut core, _, _) = a_core();
    let task_id =
        core.create_task("原稿".to_string(), contents(&["下書き", "推敲", "投稿"])).expect("作れる");
    let third = core.snapshot().task(task_id).expect("ある").steps()[2].id();
    core.move_current_position(third).expect("移せる");

    core.insert_step(task_id, 1, "資料を集める".to_string()).expect("挿入できる");

    assert_eq!(core.current_position().step_id(), Some(third));
    let snapshot = core.snapshot();
    let step = snapshot.step_at_current_position().expect("指し先がある");
    assert_eq!(step.ordinal(), 4, "連番は再計算される");
    assert_eq!(step.content(), "投稿", "指している作業単位は変わらない");
}

#[test]
fn a_split_leaves_the_current_position_on_the_first_half() {
    let (mut core, _, _) = a_core();
    let task_id = core.create_task("原稿".to_string(), contents(&["下書き", "推敲"])).expect("作れる");
    let second = core.snapshot().task(task_id).expect("ある").steps()[1].id();
    core.move_current_position(second).expect("移せる");
    core.set_interruption_note(second, Some(note("3 段落目まで"))).expect("メモを置ける");

    let created = core
        .split_step(second, "前半を推敲".to_string(), "後半を推敲".to_string())
        .expect("分割できる");

    assert_eq!(core.current_position().step_id(), Some(second));
    let snapshot = core.snapshot();
    let step = snapshot.step_at_current_position().expect("指し先がある");
    assert_eq!(step.content(), "前半を推敲");
    assert_eq!(
        step.interruption_note().map(InterruptionNote::text),
        Some("3 段落目まで"),
        "中断メモは前半に帰属する"
    );
    assert_ne!(created, second);
}

#[test]
fn splitting_a_completed_step_is_refused_before_any_write() {
    let (mut core, storage, _) = a_core();
    let task_id = core.create_task("原稿".to_string(), contents(&["下書き"])).expect("作れる");
    let first = core.snapshot().task(task_id).expect("ある").steps()[0].id();
    core.declare_completion(first).expect("宣言できる");
    let before = storage.commits().len();

    assert_eq!(
        core.split_step(first, "前".to_string(), "後".to_string()),
        Err(CoreError::Domain(DomainError::SplitCompleted))
    );
    assert_eq!(storage.commits().len(), before, "拒否は何も書かない");
}

#[test]
fn the_previous_position_is_released_when_a_new_one_is_taken() {
    let (mut core, _, _) = a_core();
    let task_id = core.create_task("原稿".to_string(), contents(&["下書き", "推敲"])).expect("作れる");
    let (first, second) = first_two(&core, task_id);

    core.move_current_position(first).expect("移せる");
    core.move_current_position(second).expect("移せる");

    assert_eq!(core.current_position().step_id(), Some(second));
    assert_ne!(core.current_position().step_id(), Some(first));
}

#[test]
fn the_work_clock_restarts_only_on_an_inactive_to_active_transition() {
    let (mut core, _, clock) = a_core();
    let task_id = core.create_task("原稿".to_string(), contents(&["下書き", "推敲"])).expect("作れる");
    let (first, second) = first_two(&core, task_id);

    let started = clock.now();
    core.move_current_position(first).expect("移せる");
    assert_eq!(core.current_position().activated_at(), Some(started));

    clock.advance(60_000);
    core.move_current_position(second).expect("移せる");
    assert_eq!(
        core.current_position().activated_at(),
        Some(started),
        "切り替えでは連続作業時間をリセットしない"
    );

    core.deactivate_current_position().expect("休息へ入れる");
    assert!(!core.current_position().is_active());
    assert_eq!(core.current_position().step_id(), Some(second), "非活性でも値は保持される");

    clock.advance(600_000);
    let resumed = clock.now();
    core.activate_current_position().expect("復帰できる");
    assert_eq!(
        core.current_position().activated_at(),
        Some(resumed),
        "非活性から活性への遷移でのみ起点が更新される"
    );
}

#[test]
fn a_no_op_transition_writes_nothing() {
    let (mut core, storage, _) = a_core();
    core.deactivate_current_position().expect("失敗しない");
    core.activate_current_position().expect("失敗しない");
    assert!(storage.commits().is_empty());
}

#[test]
fn unknown_identifiers_are_errors_not_panics() {
    let (mut core, _, clock) = a_core();
    let stranger_step = StepId::new(clock.now());
    let stranger_task = TaskId::new(clock.now());

    assert_eq!(
        core.move_current_position(stranger_step),
        Err(CoreError::Domain(DomainError::UnknownStep))
    );
    assert_eq!(
        core.declare_completion(stranger_step),
        Err(CoreError::Domain(DomainError::UnknownStep))
    );
    assert_eq!(
        core.insert_step(stranger_task, 1, "x".to_string()),
        Err(CoreError::Domain(DomainError::UnknownTask))
    );
}

#[test]
fn a_dangling_current_position_is_reported_as_corruption() {
    let clock = SharedClock::at(1_789_000_000_000);
    let storage = Recorder(Arc::new(RecordingStorage {
        restored: RestoredState {
            tasks: Vec::new(),
            current_position: CurrentPosition::rehydrate(
                TaskId::new(clock.now()),
                StepId::new(clock.now()),
                true,
                Timestamp::from_unix_millis(0),
            ),
            settings: Vec::new(),
        },
        ..RecordingStorage::default()
    }));

    let outcome = Core::restore(clock, storage);
    assert!(matches!(outcome, Err(StorageError::Corrupted(_))));
}

#[test]
fn a_mismatched_task_on_the_current_position_is_reported_as_corruption() {
    let clock = SharedClock::at(1_789_000_000_000);
    let task = Task::create(clock.now(), "原稿".to_string(), contents(&["下書き"])).expect("作れる");
    let step_id = task.steps()[0].id();
    let storage = Recorder(Arc::new(RecordingStorage {
        restored: RestoredState {
            tasks: vec![task],
            current_position: CurrentPosition::rehydrate(
                TaskId::new(clock.now()),
                step_id,
                true,
                Timestamp::from_unix_millis(0),
            ),
            settings: Vec::new(),
        },
        ..RecordingStorage::default()
    }));

    let outcome = Core::restore(clock, storage);
    assert!(matches!(outcome, Err(StorageError::Corrupted(_))));
}

#[test]
fn a_switch_commits_the_note_the_move_and_the_record_together() {
    let (mut core, storage, _) = a_core();
    let task_id =
        core.create_task("原稿".to_string(), contents(&["下書き", "推敲", "投稿"])).expect("作れる");
    let (first, second) = first_two(&core, task_id);
    core.move_current_position(first).expect("移せる");
    let before = storage.commits().len();

    let destination =
        core.switch_current_position(Some(note("3 段落目まで")), false).expect("切り替えられる");

    assert_eq!(destination, Some(second), "移動先は同一タスク内の次のステップ");
    let commits = storage.commits();
    assert_eq!(commits.len(), before + 1, "離脱側のメモ・現在地の移動・履歴の追記で 1 トランザクション");
    let commit = commits.last().expect("ある");
    assert!(commit.task.is_some(), "メモを載せたタスクが同じコミットにある");
    assert_eq!(commit.current_position.and_then(|p| p.step_id()), Some(second), "現在地も同じコミットにある");
    let record = commit.switch_record.as_ref().expect("履歴も同じコミットにある");
    assert_eq!(record.departed_step_id(), first, "離脱元を記録する");
    assert!(record.note_written(), "メモを書いた事実が残る");

    assert_eq!(core.current_position().step_id(), Some(second));
    assert_eq!(note_of(&core, task_id, first).as_deref(), Some("3 段落目まで"));
}

#[test]
fn omitting_the_note_still_completes_the_switch_and_keeps_the_previous_note() {
    let (mut core, storage, _) = a_core();
    let task_id = core.create_task("原稿".to_string(), contents(&["下書き", "推敲"])).expect("作れる");
    let (first, second) = first_two(&core, task_id);
    core.move_current_position(first).expect("移せる");
    core.set_interruption_note(first, Some(note("前に書いた"))).expect("メモを置ける");

    let destination = core.switch_current_position(None, false).expect("メモを省いても切り替えられる");

    assert_eq!(destination, Some(second));
    assert_eq!(core.current_position().step_id(), Some(second));
    let record = storage.commits().last().expect("ある").switch_record.clone().expect("履歴がある");
    assert!(!record.note_written(), "省略は記入なしとして記録される");
    assert_eq!(note_of(&core, task_id, first).as_deref(), Some("前に書いた"), "省略は既存のメモを消さない");
}

#[test]
fn a_second_switch_replaces_the_previous_note() {
    let (mut core, _, _) = a_core();
    let task_id =
        core.create_task("原稿".to_string(), contents(&["下書き", "推敲", "投稿"])).expect("作れる");
    let (first, second) = first_two(&core, task_id);
    core.move_current_position(first).expect("移せる");
    core.switch_current_position(Some(note("一度目")), false).expect("切り替えられる");
    core.move_current_position(first).expect("戻せる");

    core.switch_current_position(Some(note("一度目 / 二度目")), false).expect("切り替えられる");

    assert_eq!(note_of(&core, task_id, first).as_deref(), Some("一度目 / 二度目"));
    assert_eq!(core.current_position().step_id(), Some(second));
}

#[test]
fn a_switch_can_declare_the_completion_in_the_same_transaction() {
    let (mut core, storage, _) = a_core();
    let task_id = core.create_task("原稿".to_string(), contents(&["下書き", "推敲"])).expect("作れる");
    let (first, second) = first_two(&core, task_id);
    core.move_current_position(first).expect("移せる");
    let before = storage.commits().len();

    core.switch_current_position(Some(note("ここまで")), true).expect("切り替えられる");

    assert_eq!(storage.commits().len(), before + 1, "1 トランザクション");
    let commit = storage.commits().last().expect("ある").clone();
    let committed = commit.task.expect("タスクが載っている");
    assert!(committed.step(first).expect("ある").is_completed(), "完了も同じコミットに載る");
    assert_eq!(commit.current_position.and_then(|p| p.step_id()), Some(second));
    assert!(commit.switch_record.is_some());
    assert_eq!(core.current_position().step_id(), Some(second));
}

#[test]
fn a_switch_without_a_declaration_leaves_the_step_incomplete() {
    let (mut core, _, _) = a_core();
    let task_id = core.create_task("原稿".to_string(), contents(&["下書き", "推敲"])).expect("作れる");
    let first = core.snapshot().task(task_id).expect("ある").steps()[0].id();
    core.move_current_position(first).expect("移せる");

    core.switch_current_position(None, false).expect("切り替えられる");

    assert!(!completed(&core, task_id, first), "宣言しなければ完了は付かない");
}

#[test]
fn a_switch_from_the_last_step_records_but_does_not_move() {
    let (mut core, storage, _) = a_core();
    let task_id = core.create_task("原稿".to_string(), contents(&["下書き", "推敲"])).expect("作れる");
    let second = core.snapshot().task(task_id).expect("ある").steps()[1].id();
    core.move_current_position(second).expect("移せる");
    let before = storage.commits().len();

    let destination =
        core.switch_current_position(Some(note("続きは明日")), true).expect("メモと完了は成立する");

    assert_eq!(destination, None, "移動先が無い");
    assert_eq!(core.current_position().step_id(), Some(second), "現在地は動かない");
    let commit = storage.commits().last().expect("ある").clone();
    assert_eq!(storage.commits().len(), before + 1);
    assert!(commit.current_position.is_none(), "動かない現在地を書き直さない");
    assert!(commit.switch_record.is_some(), "履歴は残る");
    assert!(completed(&core, task_id, second));
    assert_eq!(note_of(&core, task_id, second).as_deref(), Some("続きは明日"));
}

#[test]
fn a_switch_that_changes_nothing_writes_no_record() {
    let (mut core, storage, _) = a_core();
    let task_id = core.create_task("原稿".to_string(), contents(&["下書き", "推敲"])).expect("作れる");
    let second = core.snapshot().task(task_id).expect("ある").steps()[1].id();
    core.move_current_position(second).expect("移せる");
    let before = storage.commits().len();

    for _ in 0..3 {
        assert_eq!(core.switch_current_position(None, false), Ok(None), "最終ステップでは移動先が無い");
    }

    assert_eq!(storage.commits().len(), before, "何も書かない");
}

#[test]
fn a_switch_from_the_last_step_records_when_a_note_was_written() {
    let (mut core, storage, _) = a_core();
    let task_id = core.create_task("原稿".to_string(), contents(&["下書き", "推敲"])).expect("作れる");
    let second = core.snapshot().task(task_id).expect("ある").steps()[1].id();
    core.move_current_position(second).expect("移せる");
    let before = storage.commits().len();

    core.switch_current_position(Some(note("続きは明日")), false).expect("成立する");

    assert_eq!(storage.commits().len(), before + 1);
    let record = storage.commits().last().expect("ある").switch_record.clone().expect("履歴がある");
    assert!(record.note_written());
}

#[test]
fn a_switch_does_not_reset_the_work_clock() {
    let (mut core, _, clock) = a_core();
    let task_id = core.create_task("原稿".to_string(), contents(&["下書き", "推敲"])).expect("作れる");
    let first = core.snapshot().task(task_id).expect("ある").steps()[0].id();
    let started = clock.now();
    core.move_current_position(first).expect("移せる");

    clock.advance(600_000);
    core.switch_current_position(None, false).expect("切り替えられる");

    assert_eq!(
        core.current_position().activated_at(),
        Some(started),
        "切り替えは非活性→活性の遷移ではない"
    );
}

#[test]
fn switching_from_not_started_is_an_error() {
    let (mut core, storage, _) = a_core();
    assert_eq!(
        core.switch_current_position(None, false),
        Err(CoreError::Domain(DomainError::NoCurrentPosition))
    );
    assert!(storage.commits().is_empty(), "拒否は何も書かない");
}

#[test]
fn a_failed_switch_changes_nothing_in_memory() {
    let (mut core, storage, _) = a_core();
    let task_id = core.create_task("原稿".to_string(), contents(&["下書き", "推敲"])).expect("作れる");
    let first = core.snapshot().task(task_id).expect("ある").steps()[0].id();
    core.move_current_position(first).expect("移せる");

    storage.set_failing(true);
    let outcome = core.switch_current_position(Some(note("書けないはず")), true);

    assert!(matches!(outcome, Err(CoreError::Storage(_))));
    assert_eq!(core.current_position().step_id(), Some(first), "現在地は動かない");
    assert_eq!(note_of(&core, task_id, first), None, "メモも残らない");
    assert!(!completed(&core, task_id, first), "完了も付かない");
}

#[test]
fn a_switch_never_crosses_into_another_task() {
    let (mut core, _, _) = a_core();
    let first_task = core.create_task("一つ目".to_string(), contents(&["a"])).expect("作れる");
    core.create_task("二つ目".to_string(), contents(&["b", "c"])).expect("作れる");
    let only_step = core.snapshot().task(first_task).expect("ある").steps()[0].id();
    core.move_current_position(only_step).expect("移せる");

    let destination = core.switch_current_position(None, false).expect("成立する");

    assert_eq!(destination, None, "別タスクの先頭へは飛ばない");
    assert_eq!(core.current_position().task_id(), Some(first_task));
}

#[test]
fn the_destination_is_the_next_step_even_when_it_is_already_completed() {
    let (mut core, _, _) = a_core();
    let task_id =
        core.create_task("原稿".to_string(), contents(&["下書き", "推敲", "投稿"])).expect("作れる");
    let (first, second) = first_two(&core, task_id);
    core.declare_completion(second).expect("宣言できる");
    core.move_current_position(first).expect("移せる");

    let destination = core.switch_current_position(None, false).expect("成立する");

    assert_eq!(destination, Some(second));
}

#[test]
fn selecting_a_step_moves_and_records_in_one_commit() {
    let (mut core, storage, _) = a_core();
    let origin = core.create_task("原稿".to_string(), contents(&["下書き", "推敲"])).expect("作れる");
    let other = core.create_task("買い物".to_string(), contents(&["米", "味噌"])).expect("作れる");
    let snapshot = core.snapshot();
    let departed = snapshot.task(origin).expect("ある").steps()[0].id();
    let chosen = snapshot.task(other).expect("ある").steps()[1].id();
    core.move_current_position(departed).expect("移せる");
    let before = storage.commits().len();

    let moved = core.select_step(chosen).expect("選べる");

    assert!(moved, "現在地が動いた");
    let commits = storage.commits();
    assert_eq!(commits.len(), before + 1, "現在地の移動と履歴の追記で 1 トランザクション");
    let commit = commits.last().expect("ある");
    assert!(commit.task.is_none(), "タスクは書き直さない");
    assert_eq!(commit.current_position.and_then(|p| p.step_id()), Some(chosen), "現在地が同じコミットにある");
    let record = commit.switch_record.as_ref().expect("履歴も同じコミットにある");
    assert_eq!(record.departed_step_id(), departed, "離脱元を記録する");
    assert!(!record.note_written(), "機会を与えていないため記入は常に偽である");

    assert_eq!(core.current_position().step_id(), Some(chosen));
    assert_eq!(core.current_position().task_id(), Some(other), "タスクを跨いで移れる");
}

#[test]
fn selecting_the_current_step_writes_nothing() {
    let (mut core, storage, _) = a_core();
    let task_id = core.create_task("原稿".to_string(), contents(&["下書き", "推敲"])).expect("作れる");
    let first = core.snapshot().task(task_id).expect("ある").steps()[0].id();
    core.move_current_position(first).expect("移せる");
    let before = storage.commits();

    let moved = core.select_step(first).expect("選べる");

    assert!(!moved, "動いていない");
    assert_eq!(storage.commits(), before, "履歴も現在地も書かない");
}

#[test]
fn selecting_a_step_touches_neither_the_note_nor_the_completion() {
    let (mut core, _, _) = a_core();
    let task_id =
        core.create_task("原稿".to_string(), contents(&["下書き", "推敲", "投稿"])).expect("作れる");
    let first = core.snapshot().task(task_id).expect("ある").steps()[0].id();
    let third = core.snapshot().task(task_id).expect("ある").steps()[2].id();
    core.move_current_position(first).expect("移せる");
    core.set_interruption_note(first, Some(note("3 段落目まで"))).expect("メモを置ける");

    core.select_step(third).expect("選べる");

    assert_eq!(note_of(&core, task_id, first).as_deref(), Some("3 段落目まで"), "離脱側のメモは変わらない");
    assert!(!completed(&core, task_id, first), "完了も付かない");
    assert!(!completed(&core, task_id, third), "移動先の完了も動かない");
}

#[test]
fn selecting_from_not_started_moves_without_a_record() {
    let (mut core, storage, _) = a_core();
    let task_id =
        core.create_task("着手せずに書き留めた".to_string(), contents(&["一", "二"])).expect("作れる");
    let second = core.snapshot().task(task_id).expect("ある").steps()[1].id();
    assert!(core.current_position().step_id().is_none(), "未着手である");

    let moved = core.select_step(second).expect("選べる");

    assert!(moved, "到達できる");
    assert_eq!(core.current_position().step_id(), Some(second));
    let commit = storage.commits().last().cloned().expect("ある");
    assert!(commit.current_position.is_some(), "現在地は書かれる");
    assert!(commit.switch_record.is_none(), "離脱元が無い移動は切り替えではない");
}

#[test]
fn selecting_a_step_does_not_reset_the_work_clock() {
    let (mut core, _, clock) = a_core();
    let task_id = core.create_task("原稿".to_string(), contents(&["下書き", "推敲"])).expect("作れる");
    let (first, second) = first_two(&core, task_id);
    core.move_current_position(first).expect("移せる");
    let started = clock.now();

    clock.advance(600_000);
    core.select_step(second).expect("選べる");

    assert!(core.current_position().is_active());
    assert_eq!(
        core.current_position().activated_at(),
        Some(started),
        "活性のまま移る限り、起点は据え置かれる"
    );
}

#[test]
fn selecting_a_step_while_inactive_takes_up_the_work_again() {
    let (mut core, storage, clock) = a_core();
    let task_id = core.create_task("原稿".to_string(), contents(&["下書き", "推敲"])).expect("作れる");
    let (first, second) = first_two(&core, task_id);
    core.move_current_position(first).expect("移せる");
    core.deactivate_current_position().expect("休息に入れる");

    clock.advance(600_000);
    let resumed = clock.now();
    let moved = core.select_step(second).expect("選べる");

    assert!(moved);
    assert!(core.current_position().is_active(), "再入である");
    assert_eq!(
        core.current_position().activated_at(),
        Some(resumed),
        "非活性→活性の遷移でのみ計時が数え直される"
    );
    assert!(
        storage.commits().last().expect("ある").switch_record.is_some(),
        "離脱元があるため切り替えである"
    );
}

#[test]
fn selecting_the_current_step_while_inactive_takes_up_the_work_without_a_record() {
    let (mut core, storage, clock) = a_core();
    let task_id = core.create_task("原稿".to_string(), contents(&["下書き", "推敲"])).expect("作れる");
    let first = core.snapshot().task(task_id).expect("ある").steps()[0].id();
    core.move_current_position(first).expect("移せる");
    core.deactivate_current_position().expect("休息に入れる");

    clock.advance(600_000);
    let resumed = clock.now();
    let moved = core.select_step(first).expect("選べる");

    assert!(moved, "値が変わったので書かれている");
    assert!(core.current_position().is_active());
    assert_eq!(core.current_position().step_id(), Some(first));
    assert_eq!(core.current_position().activated_at(), Some(resumed));
    let commit = storage.commits().last().cloned().expect("ある");
    assert!(commit.current_position.is_some());
    assert!(commit.switch_record.is_none(), "離れていないのだから切り替えではない");
}

#[test]
fn selecting_an_unknown_step_is_an_error() {
    let (mut core, storage, _) = a_core();
    let before = storage.commits();

    let outcome = core.select_step(StepId::new(Timestamp::from_unix_millis(0)));

    assert_eq!(outcome, Err(CoreError::Domain(DomainError::UnknownStep)));
    assert_eq!(storage.commits(), before, "何も書かれていない");
}

#[test]
fn a_failed_selection_leaves_the_current_position_unchanged() {
    let (mut core, storage, _) = a_core();
    let task_id = core.create_task("原稿".to_string(), contents(&["下書き", "推敲"])).expect("作れる");
    let (first, second) = first_two(&core, task_id);
    core.move_current_position(first).expect("移せる");
    storage.set_failing(true);

    let outcome = core.select_step(second);

    assert!(matches!(outcome, Err(CoreError::Storage(_))));
    assert_eq!(core.current_position().step_id(), Some(first), "メモリ上の現在地も動いていない");
}

const MINUTE: i64 = 60_000;

fn a_core_at_work() -> (TestCore, Recorder, SharedClock) {
    let (mut core, storage, clock) = a_core();
    let task_id = core.create_task("原稿".to_string(), contents(&["下書き", "推敲"])).expect("作れる");
    let first = core.snapshot().task(task_id).expect("ある").steps()[0].id();
    core.move_current_position(first).expect("移せる");
    (core, storage, clock)
}

fn tick_once(core: &mut TestCore, clock: &SharedClock) -> bool {
    clock.advance(TICK_INTERVAL_MILLIS);
    core.tick().expect("刻める").raised
}

fn tick_for(core: &mut TestCore, clock: &SharedClock, millis: i64) -> bool {
    let mut raised = false;
    let mut remaining = millis;
    while remaining > 0 {
        raised |= tick_once(core, clock);
        remaining -= TICK_INTERVAL_MILLIS;
    }
    raised
}

fn setting(key: &str, value: &str) -> Setting {
    Setting::new(key.to_string(), value.to_string())
}

#[test]
fn the_threshold_raises_an_intervention_on_a_tick() {
    let (mut core, _, clock) = a_core_at_work();

    assert!(!tick_for(&mut core, &clock, 49 * MINUTE), "49 分では出ない");
    assert!(core.snapshot().intervention().is_none());

    assert!(tick_for(&mut core, &clock, MINUTE), "50 分で出る");
    assert!(core.snapshot().intervention().is_some());
}

#[test]
fn only_one_intervention_is_raised_at_a_time() {
    let (mut core, _, clock) = a_core_at_work();
    assert!(tick_for(&mut core, &clock, 50 * MINUTE));
    let raised = core.snapshot().intervention().expect("出ている");

    for _ in 0..5 {
        assert!(!tick_once(&mut core, &clock), "表示中は後発が待つ");
    }
    assert_eq!(core.snapshot().intervention(), Some(raised), "表示中の介入は差し替わらない");
}

#[test]
fn choosing_rest_deactivates_the_current_position_without_losing_it() {
    let (mut core, storage, clock) = a_core_at_work();
    let before = core.current_position();
    assert!(tick_for(&mut core, &clock, 50 * MINUTE));
    let commits = storage.commits().len();

    assert!(core.answer_intervention(InterventionChoice::Rest).expect("応答できる"));

    let position = core.current_position();
    assert!(!position.is_active(), "非活性になる");
    assert_eq!(position.step_id(), before.step_id(), "値は保たれる");
    assert_eq!(position.task_id(), before.task_id());
    assert_eq!(position.activated_at(), before.activated_at(), "起点は据え置かれる");
    assert!(core.snapshot().is_resting());
    assert!(core.snapshot().intervention().is_none(), "介入は閉じる");
    assert_eq!(storage.commits().len(), commits + 1, "1 トランザクション");
}

#[test]
fn no_intervention_is_raised_while_resting() {
    let (mut core, _, clock) = a_core_at_work();
    assert!(tick_for(&mut core, &clock, 50 * MINUTE));
    core.answer_intervention(InterventionChoice::Rest).expect("応答できる");

    for _ in 0..6 {
        assert!(!tick_for(&mut core, &clock, 10 * MINUTE), "休息中は計数しない");
    }
    assert!(core.snapshot().intervention().is_none());
}

#[test]
fn declaring_the_end_of_a_rest_takes_up_the_work_again() {
    let (mut core, _, clock) = a_core_at_work();
    let step_id = core.current_position().step_id();
    assert!(tick_for(&mut core, &clock, 50 * MINUTE));
    core.answer_intervention(InterventionChoice::Rest).expect("応答できる");

    clock.advance(20 * MINUTE);
    let resumed_at = clock.now();
    assert!(core.end_rest().expect("終えられる"));

    let position = core.current_position();
    assert!(position.is_active());
    assert_eq!(position.step_id(), step_id, "戻る先は同じステップである");
    assert_eq!(position.activated_at(), Some(resumed_at), "非活性→活性の遷移でのみ起点が更新される");
    assert!(!core.snapshot().is_resting());
}

#[test]
fn declaring_the_end_of_a_rest_while_active_writes_nothing() {
    let (mut core, storage, _) = a_core_at_work();
    let commits = storage.commits().len();

    assert!(!core.end_rest().expect("失敗しない"));
    assert_eq!(storage.commits().len(), commits);
}

#[test]
fn a_grace_period_postpones_the_intervention_without_ending_the_work() {
    let (mut core, _, clock) = a_core_at_work();
    assert!(tick_for(&mut core, &clock, 50 * MINUTE));

    assert!(core.answer_intervention(InterventionChoice::Grace).expect("応答できる"));
    assert!(core.current_position().is_active(), "現在地は活性のまま");
    assert!(core.snapshot().intervention().is_none());

    assert!(!tick_for(&mut core, &clock, 14 * MINUTE), "まだ出ない");
    assert!(tick_for(&mut core, &clock, MINUTE), "15 分後に出直す");
}

#[test]
fn a_grace_period_has_no_limit() {
    let (mut core, _, clock) = a_core_at_work();
    assert!(tick_for(&mut core, &clock, 50 * MINUTE));

    for round in 0..5 {
        core.answer_intervention(InterventionChoice::Grace).expect("応答できる");
        assert!(tick_for(&mut core, &clock, 15 * MINUTE), "{round} 回目の猶予の後も出直す");
    }
    assert!(core.current_position().is_active(), "猶予は休息に化けない");
}

#[test]
fn state_a_switch_does_not_postpone_the_intervention() {
    let (mut core, _, clock) = a_core_at_work();

    assert!(!tick_for(&mut core, &clock, 40 * MINUTE));
    core.switch_current_position(None, false).expect("切り替えられる");

    assert!(tick_for(&mut core, &clock, 10 * MINUTE), "切り替えは起点を動かさない");
}

#[test]
fn a_long_sleep_resets_the_work_clock_without_an_intervention() {
    let (mut core, _, clock) = a_core_at_work();
    assert!(!tick_for(&mut core, &clock, 40 * MINUTE));

    clock.advance(120 * MINUTE);
    assert!(!core.tick().expect("刻める").raised, "休息が取られたとみなす");
    assert_eq!(core.current_position().activated_at(), Some(clock.now()), "計時はリセットされる");

    assert!(!tick_for(&mut core, &clock, 49 * MINUTE), "数え直している");
    assert!(tick_for(&mut core, &clock, MINUTE));
}

#[test]
fn a_short_sleep_is_discounted_from_the_work_clock() {
    let (mut core, _, clock) = a_core_at_work();
    let started = core.current_position().activated_at().expect("起点がある");
    assert!(!tick_for(&mut core, &clock, 40 * MINUTE));

    clock.advance(10 * MINUTE);
    assert!(!core.tick().expect("刻める").raised);
    assert_eq!(
        core.current_position().activated_at(),
        Some(Timestamp::from_unix_millis(started.unix_millis() + 10 * MINUTE - TICK_INTERVAL_MILLIS)),
        "眠った分だけ起点をずらす — リセットではない"
    );

    assert!(tick_for(&mut core, &clock, 10 * MINUTE), "計時は継続する");
}

#[test]
fn an_idle_tick_writes_nothing() {
    let (mut core, storage, clock) = a_core_at_work();
    let commits = storage.commits().len();

    for _ in 0..10 {
        assert!(!tick_once(&mut core, &clock));
    }
    assert_eq!(storage.commits().len(), commits);
}

#[test]
fn nothing_is_counted_before_the_first_step() {
    let (mut core, storage, clock) = a_core();
    for _ in 0..10 {
        clock.advance(10 * MINUTE);
        assert!(!core.tick().expect("刻める").raised);
    }
    assert!(storage.commits().is_empty());
}

#[test]
fn a_failed_rest_changes_nothing_and_keeps_the_intervention() {
    let (mut core, storage, clock) = a_core_at_work();
    assert!(tick_for(&mut core, &clock, 50 * MINUTE));
    let before = core.current_position();

    storage.set_failing(true);
    let outcome = core.answer_intervention(InterventionChoice::Rest);

    assert!(matches!(outcome, Err(CoreError::Storage(_))));
    assert_eq!(core.current_position(), before, "現在地は動かない");
    assert!(core.snapshot().intervention().is_some(), "選んだはずの休息が残らないまま画面から消えない");
}

#[test]
fn answering_without_an_intervention_does_nothing() {
    let (mut core, storage, _) = a_core_at_work();
    let commits = storage.commits().len();

    assert!(!core.answer_intervention(InterventionChoice::Rest).expect("失敗しない"));
    assert!(!core.answer_intervention(InterventionChoice::Grace).expect("失敗しない"));
    assert!(core.current_position().is_active());
    assert_eq!(storage.commits().len(), commits);
}

#[test]
fn a_second_answer_is_ignored() {
    let (mut core, _, clock) = a_core_at_work();
    assert!(tick_for(&mut core, &clock, 50 * MINUTE));

    assert!(core.answer_intervention(InterventionChoice::Rest).expect("応答できる"));
    assert!(
        !core.answer_intervention(InterventionChoice::Grace).expect("失敗しない"),
        "二つ目の応答は何も起こさない"
    );
    assert!(core.snapshot().is_resting(), "休息のままである");
}

#[test]
fn a_withdrawn_intervention_comes_back_after_a_grace_period() {
    let (mut core, _, clock) = a_core_at_work();
    assert!(tick_for(&mut core, &clock, 50 * MINUTE));

    assert!(core.withdraw_intervention());
    assert!(core.snapshot().intervention().is_none());
    assert!(core.current_position().is_active(), "現在地には触れない");

    assert!(!tick_for(&mut core, &clock, 14 * MINUTE), "すぐには出直さない");
    assert!(tick_for(&mut core, &clock, MINUTE));
}

#[test]
fn withdrawing_without_an_intervention_does_nothing() {
    let (mut core, _, _) = a_core_at_work();
    assert!(!core.withdraw_intervention());
}

#[test]
fn a_restored_core_shows_no_intervention() {
    let (core, _, _) = a_core_at_work();
    assert!(core.snapshot().intervention().is_none());
}

#[test]
fn a_stored_setting_overrides_the_constant() {
    let (mut core, storage, _) = a_core();
    assert_eq!(core.snapshot().rest_settings(), RestSettings::default());

    core.store_setting(setting(REST_THRESHOLD_KEY, "60")).expect("書ける");
    core.store_setting(setting(GRACE_PERIOD_KEY, "30")).expect("書ける");

    assert_eq!(core.snapshot().rest_settings().rest_threshold_seconds(), 60);
    assert_eq!(core.snapshot().rest_settings().grace_period_seconds(), 30);
    let written: Vec<Setting> =
        storage.commits().iter().flat_map(|commit| commit.settings.clone()).collect();
    assert_eq!(written.len(), 2, "設定値は 1 操作 = 1 コミットで書かれる");
}

#[test]
fn storing_the_same_key_twice_replaces_it() {
    let (mut core, _, _) = a_core();
    core.store_setting(setting(REST_THRESHOLD_KEY, "60")).expect("書ける");
    core.store_setting(setting(REST_THRESHOLD_KEY, "120")).expect("書ける");

    assert_eq!(core.snapshot().settings().len(), 1);
    assert_eq!(core.snapshot().rest_settings().rest_threshold_seconds(), 120);
}

#[test]
fn a_failed_setting_write_leaves_memory_untouched() {
    let (mut core, storage, _) = a_core();
    storage.set_failing(true);

    let outcome = core.store_setting(setting(REST_THRESHOLD_KEY, "60"));

    assert!(matches!(outcome, Err(CoreError::Storage(_))));
    assert!(core.snapshot().settings().is_empty());
    assert_eq!(core.snapshot().rest_settings(), RestSettings::default());
}

#[test]
fn a_shortened_threshold_actually_fires_sooner() {
    let (mut core, _, clock) = a_core_at_work();
    core.store_setting(setting(REST_THRESHOLD_KEY, "60")).expect("書ける");

    assert!(tick_for(&mut core, &clock, MINUTE), "1 分で出る");
}

#[test]
fn the_intervention_is_a_single_value() {
    let (mut core, _, clock) = a_core_at_work();
    assert!(tick_for(&mut core, &clock, 50 * MINUTE));
    let raised: Option<Intervention> = core.snapshot().intervention();
    assert!(raised.is_some());
    assert_eq!(raised.map(|i| i.at()), Some(clock.now()));
}

#[test]
fn a_failed_tick_is_retried_on_the_next_one() {
    let (mut core, storage, clock) = a_core_at_work();
    let started = core.current_position().activated_at().expect("起点がある");

    clock.advance(10 * MINUTE);
    storage.set_failing(true);
    assert!(matches!(core.tick(), Err(CoreError::Storage(_))));
    assert_eq!(
        core.current_position().activated_at(),
        Some(started),
        "書けなかった補正をメモリにだけ残さない"
    );

    storage.set_failing(false);
    core.tick().expect("次の刻みは通る");
    assert_ne!(core.current_position().activated_at(), Some(started), "同じ飛びを見てやり直せている");
}

#[test]
fn a_refused_switch_is_answered_with_the_storages_own_error() {
    let (mut core, storage, _) = a_core();
    let task_id = core.create_task("原稿".to_string(), contents(&["下書き", "推敲"])).expect("作れる");
    let first = core.snapshot().task(task_id).expect("ある").steps()[0].id();
    core.move_current_position(first).expect("移せる");

    storage.set_failing(true);
    let outcome = core.switch_current_position(Some(note("書けないはず")), false);

    assert_eq!(outcome, Err(CoreError::Storage(StorageError::Write("試験用の失敗".to_string()))));
}

#[test]
fn creating_and_starting_moves_to_the_step_numbered_one() {
    let (mut core, storage, _) = a_core();

    let outcome = create_and_start(&mut core, "原稿".to_string(), contents(&["下書き", "推敲"]), true);

    assert_eq!(outcome, Ok(CreateTaskOutcome { moved: true }));
    let snapshot = core.snapshot();
    let task = &snapshot.tasks()[0];
    assert_eq!(core.current_position().step_id(), Some(task.steps()[0].id()));
    assert_eq!(storage.commits().len(), 2, "作成と移動で 2 回確定する");
}

#[test]
fn creating_without_starting_leaves_the_position_alone() {
    let (mut core, storage, _) = a_core();

    let outcome = create_and_start(&mut core, "原稿".to_string(), contents(&["下書き"]), false);

    assert_eq!(outcome, Ok(CreateTaskOutcome { moved: false }));
    assert_eq!(core.current_position(), CurrentPosition::NotStarted);
    assert_eq!(storage.commits().len(), 1);
}

#[test]
fn creating_and_starting_without_steps_is_refused() {
    let (mut core, storage, _) = a_core();

    let outcome = create_and_start(&mut core, "原稿".to_string(), Vec::new(), true);

    assert_eq!(outcome, Err(CoreError::Domain(DomainError::EmptyTask)));
    assert!(storage.commits().is_empty());
}

#[test]
fn a_refused_creation_is_answered_with_the_storages_own_error() {
    let (mut core, storage, _) = a_core();
    storage.set_failing(true);

    let outcome = create_and_start(&mut core, "原稿".to_string(), contents(&["下書き"]), true);

    assert_eq!(outcome, Err(CoreError::Storage(StorageError::Write("試験用の失敗".to_string()))));
    assert!(core.snapshot().tasks().is_empty());
    assert_eq!(core.current_position(), CurrentPosition::NotStarted);
}
