use my_task_manager::adapters::hotkey::HotkeyStatus;
use my_task_manager::commands::{
    announces_a_move, as_interruption_note, as_task_definition, disclosure_of, outcome_of,
    require_core, snapshot_of, step_to_select, step_to_start_from, DisclosureRow,
    ResidentStatus, SelectStepOutcome, CORE_MISSING, ROW_UNREADABLE, STEPS_MISSING,
    STEP_SEPARATORS, TITLE_MISSING,
};
use my_task_manager::domain::state::{Core, CoreState};
use my_task_manager::domain::task::{InterruptionNote, StepId};
use my_task_manager::domain::{FixedClock, Timestamp};
use my_task_manager::ports::storage::{Commit, RestoredState, Storage, StorageError};

/// A storage that accepts every write and restores nothing.
struct AcceptingStorage;

impl Storage for AcceptingStorage {
    fn restore(&self) -> Result<RestoredState, StorageError> {
        Ok(RestoredState::default())
    }

    fn apply(&self, _commit: &Commit) -> Result<(), StorageError> {
        Ok(())
    }
}

type TestCore = Core<FixedClock, AcceptingStorage>;

fn a_core() -> TestCore {
    Core::restore(FixedClock::at(1_789_000_000_000), AcceptingStorage)
        .ok()
        .expect("空の状態は復元できる")
}

fn contents(items: &[&str]) -> Vec<String> {
    items.iter().map(|item| (*item).to_string()).collect()
}

fn a_state_at_the_third_of_six() -> CoreState {
    let mut core = a_core();
    let task_id = core
        .create_task("原稿".to_string(), contents(&["一", "二", "3 段落目を書き直す", "四", "五", "六"]))
        .expect("作れる");
    let third = core.snapshot().task(task_id).expect("ある").steps()[2].id();
    core.move_current_position(third).expect("移せる");
    core.set_interruption_note(third, Some(InterruptionNote::new("接続詞を整える途中".to_string())))
        .expect("メモを置ける");
    core.snapshot()
}

#[test]
fn an_unresolved_status_is_not_reported_as_success() {
    let status = ResidentStatus::default();
    assert!(status.hotkey().is_none());
}

#[test]
fn a_published_status_is_readable() {
    let mut status = ResidentStatus::default();
    status.set_hotkey(HotkeyStatus::failed("衝突".to_string()));

    let hotkey = status.hotkey().expect("確定後は値が読める");
    assert!(!hotkey.registered);
    assert!(hotkey.error.is_some());
}

#[test]
fn a_missing_core_becomes_an_explicit_error() {
    let outcome = require_core::<&TestCore>(None);
    assert_eq!(outcome.err().as_deref(), Some(CORE_MISSING));
    assert!(CORE_MISSING.contains("現在地"), "何が失われているかを利用者に示す文であること");
}

#[test]
fn a_present_core_passes_through() {
    assert_eq!(require_core(Some("core")), Ok("core"));
}

#[test]
fn a_missing_core_still_reports_the_hotkey() {
    let snapshot = snapshot_of(HotkeyStatus::failed("衝突".to_string()), None);

    assert!(!snapshot.hotkey.registered, "ホットキーの失敗が残っている");
    assert_eq!(snapshot.state_error.as_deref(), Some(CORE_MISSING));
    assert_eq!(snapshot.step_content, None);
}

#[test]
fn the_third_of_six_projects_its_content_position_and_note() {
    let snapshot = snapshot_of(HotkeyStatus::registered(), Some(&a_state_at_the_third_of_six()));

    assert_eq!(snapshot.state_error, None);
    assert_eq!(snapshot.step_content.as_deref(), Some("3 段落目を書き直す"));
    assert_eq!(snapshot.step_ordinal, Some(3), "第 N の N");
    assert_eq!(snapshot.step_count, Some(6), "全 M の M");
    assert_eq!(snapshot.interruption_note.as_deref(), Some("接続詞を整える途中"));
}

#[test]
fn a_shown_step_always_carries_its_count() {
    let snapshot = snapshot_of(HotkeyStatus::registered(), Some(&a_state_at_the_third_of_six()));

    assert_eq!(
        snapshot.step_content.is_some(),
        snapshot.step_count.is_some(),
        "内容と全体数は同時に決まる"
    );
    assert_eq!(snapshot.step_content.is_some(), snapshot.step_ordinal.is_some());
}

#[test]
fn a_not_started_position_projects_as_nothing_shown() {
    let snapshot = snapshot_of(HotkeyStatus::registered(), Some(&CoreState::default()));

    assert_eq!(snapshot.state_error, None, "読めてはいる");
    assert_eq!(snapshot.step_content, None);
    assert_eq!(snapshot.step_ordinal, None);
    assert_eq!(snapshot.step_count, None);
    assert_eq!(snapshot.interruption_note, None);
}

#[test]
fn a_moved_switch_reports_it_and_a_stay_does_not() {
    assert!(outcome_of(Some(StepId::new(Timestamp::from_unix_millis(0)))).moved, "移動先があれば真");
    assert!(!outcome_of(None).moved);
}

#[test]
fn an_empty_input_is_an_omission_not_an_empty_note() {
    assert_eq!(as_interruption_note(None), None);
    assert_eq!(as_interruption_note(Some(String::new())), None);
    assert_eq!(as_interruption_note(Some("   \n\t ".to_string())), None);
}

#[test]
fn a_title_and_three_lines_become_three_steps_in_order() {
    let definition = as_task_definition("原稿", "構成を決める\n下書きを書く\n推敲する")
        .expect("題名と行があれば作れる");

    assert_eq!(definition.title, "原稿");
    assert_eq!(
        definition.step_contents,
        contents(&["構成を決める", "下書きを書く", "推敲する"]),
        "行の順がそのまま連番 1..N になる"
    );
}

#[test]
fn blank_lines_are_dropped_and_the_rest_keeps_its_order() {
    let definition =
        as_task_definition("原稿", "構成を決める\n\n   \n下書きを書く\n\t\n推敲する\n\n   \n")
            .expect("空行を落としても残る");

    assert_eq!(
        definition.step_contents,
        contents(&["構成を決める", "下書きを書く", "推敲する"]),
        "落ちるのは空行だけであり、残りの順序は動かない"
    );
}

#[test]
fn each_line_is_trimmed() {
    let definition =
        as_task_definition("  原稿  ", "  構成を決める  \n\t下書きを書く\t").expect("作れる");

    assert_eq!(definition.title, "原稿");
    assert_eq!(definition.step_contents, contents(&["構成を決める", "下書きを書く"]));
}

#[test]
fn a_blank_title_is_refused_with_a_reason() {
    assert_eq!(as_task_definition("   \t ", "構成を決める").err().as_deref(), Some(TITLE_MISSING));
    assert_eq!(as_task_definition("", "構成を決める").err().as_deref(), Some(TITLE_MISSING));
}

#[test]
fn a_task_without_any_step_is_refused_with_a_reason() {
    assert_eq!(as_task_definition("原稿", "").err().as_deref(), Some(STEPS_MISSING));
    assert_eq!(as_task_definition("原稿", "\n   \n\t\n").err().as_deref(), Some(STEPS_MISSING));
}

#[test]
fn every_line_separator_splits_steps() {
    for separator in ["\r\n", "\r", "\n", "\u{2028}", "\u{2029}"] {
        let steps = format!("構成を決める{separator}下書きを書く{separator}");
        let definition = as_task_definition("原稿", &steps)
            .unwrap_or_else(|_| panic!("{separator:?} は区切りである"));

        assert_eq!(
            definition.step_contents,
            contents(&["構成を決める", "下書きを書く"]),
            "区切り {separator:?} で 2 個に分かれる"
        );
    }
}

#[test]
fn no_step_carries_a_line_separator() {
    let definition = as_task_definition("原稿", "一\r\n二\r三\u{2028}四\u{2029}五").expect("作れる");

    assert_eq!(definition.step_contents, contents(&["一", "二", "三", "四", "五"]));
    for content in &definition.step_contents {
        assert!(!content.contains(STEP_SEPARATORS), "内容に区切りが残っていない: {content:?}");
    }
}

#[test]
fn the_step_to_start_from_is_the_one_numbered_one() {
    let mut core = a_core();
    let task_id = core
        .create_task("原稿".to_string(), contents(&["構成を決める", "下書きを書く", "推敲する"]))
        .expect("作れる");

    let state = core.snapshot();
    let chosen = step_to_start_from(state.task(task_id)).expect("第 1 ステップがある");
    let task = state.task(task_id).expect("ある");
    assert_eq!(task.step(chosen).expect("ある").ordinal(), 1, "連番 1 である");
    assert_eq!(task.step(chosen).expect("ある").content(), "構成を決める");
    assert_ne!(chosen, task.steps().last().expect("ある").id(), "末尾ではない");
}

#[test]
fn starting_a_created_task_points_the_current_position_at_its_first_step() {
    let mut core = a_core();
    let task_id = core
        .create_task("原稿".to_string(), contents(&["構成を決める", "下書きを書く"]))
        .expect("作れる");
    assert!(core.current_position().step_id().is_none(), "作成そのものは現在地に触れない");

    let chosen = step_to_start_from(core.snapshot().task(task_id)).expect("ある");
    core.move_current_position(chosen).expect("移せる");

    assert_eq!(core.current_position().step_id(), Some(chosen));
    assert_eq!(core.current_position().task_id(), Some(task_id));
}

#[test]
fn a_missing_task_has_no_step_to_start_from() {
    assert_eq!(step_to_start_from(None), None);
}

#[test]
fn a_definition_reaches_the_domain_already_tidied() {
    let mut core = a_core();

    let definition =
        as_task_definition("  原稿 ", " 構成を決める \n\n 下書きを書く \n").expect("整えられる");
    let task_id = core.create_task(definition.title, definition.step_contents).expect("作れる");

    let state = core.snapshot();
    let task = state.task(task_id).expect("ある");
    assert_eq!(task.title(), "原稿");
    assert_eq!(task.steps().len(), 2);
    assert_eq!(task.steps()[0].content(), "構成を決める");
    assert_eq!(task.steps()[0].ordinal(), 1, "連番は 1 から");
    assert_eq!(task.steps()[1].content(), "下書きを書く");
    assert_eq!(task.steps()[1].ordinal(), 2);
    assert!(core.current_position().step_id().is_none());
}

#[test]
fn a_written_note_is_passed_through_unchanged() {
    assert_eq!(
        as_interruption_note(Some(" 3 段落目の途中 ".to_string())).as_ref().map(InterruptionNote::text),
        Some(" 3 段落目の途中 ")
    );
}

fn a_state_with_two_tasks_and_five_steps() -> CoreState {
    let mut core = a_core();
    let first = core
        .create_task("原稿".to_string(), contents(&["構成を決める", "下書きを書く"]))
        .expect("作れる");
    let second =
        core.create_task("買い物".to_string(), contents(&["米", "味噌", "醤油"])).expect("作れる");

    let snapshot = core.snapshot();
    let done = snapshot.task(first).expect("ある").steps()[1].id();
    let here = snapshot.task(second).expect("ある").steps()[2].id();
    core.declare_completion(done).expect("宣言できる");
    core.move_current_position(here).expect("移せる");
    core.snapshot()
}

fn step_id_in(state: &CoreState, task: usize, step: usize) -> String {
    state.tasks()[task].steps()[step].id().to_text()
}

fn step_row(step_id: String, content: &str, completed: bool, current: bool) -> DisclosureRow {
    DisclosureRow::Step { step_id, content: content.to_string(), completed, current }
}

#[test]
fn two_tasks_project_as_one_stream_of_headings_and_steps() {
    let state = a_state_with_two_tasks_and_five_steps();

    let surface = disclosure_of(Some(&state));

    assert_eq!(surface.state_error, None);
    assert_eq!(
        surface.rows,
        vec![
            DisclosureRow::Task { title: "原稿".to_string() },
            step_row(step_id_in(&state, 0, 0), "構成を決める", false, false),
            step_row(step_id_in(&state, 0, 1), "下書きを書く", true, false),
            DisclosureRow::Task { title: "買い物".to_string() },
            step_row(step_id_in(&state, 1, 0), "米", false, false),
            step_row(step_id_in(&state, 1, 1), "味噌", false, false),
            step_row(step_id_in(&state, 1, 2), "醤油", false, true),
        ],
        "見出し 2 行と ステップ 5 行が、タスクごとにまとまった一つの流れで並ぶ"
    );
}

#[test]
fn every_listed_step_carries_its_own_id() {
    let surface = disclosure_of(Some(&a_state_with_two_tasks_and_five_steps()));

    let mut ids: Vec<String> = surface
        .rows
        .iter()
        .filter_map(|row| match row {
            DisclosureRow::Step { step_id, .. } => Some(step_id.clone()),
            DisclosureRow::Task { .. } => None,
        })
        .collect();
    assert_eq!(ids.len(), 5);
    ids.sort();
    ids.dedup();
    assert_eq!(ids.len(), 5, "5 行が 5 つの異なる ID を運ぶ");
}

#[test]
fn exactly_one_row_is_marked_as_the_current_position() {
    let surface = disclosure_of(Some(&a_state_with_two_tasks_and_five_steps()));

    let marked = surface
        .rows
        .iter()
        .filter(|row| matches!(row, DisclosureRow::Step { current: true, .. }))
        .count();
    assert_eq!(marked, 1);
}

#[test]
fn a_not_started_position_still_lists_every_task() {
    let mut core = a_core();
    core.create_task("着手せずに書き留めた".to_string(), contents(&["一", "二"])).expect("作れる");

    let surface = disclosure_of(Some(&core.snapshot()));

    assert_eq!(surface.rows.len(), 3, "見出し 1 行 + ステップ 2 行");
    assert!(
        !surface.rows.iter().any(|row| matches!(row, DisclosureRow::Step { current: true, .. })),
        "現在地の行は無い"
    );
}

#[test]
fn an_empty_store_projects_as_an_empty_list_without_a_reason() {
    let surface = disclosure_of(Some(&CoreState::default()));

    assert_eq!(surface.state_error, None, "読めてはいる");
    assert!(surface.rows.is_empty());
}

#[test]
fn a_missing_core_opens_the_surface_with_a_reason() {
    let surface = disclosure_of(None);

    assert_eq!(surface.state_error.as_deref(), Some(CORE_MISSING));
    assert!(surface.rows.is_empty(), "描く一覧は無い");
}

#[test]
fn the_disclosure_carries_no_interruption_note_text() {
    let mut core = a_core();
    let task_id = core
        .create_task("原稿".to_string(), contents(&["構成を決める", "下書きを書く"]))
        .expect("作れる");
    let first = core.snapshot().task(task_id).expect("ある").steps()[0].id();
    core.set_interruption_note(first, Some(InterruptionNote::new("接続詞を整える途中".to_string())))
        .expect("メモを置ける");

    let surface = disclosure_of(Some(&core.snapshot()));
    let rendered = format!("{surface:?}");

    assert!(!rendered.contains("接続詞を整える途中"), "本文がどの欄にも現れない: {rendered}");
    assert!(!rendered.contains("interruption"), "欄そのものが無い: {rendered}");
}

#[test]
fn a_listed_step_id_round_trips_back_into_the_domain() {
    let state = a_state_with_two_tasks_and_five_steps();
    let surface = disclosure_of(Some(&state));
    let DisclosureRow::Step { step_id: listed, .. } = &surface.rows[6] else {
        panic!("7 行目はステップの行である")
    };

    let parsed = step_to_select(listed).expect("一覧が運んだ ID はそのまま読み戻せる");

    assert_eq!(parsed.to_text(), *listed);
    assert_eq!(
        parsed,
        state.tasks()[1].steps()[2].id(),
        "読み戻した ID はコアが持つステップそのものを指す"
    );
}

#[test]
fn an_unreadable_row_is_refused_with_a_reason() {
    assert_eq!(step_to_select("not-a-uuid").err().as_deref(), Some(ROW_UNREADABLE));
    assert_eq!(step_to_select("").err().as_deref(), Some(ROW_UNREADABLE));
    assert!(ROW_UNREADABLE.contains("開き直す"), "次に何をすればよいかを示す文であること");
}

#[test]
fn only_a_move_announces_the_current_position() {
    assert!(announces_a_move(SelectStepOutcome { moved: true }));
    assert!(!announces_a_move(SelectStepOutcome { moved: false }));
}
