use my_task_manager::adapters::appmenu::{
    application_menu, EditItem, TopLevelSubmenu, EDIT_MENU, EDIT_SUBMENU_TITLE, TOP_LEVEL,
};
use my_task_manager::adapters::autostart::{should_register, REGISTRATION_MARKER};
use my_task_manager::adapters::clock::SystemClock;
use my_task_manager::adapters::hotkey::{
    response_choice, should_toggle, HotkeyStatus, KeyState, ResponseHotkeyStatus, ACCELERATOR,
    GRACE_ACCELERATOR, REST_ACCELERATOR,
};
use my_task_manager::adapters::intervention::{
    action_for, corner_position, visibility_after as panel_visibility_after, PanelAction,
    INTERVENTION_LABEL,
};
use my_task_manager::adapters::menubar::{
    status_line, HOTKEY_STATUS_ITEM_ID, OPEN_ITEM_ID, QUIT_ITEM_ID,
};
use my_task_manager::adapters::presentation::{
    close_action, hide_outcome, toggle_action, visibility_after, HideOutcome, OverlayAction,
    OVERLAY_LABEL,
};
use my_task_manager::adapters::storage::schema::{pending, LATEST_VERSION, MIGRATIONS};
use my_task_manager::domain::rest::InterventionChoice;
use my_task_manager::domain::{Clock, Timestamp};
use my_task_manager::{should_prevent_exit, CURRENT_POSITION_CHANGED};

// --- the overlay -------------------------------------------------------------

#[test]
fn hidden_overlay_is_shown() {
    assert_eq!(toggle_action(false), OverlayAction::Show);
    assert!(visibility_after(OverlayAction::Show));
}

#[test]
fn visible_overlay_is_hidden() {
    assert_eq!(toggle_action(true), OverlayAction::Hide);
    assert!(!visibility_after(OverlayAction::Hide));
}

#[test]
fn a_close_request_hides_only_a_visible_overlay() {
    assert_eq!(close_action(true), Some(OverlayAction::Hide));
    assert_eq!(close_action(false), None);
}

#[test]
fn a_close_request_never_opens_the_overlay() {
    assert_eq!(toggle_action(false), OverlayAction::Show);
    assert_ne!(close_action(false), Some(toggle_action(false)));

    for visible in [true, false] {
        assert_ne!(
            close_action(visible),
            Some(OverlayAction::Show),
            "可視状態 {visible} でも閉じる要求は決して Show を生まない"
        );
    }
}

#[test]
fn toggle_is_an_involution() {
    let mut visible = false;
    for _ in 0..2 {
        visible = visibility_after(toggle_action(visible));
    }
    assert!(!visible);
}

#[test]
fn a_missing_window_is_never_reported_as_hidden() {
    assert_eq!(hide_outcome(false, false), HideOutcome::WindowMissing);
    assert_eq!(hide_outcome(true, false), HideOutcome::WindowMissing);

    assert_ne!(
        hide_outcome(false, false),
        HideOutcome::AlreadyHidden,
        "ウィンドウ不在を「既に隠れている」と同一視しないこと"
    );
}

#[test]
fn a_present_window_follows_the_visibility() {
    assert_eq!(hide_outcome(true, true), HideOutcome::Apply(OverlayAction::Hide));
    assert_eq!(hide_outcome(false, true), HideOutcome::AlreadyHidden);
}

#[test]
fn a_close_request_is_idempotent() {
    let mut visible = true;
    for _ in 0..2 {
        visible = match close_action(visible) {
            Some(action) => visibility_after(action),
            None => visible,
        };
    }
    assert!(!visible);
}

// --- the hotkeys -------------------------------------------------------------

const ONE_KEYPRESS: [(KeyState, bool); 2] = [(KeyState::Pressed, true), (KeyState::Released, true)];

/// Folds the firings a handler receives into (final visibility, number of toggles).
fn fold(events: &[(KeyState, bool)], initially_visible: bool) -> (bool, usize) {
    let mut visible = initially_visible;
    let mut toggles = 0;
    for &(state, is_overlay_shortcut) in events {
        if should_toggle(state, is_overlay_shortcut) {
            visible = visibility_after(toggle_action(visible));
            toggles += 1;
        }
    }
    (visible, toggles)
}

#[test]
fn one_keypress_shows_a_hidden_overlay() {
    assert_eq!(fold(&ONE_KEYPRESS, false), (true, 1));
}

#[test]
fn one_keypress_hides_a_visible_overlay() {
    assert_eq!(fold(&ONE_KEYPRESS, true), (false, 1));
}

#[test]
fn released_does_not_toggle() {
    assert!(!should_toggle(KeyState::Released, true));

    let (visible, toggles) = fold(&ONE_KEYPRESS, false);
    assert_eq!(toggles, 1, "1 押下につきトグルは 1 回だけ起きること");
    assert!(visible, "Released を処理していれば非表示に戻ってしまう");
}

#[test]
fn other_shortcuts_are_ignored() {
    assert!(!should_toggle(KeyState::Pressed, false));
    assert_eq!(fold(&[(KeyState::Pressed, false)], false), (false, 0));
}

#[test]
fn two_keypresses_return_to_the_original_state() {
    let mut events = ONE_KEYPRESS.to_vec();
    events.extend_from_slice(&ONE_KEYPRESS);
    assert_eq!(fold(&events, false), (false, 2));
}

#[test]
fn a_failed_registration_is_a_value_not_an_error() {
    let status = HotkeyStatus::failed("他のアプリケーションが保持している".to_string());

    assert!(!status.registered, "失敗は registered=false として表現される");
    assert_eq!(status.accelerator, ACCELERATOR, "失敗時もアクセラレータ表記は保持する");
    assert!(status.error.is_some(), "利用者に示す理由を保持すること");
}

#[test]
fn a_successful_registration_carries_no_error() {
    let status = HotkeyStatus::registered();
    assert!(status.registered);
    assert!(status.error.is_none());
    assert_eq!(status.accelerator, ACCELERATOR);
}

#[test]
fn each_response_shortcut_maps_to_its_own_choice() {
    assert_eq!(response_choice(KeyState::Pressed, true, false), Some(InterventionChoice::Rest));
    assert_eq!(response_choice(KeyState::Pressed, false, true), Some(InterventionChoice::Grace));
}

#[test]
fn a_released_response_is_discarded() {
    assert_eq!(response_choice(KeyState::Released, true, false), None);
    assert_eq!(response_choice(KeyState::Released, false, true), None);
}

#[test]
fn an_unrelated_shortcut_is_not_a_response() {
    assert_eq!(response_choice(KeyState::Pressed, false, false), None);
}

#[test]
fn an_ambiguous_shortcut_chooses_nothing() {
    assert_eq!(response_choice(KeyState::Pressed, true, true), None);
}

#[test]
fn the_response_accelerators_differ_from_the_overlay_accelerator() {
    assert_ne!(REST_ACCELERATOR, ACCELERATOR);
    assert_ne!(GRACE_ACCELERATOR, ACCELERATOR);
    assert_ne!(REST_ACCELERATOR, GRACE_ACCELERATOR);
}

#[test]
fn a_failed_response_registration_is_a_value_not_an_error() {
    let status = ResponseHotkeyStatus::failed("衝突".to_string());

    assert!(!status.registered);
    assert_eq!(status.rest_accelerator, REST_ACCELERATOR);
    assert_eq!(status.grace_accelerator, GRACE_ACCELERATOR);
    assert!(status.error.is_some());
}

#[test]
fn a_successful_response_registration_carries_no_error() {
    let status = ResponseHotkeyStatus::registered();
    assert!(status.registered);
    assert!(status.error.is_none());
}

#[test]
fn the_failures_of_both_response_keys_are_joined_into_one_reason() {
    let none = ResponseHotkeyStatus::from_failures(&[]);
    assert!(none.registered);
    assert!(none.error.is_none());

    let both = ResponseHotkeyStatus::from_failures(&["一".to_string(), "二".to_string()]);
    assert!(!both.registered);
    let reason = both.error.expect("理由がある");
    assert!(reason.ends_with("一 / 二"), "二つの失敗が順に並ぶ: {reason}");
}

// --- the intervention panel --------------------------------------------------

#[test]
fn the_panel_has_its_own_label() {
    assert_ne!(INTERVENTION_LABEL, OVERLAY_LABEL);
}

#[test]
fn an_already_satisfied_request_does_nothing() {
    assert_eq!(action_for(PanelAction::Show, true), None);
    assert_eq!(action_for(PanelAction::Hide, false), None);
    assert_eq!(action_for(PanelAction::Show, false), Some(PanelAction::Show));
    assert_eq!(action_for(PanelAction::Hide, true), Some(PanelAction::Hide));
}

#[test]
fn the_visibility_follows_the_action() {
    assert!(panel_visibility_after(PanelAction::Show));
    assert!(!panel_visibility_after(PanelAction::Hide));
}

#[test]
fn the_panel_sits_in_the_bottom_right_corner() {
    assert_eq!(
        corner_position((0, 0), (1920, 1080), (340, 150), 24),
        (1920 - 340 - 24, 1080 - 150 - 24)
    );
}

#[test]
fn the_panel_follows_the_screen_origin() {
    assert_eq!(
        corner_position((-1920, 200), (1920, 1080), (340, 150), 24),
        (-1920 + 1920 - 340 - 24, 200 + 1080 - 150 - 24)
    );
}

#[test]
fn an_oversized_panel_does_not_overflow() {
    let (x, y) = corner_position((0, 0), (800, 600), (2000, 2000), 24);
    assert!(x < 0 && y < 0);
}

// --- the status item ---------------------------------------------------------

#[test]
fn the_status_line_distinguishes_failure_from_success() {
    let ok = status_line(&HotkeyStatus::registered());
    let ng = status_line(&HotkeyStatus::failed("衝突".to_string()));

    assert_ne!(ok, ng, "登録の成否が文言に現れること");
    assert!(ok.contains(ACCELERATOR), "どのキーの話かを示すこと");
    assert!(ng.contains(ACCELERATOR), "失敗時もどのキーの話かを示すこと");
}

#[test]
fn the_menu_has_exactly_three_distinct_ids() {
    let ids = [OPEN_ITEM_ID, QUIT_ITEM_ID, HOTKEY_STATUS_ITEM_ID];
    for (index, id) in ids.iter().enumerate() {
        for other in &ids[index + 1..] {
            assert_ne!(id, other, "id が重なれば押下の意味が入れ替わる");
        }
    }
}

// --- autostart ---------------------------------------------------------------

#[test]
fn the_first_launch_registers_autostart() {
    assert!(should_register(false, false));
}

#[test]
fn a_user_removal_is_not_undone_by_a_later_launch() {
    assert!(!should_register(true, false));
}

#[test]
fn an_existing_registration_is_left_alone() {
    assert!(!should_register(true, true));
    assert!(!should_register(false, true));
}

#[test]
fn the_marker_has_a_file_name() {
    assert!(!REGISTRATION_MARKER.is_empty());
    assert!(!REGISTRATION_MARKER.contains('/'));
}

// --- the application menu ----------------------------------------------------

/// `SelectAll` → `select_all`.
fn snake_case(pascal: &str) -> String {
    let mut out = String::new();
    for (index, ch) in pascal.char_indices() {
        if ch.is_uppercase() && index > 0 {
            out.push('_');
        }
        out.extend(ch.to_lowercase());
    }
    out
}

#[test]
fn the_variants_and_their_constructors_are_paired() {
    for item in EDIT_MENU {
        let (variant, ctor) = (item.variant_name(), item.constructor_name());
        assert_eq!(
            &snake_case(variant),
            ctor,
            "{variant} に {ctor} が割り当てられている — 対応する打鍵が別の操作になる"
        );
    }
}

#[test]
fn every_editing_shortcut_has_a_menu_item_to_translate_it() {
    for required in [
        EditItem::Undo,
        EditItem::Redo,
        EditItem::Cut,
        EditItem::Copy,
        EditItem::Paste,
        EditItem::SelectAll,
    ] {
        assert!(EDIT_MENU.contains(&required), "{required:?} が編集メニューから落ちている");
    }
}

#[test]
fn only_separators_are_without_a_label() {
    for item in EDIT_MENU {
        let label = item.label();
        if item == EditItem::Separator {
            assert!(label.is_none(), "区切り線は文言を持たない");
        } else {
            assert!(label.is_some_and(|label| !label.is_empty()), "{item:?} に文言が無い");
        }
    }
}

#[test]
fn no_editing_item_pretends_to_quit_or_close() {
    for item in EDIT_MENU {
        let Some(label) = item.label() else { continue };
        assert!(!label.contains("終了"), "{item:?} が終了を名乗っている");
        assert!(!label.contains("閉じる"), "{item:?} が閉じるを名乗っている: {label}");
    }
    assert!(!EDIT_SUBMENU_TITLE.contains("終了"));
}

#[test]
fn the_application_submenu_comes_first() {
    assert_eq!(TOP_LEVEL.first(), Some(&TopLevelSubmenu::Application));
    assert!(TOP_LEVEL.contains(&TopLevelSubmenu::Edit), "編集メニューが最上位に無ければ、どの打鍵も変換されない");
}

#[test]
fn the_application_submenu_is_a_single_inert_row() {
    let rows = application_menu();
    assert_eq!(rows.len(), 1, "枠を埋める 1 行のほかに置くものは無い");
    for row in rows {
        assert!(!row.enabled, "{} が活性になっている", row.id);
        assert_eq!(row.accelerator, None, "{} が打鍵を束縛している", row.id);
        assert!(!row.label.is_empty(), "{} に文言が無い", row.id);
    }
}

// --- the wall clock ----------------------------------------------------------

#[test]
fn the_wall_clock_is_after_the_epoch() {
    assert!(SystemClock.now().unix_millis() > 1_577_836_800_000);
}

#[test]
fn the_wall_clock_stays_inside_the_representable_range() {
    let now = SystemClock.now();
    assert!(now >= Timestamp::min_instant() && now <= Timestamp::max_instant());
    assert_eq!(Timestamp::parse_iso8601(&now.to_iso8601()), Ok(now));
}

#[test]
fn the_wall_clock_does_not_run_backwards() {
    let first = SystemClock.now();
    let second = SystemClock.now();
    assert!(second >= first);
}

// --- the schema --------------------------------------------------------------

#[test]
fn a_fresh_database_gets_every_version() {
    assert_eq!(pending(0).len(), MIGRATIONS.len());
}

#[test]
fn an_up_to_date_database_gets_nothing() {
    assert!(pending(LATEST_VERSION).is_empty());
}

#[test]
fn a_newer_database_is_left_alone() {
    assert!(pending(LATEST_VERSION + 1).is_empty());
    assert!(pending(i64::MAX).is_empty());
}

#[test]
fn a_nonsense_version_applies_nothing() {
    assert!(pending(-1).is_empty());
    assert!(pending(i64::MIN).is_empty());
}

#[test]
fn the_first_migration_creates_the_tables() {
    let sql = pending(0);
    for table in ["CREATE TABLE task ", "CREATE TABLE step ", "CREATE TABLE current_position ", "CREATE TABLE setting "] {
        assert!(sql[0].contains(table), "{table} が作られる");
    }
}

// --- the application ---------------------------------------------------------

#[test]
fn an_implicit_exit_is_refused() {
    assert!(should_prevent_exit(None));
}

#[test]
fn an_explicit_exit_passes_through() {
    assert!(!should_prevent_exit(Some(0)));
    assert!(!should_prevent_exit(Some(1)));
    assert!(!should_prevent_exit(Some(i32::MAX)));
}

#[test]
fn the_event_name_follows_the_naming_rule() {
    assert_eq!(CURRENT_POSITION_CHANGED, "current_position_changed");
}

// --- the stored rows ---------------------------------------------------------

use my_task_manager::adapters::storage::{
    position_from_row, position_record, step_records, tasks_from_rows, StepRow,
};
use my_task_manager::domain::position::CurrentPosition;
use my_task_manager::domain::task::{InterruptionNote, StepId, Task, TaskId};

fn rows_of_tasks(tasks: &[Task]) -> Vec<StepRow> {
    let mut rows = Vec::new();
    for task in tasks {
        for record in step_records(task) {
            rows.push(StepRow {
                task_id: task.id().to_text(),
                title: task.title().to_string(),
                step_id: record.id,
                content: record.content,
                completed_at: record.completed_at,
                interruption_note: record.interruption_note,
            });
        }
    }
    rows
}

#[test]
fn a_current_position_round_trips_through_its_row() {
    let at = Timestamp::from_unix_millis(1_789_000_000_000);
    let task_id = TaskId::new(at);
    let step_id = StepId::new(at);
    for position in [
        CurrentPosition::NotStarted,
        CurrentPosition::NotStarted.move_to(task_id, step_id, at),
        CurrentPosition::NotStarted.move_to(task_id, step_id, at).deactivate(),
    ] {
        let row = position_record(position);
        assert_eq!(row.is_some(), position != CurrentPosition::NotStarted);
        assert_eq!(position_from_row(row).ok(), Some(position));
    }
}

#[test]
fn a_task_round_trips_through_its_rows() {
    let at = Timestamp::from_unix_millis(1_789_000_000_000);
    let contents = vec!["下書き".to_string(), "推敲".to_string(), "投稿".to_string()];
    let mut task = Task::create(at, "原稿".to_string(), contents).expect("作れる");
    let second = task.steps()[1].id();
    task.declare_completion(at, second).expect("完了できる");
    task.set_interruption_note(second, Some(InterruptionNote::new("3 段落目まで".to_string())))
        .expect("メモを置ける");
    let other = Task::create(at, "買い物".to_string(), vec!["米".to_string()]).expect("作れる");

    let rows = rows_of_tasks(&[task.clone(), other.clone()]);
    assert_eq!(rows.len(), 4);
    assert_eq!(tasks_from_rows(&rows, 2).ok(), Some(vec![task, other]));
}

#[test]
fn a_task_missing_from_the_rows_is_corruption() {
    let at = Timestamp::from_unix_millis(1_789_000_000_000);
    let task = Task::create(at, "原稿".to_string(), vec!["下書き".to_string()]).expect("作れる");
    let rows = rows_of_tasks(&[task]);
    assert!(matches!(
        tasks_from_rows(&rows, 2),
        Err(my_task_manager::ports::storage::StorageError::Corrupted(_))
    ));
}

#[test]
fn a_task_without_steps_is_reported_as_corruption() {
    assert!(matches!(
        tasks_from_rows(&Vec::new(), 1),
        Err(my_task_manager::ports::storage::StorageError::Corrupted(_))
    ));
}

#[test]
fn a_corrupted_identifier_is_reported() {
    let rows = vec![StepRow {
        task_id: "壊れた ID".to_string(),
        title: "原稿".to_string(),
        step_id: "s".to_string(),
        content: "下書き".to_string(),
        completed_at: None,
        interruption_note: None,
    }];
    match tasks_from_rows(&rows, 1) {
        Err(my_task_manager::ports::storage::StorageError::Corrupted(detail)) => {
            assert!(detail.contains("壊れた ID"), "どの値が壊れているかを示す: {detail}");
            let reason = uuid::Uuid::parse_str("壊れた ID").expect_err("UUID ではない");
            assert_eq!(detail, format!("タスクの ID `壊れた ID`: {reason}"), "読み手の説明をそのまま運ぶ");
        }
        other => panic!("破損として返ること: {other:?}"),
    }
}

#[test]
fn a_corrupted_instant_is_reported() {
    let at = Timestamp::from_unix_millis(1_789_000_000_000);
    let task = Task::create(at, "原稿".to_string(), vec!["下書き".to_string()]).expect("作れる");
    let mut rows = rows_of_tasks(&[task]);
    rows[0].completed_at = Some("昨日".to_string());
    assert!(matches!(
        tasks_from_rows(&rows, 1),
        Err(my_task_manager::ports::storage::StorageError::Corrupted(_))
    ));
}

#[test]
fn an_empty_commit_is_a_no_op() {
    assert!(my_task_manager::ports::storage::Commit::default().is_empty());
}

// --- the migration plan and the journal mode ---------------------------------

use my_task_manager::adapters::storage::schema::{journal_mode_accepted, migration_plan};
use my_task_manager::ports::storage::StorageError;

#[test]
fn a_nonsense_version_is_an_error_not_a_silent_no_op() {
    for version in [-1_i64, i64::from(i32::MIN)] {
        match migration_plan(version) {
            Err(StorageError::Migration(detail)) => {
                assert_eq!(detail, format!("保存された状態の版 {version} は版番号として成立しない"));
            }
            other => panic!("版 {version} は拒まれる: {other:?}"),
        }
    }
}

#[test]
fn opening_a_newer_database_is_an_error() {
    match migration_plan(LATEST_VERSION + 1) {
        Err(StorageError::Migration(detail)) => assert_eq!(
            detail,
            format!("保存された状態の版 {} はこのアプリが知る版 {LATEST_VERSION} より新しい", LATEST_VERSION + 1)
        ),
        other => panic!("新しい版は拒まれる: {other:?}"),
    }
    assert!(matches!(migration_plan(i64::MAX), Err(StorageError::Migration(_))));
}

#[test]
fn a_known_version_gets_the_pending_migrations() {
    assert_eq!(migration_plan(0).ok(), Some(MIGRATIONS.to_vec()));
    assert_eq!(migration_plan(LATEST_VERSION).ok(), Some(Vec::new()));
}

#[test]
fn only_wal_or_memory_journals_are_accepted() {
    for mode in ["wal", "WAL", "Wal", "memory", "MEMORY"] {
        assert!(journal_mode_accepted(mode), "{mode} は受け入れる");
    }
    for mode in ["delete", "truncate", "wal2", "", "ｗａｌ", "memor"] {
        assert!(!journal_mode_accepted(mode), "{mode} は受け入れない");
    }
}

// --- the start of the process ------------------------------------------------

use my_task_manager::{hotkey_status_without_overlay, startup_actions};

#[test]
fn a_missing_overlay_is_reported_as_an_unusable_hotkey() {
    let status = hotkey_status_without_overlay();
    assert!(!status.registered);
    assert_eq!(status.accelerator, ACCELERATOR);
    assert_eq!(
        status.error.as_deref(),
        Some("オーバーレイウィンドウ `main` が起動時に生成されなかった。ホットキーを押しても何も出ない。")
    );
}

#[test]
fn a_failed_hotkey_shows_the_overlay_and_a_missing_status_item_quits() {
    let ok = startup_actions(&HotkeyStatus::registered(), true);
    assert!(!ok.show_overlay && !ok.exit);
    let failed = startup_actions(&HotkeyStatus::failed("衝突".to_string()), false);
    assert!(failed.show_overlay && failed.exit);
}
