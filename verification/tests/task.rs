use my_task_manager::domain::task::{InterruptionNote, Step, StepId, Task, TaskId};
use my_task_manager::domain::{DomainError, Timestamp};

fn now() -> Timestamp {
    Timestamp::from_unix_millis(1_789_000_000_000)
}

fn contents(items: &[&str]) -> Vec<String> {
    items.iter().map(|item| (*item).to_string()).collect()
}

fn a_task() -> Task {
    Task::create(now(), "原稿を仕上げる".to_string(), contents(&["下書き", "推敲", "投稿"]))
        .expect("ステップがあるので作成できる")
}

#[test]
fn a_task_is_created_with_ordinals_from_one() {
    let task = a_task();
    assert_eq!(task.steps().iter().map(Step::ordinal).collect::<Vec<_>>(), vec![1, 2, 3]);
    assert_eq!(task.steps()[0].content(), "下書き");
    assert!(task.steps().iter().all(|step| !step.is_completed()));
}

#[test]
fn a_task_without_steps_is_refused() {
    assert_eq!(
        Task::create(now(), "題名だけ".to_string(), Vec::new()),
        Err(DomainError::EmptyTask)
    );
}

#[test]
fn ids_issued_at_the_same_instant_are_distinct() {
    let task = a_task();
    let ids: std::collections::HashSet<_> = task.steps().iter().map(Step::id).collect();
    assert_eq!(ids.len(), task.steps().len());
}

#[test]
fn task_an_id_is_a_v7_uuid_stamped_by_the_core_clock() {
    let task = Task::create(now(), "題名".to_string(), contents(&["一手"])).expect("作れる");
    let text = task.id().to_text();
    let uuid = uuid::Uuid::parse_str(&text).expect("UUID として読める");
    assert_eq!(uuid.get_version_num(), 7);
    let (seconds, nanos) = uuid.get_timestamp().expect("v7 は時刻を持つ").to_unix();
    let millis = i64::try_from(seconds).expect("秒は i64 に収まる") * 1_000 + i64::from(nanos) / 1_000_000;
    assert_eq!(millis, now().unix_millis(), "壁時計ではなく渡された時刻を使う");
}

#[test]
fn an_id_from_before_the_epoch_does_not_jump_forward() {
    let id = StepId::new(Timestamp::from_unix_millis(-1));
    let uuid = uuid::Uuid::parse_str(&id.to_text()).expect("UUID として読める");
    let (seconds, nanos) = uuid.get_timestamp().expect("v7 は時刻を持つ").to_unix();
    assert_eq!((seconds, nanos), (0, 0), "epoch より前は epoch へ丸める");
}

#[test]
fn a_completion_is_recorded_at_the_declared_instant() {
    let mut task = a_task();
    let first = task.steps()[0].id();
    task.declare_completion(now(), first).expect("宣言できる");
    assert_eq!(task.step(first).expect("ある").completed_at(), Some(now()));
}

#[test]
fn a_second_declaration_keeps_the_first_instant() {
    let mut task = a_task();
    let first = task.steps()[0].id();
    task.declare_completion(now(), first).expect("宣言できる");
    let later = Timestamp::from_unix_millis(now().unix_millis() + 60_000);
    task.declare_completion(later, first).expect("再度宣言できる");
    assert_eq!(task.step(first).expect("ある").completed_at(), Some(now()));
}

#[test]
fn a_completion_can_be_revoked_explicitly() {
    let mut task = a_task();
    let first = task.steps()[0].id();
    task.declare_completion(now(), first).expect("宣言できる");
    task.revoke_completion(first).expect("取り消せる");
    assert_eq!(task.step(first).expect("ある").completed_at(), None);
}

#[test]
fn inserting_a_step_renumbers_without_changing_ids() {
    let mut task = a_task();
    let before: Vec<StepId> = task.steps().iter().map(Step::id).collect();
    let third_id = before[2];
    let inserted = task.insert_step(now(), 1, "資料を集める".to_string()).expect("挿入できる");
    assert_eq!(task.steps().iter().map(Step::ordinal).collect::<Vec<_>>(), vec![1, 2, 3, 4]);
    assert_eq!(task.steps()[0].id(), inserted);
    assert_eq!(
        task.steps()[1..].iter().map(Step::id).collect::<Vec<_>>(),
        before,
        "既存ステップの ID は挿入で変わらない"
    );
    assert_eq!(task.step(third_id).expect("ある").ordinal(), 4);
}

#[test]
fn a_step_can_be_appended_to_the_end() {
    let mut task = a_task();
    let appended = task.append_step(now(), "見直す".to_string()).expect("追記できる");
    assert_eq!(task.steps().last().expect("ある").id(), appended);
    assert_eq!(task.steps().last().expect("ある").ordinal(), 4);
}

#[test]
fn an_out_of_range_position_is_refused() {
    let mut task = a_task();
    assert_eq!(task.insert_step(now(), 0, "x".to_string()), Err(DomainError::OrdinalOutOfRange));
    assert_eq!(task.insert_step(now(), 5, "x".to_string()), Err(DomainError::OrdinalOutOfRange));
    assert!(task.insert_step(now(), 4, "x".to_string()).is_ok());
}

#[test]
fn a_split_keeps_the_original_id_and_note_on_the_first_half() {
    let mut task = a_task();
    let second = task.steps()[1].id();
    task.set_interruption_note(second, Some(InterruptionNote::new("3 段落目まで見た".to_string())))
        .expect("メモを置ける");
    let created = task
        .split_step(now(), second, "前半を推敲".to_string(), "後半を推敲".to_string())
        .expect("未完了なので分割できる");
    assert_eq!(task.steps().iter().map(Step::ordinal).collect::<Vec<_>>(), vec![1, 2, 3, 4]);
    let first_half = &task.steps()[1];
    assert_eq!(first_half.id(), second, "前半は元の ID を保つ");
    assert_eq!(first_half.content(), "前半を推敲");
    assert_eq!(
        first_half.interruption_note().map(InterruptionNote::text),
        Some("3 段落目まで見た"),
        "中断メモは前半に帰属する"
    );
    let second_half = &task.steps()[2];
    assert_eq!(second_half.id(), created);
    assert_ne!(second_half.id(), second, "後半は新しい ID を得る");
    assert_eq!(second_half.content(), "後半を推敲");
    assert_eq!(second_half.interruption_note(), None);
    assert!(!second_half.is_completed());
}

#[test]
fn splitting_a_completed_step_is_refused() {
    let mut task = a_task();
    let first = task.steps()[0].id();
    task.declare_completion(now(), first).expect("宣言できる");
    assert_eq!(
        task.split_step(now(), first, "前".to_string(), "後".to_string()),
        Err(DomainError::SplitCompleted)
    );
    assert_eq!(task.steps().len(), 3, "拒否された分割は何も変えない");
}

#[test]
fn an_unknown_step_is_an_error_not_a_panic() {
    let mut task = a_task();
    let stranger = StepId::new(now());
    assert_eq!(task.declare_completion(now(), stranger), Err(DomainError::UnknownStep));
    assert_eq!(task.revoke_completion(stranger), Err(DomainError::UnknownStep));
    assert_eq!(task.set_interruption_note(stranger, None), Err(DomainError::UnknownStep));
    assert_eq!(
        task.split_step(now(), stranger, "前".to_string(), "後".to_string()),
        Err(DomainError::UnknownStep)
    );
}

#[test]
fn rehydration_renumbers_from_the_given_order() {
    let id = TaskId::new(now());
    let steps = vec![
        Step::rehydrate(StepId::new(now()), "一".to_string(), None, None),
        Step::rehydrate(StepId::new(now()), "二".to_string(), None, None),
    ];
    let task = Task::rehydrate(id, "題名".to_string(), steps).expect("復元できる");
    assert_eq!(task.steps().iter().map(Step::ordinal).collect::<Vec<_>>(), vec![1, 2]);
}

#[test]
fn rehydrating_a_task_without_steps_is_refused() {
    assert_eq!(
        Task::rehydrate(TaskId::new(now()), "題名".to_string(), Vec::new()),
        Err(DomainError::EmptyTask)
    );
}

#[test]
fn task_an_id_round_trips_through_its_text_form() {
    let id = StepId::new(now());
    assert_eq!(StepId::parse(&id.to_text()).expect("読める"), id);
    let task_id = TaskId::new(now());
    assert_eq!(TaskId::parse(&task_id.to_text()).expect("読める"), task_id);
    assert!(StepId::parse("not-a-uuid").is_err());
}

#[test]
fn an_id_is_written_hyphenated_in_lower_case() {
    let text = StepId::new(now()).to_text();
    assert_eq!(text.len(), 36);
    for (i, c) in text.chars().enumerate() {
        if [8, 13, 18, 23].contains(&i) {
            assert_eq!(c, '-');
        } else {
            assert!(c.is_ascii_digit() || ('a'..='f').contains(&c), "{text}");
        }
    }
    // the other forms the UUID crate reads name the same id
    let simple: String = text.chars().filter(|c| *c != '-').collect();
    assert_eq!(StepId::parse(&simple).expect("読める").to_text(), text);
}

#[test]
fn a_step_content_and_a_title_can_be_replaced() {
    let mut task = a_task();
    let first = task.steps()[0].id();
    task.set_step_content(first, "書き直した".to_string()).expect("置き換えられる");
    task.rename("新しい題名".to_string());
    assert_eq!(task.steps()[0].content(), "書き直した");
    assert_eq!(task.steps()[0].id(), first);
    assert_eq!(task.title(), "新しい題名");
    assert_eq!(
        task.set_step_content(StepId::new(now()), "x".to_string()),
        Err(DomainError::UnknownStep)
    );
}

#[test]
fn every_domain_error_has_its_message() {
    assert_eq!(DomainError::EmptyTask.message(), "ステップを持たないタスクは作成できない");
    assert_eq!(DomainError::SplitCompleted.message(), "完了済みのステップは分割できない");
    assert_eq!(DomainError::UnknownTask.message(), "指定されたタスクが存在しない");
    assert_eq!(DomainError::UnknownStep.message(), "指定されたステップが存在しない");
    assert_eq!(DomainError::OrdinalOutOfRange.message(), "指定された位置はステップの範囲外である");
    assert_eq!(DomainError::NoCurrentPosition.message(), "現在地が無い");
}

#[test]
fn an_unreadable_id_says_what_is_wrong_with_it() {
    for text in ["not-a-uuid", "", "0198f0e0-0000-7000-8000-00000000000"] {
        let expected = uuid::Uuid::parse_str(text).expect_err("UUID ではない").to_string();
        assert_eq!(StepId::parse(text).expect_err("読めない").message(), expected);
        assert_eq!(TaskId::parse(text).expect_err("読めない").message(), expected);
    }
}
