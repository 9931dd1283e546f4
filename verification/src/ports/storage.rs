//! The storage port: what the core asks of persistence.
//!
//! Two calls only: [`Storage::restore`] reads the last committed state back
//! (once, at start), and [`Storage::apply`] writes what one operation settles,
//! in a single transaction — one call, one transaction, so that a crash can
//! never leave the position moved but the completion lost.

use vstd::prelude::*;

use crate::domain::position::CurrentPosition;
use crate::domain::setting::{setting_views, Setting};
use crate::domain::switch::SwitchRecord;
use crate::domain::task::{Task, TaskView};
use crate::text::owned;

verus! {

/// The last committed state, read back at start.
#[derive(Debug)]
pub struct RestoredState {
    /// All tasks.
    pub tasks: Vec<Task>,
    /// The current position; [`CurrentPosition::NotStarted`] when nothing was written.
    pub current_position: CurrentPosition,
    /// The stored settings.
    pub settings: Vec<Setting>,
}

fn clone_tasks(tasks: &Vec<Task>) -> (copy: Vec<Task>)
    ensures
        copy@.len() == tasks@.len(),
        forall|k: int| 0 <= k < tasks@.len() ==> #[trigger] copy@[k]@ == tasks@[k]@,
{
    let mut copy: Vec<Task> = Vec::new();
    let mut i: usize = 0;
    while i < tasks.len()
        invariant
            i <= tasks@.len(),
            copy@.len() == i,
            forall|k: int| 0 <= k < i ==> #[trigger] copy@[k]@ == tasks@[k]@,
        decreases tasks.len() - i,
    {
        copy.push(tasks[i].clone());
        i = i + 1;
    }
    copy
}

fn clone_settings(settings: &Vec<Setting>) -> (copy: Vec<Setting>)
    ensures
        setting_views(copy@) == setting_views(settings@),
{
    let mut copy: Vec<Setting> = Vec::new();
    let mut i: usize = 0;
    while i < settings.len()
        invariant
            i <= settings@.len(),
            copy@.len() == i,
            forall|k: int| 0 <= k < i ==> #[trigger] copy@[k]@ == settings@[k]@,
        decreases settings.len() - i,
    {
        copy.push(settings[i].clone());
        i = i + 1;
    }
    assert(setting_views(copy@) =~= setting_views(settings@));
    copy
}

impl Clone for RestoredState {
    fn clone(&self) -> (copy: Self)
        ensures
            copy.tasks@.len() == self.tasks@.len(),
            forall|k: int| 0 <= k < self.tasks@.len() ==> #[trigger] copy.tasks@[k]@ == self.tasks@[k]@,
            copy.current_position == self.current_position,
            setting_views(copy.settings@) == setting_views(self.settings@),
    {
        RestoredState {
            tasks: clone_tasks(&self.tasks),
            current_position: self.current_position,
            settings: clone_settings(&self.settings),
        }
    }
}

impl Default for RestoredState {
    /// The state of an empty store (the first start).
    fn default() -> (state: Self)
        ensures
            state.tasks@.len() == 0,
            state.current_position == CurrentPosition::NotStarted,
            state.settings@.len() == 0,
    {
        RestoredState {
            tasks: Vec::new(),
            current_position: CurrentPosition::NotStarted,
            settings: Vec::new(),
        }
    }
}

/// What a commit writes.
pub struct CommitView {
    /// The task rewritten whole (with its steps), if any.
    pub task: Option<TaskView>,
    /// The position that replaces the stored one, if any.
    pub current_position: Option<CurrentPosition>,
    /// The switch record appended, if any.
    pub switch_record: Option<SwitchRecord>,
    /// The settings written (each replacing the stored value of its key).
    pub settings: Seq<(Seq<char>, Seq<char>)>,
}

/// The view of an optional task.
pub open spec fn task_view(task: Option<Task>) -> Option<TaskView> {
    match task {
        Some(t) => Some(t@),
        None => None,
    }
}

/// What one operation settles: the unit of a single transaction. Tasks are
/// written whole; there is no change that deletes a row.
#[derive(Debug, PartialEq)]
pub struct Commit {
    /// The task to rewrite (with its steps); `None` when it did not change.
    pub task: Option<Task>,
    /// The position to store; `None` when it did not change.
    pub current_position: Option<CurrentPosition>,
    /// The switch record to append; `None` when no switch happened.
    pub switch_record: Option<SwitchRecord>,
    /// The settings to write; empty when none changed.
    pub settings: Vec<Setting>,
}

impl View for Commit {
    type V = CommitView;

    open spec fn view(&self) -> CommitView {
        CommitView {
            task: task_view(self.task),
            current_position: self.current_position,
            switch_record: self.switch_record,
            settings: setting_views(self.settings@),
        }
    }
}

impl Clone for Commit {
    fn clone(&self) -> (copy: Self)
        ensures
            copy@ == self@,
    {
        let task = match &self.task {
            Some(task) => Some(task.clone()),
            None => None,
        };
        Commit {
            task,
            current_position: self.current_position,
            switch_record: self.switch_record,
            settings: clone_settings(&self.settings),
        }
    }
}

impl Commit {
    /// A commit that rewrites one task only.
    pub fn of_task(task: Task) -> (commit: Self)
        ensures
            commit@ == (CommitView {
                task: Some(task@),
                current_position: None,
                switch_record: None,
                settings: Seq::empty(),
            }),
    {
        let commit = Commit {
            task: Some(task),
            current_position: None,
            switch_record: None,
            settings: Vec::new(),
        };
        assert(commit@.settings =~= Seq::empty());
        commit
    }

    /// A commit that replaces the position only.
    pub fn of_current_position(current_position: CurrentPosition) -> (commit: Self)
        ensures
            commit@ == (CommitView {
                task: None,
                current_position: Some(current_position),
                switch_record: None,
                settings: Seq::empty(),
            }),
    {
        let commit = Commit {
            task: None,
            current_position: Some(current_position),
            switch_record: None,
            settings: Vec::new(),
        };
        assert(commit@.settings =~= Seq::empty());
        commit
    }

    /// A commit that writes settings only.
    pub fn of_settings(settings: Vec<Setting>) -> (commit: Self)
        ensures
            commit@ == (CommitView {
                task: None,
                current_position: None,
                switch_record: None,
                settings: setting_views(settings@),
            }),
    {
        Commit { task: None, current_position: None, switch_record: None, settings }
    }

    /// Whether there is nothing to write.
    pub fn is_empty(&self) -> (empty: bool)
        ensures
            empty == (self@.task.is_none() && self@.current_position.is_none()
                && self@.switch_record.is_none() && self@.settings.len() == 0),
    {
        self.task.is_none() && self.current_position.is_none() && self.switch_record.is_none()
            && self.settings.len() == 0
    }
}

impl Default for Commit {
    /// The empty commit.
    fn default() -> (commit: Self)
        ensures
            commit@.task.is_none(),
            commit@.current_position.is_none(),
            commit@.switch_record.is_none(),
            commit@.settings.len() == 0,
    {
        Commit { task: None, current_position: None, switch_record: None, settings: Vec::new() }
    }
}

/// Why persistence failed, carried as text in the core's words.
#[derive(Debug, Clone, PartialEq, Eq)]
pub enum StorageError {
    /// The store cannot be opened.
    Open(String),
    /// The schema could not be applied.
    Migration(String),
    /// Reading failed.
    Read(String),
    /// Writing failed.
    Write(String),
    /// What was read breaks an invariant of the core.
    Corrupted(String),
}

impl StorageError {
    /// The message shown for this error.
    pub fn message(&self) -> (message: String)
        ensures
            message@ == storage_message(*self),
    {
        let (prefix, detail) = match self {
            StorageError::Open(detail) => ("状態の保存先を開けない: ", detail),
            StorageError::Migration(detail) => ("スキーマの適用に失敗した: ", detail),
            StorageError::Read(detail) => ("状態の読み出しに失敗した: ", detail),
            StorageError::Write(detail) => ("状態の書き込みに失敗した: ", detail),
            StorageError::Corrupted(detail) => ("保存された状態が壊れている: ", detail),
        };
        let mut message = owned(prefix);
        message.append(detail.as_str());
        message
    }
}

/// The message of a storage error: a fixed prefix per kind, then the detail.
pub open spec fn storage_message(error: StorageError) -> Seq<char> {
    match error {
        StorageError::Open(detail) => "状態の保存先を開けない: "@ + detail@,
        StorageError::Migration(detail) => "スキーマの適用に失敗した: "@ + detail@,
        StorageError::Read(detail) => "状態の読み出しに失敗した: "@ + detail@,
        StorageError::Write(detail) => "状態の書き込みに失敗した: "@ + detail@,
        StorageError::Corrupted(detail) => "保存された状態が壊れている: "@ + detail@,
    }
}

/// What the core asks of persistence. An implementation writes each commit in
/// a single transaction, and a failed commit is applied not at all.
pub trait Storage {
    /// Reads the last committed state back.
    fn restore(&self) -> Result<RestoredState, StorageError>;

    /// Writes what one operation settles, in a single transaction.
    fn apply(&self, commit: &Commit) -> Result<(), StorageError>;
}

} // verus!
