//! The core state — all tasks and the one current position — and the single
//! path through which it changes.
//!
//! Every operation of [`Core`] decides on a draft, hands what it settles to the
//! storage in one commit, and changes the state in memory only when the storage
//! accepted it. A refused request writes nothing; a failed write leaves the state
//! as it was.

use vstd::prelude::*;

use super::position::{activated, activated_at_of, deactivated, moved_to, step_of, task_of, CurrentPosition};
use super::rest::{
    decide, decided, law_sleep_moves_the_grace_deadline, later_by, tick_slept, millis_of, saturate, saturating_add, seconds_or, shifted, shifted_of, Decision, Intervention,
    InterventionChoice, RestSettings, Tick, GRACE_PERIOD_KEY, REST_THRESHOLD_KEY,
    DEFAULT_GRACE_PERIOD_SECONDS, DEFAULT_REST_THRESHOLD_SECONDS, TICK_INTERVAL_MILLIS,
};
use super::setting::{index_of_key, setting_views, stored_settings, Setting};
use super::switch::SwitchRecord;
use super::task::{
    views, after_content, after_declare, after_insert, after_note, after_revoke, after_split, created,
    has_step_id, insertion_limit, is_step_index, keeps_steps, lemma_has_step_index,
    law_steps_are_never_lost, note_view, step_index, texts, InterruptionNote, Step, StepId, StepView,
    Task, TaskId, TaskView,
};
use super::error::domain_message;
use super::{clamp_millis, Clock, DomainError, Timestamp};
use crate::ports::storage::{storage_message, Commit, CommitView, RestoredState, Storage, StorageError};
use crate::text::{owned, same_text};

verus! {

broadcast use super::lemma_timestamp_view_eq;

// --- the state ---------------------------------------------------------------

/// What the core holds.
pub struct CoreView {
    /// All tasks, in the order they were created or restored.
    pub tasks: Seq<TaskView>,
    /// The one current position.
    pub current_position: CurrentPosition,
    /// The stored settings, as read.
    pub settings: Seq<(Seq<char>, Seq<char>)>,
    /// The intervention on show (never stored; none at start).
    pub intervention: Option<Intervention>,
    /// When to ask again after a grace period (never stored).
    pub grace_until: Option<Timestamp>,
    /// The previous timing tick.
    pub last_tick: Timestamp,
}

/// The core state: all tasks, the one current position, the settings, and the
/// intervention on show.
#[derive(Debug)]
pub struct CoreState {
    tasks: Vec<Task>,
    current_position: CurrentPosition,
    settings: Vec<Setting>,
    intervention: Option<Intervention>,
    grace_until: Option<Timestamp>,
    last_tick: Timestamp,
}

/// The views of a list of tasks.
pub open spec fn task_views(tasks: Seq<Task>) -> Seq<TaskView> {
    tasks.map_values(|t: Task| t@)
}

impl View for CoreState {
    type V = CoreView;

    closed spec fn view(&self) -> CoreView {
        CoreView {
            tasks: task_views(self.tasks@),
            current_position: self.current_position,
            settings: setting_views(self.settings@),
            intervention: self.intervention,
            grace_until: self.grace_until,
            last_tick: self.last_tick,
        }
    }
}

/// `i` is the first task with id `id`.
pub open spec fn is_task_index(tasks: Seq<TaskView>, id: TaskId, i: int) -> bool {
    &&& 0 <= i < tasks.len()
    &&& tasks[i].id == id
    &&& forall|j: int| 0 <= j < i ==> tasks[j].id != id
}

/// The index of the (first) task with id `id`.
pub open spec fn task_index(tasks: Seq<TaskView>, id: TaskId) -> Option<int> {
    if exists|i: int| is_task_index(tasks, id, i) {
        Some(choose|i: int| is_task_index(tasks, id, i))
    } else {
        None
    }
}

/// `i` is the first task that has the step `step`.
pub open spec fn is_owner_index(tasks: Seq<TaskView>, step: StepId, i: int) -> bool {
    &&& 0 <= i < tasks.len()
    &&& has_step_id(tasks[i].steps, step)
    &&& forall|j: int| 0 <= j < i ==> !has_step_id(tasks[j].steps, step)
}

/// The index of the (first) task that has the step `step`.
pub open spec fn owner_index(tasks: Seq<TaskView>, step: StepId) -> Option<int> {
    if exists|i: int| is_owner_index(tasks, step, i) {
        Some(choose|i: int| is_owner_index(tasks, step, i))
    } else {
        None
    }
}

/// The first index is the only one.
pub proof fn lemma_task_index(tasks: Seq<TaskView>, id: TaskId, i: int)
    requires
        is_task_index(tasks, id, i),
    ensures
        task_index(tasks, id) == Some(i),
{
    assert forall|m: int| is_task_index(tasks, id, m) implies m == i by {
        if m < i {
            assert(tasks[m].id != id);
        } else if m > i {
            assert(tasks[i].id != id);
        }
    }
}

/// The first owner is the only one.
pub proof fn lemma_owner_index(tasks: Seq<TaskView>, step: StepId, i: int)
    requires
        is_owner_index(tasks, step, i),
    ensures
        owner_index(tasks, step) == Some(i),
{
    assert forall|m: int| is_owner_index(tasks, step, m) implies m == i by {
        if m < i {
            assert(!has_step_id(tasks[m].steps, step));
        } else if m > i {
            assert(!has_step_id(tasks[i].steps, step));
        }
    }
}

/// The current position points at a step that exists, in the task it names.
pub open spec fn position_valid(state: CoreView) -> bool {
    match step_of(state.current_position) {
        None => true,
        Some(step) => exists|i: int|
            0 <= i < state.tasks.len() && #[trigger] state.tasks[i].id == task_of(
                state.current_position,
            ).unwrap() && has_step_id(state.tasks[i].steps, step),
    }
}

/// The index of the first task with id `id`.
fn index_of_task(tasks: &Vec<Task>, id: TaskId) -> (index: Option<usize>)
    ensures
        match task_index(task_views(tasks@), id) {
            Some(i) => index == Some(i as usize),
            None => index.is_none(),
        },
        index matches Some(i) ==> i < tasks@.len() && is_task_index(task_views(tasks@), id, i as int),
{
    let ghost views = task_views(tasks@);
    let mut i: usize = 0;
    while i < tasks.len()
        invariant
            views == task_views(tasks@),
            i <= tasks@.len(),
            forall|j: int| 0 <= j < i ==> views[j].id != id,
        decreases tasks.len() - i,
    {
        if tasks[i].id() == id {
            proof {
                lemma_task_index(views, id, i as int);
            }
            return Some(i);
        }
        i = i + 1;
    }
    proof {
        assert forall|m: int| !is_task_index(views, id, m) by {
            if 0 <= m < views.len() {
                assert(views[m].id != id);
            }
        }
    }
    None
}

/// The index of the first task that has the step `step`.
fn index_of_owner(tasks: &Vec<Task>, step: StepId) -> (index: Option<usize>)
    ensures
        match owner_index(task_views(tasks@), step) {
            Some(i) => index == Some(i as usize),
            None => index.is_none(),
        },
        index matches Some(i) ==> i < tasks@.len() && is_owner_index(task_views(tasks@), step, i as int),
{
    let ghost views = task_views(tasks@);
    let mut i: usize = 0;
    while i < tasks.len()
        invariant
            views == task_views(tasks@),
            i <= tasks@.len(),
            forall|j: int| 0 <= j < i ==> !has_step_id(#[trigger] views[j].steps, step),
        decreases tasks.len() - i,
    {
        let found = tasks[i].has_step(step);
        proof {
            lemma_has_step_index(views[i as int].steps, step);
        }
        if found {
            proof {
                lemma_owner_index(views, step, i as int);
            }
            return Some(i);
        }
        i = i + 1;
    }
    proof {
        assert forall|m: int| !is_owner_index(views, step, m) by {
            if 0 <= m < views.len() {
                assert(!has_step_id(views[m].steps, step));
            }
        }
    }
    None
}

fn clone_tasks(tasks: &Vec<Task>) -> (copy: Vec<Task>)
    ensures
        task_views(copy@) == task_views(tasks@),
{
    let mut copy: Vec<Task> = Vec::new();
    let mut i: usize = 0;
    while i < tasks.len()
        invariant
            i <= tasks@.len(),
            copy@.len() == i,
            forall|k: int| 0 <= k < i ==> #[trigger] copy@[k]@ == tasks@[k]@,
        decreases tasks.len() - i,
    {
        copy.push(tasks[i].clone());
        i = i + 1;
    }
    assert(task_views(copy@) =~= task_views(tasks@));
    copy
}

fn clone_settings(settings: &Vec<Setting>) -> (copy: Vec<Setting>)
    ensures
        setting_views(copy@) == setting_views(settings@),
{
    let mut copy: Vec<Setting> = Vec::new();
    let mut i: usize = 0;
    while i < settings.len()
        invariant
            i <= settings@.len(),
            copy@.len() == i,
            forall|k: int| 0 <= k < i ==> #[trigger] copy@[k]@ == settings@[k]@,
        decreases settings.len() - i,
    {
        copy.push(settings[i].clone());
        i = i + 1;
    }
    assert(setting_views(copy@) =~= setting_views(settings@));
    copy
}

impl Clone for CoreState {
    fn clone(&self) -> (copy: Self)
        ensures
            copy@ == self@,
    {
        CoreState {
            tasks: clone_tasks(&self.tasks),
            current_position: self.current_position,
            settings: clone_settings(&self.settings),
            intervention: self.intervention,
            grace_until: self.grace_until,
            last_tick: self.last_tick,
        }
    }
}

impl Default for CoreState {
    /// Nothing loaded yet; [`Core::restore`] always sets the previous tick.
    fn default() -> (state: Self)
        ensures
            state@.tasks.len() == 0,
            state@.current_position == CurrentPosition::NotStarted,
            state@.settings.len() == 0,
            state@.intervention.is_none(),
            state@.grace_until.is_none(),
            state@.last_tick@ == super::MIN_UNIX_MILLIS,
    {
        CoreState {
            tasks: Vec::new(),
            current_position: CurrentPosition::NotStarted,
            settings: Vec::new(),
            intervention: None,
            grace_until: None,
            last_tick: Timestamp::min_instant(),
        }
    }
}

/// The text of the corruption where the position points at no step.
pub open spec fn dangling_position_text() -> Seq<char> {
    "現在地が存在しないステップを指している"@
}

/// The text of the corruption where the position names another task than the
/// one its step belongs to.
pub open spec fn mismatched_position_text() -> Seq<char> {
    "現在地のタスクとステップの対応が食い違っている"@
}

/// A restored state the core accepts: its position, if any, points at a step
/// that exists, in the task it names.
pub open spec fn restorable(restored: RestoredState) -> bool {
    let tasks = task_views(restored.tasks@);
    match step_of(restored.current_position) {
        None => true,
        Some(s) => match owner_index(tasks, s) {
            Some(i) => tasks[i].id == task_of(restored.current_position).unwrap(),
            None => false,
        },
    }
}

/// The state held after restoring `restored` at `now`: what was read, and no
/// intervention, no grace period.
pub open spec fn restored_view(restored: RestoredState, now: Timestamp) -> CoreView {
    CoreView {
        tasks: task_views(restored.tasks@),
        current_position: restored.current_position,
        settings: setting_views(restored.settings@),
        intervention: None,
        grace_until: None,
        last_tick: now,
    }
}

impl CoreState {
    /// All tasks.
    pub fn tasks(&self) -> (tasks: &[Task])
        ensures
            task_views(tasks@) == self@.tasks,
    {
        self.tasks.as_slice()
    }

    /// The one current position.
    pub fn current_position(&self) -> (position: CurrentPosition)
        ensures
            position == self@.current_position,
    {
        self.current_position
    }

    /// The task with the given id.
    pub fn task(&self, id: TaskId) -> (task: Option<&Task>)
        ensures
            match task_index(self@.tasks, id) {
                Some(i) => task matches Some(t) && t@ == self@.tasks[i],
                None => task.is_none(),
            },
    {
        match index_of_task(&self.tasks, id) {
            Some(i) => {
                assert(self@.tasks[i as int] == self.tasks@[i as int]@);
                Some(&self.tasks[i])
            },
            None => None,
        }
    }

    /// The task that has the given step (step ids are unique UUIDs, so the
    /// caller need not name the task).
    pub fn task_of_step(&self, step_id: StepId) -> (task: Option<&Task>)
        ensures
            match owner_index(self@.tasks, step_id) {
                Some(i) => task matches Some(t) && t@ == self@.tasks[i],
                None => task.is_none(),
            },
    {
        match index_of_owner(&self.tasks, step_id) {
            Some(i) => {
                assert(self@.tasks[i as int] == self.tasks@[i as int]@);
                Some(&self.tasks[i])
            },
            None => None,
        }
    }

    /// The step the current position points at; `None` when not started.
    pub fn step_at_current_position(&self) -> (step: Option<&Step>)
        ensures
            match step_of(self@.current_position) {
                None => step.is_none(),
                Some(s) => match owner_index(self@.tasks, s) {
                    None => step.is_none(),
                    Some(i) => step matches Some(found) && found@ == self@.tasks[i].steps[step_index(
                        self@.tasks[i].steps,
                        s,
                    ).unwrap()],
                },
            },
    {
        let step_id = match self.current_position.step_id() {
            Some(step_id) => step_id,
            None => return None,
        };
        let task = match self.task_of_step(step_id) {
            Some(task) => task,
            None => return None,
        };
        proof {
            lemma_has_step_index(task@.steps, step_id);
        }
        task.step(step_id)
    }

    /// The rest threshold and the grace period; the constants when nothing is stored.
    pub fn rest_settings(&self) -> (rest: RestSettings)
        ensures
            rest.threshold() == seconds_or(
                self@.settings,
                REST_THRESHOLD_KEY@,
                DEFAULT_REST_THRESHOLD_SECONDS as int,
            ),
            rest.grace() == seconds_or(
                self@.settings,
                GRACE_PERIOD_KEY@,
                DEFAULT_GRACE_PERIOD_SECONDS as int,
            ),
    {
        RestSettings::from_settings(self.settings.as_slice())
    }

    /// The stored settings, as read.
    pub fn settings(&self) -> (settings: &[Setting])
        ensures
            setting_views(settings@) == self@.settings,
    {
        self.settings.as_slice()
    }

    /// The intervention on show.
    pub fn intervention(&self) -> (intervention: Option<Intervention>)
        ensures
            intervention == self@.intervention,
    {
        self.intervention
    }

    /// Whether the user is at rest: the position keeps its value and is
    /// inactive (not started is no rest).
    pub fn is_resting(&self) -> (resting: bool)
        ensures
            resting == (self@.current_position is Inactive),
    {
        match self.current_position {
            CurrentPosition::Inactive { .. } => true,
            _ => false,
        }
    }

    /// Builds the state from what the storage read back, with the previous tick
    /// at `now` and no intervention on show. A position that points at no step,
    /// or names another task than its step's, is reported as corruption.
    pub fn from_restored(restored: RestoredState, now: Timestamp) -> (state: Result<Self, StorageError>)
        ensures
            ({
                let tasks = task_views(restored.tasks@);
                let position = restored.current_position;
                &&& restorable(restored) ==> (state matches Ok(st) && st@ == restored_view(restored, now))
                &&& (step_of(position) matches Some(s) && owner_index(tasks, s).is_none()) ==> (
                state matches Err(StorageError::Corrupted(text)) && text@
                    == dangling_position_text())
                &&& (step_of(position) matches Some(s) && owner_index(tasks, s) matches Some(i)
                    && tasks[i].id != task_of(position).unwrap()) ==> (state matches Err(
                    StorageError::Corrupted(text),
                ) && text@ == mismatched_position_text())
            }),
            state matches Ok(st) ==> position_valid(st@),
    {
        let RestoredState { tasks, current_position, settings } = restored;
        let ghost views = task_views(tasks@);
        if let Some(step_id) = current_position.step_id() {
            match index_of_owner(&tasks, step_id) {
                Some(i) => {
                    if Some(tasks[i].id()) != current_position.task_id() {
                        return Err(
                            StorageError::Corrupted(owned("現在地のタスクとステップの対応が食い違っている")),
                        );
                    }
                    proof {
                        assert(views[i as int].id == task_of(current_position).unwrap());
                        assert(has_step_id(views[i as int].steps, step_id));
                    }
                },
                None => {
                    return Err(StorageError::Corrupted(owned("現在地が存在しないステップを指している")));
                },
            }
        }
        let state = CoreState {
            tasks,
            current_position,
            settings,
            intervention: None,
            grace_until: None,
            last_tick: now,
        };
        assert(state@.tasks == views);
        Ok(state)
    }
}


// --- the single path of change --------------------------------------------------

/// Why a state-changing operation failed.
#[derive(Debug, Clone, PartialEq, Eq)]
pub enum CoreError {
    /// The request breaks an invariant of the domain; nothing changed.
    Domain(DomainError),
    /// Persisting failed; the state in memory did not change either, so that a
    /// change can never vanish silently at the next start.
    Storage(StorageError),
}

/// The message shown for a failed operation.
pub open spec fn core_message(error: CoreError) -> Seq<char> {
    match error {
        CoreError::Domain(e) => domain_message(e),
        CoreError::Storage(e) => storage_message(e),
    }
}

impl CoreError {
    /// The message shown for this error.
    pub fn message(&self) -> (message: String)
        ensures
            message@ == core_message(*self),
    {
        match self {
            CoreError::Domain(error) => error.message(),
            CoreError::Storage(error) => error.message(),
        }
    }
}

/// The state with task `i` replaced by `task`.
pub open spec fn with_task(state: CoreView, i: int, task: TaskView) -> CoreView {
    CoreView { tasks: state.tasks.update(i, task), ..state }
}

/// The state with the position replaced.
pub open spec fn with_position(state: CoreView, position: CurrentPosition) -> CoreView {
    CoreView { current_position: position, ..state }
}

/// A commit that rewrites one task only.
pub open spec fn task_commit(task: TaskView) -> CommitView {
    CommitView { task: Some(task), current_position: None, switch_record: None, settings: Seq::empty() }
}

/// A commit that replaces the position only.
pub open spec fn position_commit(position: CurrentPosition) -> CommitView {
    CommitView {
        task: None,
        current_position: Some(position),
        switch_record: None,
        settings: Seq::empty(),
    }
}

/// The index, within task `i`, of the step `step`.
pub open spec fn step_at(tasks: Seq<TaskView>, i: int, step: StepId) -> int {
    step_index(tasks[i].steps, step).unwrap()
}

/// The single owner of the state: every change goes through its methods, which
/// decide on a draft, hand the storage one commit, and change the state only
/// when the storage accepted it.
pub struct Core<C: Clock, S: Storage> {
    state: CoreState,
    clock: C,
    storage: S,
    journal: Ghost<Seq<(CommitView, Result<(), StorageError>)>>,
    readings: Ghost<Seq<Timestamp>>,
    origin: Ghost<RestoredState>,
}

impl<C: Clock, S: Storage> View for Core<C, S> {
    type V = CoreView;

    closed spec fn view(&self) -> CoreView {
        self.state@
    }
}

/// The core as built from what the storage handed back: exactly that state,
/// with the timing starting at the one clock reading taken, and nothing handed
/// to the storage yet.
pub open spec fn restored_core<C: Clock, S: Storage>(c: Core<C, S>) -> bool {
    &&& c.readings().len() == 1
    &&& restorable(c.restored_from())
    &&& c@ == restored_view(c.restored_from(), c.readings()[0])
    &&& c.journal().len() == 0
}

/// A restored core holds what the storage handed back — its tasks, its
/// current position (never forgotten at start-up) and its settings — with no
/// intervention on show, no grace period, and the timing starting at the
/// reading taken while restoring.
pub proof fn law_restore_keeps_what_was_stored<C: Clock, S: Storage>(c: Core<C, S>)
    requires
        restored_core(c),
    ensures
        c@.tasks == task_views(c.restored_from().tasks@),
        c@.current_position == c.restored_from().current_position,
        c@.settings == setting_views(c.restored_from().settings@),
        c@.intervention.is_none(),
        c@.grace_until.is_none(),
        c@.last_tick == c.readings()[0],
{
}

/// The call read the clock exactly once.
pub open spec fn read_once<C: Clock, S: Storage>(before: Core<C, S>, after: Core<C, S>) -> bool {
    after.readings() == before.readings().push(reading(after))
}

/// The last clock reading taken: for a call that read the clock once, the
/// instant that call read.
pub open spec fn reading<C: Clock, S: Storage>(core: Core<C, S>) -> Timestamp {
    core.readings().last()
}

/// Declaring the completion of `step_id` read the clock once and wrote its
/// task in one commit, with the step stamped at that reading (unless it was
/// already completed); an unknown step reads nothing.
pub open spec fn declared_at_reading<C: Clock, S: Storage>(
    before: Core<C, S>,
    after: Core<C, S>,
    step_id: StepId,
    result: Result<(), CoreError>,
) -> bool {
    owner_index(before@.tasks, step_id) matches Some(i) ==> {
        &&& read_once(before, after)
        &&& task_written(
            before,
            after,
            i,
            after_declare(before@.tasks[i], step_at(before@.tasks, i, step_id), reading(after)),
            result,
            (),
        )
    }
}

/// A declared completion carries the instant the declaring call read from the
/// clock — not the start of the work time, nor any other earlier instant —
/// unless the step was already completed, when it keeps its first instant.
/// The step keeps its place and its id, and the call answers `Ok(())`.
pub proof fn law_completion_is_stamped_with_the_reading<C: Clock, S: Storage>(
    before: Core<C, S>,
    after: Core<C, S>,
    step_id: StepId,
    result: Result<(), CoreError>,
    i: int,
)
    requires
        declared_at_reading(before, after, step_id, result),
        owner_index(before@.tasks, step_id) == Some(i),
        accepted(after),
    ensures
        result == Ok::<(), CoreError>(()),
        after.readings() == before.readings().push(reading(after)),
        ({
            let j = step_index(before@.tasks[i].steps, step_id).unwrap();
            let was = before@.tasks[i].steps[j].completed_at;
            &&& 0 <= j < after@.tasks[i].steps.len()
            &&& after@.tasks[i].steps[j].id == step_id
            &&& after@.tasks[i].steps[j].completed_at == (if was is None {
                Some(reading(after))
            } else {
                was
            })
        }),
{
    let tasks = before@.tasks;
    assert(is_owner_index(tasks, step_id, i));
    lemma_has_step_index(tasks[i].steps, step_id);
}

/// A switch from an existing step read the clock once and settled at that
/// reading (see [`switch_settles`]).
pub open spec fn switched_at_reading<C: Clock, S: Storage>(
    before: Core<C, S>,
    after: Core<C, S>,
    note: Option<Seq<char>>,
    declare: bool,
    result: Result<Option<StepId>, CoreError>,
) -> bool {
    step_of(before@.current_position) matches Some(departed) ==> (owner_index(before@.tasks, departed) matches Some(
        i,
    ) ==> {
        &&& read_once(before, after)
        &&& switch_settles(before, after, result, i, departed, note, declare, reading(after))
    })
}

/// A switch that declares the completion of the step it leaves stamps that
/// step with the instant the switching call read from the clock (a step
/// already completed keeps its first instant), and the switch record it writes
/// is dated at that same reading and names the step left.
pub proof fn law_switch_is_dated_at_the_reading<C: Clock, S: Storage>(
    before: Core<C, S>,
    after: Core<C, S>,
    note: Option<Seq<char>>,
    result: Result<Option<StepId>, CoreError>,
    departed: StepId,
    i: int,
)
    requires
        switched_at_reading(before, after, note, true, result),
        step_of(before@.current_position) == Some(departed),
        owner_index(before@.tasks, departed) == Some(i),
        result is Ok,
    ensures
        after.readings() == before.readings().push(reading(after)),
        ({
            let j = step_index(before@.tasks[i].steps, departed).unwrap();
            let was = before@.tasks[i].steps[j].completed_at;
            &&& 0 <= j < after@.tasks[i].steps.len()
            &&& after@.tasks[i].steps[j].id == departed
            &&& after@.tasks[i].steps[j].completed_at == (if was is None {
                Some(reading(after))
            } else {
                was
            })
        }),
        after.journal().len() > before.journal().len() ==> (after.journal().last().0.switch_record matches Some(r)
            && r.occurred() == reading(after) && r.departed() == departed),
{
    let tasks = before@.tasks;
    assert(is_owner_index(tasks, departed, i));
    lemma_has_step_index(tasks[i].steps, departed);
}

/// The grace period stored in `settings`, in milliseconds (the constant when
/// none is stored).
pub open spec fn grace_period_millis_of(settings: Seq<(Seq<char>, Seq<char>)>) -> int {
    saturate(seconds_or(settings, GRACE_PERIOD_KEY@, DEFAULT_GRACE_PERIOD_SECONDS as int) * 1000)
}

/// Answering an intervention on show with a grace period read the clock once,
/// closed the intervention, and set the deadline the grace period after that
/// reading; nothing else changed and nothing was written.
pub open spec fn granted_from_reading<C: Clock, S: Storage>(
    before: Core<C, S>,
    after: Core<C, S>,
    choice: InterventionChoice,
    result: Result<bool, CoreError>,
) -> bool {
    (before@.intervention.is_some() && choice == InterventionChoice::Grace) ==> {
        &&& read_once(before, after)
        &&& result == Ok::<bool, CoreError>(true)
        &&& after.journal() == before.journal()
        &&& after@.grace_until matches Some(g)
        &&& g@ == shifted_of(reading(after), grace_period_millis_of(before@.settings))
        &&& after@ == (CoreView { grace_until: after@.grace_until, intervention: None, ..before@ })
    }
}

/// A grace period is counted from the answer: the deadline is exactly the
/// grace period (the stored one, else the constant) after the instant the
/// answering call read from the clock — not after the instant the
/// intervention was raised. The intervention closes, the position, the tasks
/// and the settings stay, and nothing is written.
pub proof fn law_grace_counts_from_the_answer<C: Clock, S: Storage>(
    before: Core<C, S>,
    after: Core<C, S>,
    result: Result<bool, CoreError>,
)
    requires
        granted_from_reading(before, after, InterventionChoice::Grace, result),
        before@.intervention.is_some(),
    ensures
        result == Ok::<bool, CoreError>(true),
        after.readings() == before.readings().push(reading(after)),
        after.journal() == before.journal(),
        after@.intervention.is_none(),
        after@.current_position == before@.current_position,
        after@.tasks == before@.tasks,
        after@.settings == before@.settings,
        after@.grace_until matches Some(g) && g@ == clamp_millis(
            saturate(
                reading(after)@ + saturate(
                    seconds_or(before@.settings, GRACE_PERIOD_KEY@, DEFAULT_GRACE_PERIOD_SECONDS as int) * 1000,
                ),
            ),
        ),
{
}

/// Nothing changed and nothing was handed to the storage.
pub open spec fn untouched<C: Clock, S: Storage>(before: Core<C, S>, after: Core<C, S>) -> bool {
    after@ == before@ && after.journal() == before.journal()
}

/// What the storage answered to the last commit handed to it.
pub open spec fn outcome<C: Clock, S: Storage>(core: Core<C, S>) -> Result<(), StorageError> {
    core.journal().last().1
}

/// Whether the storage accepted the last commit handed to it.
pub open spec fn accepted<C: Clock, S: Storage>(core: Core<C, S>) -> bool {
    outcome(core) is Ok
}

/// One commit was handed to the storage, and the state became `next` exactly
/// when the storage accepted it (otherwise it stayed as it was).
pub open spec fn committed<C: Clock, S: Storage>(
    before: Core<C, S>,
    after: Core<C, S>,
    commit: CommitView,
    next: CoreView,
) -> bool {
    &&& after.journal() == before.journal().push((commit, outcome(after)))
    &&& if accepted(after) {
        after@ == next
    } else {
        after@ == before@
    }
}

/// The result answers the write: `Ok(value)` when the storage accepted the
/// commit, and the very error the storage gave when it refused it.
pub open spec fn answered<T>(result: Result<T, CoreError>, written: Result<(), StorageError>, value: T) -> bool {
    match written {
        Ok(_) => result == Ok::<T, CoreError>(value),
        Err(error) => result == Err::<T, CoreError>(CoreError::Storage(error)),
    }
}

/// Task `i` was rewritten as `task` in one commit, answered with `value`.
pub open spec fn task_written<C: Clock, S: Storage, T>(
    before: Core<C, S>,
    after: Core<C, S>,
    i: int,
    task: TaskView,
    result: Result<T, CoreError>,
    value: T,
) -> bool {
    &&& committed(before, after, task_commit(task), with_task(before@, i, task))
    &&& answered(result, outcome(after), value)
}

/// The position was replaced by `position` in one commit, answered with `value`.
pub open spec fn position_written<C: Clock, S: Storage, T>(
    before: Core<C, S>,
    after: Core<C, S>,
    position: CurrentPosition,
    result: Result<T, CoreError>,
    value: T,
) -> bool {
    &&& committed(before, after, position_commit(position), with_position(before@, position))
    &&& answered(result, outcome(after), value)
}

/// Moving the position to `step_id` was answered with `result`: an unknown
/// step is refused with nothing changed; otherwise the position moves to that
/// step of its task at the instant read, in one commit unless it already was
/// there (see [`Core::move_current_position`]).
pub open spec fn position_moved<C: Clock, S: Storage>(
    before: Core<C, S>,
    after: Core<C, S>,
    step_id: StepId,
    result: Result<(), CoreError>,
) -> bool {
    match owner_index(before@.tasks, step_id) {
        None => result == Err::<(), CoreError>(CoreError::Domain(DomainError::UnknownStep))
            && untouched(before, after),
        Some(i) => exists|now: Timestamp|
            #![trigger moved_to(before@.current_position, before@.tasks[i].id, step_id, now)]
            {
                let moved = moved_to(before@.current_position, before@.tasks[i].id, step_id, now);
                if moved == before@.current_position {
                    result == Ok::<(), CoreError>(()) && untouched(before, after)
                } else {
                    position_written(before, after, moved, result, ())
                }
            },
    }
}

/// Moving to an existing step read the clock once and moved the position as
/// [`position_moved`] says, at that reading.
pub open spec fn moved_at_reading<C: Clock, S: Storage>(
    before: Core<C, S>,
    after: Core<C, S>,
    step_id: StepId,
    result: Result<(), CoreError>,
) -> bool {
    owner_index(before@.tasks, step_id) matches Some(i) ==> {
        let moved = moved_to(before@.current_position, before@.tasks[i].id, step_id, reading(after));
        &&& read_once(before, after)
        &&& if moved == before@.current_position {
            result == Ok::<(), CoreError>(()) && untouched(before, after)
        } else {
            position_written(before, after, moved, result, ())
        }
    }
}

/// A write the storage refused changes nothing in memory: the state is the
/// one before the operation, and the journal only records the refused commit.
pub proof fn law_failed_write_changes_nothing<C: Clock, S: Storage>(
    before: Core<C, S>,
    after: Core<C, S>,
    commit: CommitView,
    next: CoreView,
)
    requires
        committed(before, after, commit, next),
        !accepted(after),
    ensures
        after@ == before@,
        after.journal() == before.journal().push((commit, outcome(after))),
        outcome(after) is Err,
{
}

/// A write the storage refused is answered with the very error the storage
/// gave, and leaves the state as it was.
pub proof fn law_refused_write_answers_its_error<C: Clock, S: Storage, T>(
    before: Core<C, S>,
    after: Core<C, S>,
    commit: CommitView,
    next: CoreView,
    result: Result<T, CoreError>,
    value: T,
    error: StorageError,
)
    requires
        committed(before, after, commit, next),
        answered(result, outcome(after), value),
        outcome(after) == Err::<(), StorageError>(error),
    ensures
        after@ == before@,
        result == Err::<T, CoreError>(CoreError::Storage(error)),
{
}

/// A write the storage accepted is reflected in memory exactly.
pub proof fn law_accepted_write_is_reflected<C: Clock, S: Storage>(
    before: Core<C, S>,
    after: Core<C, S>,
    commit: CommitView,
    next: CoreView,
)
    requires
        committed(before, after, commit, next),
        accepted(after),
    ensures
        after@ == next,
        after.journal() == before.journal().push((commit, Ok::<(), StorageError>(()))),
{
    let written = outcome(after);
    assert(written == Ok::<(), StorageError>(())) by {
        assert(written->Ok_0 == ());
    }
}

/// A task change that keeps every step keeps the position valid.
proof fn lemma_valid_with_task(state: CoreView, i: int, task: TaskView)
    requires
        position_valid(state),
        0 <= i < state.tasks.len(),
        keeps_steps(state.tasks[i], task),
    ensures
        position_valid(with_task(state, i, task)),
{
    let after = with_task(state, i, task);
    if let Some(step) = step_of(state.current_position) {
        let k = choose|k: int|
            0 <= k < state.tasks.len() && #[trigger] state.tasks[k].id == task_of(
                state.current_position,
            ).unwrap() && has_step_id(state.tasks[k].steps, step);
        if k == i {
            assert(after.tasks[k].id == task_of(state.current_position).unwrap());
        } else {
            assert(after.tasks[k] == state.tasks[k]);
        }
    }
}

/// Adding a task keeps the position valid.
proof fn lemma_valid_with_new_task(state: CoreView, task: TaskView)
    requires
        position_valid(state),
    ensures
        position_valid(CoreView { tasks: state.tasks.push(task), ..state }),
{
    let after = CoreView { tasks: state.tasks.push(task), ..state };
    if let Some(step) = step_of(state.current_position) {
        let k = choose|k: int|
            0 <= k < state.tasks.len() && #[trigger] state.tasks[k].id == task_of(
                state.current_position,
            ).unwrap() && has_step_id(state.tasks[k].steps, step);
        assert(after.tasks[k] == state.tasks[k]);
    }
}

/// A position that points at a step of the task that owns it is valid.
proof fn lemma_valid_position(state: CoreView, i: int, position: CurrentPosition)
    requires
        0 <= i < state.tasks.len(),
        step_of(position) matches Some(s) && has_step_id(state.tasks[i].steps, s),
        task_of(position) == Some(state.tasks[i].id),
    ensures
        position_valid(with_position(state, position)),
{
    assert(with_position(state, position).tasks[i].id == task_of(position).unwrap());
}

/// The task after leaving its step `j` in a switch: the note first (only when
/// one was written), then the completion (only when declared).
pub open spec fn switch_draft(task: TaskView, j: int, note: Option<Seq<char>>, declare: bool, now: Timestamp) -> TaskView {
    let noted = if note.is_some() {
        after_note(task, j, note)
    } else {
        task
    };
    if declare {
        after_declare(noted, j, now)
    } else {
        noted
    }
}

/// The step after step `j` of the task, if any (completed steps are not skipped).
pub open spec fn next_after(task: TaskView, j: int) -> Option<StepId> {
    if j + 1 < task.steps.len() {
        Some(task.steps[j + 1].id)
    } else {
        None
    }
}

/// The commit of a switch: the task when it changed, the move when there is
/// one, and the record.
pub open spec fn switch_commit(
    changed: bool,
    draft: TaskView,
    moved: Option<CurrentPosition>,
    record: SwitchRecord,
) -> CommitView {
    CommitView {
        task: if changed {
            Some(draft)
        } else {
            None
        },
        current_position: moved,
        switch_record: Some(record),
        settings: Seq::empty(),
    }
}

/// The state after a switch from task `i`.
pub open spec fn switched(
    state: CoreView,
    i: int,
    changed: bool,
    draft: TaskView,
    moved: Option<CurrentPosition>,
) -> CoreView {
    CoreView {
        tasks: if changed {
            state.tasks.update(i, draft)
        } else {
            state.tasks
        },
        current_position: match moved {
            Some(p) => p,
            None => state.current_position,
        },
        ..state
    }
}

/// The texts of the edits of step contents.
pub open spec fn edit_views(contents: Seq<(StepId, String)>) -> Seq<(StepId, Seq<char>)> {
    contents.map_values(|edit: (StepId, String)| (edit.0, edit.1@))
}

/// The task after replacing step contents, one edit after the other.
pub open spec fn edited(task: TaskView, edits: Seq<(StepId, Seq<char>)>) -> TaskView
    decreases edits.len(),
{
    if edits.len() == 0 {
        task
    } else {
        let t = edited(task, edits.drop_last());
        after_content(t, step_index(t.steps, edits.last().0).unwrap(), edits.last().1)
    }
}

/// The task after appending steps `ids` with `contents`, in order.
pub open spec fn appended(task: TaskView, ids: Seq<StepId>, contents: Seq<Seq<char>>) -> TaskView
    decreases ids.len(),
{
    if ids.len() == 0 || contents.len() == 0 {
        task
    } else {
        let t = appended(task, ids.drop_last(), contents.drop_last());
        after_insert(t, insertion_limit(t.steps.len()) as int, ids.last(), contents.last())
    }
}

/// The position with the start of its work time moved to `at`, when the
/// decision moved it; `None` when nothing is to be written.
pub open spec fn adjusted_of(position: CurrentPosition, at: Option<Timestamp>) -> Option<CurrentPosition> {
    match at {
        None => None,
        Some(a) => if activated_at_of(position) == Some(a) {
            None
        } else {
            match position {
                CurrentPosition::NotStarted => None,
                CurrentPosition::Active { task_id, step_id, .. } => Some(
                    CurrentPosition::Active { task_id, step_id, activated_at: a },
                ),
                CurrentPosition::Inactive { task_id, step_id, .. } => Some(
                    CurrentPosition::Inactive { task_id, step_id, activated_at: a },
                ),
            }
        },
    }
}

/// What a tick at `now` looks at.
pub open spec fn tick_of(state: CoreView, now: Timestamp, settings: RestSettings) -> Tick {
    Tick {
        position: state.current_position,
        now,
        previous: state.last_tick,
        interval_millis: TICK_INTERVAL_MILLIS,
        settings,
        grace_until: state.grace_until,
        showing: state.intervention.is_some(),
    }
}

/// The decision in milliseconds.
pub open spec fn decision_millis(d: Decision) -> (Option<int>, Option<int>, bool) {
    (millis_of(d.activated_at), millis_of(d.grace_until), d.raise)
}

/// `rest` holds the stored settings (or the constants).
pub open spec fn reads_settings(rest: RestSettings, settings: Seq<(Seq<char>, Seq<char>)>) -> bool {
    &&& rest.threshold() == seconds_or(settings, REST_THRESHOLD_KEY@, DEFAULT_REST_THRESHOLD_SECONDS as int)
    &&& rest.grace() == seconds_or(settings, GRACE_PERIOD_KEY@, DEFAULT_GRACE_PERIOD_SECONDS as int)
}

/// The state after a tick at `now` that decided `d`.
pub open spec fn ticked(state: CoreView, now: Timestamp, d: Decision) -> CoreView {
    CoreView {
        current_position: match adjusted_of(state.current_position, d.activated_at) {
            Some(p) => p,
            None => state.current_position,
        },
        grace_until: d.grace_until,
        intervention: if d.raise {
            Some(Intervention::raised_on(now))
        } else {
            state.intervention
        },
        last_tick: now,
        ..state
    }
}

/// What a tick at `now`, reading the rest settings `rest`, settles when it
/// decided `d` (see [`Core::tick`]).
pub open spec fn tick_settles<C: Clock, S: Storage>(
    before: Core<C, S>,
    after: Core<C, S>,
    result: Result<TickEffect, CoreError>,
    now: Timestamp,
    rest: RestSettings,
    d: Decision,
) -> bool {
    &&& reads_settings(rest, before@.settings)
    &&& decision_millis(d) == decided(tick_of(before@, now, rest))
    &&& match adjusted_of(before@.current_position, d.activated_at) {
        None => result == Ok::<TickEffect, CoreError>(TickEffect { raised: d.raise }) && after@ == ticked(
            before@,
            now,
            d,
        ) && after.journal() == before.journal(),
        Some(p) => committed(before, after, position_commit(p), ticked(before@, now, d)) && answered(
            result,
            outcome(after),
            TickEffect { raised: d.raise },
        ),
    }
}

/// A tick that finds the machine slept for less than the rest threshold
/// during a grace period moves the grace deadline by the time slept: the
/// intervention comes back only once the reading reaches the moved deadline
/// (and none is on show); until then the core keeps the moved deadline.
pub proof fn law_tick_moves_the_grace_deadline_by_the_sleep<C: Clock, S: Storage>(
    before: Core<C, S>,
    after: Core<C, S>,
    result: Result<TickEffect, CoreError>,
    rest: RestSettings,
    d: Decision,
)
    requires
        tick_settles(before, after, result, reading(after), rest, d),
        result is Ok,
        before@.current_position is Active,
        before@.grace_until is Some,
        0 < tick_slept(tick_of(before@, reading(after), rest)) < rest.threshold_millis(),
    ensures
        ({
            let deadline = later_by(before@.grace_until->0, tick_slept(tick_of(before@, reading(after), rest)));
            let raised = before@.intervention.is_none() && reading(after)@ >= deadline;
            &&& raised ==> after@.intervention == Some(Intervention::raised_on(reading(after)))
                && after@.grace_until is None
            &&& !raised ==> after@.intervention == before@.intervention && (after@.grace_until matches Some(g)
                && g@ == deadline)
            &&& result == Ok::<TickEffect, CoreError>(TickEffect { raised })
            &&& after@.last_tick == reading(after)
        }),
{
    law_sleep_moves_the_grace_deadline(tick_of(before@, reading(after), rest), d);
}

/// What a tick tells the presentation: whether an intervention was raised.
#[derive(Debug, Clone, Copy, PartialEq, Eq, Structural)]
pub struct TickEffect {
    /// An intervention was raised; the adapter shows the panel.
    pub raised: bool,
}

/// The step after `step` in the task (completed steps are not skipped).
fn next_step_of(task: &Task, step_id: StepId) -> (next: Option<StepId>)
    ensures
        match step_index(task@.steps, step_id) {
            None => next.is_none(),
            Some(j) => next == next_after(task@, j),
        },
{
    let index = match task.index_of(step_id) {
        Some(index) => index,
        None => return None,
    };
    let steps = task.steps();
    let len = steps.len();
    assert(task@.steps.len() == steps@.len());
    assert(index < len);
    if index + 1 < len {
        Some(steps[index + 1].id())
    } else {
        None
    }
}

/// The position whose work time starts where the decision says, when that
/// moved; `None` when nothing is to be written (an idle tick writes nothing).
fn adjusted_position(position: CurrentPosition, decision: &Decision) -> (adjusted: Option<CurrentPosition>)
    ensures
        adjusted == adjusted_of(position, decision.activated_at),
{
    let activated_at = match decision.activated_at {
        Some(at) => at,
        None => return None,
    };
    if position.activated_at() == Some(activated_at) {
        return None;
    }
    match (position.task_id(), position.step_id()) {
        (Some(task_id), Some(step_id)) => Some(
            CurrentPosition::rehydrate(task_id, step_id, position.is_active(), activated_at),
        ),
        _ => None,
    }
}

/// Keeping every step is transitive.
proof fn lemma_keeps_trans(a: TaskView, b: TaskView, c: TaskView)
    requires
        keeps_steps(a, b),
        keeps_steps(b, c),
    ensures
        keeps_steps(a, c),
{
}

/// What a switch from step `departed` of task `i` at `now` settles (see
/// [`Core::switch_current_position`]).
pub open spec fn switch_settles<C: Clock, S: Storage>(
    before: Core<C, S>,
    after: Core<C, S>,
    result: Result<Option<StepId>, CoreError>,
    i: int,
    departed: StepId,
    note: Option<Seq<char>>,
    declare: bool,
    now: Timestamp,
) -> bool {
    let task = before@.tasks[i];
    let j = step_at(before@.tasks, i, departed);
    let draft = switch_draft(task, j, note, declare, now);
    let destination = next_after(draft, j);
    let moved = match destination {
        Some(next) => Some(moved_to(before@.current_position, draft.id, next, now)),
        None => None,
    };
    let changed = draft != task;
    if !changed && moved.is_none() {
        result == Ok::<Option<StepId>, CoreError>(destination) && untouched(before, after)
    } else {
        exists|record: SwitchRecord|
            #![trigger records(record, now, departed, note.is_some())]
            records(record, now, departed, note.is_some()) && committed(
                before,
                after,
                switch_commit(changed, draft, moved, record),
                switched(before@, i, changed, draft, moved),
            ) && answered(result, outcome(after), destination)
    }
}

/// What declaring the completion of step `here` of task `i` at `now` settles
/// (see [`Core::complete_current_step`]).
pub open spec fn completion_settles<C: Clock, S: Storage>(
    before: Core<C, S>,
    after: Core<C, S>,
    result: Result<(), CoreError>,
    i: int,
    here: StepId,
    note: Option<Seq<char>>,
    now: Timestamp,
) -> bool {
    let draft = switch_draft(before@.tasks[i], step_at(before@.tasks, i, here), note, true, now);
    if draft == before@.tasks[i] {
        result == Ok::<(), CoreError>(()) && untouched(before, after)
    } else {
        task_written(before, after, i, draft, result, ())
    }
}

/// What editing task `i` at `now` settles (see [`Core::edit_task`]): the new
/// title, the contents replaced in order, then steps `ids` appended.
pub open spec fn edit_settles<C: Clock, S: Storage>(
    before: Core<C, S>,
    after: Core<C, S>,
    result: Result<(), CoreError>,
    i: int,
    title: Seq<char>,
    edits: Seq<(StepId, Seq<char>)>,
    ids: Seq<StepId>,
    additions: Seq<Seq<char>>,
    now: Timestamp,
) -> bool {
    &&& ids.len() == additions.len()
    &&& forall|m: int| 0 <= m < ids.len() ==> (#[trigger] ids[m]).issued_at(now)
    &&& task_written(
        before,
        after,
        i,
        appended(edited(TaskView { title, ..before@.tasks[i] }, edits), ids, additions),
        result,
        (),
    )
}

/// Validity depends only on the tasks and the position.
proof fn lemma_valid_frame(a: CoreView, b: CoreView)
    requires
        position_valid(a),
        a.tasks == b.tasks,
        a.current_position == b.current_position,
    ensures
        position_valid(b),
{
    if let Some(step) = step_of(a.current_position) {
        let k = choose|k: int|
            0 <= k < a.tasks.len() && #[trigger] a.tasks[k].id == task_of(a.current_position).unwrap()
                && has_step_id(a.tasks[k].steps, step);
        assert(b.tasks[k].id == task_of(b.current_position).unwrap());
    }
}

/// A position that points where the valid one did stays valid.
proof fn lemma_valid_same_pointer(state: CoreView, position: CurrentPosition)
    requires
        position_valid(state),
        step_of(position) == step_of(state.current_position),
        task_of(position) == task_of(state.current_position),
    ensures
        position_valid(with_position(state, position)),
{
    if let Some(step) = step_of(state.current_position) {
        let k = choose|k: int|
            0 <= k < state.tasks.len() && #[trigger] state.tasks[k].id == task_of(
                state.current_position,
            ).unwrap() && has_step_id(state.tasks[k].steps, step);
        assert(with_position(state, position).tasks[k].id == task_of(position).unwrap());
    }
}

/// A record of a switch at `now` away from `departed`.
pub open spec fn records(record: SwitchRecord, now: Timestamp, departed: StepId, note_written: bool) -> bool {
    &&& record.spec_id().issued_at(now)
    &&& record.departed() == departed
    &&& record.occurred() == now
    &&& record.written() == note_written
}

/// A commit of a position move with an optional switch record.
pub open spec fn move_commit(position: CurrentPosition, record: Option<SwitchRecord>) -> CommitView {
    CommitView {
        task: None,
        current_position: Some(position),
        switch_record: record,
        settings: Seq::empty(),
    }
}

/// The record of a selection: none when no step was left; else a record of
/// leaving it, without a note (a selection offers none).
pub open spec fn selection_record(record: Option<SwitchRecord>, now: Timestamp, departed: Option<StepId>) -> bool {
    match departed {
        None => record.is_none(),
        Some(d) => record matches Some(r) && records(r, now, d, false),
    }
}

/// The step left by a selection from `position` to `step`: none when not
/// started, or when the selection comes back to the same step.
pub open spec fn departed_by_selection(position: CurrentPosition, step: StepId) -> Option<StepId> {
    match step_of(position) {
        Some(d) => if d != step {
            Some(d)
        } else {
            None
        },
        None => None,
    }
}

impl<C: Clock, S: Storage> Core<C, S> {
    /// The commits handed to the storage, in order, each with what the storage
    /// answered to it.
    pub closed spec fn journal(&self) -> Seq<(CommitView, Result<(), StorageError>)> {
        self.journal@
    }

    /// The instants read from the clock, in order, since the core was built.
    pub closed spec fn readings(&self) -> Seq<Timestamp> {
        self.readings@
    }

    /// The state the storage handed back when the core was built.
    pub closed spec fn restored_from(&self) -> RestoredState {
        self.origin@
    }

    /// Reads the clock once; the reading is appended to the readings.
    fn read_clock(&mut self) -> (now: Timestamp)
        ensures
            final(self).readings() == old(self).readings().push(now),
            final(self).restored_from() == old(self).restored_from(),
            final(self).state == old(self).state,
            final(self).clock == old(self).clock,
            final(self).storage == old(self).storage,
            final(self).journal == old(self).journal,
    {
        let now = self.clock.now();
        self.readings = Ghost(self.readings@.push(now));
        now
    }

    /// The position points at a step that exists, in the task it names.
    pub open spec fn wf(&self) -> bool {
        position_valid(self@)
    }

    /// Hands one commit to the storage.
    fn write(&mut self, commit: &Commit) -> (written: Result<(), StorageError>)
        ensures
            final(self).readings() == old(self).readings(),
            final(self).restored_from() == old(self).restored_from(),
            final(self)@ == old(self)@,
            final(self).journal() == old(self).journal().push((commit@, written)),
    {
        let written = self.storage.apply(commit);
        self.journal = Ghost(self.journal@.push((commit@, written)));
        written
    }

    /// Hands the rewritten task `i` to the storage; replaces it in memory when
    /// the storage accepted it.
    fn commit_task(&mut self, i: usize, draft: Task) -> (written: Result<(), StorageError>)
        requires
            i < old(self)@.tasks.len(),
        ensures
            final(self).readings() == old(self).readings(),
            final(self).restored_from() == old(self).restored_from(),
            committed(*old(self), *final(self), task_commit(draft@), with_task(old(self)@, i as int, draft@)),
            outcome(*final(self)) == written,
    {
        let commit = Commit::of_task(draft.clone());
        let written = self.write(&commit);
        if written.is_ok() {
            self.state.tasks.set(i, draft);
            assert(self@.tasks =~= old(self)@.tasks.update(i as int, draft@));
        }
        written
    }

    /// Hands the new position to the storage; replaces it in memory when the
    /// storage accepted it.
    fn commit_position(&mut self, position: CurrentPosition) -> (written: Result<(), StorageError>)
        ensures
            final(self).readings() == old(self).readings(),
            final(self).restored_from() == old(self).restored_from(),
            committed(*old(self), *final(self), position_commit(position), with_position(old(self)@, position)),
            outcome(*final(self)) == written,
    {
        let commit = Commit::of_current_position(position);
        let written = self.write(&commit);
        if written.is_ok() {
            self.state.current_position = position;
        }
        written
    }

    /// Reads the last committed state back and builds the core; the timing
    /// starts now (time that passed while not running is no sleep), and no
    /// intervention is on show.
    ///
    /// A read failure, or a state whose position points at no step of its task,
    /// is returned as an error; the caller keeps running.
    pub fn restore(clock: C, storage: S) -> (core: Result<Self, StorageError>)
        ensures
            core matches Ok(c) ==> {
                &&& c.wf()
                &&& c.journal().len() == 0
                &&& c@.intervention.is_none()
                &&& c@.grace_until.is_none()
                &&& exists|r: RestoredState, now: Timestamp|
                    #[trigger] restored_view(r, now) == c@ && restorable(r)
            },
            core matches Ok(c) ==> restored_core(c),
    {
        let restored = match storage.restore() {
            Ok(restored) => restored,
            Err(error) => return Err(error),
        };
        let ghost read = restored;
        let mut core = Core {
            state: CoreState::default(),
            clock,
            storage,
            journal: Ghost(Seq::empty()),
            readings: Ghost(Seq::empty()),
            origin: Ghost(read),
        };
        let now = core.read_clock();
        let state = match CoreState::from_restored(restored, now) {
            Ok(state) => state,
            Err(error) => return Err(error),
        };
        assert(restored_view(read, now) == state@ && restorable(read));
        core.state = state;
        assert(core.readings() =~= seq![now]);
        Ok(core)
    }

    /// A copy of the state (a copy, so that no reader holds on to the core).
    pub fn snapshot(&self) -> (state: CoreState)
        ensures
            state@ == self@,
    {
        self.state.clone()
    }

    /// The one current position.
    pub fn current_position(&self) -> (position: CurrentPosition)
        ensures
            position == self@.current_position,
    {
        self.state.current_position
    }

    /// Creates a task (refused without steps).
    pub fn create_task(&mut self, title: String, step_contents: Vec<String>) -> (result: Result<TaskId, CoreError>)
        requires
            old(self).wf(),
        ensures
            final(self).wf(),
            step_contents@.len() == 0 ==> result == Err::<TaskId, CoreError>(
                CoreError::Domain(DomainError::EmptyTask),
            ) && untouched(*old(self), *final(self)),
            step_contents@.len() > 0 ==> exists|now: Timestamp, t: TaskView|
                #![trigger created(t, now, title@, texts(step_contents@))]
                created(t, now, title@, texts(step_contents@)) && committed(
                    *old(self),
                    *final(self),
                    task_commit(t),
                    CoreView { tasks: old(self)@.tasks.push(t), ..old(self)@ },
                ) && answered(result, outcome(*final(self)), t.id),
            step_contents@.len() > 0 ==> read_once(*old(self), *final(self)) && exists|t: TaskView|
                #![trigger created(t, reading(*final(self)), title@, texts(step_contents@))]
                created(t, reading(*final(self)), title@, texts(step_contents@)) && committed(
                    *old(self),
                    *final(self),
                    task_commit(t),
                    CoreView { tasks: old(self)@.tasks.push(t), ..old(self)@ },
                ) && answered(result, outcome(*final(self)), t.id),
    {
        let now = self.read_clock();
        let ghost contents = texts(step_contents@);
        let ghost title_text = title@;
        let task = match Task::create(now, title, step_contents) {
            Ok(task) => task,
            Err(error) => return Err(CoreError::Domain(error)),
        };
        let id = task.id();
        let commit = Commit::of_task(task.clone());
        let written = self.write(&commit);
        proof {
            lemma_valid_with_new_task(old(self)@, task@);
        }
        match written {
            Ok(()) => {
                self.state.tasks.push(task);
                assert(self@.tasks =~= old(self)@.tasks.push(task@));
                assert(created(task@, now, title_text, contents));
                Ok(id)
            },
            Err(error) => {
                assert(created(task@, now, title_text, contents));
                Err(CoreError::Storage(error))
            },
        }
    }

    /// Rewrites task `i` as `draft` in one commit.
    fn write_task<T>(&mut self, i: usize, draft: Task, value: T) -> (result: Result<T, CoreError>)
        requires
            i < old(self)@.tasks.len(),
            old(self).wf(),
            keeps_steps(old(self)@.tasks[i as int], draft@),
        ensures
            final(self).readings() == old(self).readings(),
            final(self).restored_from() == old(self).restored_from(),
            final(self).wf(),
            task_written(*old(self), *final(self), i as int, draft@, result, value),
    {
        proof {
            lemma_valid_with_task(self@, i as int, draft@);
        }
        match self.commit_task(i, draft) {
            Ok(()) => Ok(value),
            Err(error) => Err(CoreError::Storage(error)),
        }
    }

    /// Inserts a step at `ordinal` (in `1..=N+1`) of the task; the position
    /// does not move (it points at an id, which no insertion changes).
    pub fn insert_step(&mut self, task_id: TaskId, ordinal: u32, content: String) -> (result: Result<StepId, CoreError>)
        requires
            old(self).wf(),
        ensures
            final(self).wf(),
            match task_index(old(self)@.tasks, task_id) {
                None => result == Err::<StepId, CoreError>(CoreError::Domain(DomainError::UnknownTask))
                    && untouched(*old(self), *final(self)),
                Some(i) => if ordinal < 1 || ordinal > insertion_limit(old(self)@.tasks[i].steps.len()) {
                    result == Err::<StepId, CoreError>(CoreError::Domain(DomainError::OrdinalOutOfRange))
                        && untouched(*old(self), *final(self))
                } else {
                    exists|now: Timestamp, id: StepId|
                        #![trigger id.issued_at(now)]
                        id.issued_at(now) && task_written(
                            *old(self),
                            *final(self),
                            i,
                            after_insert(old(self)@.tasks[i], ordinal as int, id, content@),
                            result,
                            id,
                        )
                },
            },
            task_index(old(self)@.tasks, task_id) matches Some(i) ==> (1 <= ordinal <= insertion_limit(
                old(self)@.tasks[i].steps.len(),
            ) ==> read_once(*old(self), *final(self)) && exists|id: StepId|
                #![trigger id.issued_at(reading(*final(self)))]
                id.issued_at(reading(*final(self))) && task_written(
                    *old(self),
                    *final(self),
                    i,
                    after_insert(old(self)@.tasks[i], ordinal as int, id, content@),
                    result,
                    id,
                )),
    {
        let i = match index_of_task(&self.state.tasks, task_id) {
            Some(i) => i,
            None => return Err(CoreError::Domain(DomainError::UnknownTask)),
        };
        let now = self.read_clock();
        let ghost text = content@;
        let mut draft = self.state.tasks[i].clone();
        let id = match draft.insert_step(now, ordinal, content) {
            Ok(id) => id,
            Err(error) => return Err(CoreError::Domain(error)),
        };
        proof {
            law_steps_are_never_lost(old(self)@.tasks[i as int], 0, ordinal as int, id, text, text, now, None);
        }
        let result = self.write_task(i, draft, id);
        assert(id.issued_at(now));
        assert(reading(*self) == now);
        result
    }

    /// Appends a step at the end of the task.
    pub fn append_step(&mut self, task_id: TaskId, content: String) -> (result: Result<StepId, CoreError>)
        requires
            old(self).wf(),
        ensures
            final(self).wf(),
            match task_index(old(self)@.tasks, task_id) {
                None => result == Err::<StepId, CoreError>(CoreError::Domain(DomainError::UnknownTask))
                    && untouched(*old(self), *final(self)),
                Some(i) => exists|now: Timestamp, id: StepId|
                    #![trigger id.issued_at(now)]
                    id.issued_at(now) && task_written(
                        *old(self),
                        *final(self),
                        i,
                        after_insert(
                            old(self)@.tasks[i],
                            insertion_limit(old(self)@.tasks[i].steps.len()) as int,
                            id,
                            content@,
                        ),
                        result,
                        id,
                    ),
            },
            task_index(old(self)@.tasks, task_id) matches Some(i) ==> read_once(*old(self), *final(self))
                && exists|id: StepId|
                #![trigger id.issued_at(reading(*final(self)))]
                id.issued_at(reading(*final(self))) && task_written(
                    *old(self),
                    *final(self),
                    i,
                    after_insert(
                        old(self)@.tasks[i],
                        insertion_limit(old(self)@.tasks[i].steps.len()) as int,
                        id,
                        content@,
                    ),
                    result,
                    id,
                ),
    {
        let i = match index_of_task(&self.state.tasks, task_id) {
            Some(i) => i,
            None => return Err(CoreError::Domain(DomainError::UnknownTask)),
        };
        let now = self.read_clock();
        let ghost text = content@;
        let mut draft = self.state.tasks[i].clone();
        let ghost limit = insertion_limit(draft@.steps.len()) as int;
        let id = match draft.append_step(now, content) {
            Ok(id) => id,
            Err(error) => return Err(CoreError::Domain(error)),
        };
        proof {
            law_steps_are_never_lost(old(self)@.tasks[i as int], 0, limit, id, text, text, now, None);
        }
        let result = self.write_task(i, draft, id);
        assert(id.issued_at(now));
        assert(reading(*self) == now);
        result
    }

    /// Splits a step in two; the first half keeps the id and the note, so the
    /// position stays on it. A completed step is refused.
    pub fn split_step(&mut self, step_id: StepId, first_content: String, second_content: String) -> (result: Result<StepId, CoreError>)
        requires
            old(self).wf(),
        ensures
            final(self).wf(),
            match owner_index(old(self)@.tasks, step_id) {
                None => result == Err::<StepId, CoreError>(CoreError::Domain(DomainError::UnknownStep))
                    && untouched(*old(self), *final(self)),
                Some(i) => {
                    let j = step_at(old(self)@.tasks, i, step_id);
                    if old(self)@.tasks[i].steps[j].completed_at.is_some() {
                        result == Err::<StepId, CoreError>(CoreError::Domain(DomainError::SplitCompleted))
                            && untouched(*old(self), *final(self))
                    } else {
                        exists|now: Timestamp, id: StepId|
                            #![trigger id.issued_at(now)]
                            id.issued_at(now) && task_written(
                                *old(self),
                                *final(self),
                                i,
                                after_split(old(self)@.tasks[i], j, id, first_content@, second_content@),
                                result,
                                id,
                            )
                    }
                },
            },
            owner_index(old(self)@.tasks, step_id) matches Some(i) ==> ({
                let j = step_at(old(self)@.tasks, i, step_id);
                old(self)@.tasks[i].steps[j].completed_at.is_none() ==> read_once(*old(self), *final(self))
                    && exists|id: StepId|
                    #![trigger id.issued_at(reading(*final(self)))]
                    id.issued_at(reading(*final(self))) && task_written(
                        *old(self),
                        *final(self),
                        i,
                        after_split(old(self)@.tasks[i], j, id, first_content@, second_content@),
                        result,
                        id,
                    )
            }),
    {
        let i = match index_of_owner(&self.state.tasks, step_id) {
            Some(i) => i,
            None => return Err(CoreError::Domain(DomainError::UnknownStep)),
        };
        let now = self.read_clock();
        let ghost first = first_content@;
        let ghost second = second_content@;
        let mut draft = self.state.tasks[i].clone();
        proof {
            lemma_has_step_index(draft@.steps, step_id);
        }
        let ghost j = step_index(draft@.steps, step_id).unwrap();
        let id = match draft.split_step(now, step_id, first_content, second_content) {
            Ok(id) => id,
            Err(error) => return Err(CoreError::Domain(error)),
        };
        proof {
            law_steps_are_never_lost(old(self)@.tasks[i as int], j, 1, id, first, second, now, None);
        }
        let result = self.write_task(i, draft, id);
        assert(id.issued_at(now));
        assert(reading(*self) == now);
        result
    }

    /// Declares the step completed (a declared step keeps its first instant);
    /// the position does not move.
    pub fn declare_completion(&mut self, step_id: StepId) -> (result: Result<(), CoreError>)
        requires
            old(self).wf(),
        ensures
            final(self).wf(),
            match owner_index(old(self)@.tasks, step_id) {
                None => result == Err::<(), CoreError>(CoreError::Domain(DomainError::UnknownStep))
                    && untouched(*old(self), *final(self)),
                Some(i) => exists|now: Timestamp|
                    #![trigger after_declare(old(self)@.tasks[i], step_at(old(self)@.tasks, i, step_id), now)]
                    task_written(
                        *old(self),
                        *final(self),
                        i,
                        after_declare(old(self)@.tasks[i], step_at(old(self)@.tasks, i, step_id), now),
                        result,
                        (),
                    ),
            },
            declared_at_reading(*old(self), *final(self), step_id, result),
    {
        let i = match index_of_owner(&self.state.tasks, step_id) {
            Some(i) => i,
            None => return Err(CoreError::Domain(DomainError::UnknownStep)),
        };
        let now = self.read_clock();
        let mut draft = self.state.tasks[i].clone();
        proof {
            lemma_has_step_index(draft@.steps, step_id);
        }
        let ghost j = step_index(draft@.steps, step_id).unwrap();
        match draft.declare_completion(now, step_id) {
            Ok(()) => {},
            Err(error) => return Err(CoreError::Domain(error)),
        }
        proof {
            law_steps_are_never_lost(old(self)@.tasks[i as int], j, 1, step_id, Seq::empty(), Seq::empty(), now, None);
        }
        let result = self.write_task(i, draft, ());
        assert(draft@ == after_declare(old(self)@.tasks[i as int], step_at(old(self)@.tasks, i as int, step_id), now));
        result
    }

    /// Revokes the declared completion of the step; the position does not move.
    pub fn revoke_completion(&mut self, step_id: StepId) -> (result: Result<(), CoreError>)
        requires
            old(self).wf(),
        ensures
            final(self).wf(),
            match owner_index(old(self)@.tasks, step_id) {
                None => result == Err::<(), CoreError>(CoreError::Domain(DomainError::UnknownStep))
                    && untouched(*old(self), *final(self)),
                Some(i) => task_written(
                    *old(self),
                    *final(self),
                    i,
                    after_revoke(old(self)@.tasks[i], step_at(old(self)@.tasks, i, step_id)),
                    result,
                    (),
                ),
            },
    {
        let i = match index_of_owner(&self.state.tasks, step_id) {
            Some(i) => i,
            None => return Err(CoreError::Domain(DomainError::UnknownStep)),
        };
        let mut draft = self.state.tasks[i].clone();
        proof {
            lemma_has_step_index(draft@.steps, step_id);
        }
        let ghost j = step_index(draft@.steps, step_id).unwrap();
        match draft.revoke_completion(step_id) {
            Ok(()) => {},
            Err(error) => return Err(CoreError::Domain(error)),
        }
        proof {
            law_steps_are_never_lost(old(self)@.tasks[i as int], j, 1, step_id, Seq::empty(), Seq::empty(), self@.last_tick, None);
        }
        self.write_task(i, draft, ())
    }

    /// Sets (or clears) the interruption note of the step.
    pub fn set_interruption_note(&mut self, step_id: StepId, note: Option<InterruptionNote>) -> (result: Result<(), CoreError>)
        requires
            old(self).wf(),
        ensures
            final(self).wf(),
            match owner_index(old(self)@.tasks, step_id) {
                None => result == Err::<(), CoreError>(CoreError::Domain(DomainError::UnknownStep))
                    && untouched(*old(self), *final(self)),
                Some(i) => task_written(
                    *old(self),
                    *final(self),
                    i,
                    after_note(old(self)@.tasks[i], step_at(old(self)@.tasks, i, step_id), note_view(note)),
                    result,
                    (),
                ),
            },
    {
        let i = match index_of_owner(&self.state.tasks, step_id) {
            Some(i) => i,
            None => return Err(CoreError::Domain(DomainError::UnknownStep)),
        };
        let ghost text = note_view(note);
        let mut draft = self.state.tasks[i].clone();
        proof {
            lemma_has_step_index(draft@.steps, step_id);
        }
        let ghost j = step_index(draft@.steps, step_id).unwrap();
        match draft.set_interruption_note(step_id, note) {
            Ok(()) => {},
            Err(error) => return Err(CoreError::Domain(error)),
        }
        proof {
            law_steps_are_never_lost(old(self)@.tasks[i as int], j, 1, step_id, Seq::empty(), Seq::empty(), self@.last_tick, text);
        }
        self.write_task(i, draft, ())
    }

    /// Moves the position to the given step (without a switch record). A
    /// completion is never touched. Choosing where it already is writes nothing.
    pub fn move_current_position(&mut self, step_id: StepId) -> (result: Result<(), CoreError>)
        requires
            old(self).wf(),
        ensures
            final(self).wf(),
            position_moved(*old(self), *final(self), step_id, result),
            moved_at_reading(*old(self), *final(self), step_id, result),
    {
        let i = match index_of_owner(&self.state.tasks, step_id) {
            Some(i) => i,
            None => return Err(CoreError::Domain(DomainError::UnknownStep)),
        };
        let task_id = self.state.tasks[i].id();
        let now = self.read_clock();
        let moved = self.state.current_position.move_to(task_id, step_id, now);
        assert(moved == moved_to(old(self)@.current_position, old(self)@.tasks[i as int].id, step_id, now));
        if moved == self.state.current_position {
            return Ok(());
        }
        proof {
            lemma_valid_position(self@, i as int, moved);
        }
        match self.commit_position(moved) {
            Ok(()) => Ok(()),
            Err(error) => Err(CoreError::Storage(error)),
        }
    }

    /// A switch from the list: moves the position to any step and appends a
    /// switch record, in one commit. No note is offered, so the record says no
    /// note was written; a move from not started, or back to the same step,
    /// leaves no record. A selection that changes nothing writes nothing and
    /// answers `false`.
    pub fn select_step(&mut self, step_id: StepId) -> (result: Result<bool, CoreError>)
        requires
            old(self).wf(),
        ensures
            final(self).wf(),
            match owner_index(old(self)@.tasks, step_id) {
                None => result == Err::<bool, CoreError>(CoreError::Domain(DomainError::UnknownStep))
                    && untouched(*old(self), *final(self)),
                Some(i) => exists|now: Timestamp|
                    #![trigger moved_to(old(self)@.current_position, old(self)@.tasks[i].id, step_id, now)]
                    {
                        let moved = moved_to(old(self)@.current_position, old(self)@.tasks[i].id, step_id, now);
                        if moved == old(self)@.current_position {
                            result == Ok::<bool, CoreError>(false) && untouched(*old(self), *final(self))
                        } else {
                            exists|record: Option<SwitchRecord>|
                                #![trigger move_commit(moved, record)]
                                {
                                    &&& selection_record(
                                        record,
                                        now,
                                        departed_by_selection(old(self)@.current_position, step_id),
                                    )
                                    &&& committed(
                                        *old(self),
                                        *final(self),
                                        move_commit(moved, record),
                                        with_position(old(self)@, moved),
                                    )
                                    &&& answered(result, outcome(*final(self)), true)
                                }
                        }
                    },
            },
            owner_index(old(self)@.tasks, step_id) matches Some(i) ==> {
                let now = reading(*final(self));
                let moved = moved_to(old(self)@.current_position, old(self)@.tasks[i].id, step_id, now);
                &&& read_once(*old(self), *final(self))
                &&& if moved == old(self)@.current_position {
                    result == Ok::<bool, CoreError>(false) && untouched(*old(self), *final(self))
                } else {
                    exists|record: Option<SwitchRecord>|
                        #![trigger move_commit(moved, record)]
                        {
                            &&& selection_record(
                                record,
                                now,
                                departed_by_selection(old(self)@.current_position, step_id),
                            )
                            &&& committed(
                                *old(self),
                                *final(self),
                                move_commit(moved, record),
                                with_position(old(self)@, moved),
                            )
                            &&& answered(result, outcome(*final(self)), true)
                        }
                }
            },
    {
        let i = match index_of_owner(&self.state.tasks, step_id) {
            Some(i) => i,
            None => return Err(CoreError::Domain(DomainError::UnknownStep)),
        };
        let task_id = self.state.tasks[i].id();
        let now = self.read_clock();
        let moved = self.state.current_position.move_to(task_id, step_id, now);
        assert(moved == moved_to(old(self)@.current_position, old(self)@.tasks[i as int].id, step_id, now));
        if moved == self.state.current_position {
            return Ok(false);
        }
        let departed = match self.state.current_position.step_id() {
            Some(departed) => if departed != step_id {
                Some(departed)
            } else {
                None
            },
            None => None,
        };
        let record = match departed {
            Some(departed) => Some(SwitchRecord::new(now, departed, false)),
            None => None,
        };
        let commit = Commit {
            task: None,
            current_position: Some(moved),
            switch_record: record,
            settings: Vec::new(),
        };
        assert(commit@.settings =~= Seq::empty());
        assert(commit@ == move_commit(moved, record));
        proof {
            lemma_valid_position(self@, i as int, moved);
        }
        let written = self.write(&commit);
        match written {
            Ok(()) => {
                self.state.current_position = moved;
                Ok(true)
            },
            Err(error) => Err(CoreError::Storage(error)),
        }
    }

    /// Makes the position active (back from a rest); writes nothing when
    /// nothing changes.
    pub fn activate_current_position(&mut self) -> (result: Result<(), CoreError>)
        requires
            old(self).wf(),
        ensures
            final(self).wf(),
            exists|now: Timestamp|
                #![trigger activated(old(self)@.current_position, now)]
                if activated(old(self)@.current_position, now) == old(self)@.current_position {
                    result == Ok::<(), CoreError>(()) && untouched(*old(self), *final(self))
                } else {
                    position_written(*old(self), *final(self), activated(old(self)@.current_position, now), result, ())
                },
            read_once(*old(self), *final(self)),
            ({
                let next = activated(old(self)@.current_position, reading(*final(self)));
                if next == old(self)@.current_position {
                    result == Ok::<(), CoreError>(()) && untouched(*old(self), *final(self))
                } else {
                    position_written(*old(self), *final(self), next, result, ())
                }
            }),
    {
        let now = self.read_clock();
        let next = self.state.current_position.activate(now);
        self.transition(next)
    }

    /// Makes the position inactive (entering a rest); its value is kept.
    /// Writes nothing when nothing changes.
    pub fn deactivate_current_position(&mut self) -> (result: Result<(), CoreError>)
        requires
            old(self).wf(),
        ensures
            final(self).wf(),
            if deactivated(old(self)@.current_position) == old(self)@.current_position {
                result == Ok::<(), CoreError>(()) && untouched(*old(self), *final(self))
            } else {
                position_written(*old(self), *final(self), deactivated(old(self)@.current_position), result, ())
            },
    {
        let next = self.state.current_position.deactivate();
        self.transition(next)
    }

    /// Replaces the position by `next`, which points where it did; writes
    /// nothing when nothing changes.
    fn transition(&mut self, next: CurrentPosition) -> (result: Result<(), CoreError>)
        requires
            old(self).wf(),
            step_of(next) == step_of(old(self)@.current_position),
            task_of(next) == task_of(old(self)@.current_position),
        ensures
            final(self).readings() == old(self).readings(),
            final(self).restored_from() == old(self).restored_from(),
            final(self).wf(),
            if next == old(self)@.current_position {
                result == Ok::<(), CoreError>(()) && untouched(*old(self), *final(self))
            } else {
                position_written(*old(self), *final(self), next, result, ())
            },
    {
        if next == self.state.current_position {
            return Ok(());
        }
        proof {
            lemma_valid_same_pointer(self@, next);
        }
        match self.commit_position(next) {
            Ok(()) => Ok(()),
            Err(error) => Err(CoreError::Storage(error)),
        }
    }

    /// Ends a rest, by the user's own declaration: the position becomes active
    /// again and the work time restarts. Answers whether there was a rest to
    /// end; writes nothing otherwise.
    pub fn end_rest(&mut self) -> (result: Result<bool, CoreError>)
        requires
            old(self).wf(),
        ensures
            final(self).wf(),
            !(old(self)@.current_position is Inactive) ==> result == Ok::<bool, CoreError>(false)
                && untouched(*old(self), *final(self)),
            old(self)@.current_position is Inactive ==> exists|now: Timestamp|
                #![trigger activated(old(self)@.current_position, now)]
                committed(
                    *old(self),
                    *final(self),
                    position_commit(activated(old(self)@.current_position, now)),
                    CoreView {
                        current_position: activated(old(self)@.current_position, now),
                        grace_until: None,
                        ..old(self)@
                    },
                ) && answered(result, outcome(*final(self)), true),
            old(self)@.current_position is Inactive ==> read_once(*old(self), *final(self)) && ({
                let next = activated(old(self)@.current_position, reading(*final(self)));
                committed(
                    *old(self),
                    *final(self),
                    position_commit(next),
                    CoreView { current_position: next, grace_until: None, ..old(self)@ },
                ) && answered(result, outcome(*final(self)), true)
            }),
    {
        if !self.state.is_resting() {
            return Ok(false);
        }
        let now = self.read_clock();
        let next = self.state.current_position.activate(now);
        proof {
            lemma_valid_same_pointer(self@, next);
        }
        match self.commit_position(next) {
            Ok(()) => {
                let ghost before = self@;
                self.state.grace_until = None;
                proof {
                    lemma_valid_frame(before, self@);
                }
                Ok(true)
            },
            Err(error) => Err(CoreError::Storage(error)),
        }
    }

    /// Stores a setting: it replaces the value of its key, or is added.
    pub fn store_setting(&mut self, setting: Setting) -> (result: Result<(), CoreError>)
        requires
            old(self).wf(),
        ensures
            final(self).wf(),
            committed(
                *old(self),
                *final(self),
                CommitView {
                    task: None,
                    current_position: None,
                    switch_record: None,
                    settings: seq![setting@],
                },
                CoreView { settings: stored_settings(old(self)@.settings, setting@), ..old(self)@ },
            ),
            answered(result, outcome(*final(self)), ()),
    {
        let mut batch: Vec<Setting> = Vec::new();
        batch.push(setting.clone());
        let commit = Commit::of_settings(batch);
        assert(commit@.settings =~= seq![setting@]);
        let written = self.write(&commit);
        match written {
            Ok(()) => {
                let ghost before = self@;
                let ghost entry = setting@;
                match index_of_key(self.state.settings.as_slice(), setting.key()) {
                    Some(i) => {
                        self.state.settings.set(i, setting);
                        assert(self@.settings =~= before.settings.update(i as int, entry));
                    },
                    None => {
                        self.state.settings.push(setting);
                        assert(self@.settings =~= before.settings.push(entry));
                    },
                }
                assert(self@.settings == stored_settings(old(self)@.settings, entry));
                proof {
                    lemma_valid_frame(before, self@);
                }
                Ok(())
            },
            Err(error) => Err(CoreError::Storage(error)),
        }
    }

    /// Answers the intervention on show — the only way to close it. A rest
    /// makes the position inactive (its value kept) and drops the grace
    /// deadline; a grace period asks again after it, without limit. Answers
    /// whether an intervention was on show; without one nothing happens. When
    /// the rest cannot be written, nothing changes and the intervention stays.
    pub fn answer_intervention(&mut self, choice: InterventionChoice) -> (result: Result<bool, CoreError>)
        requires
            old(self).wf(),
        ensures
            final(self).wf(),
            old(self)@.intervention.is_none() ==> result == Ok::<bool, CoreError>(false)
                && untouched(*old(self), *final(self)),
            old(self)@.intervention.is_some() && choice == InterventionChoice::Rest ==> {
                let next = deactivated(old(self)@.current_position);
                let after = CoreView {
                    current_position: next,
                    grace_until: None,
                    intervention: None,
                    ..old(self)@
                };
                if next == old(self)@.current_position {
                    result == Ok::<bool, CoreError>(true) && final(self)@ == after
                        && final(self).journal() == old(self).journal()
                } else {
                    committed(*old(self), *final(self), position_commit(next), after) && answered(
                        result,
                        outcome(*final(self)),
                        true,
                    )
                }
            },
            old(self)@.intervention.is_some() && choice == InterventionChoice::Grace ==> {
                &&& result == Ok::<bool, CoreError>(true)
                &&& final(self).journal() == old(self).journal()
                &&& final(self)@ == (CoreView {
                    grace_until: final(self)@.grace_until,
                    intervention: None,
                    ..old(self)@
                })
                &&& grace_after_now(old(self)@.settings, final(self)@.grace_until)
            },
            granted_from_reading(*old(self), *final(self), choice, result),
    {
        if self.state.intervention.is_none() {
            return Ok(false);
        }
        match choice {
            InterventionChoice::Rest => {
                let next = self.state.current_position.deactivate();
                proof {
                    lemma_valid_same_pointer(self@, next);
                }
                if next != self.state.current_position {
                    match self.commit_position(next) {
                        Ok(()) => {},
                        Err(error) => return Err(CoreError::Storage(error)),
                    }
                }
                let ghost moved = self@;
                self.state.grace_until = None;
                proof {
                    lemma_valid_frame(moved, self@);
                }
            },
            InterventionChoice::Grace => {
                let now = self.read_clock();
                let rest = self.state.rest_settings();
                let grace = rest.grace_period_millis();
                self.state.grace_until = Some(shifted(now, grace));
                assert(shifted_of(now, rest.grace_millis()) == shifted_of(now, rest.grace_millis()));
                proof {
                    lemma_valid_frame(old(self)@, self@);
                }
            },
        }
        let ghost before = self@;
        self.state.intervention = None;
        proof {
            lemma_valid_frame(before, self@);
        }
        Ok(true)
    }

    /// Withdraws the intervention when showing it failed: it is closed and
    /// comes back after a grace period. No choice was made and the position is
    /// not touched. Answers whether one was on show.
    pub fn withdraw_intervention(&mut self) -> (withdrawn: bool)
        requires
            old(self).wf(),
        ensures
            final(self).wf(),
            final(self).journal() == old(self).journal(),
            withdrawn == old(self)@.intervention.is_some(),
            !withdrawn ==> final(self)@ == old(self)@,
            withdrawn ==> final(self)@ == (CoreView {
                grace_until: final(self)@.grace_until,
                intervention: None,
                ..old(self)@
            }) && grace_after_now(old(self)@.settings, final(self)@.grace_until),
            withdrawn ==> read_once(*old(self), *final(self)) && (final(self)@.grace_until matches Some(g) && g@
                == shifted_of(reading(*final(self)), grace_period_millis_of(old(self)@.settings))),
    {
        if self.state.intervention.is_none() {
            return false;
        }
        self.state.intervention = None;
        let now = self.read_clock();
        let rest = self.state.rest_settings();
        let grace = rest.grace_period_millis();
        self.state.grace_until = Some(shifted(now, grace));
        assert(shifted_of(now, rest.grace_millis()) == shifted_of(now, rest.grace_millis()));
        proof {
            lemma_valid_frame(old(self)@, self@);
        }
        true
    }

    /// The step with id `step` keeps its index when only step `j` changes
    /// without changing its id.
    proof fn lemma_same_index(before: TaskView, after: TaskView, step: StepId, j: int)
        requires
            is_step_index(before.steps, step, j),
            after.steps.len() == before.steps.len(),
            forall|k: int| 0 <= k < before.steps.len() ==> (#[trigger] after.steps[k]).id == before.steps[k].id,
        ensures
            step_index(after.steps, step) == Some(j),
            is_step_index(after.steps, step, j),
    {
        assert(forall|k: int| 0 <= k < j ==> after.steps[k].id == before.steps[k].id);
        super::task::lemma_step_index(after.steps, step, j);
    }

    /// A switch: settles the note on the step being left, an optional
    /// declaration of its completion, the move to the next step of the same
    /// task, and a switch record — all in one commit. An omitted note keeps
    /// the note already there. The work time is not reset (the position stays
    /// active). From the last step the position does not move, but a changed
    /// note or completion is still written with its record. A switch that
    /// changes nothing writes nothing, not even a record. Answers the step
    /// moved to.
    pub fn switch_current_position(&mut self, note: Option<InterruptionNote>, declare_completion: bool) -> (result: Result<Option<StepId>, CoreError>)
        requires
            old(self).wf(),
        ensures
            final(self).wf(),
            match step_of(old(self)@.current_position) {
                None => result == Err::<Option<StepId>, CoreError>(
                    CoreError::Domain(DomainError::NoCurrentPosition),
                ) && untouched(*old(self), *final(self)),
                Some(departed) => match owner_index(old(self)@.tasks, departed) {
                    None => result == Err::<Option<StepId>, CoreError>(
                        CoreError::Domain(DomainError::UnknownStep),
                    ) && untouched(*old(self), *final(self)),
                    Some(i) => exists|now: Timestamp|
                        #![trigger switch_settles(*old(self), *final(self), result, i, departed, note_view(note), declare_completion, now)]
                        switch_settles(*old(self), *final(self), result, i, departed, note_view(note), declare_completion, now),
                },
            },
            switched_at_reading(*old(self), *final(self), note_view(note), declare_completion, result),
    {
        let departed = match self.state.current_position.step_id() {
            Some(departed) => departed,
            None => return Err(CoreError::Domain(DomainError::NoCurrentPosition)),
        };
        let i = match index_of_owner(&self.state.tasks, departed) {
            Some(i) => i,
            None => return Err(CoreError::Domain(DomainError::UnknownStep)),
        };
        let now = self.read_clock();
        let ghost task = old(self)@.tasks[i as int];
        let ghost text = note_view(note);
        let mut draft = self.state.tasks[i].clone();
        proof {
            lemma_has_step_index(task.steps, departed);
        }
        let ghost j = step_index(task.steps, departed).unwrap();
        let note_written = note.is_some();
        if note_written {
            match draft.set_interruption_note(departed, note) {
                Ok(()) => {},
                Err(error) => return Err(CoreError::Domain(error)),
            }
            proof {
                Self::lemma_same_index(task, draft@, departed, j);
                law_steps_are_never_lost(task, j, 1, departed, Seq::empty(), Seq::empty(), now, text);
            }
        }
        let ghost noted = draft@;
        proof {
            if !note_written {
                Self::lemma_same_index(task, draft@, departed, j);
            }
        }
        if declare_completion {
            match draft.declare_completion(now, departed) {
                Ok(()) => {},
                Err(error) => return Err(CoreError::Domain(error)),
            }
            proof {
                Self::lemma_same_index(noted, draft@, departed, j);
                law_steps_are_never_lost(noted, j, 1, departed, Seq::empty(), Seq::empty(), now, None);
                if note_written {
                    lemma_keeps_trans(task, noted, draft@);
                }
            }
        }
        assert(draft@ == switch_draft(
            old(self)@.tasks[i as int],
            step_at(old(self)@.tasks, i as int, departed),
            text,
            declare_completion,
            now,
        ));
        let destination = next_step_of(&draft, departed);
        let moved = match destination {
            Some(next) => Some(self.state.current_position.move_to(draft.id(), next, now)),
            None => None,
        };
        let changed = !draft.same_as(&self.state.tasks[i]);
        if !changed && moved.is_none() {
            assert(switch_settles(*old(self), *self, Ok(destination), i as int, departed, text, declare_completion, now));
            return Ok(destination);
        }
        let record = SwitchRecord::new(now, departed, note_written);
        let task_part = if changed {
            Some(draft.clone())
        } else {
            None
        };
        let commit = Commit {
            task: task_part,
            current_position: moved,
            switch_record: Some(record),
            settings: Vec::new(),
        };
        assert(commit@.settings =~= Seq::empty());
        assert(commit@ == switch_commit(changed, draft@, moved, record));
        proof {
            let mid = if changed {
                with_task(self@, i as int, draft@)
            } else {
                self@
            };
            if changed {
                lemma_valid_with_task(self@, i as int, draft@);
            }
            assert(mid.tasks[i as int] == draft@);
            if let Some(p) = moved {
                let next = destination.unwrap();
                assert(draft@.steps[j + 1].id == next);
                assert(has_step_id(draft@.steps, next));
                lemma_valid_position(mid, i as int, p);
                assert(with_position(mid, p) == switched(self@, i as int, changed, draft@, moved));
            } else {
                assert(mid == switched(self@, i as int, changed, draft@, moved));
            }
        }
        assert(text.is_some() == note_written);
        assert(records(record, now, departed, text.is_some()));
        let written = self.write(&commit);
        match written {
            Ok(()) => {
                let ghost drafted = draft@;
                if changed {
                    self.state.tasks.set(i, draft);
                    assert(self@.tasks =~= old(self)@.tasks.update(i as int, drafted));
                }
                match moved {
                    Some(position) => {
                        self.state.current_position = position;
                    },
                    None => {},
                }
                assert(self@ == switched(old(self)@, i as int, changed, drafted, moved));
                assert(switch_settles(*old(self), *self, Ok(destination), i as int, departed, text, declare_completion, now));
                Ok(destination)
            },
            Err(error) => {
                assert(switch_settles(*old(self), *self, Err(CoreError::Storage(error)), i as int, departed, text, declare_completion, now));
                Err(CoreError::Storage(error))
            },
        }
    }

    /// Declares the completion of the current step and stays there: the note
    /// (when one was written) and the completion are settled in one commit,
    /// without a move and without a switch record. A declaration that changes
    /// nothing writes nothing.
    pub fn complete_current_step(&mut self, note: Option<InterruptionNote>) -> (result: Result<(), CoreError>)
        requires
            old(self).wf(),
        ensures
            final(self).wf(),
            match step_of(old(self)@.current_position) {
                None => result == Err::<(), CoreError>(CoreError::Domain(DomainError::NoCurrentPosition))
                    && untouched(*old(self), *final(self)),
                Some(here) => match owner_index(old(self)@.tasks, here) {
                    None => result == Err::<(), CoreError>(CoreError::Domain(DomainError::UnknownStep))
                        && untouched(*old(self), *final(self)),
                    Some(i) => exists|now: Timestamp|
                        #![trigger completion_settles(*old(self), *final(self), result, i, here, note_view(note), now)]
                        completion_settles(*old(self), *final(self), result, i, here, note_view(note), now),
                },
            },
            step_of(old(self)@.current_position) matches Some(here) ==> (owner_index(old(self)@.tasks, here) matches Some(
                i,
            ) ==> read_once(*old(self), *final(self)) && completion_settles(
                *old(self),
                *final(self),
                result,
                i,
                here,
                note_view(note),
                reading(*final(self)),
            )),
    {
        let here = match self.state.current_position.step_id() {
            Some(here) => here,
            None => return Err(CoreError::Domain(DomainError::NoCurrentPosition)),
        };
        let i = match index_of_owner(&self.state.tasks, here) {
            Some(i) => i,
            None => return Err(CoreError::Domain(DomainError::UnknownStep)),
        };
        let now = self.read_clock();
        let ghost task = old(self)@.tasks[i as int];
        let ghost text = note_view(note);
        let mut draft = self.state.tasks[i].clone();
        proof {
            lemma_has_step_index(task.steps, here);
        }
        let ghost j = step_index(task.steps, here).unwrap();
        let note_written = note.is_some();
        if note_written {
            match draft.set_interruption_note(here, note) {
                Ok(()) => {},
                Err(error) => return Err(CoreError::Domain(error)),
            }
            proof {
                Self::lemma_same_index(task, draft@, here, j);
                law_steps_are_never_lost(task, j, 1, here, Seq::empty(), Seq::empty(), now, text);
            }
        }
        let ghost noted = draft@;
        proof {
            if !note_written {
                Self::lemma_same_index(task, draft@, here, j);
            }
        }
        match draft.declare_completion(now, here) {
            Ok(()) => {},
            Err(error) => return Err(CoreError::Domain(error)),
        }
        proof {
            law_steps_are_never_lost(noted, j, 1, here, Seq::empty(), Seq::empty(), now, None);
            if note_written {
                lemma_keeps_trans(task, noted, draft@);
            }
        }
        assert(draft@ == switch_draft(
            old(self)@.tasks[i as int],
            step_at(old(self)@.tasks, i as int, here),
            text,
            true,
            now,
        ));
        if draft.same_as(&self.state.tasks[i]) {
            assert(completion_settles(*old(self), *self, Ok(()), i as int, here, text, now));
            return Ok(());
        }
        let result = self.write_task(i, draft, ());
        assert(completion_settles(*old(self), *self, result, i as int, here, text, now));
        result
    }

    /// Edits a task: a new title, new contents for existing steps (each by its
    /// id, in order), and steps appended at the end — all in one commit. There
    /// is no way to delete; the position, completions and notes are not touched.
    /// An edit naming a step the task does not have writes nothing.
    pub fn edit_task(
        &mut self,
        task_id: TaskId,
        title: String,
        contents: Vec<(StepId, String)>,
        appended_contents: Vec<String>,
    ) -> (result: Result<(), CoreError>)
        requires
            old(self).wf(),
        ensures
            final(self).wf(),
            match task_index(old(self)@.tasks, task_id) {
                None => result == Err::<(), CoreError>(CoreError::Domain(DomainError::UnknownTask))
                    && untouched(*old(self), *final(self)),
                Some(i) => if exists|k: int|
                    0 <= k < contents@.len() && !has_step_id(old(self)@.tasks[i].steps, #[trigger] contents@[k].0) {
                    result == Err::<(), CoreError>(CoreError::Domain(DomainError::UnknownStep))
                        && untouched(*old(self), *final(self))
                } else {
                    exists|now: Timestamp, ids: Seq<StepId>|
                        #![trigger edit_settles(*old(self), *final(self), result, i, title@, edit_views(contents@), ids, texts(appended_contents@), now)]
                        edit_settles(*old(self), *final(self), result, i, title@, edit_views(contents@), ids, texts(appended_contents@), now)
                },
            },
            task_index(old(self)@.tasks, task_id) matches Some(i) ==> (!(exists|k: int|
                0 <= k < contents@.len() && !has_step_id(old(self)@.tasks[i].steps, #[trigger] contents@[k].0))
                ==> read_once(*old(self), *final(self)) && exists|ids: Seq<StepId>|
                #![trigger edit_settles(*old(self), *final(self), result, i, title@, edit_views(contents@), ids, texts(appended_contents@), reading(*final(self)))]
                edit_settles(
                    *old(self),
                    *final(self),
                    result,
                    i,
                    title@,
                    edit_views(contents@),
                    ids,
                    texts(appended_contents@),
                    reading(*final(self)),
                )),
    {
        let i = match index_of_task(&self.state.tasks, task_id) {
            Some(i) => i,
            None => return Err(CoreError::Domain(DomainError::UnknownTask)),
        };
        let now = self.read_clock();
        let ghost task = old(self)@.tasks[i as int];
        let ghost edits = edit_views(contents@);
        let ghost new_title = title@;
        let mut draft = self.state.tasks[i].clone();
        draft.rename(title);
        let ghost renamed = draft@;
        let mut k: usize = 0;
        while k < contents.len()
            invariant
                old(self).wf(),
                self@ == old(self)@,
                self.journal() == old(self).journal(),
                self.readings() == old(self).readings().push(now),
                i < old(self)@.tasks.len(),
                task == old(self)@.tasks[i as int],
                task_index(old(self)@.tasks, task_id) == Some(i as int),
                k <= contents@.len(),
                edits == edit_views(contents@),
                renamed == (TaskView { title: new_title, ..task }),
                draft@ == edited(renamed, edits.take(k as int)),
                draft@.id == task.id,
                draft@.steps.len() == task.steps.len(),
                forall|m: int| 0 <= m < task.steps.len() ==> (#[trigger] draft@.steps[m]).id == task.steps[m].id,
                forall|m: int| 0 <= m < k ==> has_step_id(task.steps, #[trigger] contents@[m].0),
            decreases contents.len() - k,
        {
            let step_id = contents[k].0;
            let content = contents[k].1.clone();
            let ghost before = draft@;
            proof {
                lemma_has_step_index(before.steps, step_id);
                assert(edits.take(k + 1).drop_last() =~= edits.take(k as int));
                assert(edits.take(k + 1).last() == (step_id, content@));
            }
            match draft.set_step_content(step_id, content) {
                Ok(()) => {},
                Err(error) => {
                    proof {
                        assert(!has_step_id(before.steps, step_id));
                        assert forall|m: int| 0 <= m < task.steps.len() implies task.steps[m].id != step_id by {
                            assert(before.steps[m].id == task.steps[m].id);
                        }
                        assert(!has_step_id(task.steps, contents@[k as int].0));
                    }
                    return Err(CoreError::Domain(error));
                },
            }
            proof {
                assert(has_step_id(before.steps, step_id));
                let w = choose|w: int| 0 <= w < before.steps.len() && #[trigger] before.steps[w].id == step_id;
                assert(task.steps[w].id == step_id);
                assert(has_step_id(task.steps, contents@[k as int].0));
                assert forall|m: int| 0 <= m < task.steps.len() implies (#[trigger] draft@.steps[m]).id == task.steps[m].id by {
                    assert(before.steps[m].id == task.steps[m].id);
                }
            }
            k = k + 1;
        }
        proof {
            assert(edits.take(contents@.len() as int) =~= edits);
            assert forall|s: StepId| has_step_id(task.steps, s) implies has_step_id(draft@.steps, s) by {
                let w = choose|w: int| 0 <= w < task.steps.len() && #[trigger] task.steps[w].id == s;
                assert(draft@.steps[w].id == s);
            }
            assert(!(exists|m: int| 0 <= m < contents@.len() && !has_step_id(task.steps, #[trigger] contents@[m].0)));
        }
        let ghost edited_task = draft@;
        let ghost additions = texts(appended_contents@);
        let ghost mut ids: Seq<StepId> = Seq::empty();
        let mut a: usize = 0;
        while a < appended_contents.len()
            invariant
                old(self).wf(),
                self@ == old(self)@,
                self.journal() == old(self).journal(),
                self.readings() == old(self).readings().push(now),
                i < old(self)@.tasks.len(),
                task == old(self)@.tasks[i as int],
                task_index(old(self)@.tasks, task_id) == Some(i as int),
                a <= appended_contents@.len(),
                additions == texts(appended_contents@),
                ids.len() == a,
                forall|m: int| 0 <= m < a ==> (#[trigger] ids[m]).issued_at(now),
                draft@ == appended(edited_task, ids, additions.take(a as int)),
                keeps_steps(task, draft@),
            decreases appended_contents.len() - a,
        {
            let content = appended_contents[a].clone();
            let ghost before = draft@;
            let id = match draft.append_step(now, content) {
                Ok(id) => id,
                Err(error) => return Err(CoreError::Domain(error)),
            };
            proof {
                law_steps_are_never_lost(before, 0, insertion_limit(before.steps.len()) as int, id, additions[a as int], Seq::empty(), now, None);
                lemma_keeps_trans(task, before, draft@);
                let next_ids = ids.push(id);
                assert(next_ids.drop_last() =~= ids);
                assert(additions.take(a + 1).drop_last() =~= additions.take(a as int));
                assert(additions.take(a + 1).last() == additions[a as int]);
                assert(draft@ == appended(edited_task, next_ids, additions.take(a + 1)));
                ids = next_ids;
            }
            a = a + 1;
        }
        proof {
            assert(additions.take(appended_contents@.len() as int) =~= additions);
        }
        let result = self.write_task(i, draft, ());
        assert(edit_settles(*old(self), *self, result, i as int, new_title, edits, ids, additions, now));
        assert(reading(*self) == now);
        result
    }

    /// The timing tick: measures the continuous work time and raises an
    /// intervention when due (the rules are [`decide`]'s). The position is
    /// written only when the start of its work time moved. When that write
    /// fails nothing changes — the previous tick stays, so the next tick sees
    /// the same jump and tries again.
    pub fn tick(&mut self) -> (result: Result<TickEffect, CoreError>)
        requires
            old(self).wf(),
        ensures
            final(self).wf(),
            exists|now: Timestamp, rest: RestSettings, d: Decision|
                #![trigger ticked(old(self)@, now, d), tick_of(old(self)@, now, rest)]
                {
                    &&& reads_settings(rest, old(self)@.settings)
                    &&& decision_millis(d) == decided(tick_of(old(self)@, now, rest))
                    &&& match adjusted_of(old(self)@.current_position, d.activated_at) {
                        None => result == Ok::<TickEffect, CoreError>(TickEffect { raised: d.raise })
                            && final(self)@ == ticked(old(self)@, now, d) && final(self).journal()
                            == old(self).journal(),
                        Some(p) => committed(*old(self), *final(self), position_commit(p), ticked(old(self)@, now, d))
                            && answered(result, outcome(*final(self)), TickEffect { raised: d.raise }),
                    }
                },
            read_once(*old(self), *final(self)),
            exists|rest: RestSettings, d: Decision|
                #![trigger tick_settles(*old(self), *final(self), result, reading(*final(self)), rest, d)]
                tick_settles(*old(self), *final(self), result, reading(*final(self)), rest, d),
    {
        let now = self.read_clock();
        let rest = self.state.rest_settings();
        let tick = Tick {
            position: self.state.current_position,
            now,
            previous: self.state.last_tick,
            interval_millis: TICK_INTERVAL_MILLIS,
            settings: rest,
            grace_until: self.state.grace_until,
            showing: self.state.intervention.is_some(),
        };
        assert(tick == tick_of(old(self)@, now, rest));
        let decision = decide(&tick);
        let adjusted = adjusted_position(self.state.current_position, &decision);
        let ghost position = self@.current_position;
        proof {
            if let Some(p) = adjusted {
                lemma_valid_same_pointer(self@, p);
            }
        }
        match adjusted {
            Some(p) => match self.commit_position(p) {
                Ok(()) => {},
                Err(error) => {
                    assert(ticked(old(self)@, now, decision) == ticked(old(self)@, now, decision));
                    assert(reading(*self) == now);
                    assert(tick_settles(*old(self), *self, Err(CoreError::Storage(error)), now, rest, decision));
                    return Err(CoreError::Storage(error));
                },
            },
            None => {},
        }
        let ghost moved = self@;
        self.state.last_tick = now;
        self.state.grace_until = decision.grace_until;
        if decision.raise {
            self.state.intervention = Some(Intervention::raised_at(now));
        }
        proof {
            lemma_valid_frame(moved, self@);
        }
        assert(self@ == ticked(old(self)@, now, decision));
        assert(reading(*self) == now);
        assert(tick_settles(*old(self), *self, Ok(TickEffect { raised: decision.raise }), now, rest, decision));
        Ok(TickEffect { raised: decision.raise })
    }
}

/// `grace_until` is the grace period of the stored settings after some present instant.
pub open spec fn grace_after_now(settings: Seq<(Seq<char>, Seq<char>)>, grace_until: Option<Timestamp>) -> bool {
    exists|now: Timestamp, rest: RestSettings|
        #![trigger shifted_of(now, rest.grace_millis())]
        rest.grace() == seconds_or(settings, GRACE_PERIOD_KEY@, DEFAULT_GRACE_PERIOD_SECONDS as int)
            && (grace_until matches Some(g) && g@ == shifted_of(now, rest.grace_millis()))
}

} // verus!
