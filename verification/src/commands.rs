//! The command boundary between the overlay and the core.
//!
//! Commands go from the front to the core, events from the core to the front.
//! Every decision of a command is a pure function here — what the overlay
//! shows, how an input becomes a task, which step to start from — so that it
//! can be checked without a running application.
//!
//! An absent core is never filled with a default: a state that could not be
//! read would otherwise be shown as "not started" and then overwritten.

use vstd::prelude::*;

use crate::adapters::hotkey::{opt_text, HotkeyStatus};
use crate::domain::position::step_of;
use crate::domain::setting::{is_white_space, trim_of, trimmed_bounds};
use crate::domain::state::{
    committed, outcome, owner_index, position_moved, step_at, task_commit, task_index, Core, CoreError, CoreState,
    CoreView,
};
use crate::domain::task::{created, texts};
use crate::domain::Clock;
use crate::ports::storage::Storage;
use crate::domain::task::{
    has_step_id, lemma_has_step_index, uuid_text_bits, hyphenated, InterruptionNote, Step, StepId, StepView, Task,
    TaskView, views,
};
use crate::text::{chars_of, owned, string_between};

verus! {

/// The reason shown when the state could not be read.
pub const CORE_MISSING: &'static str = "保存された状態を読み込めていない。現在地と中断メモを表示できず、切り替えも記録できない。";

/// The reason shown when a title is blank.
pub const TITLE_MISSING: &'static str = "題名が空である。タスクには題名が要る。";

/// The reason shown when no step is left.
pub const STEPS_MISSING: &'static str = "ステップが 1 個も無い。ステップを持たないタスクは作れない。";

/// The reason shown when the chosen row cannot be identified.
pub const ROW_UNREADABLE: &'static str = "選んだ行を特定できない。一覧を開き直すこと。";

/// The characters that end a line of the steps' input.
pub const STEP_SEPARATORS: [char; 4] = ['\n', '\r', '\u{2028}', '\u{2029}'];

/// The core, or the reason it is missing — for the paths that change the state.
pub fn require_core<T>(core: Option<T>) -> (required: Result<T, String>)
    ensures
        match core {
            Some(c) => required == Ok::<T, String>(c),
            None => required matches Err(reason) && reason@ == CORE_MISSING@,
        },
{
    match core {
        Some(core) => Ok(core),
        None => Err(owned(CORE_MISSING)),
    }
}

/// What the resident process holds outside the domain: the result of the
/// hotkey registration, once it is settled.
#[derive(Debug)]
pub struct ResidentStatus {
    hotkey: Option<HotkeyStatus>,
}

impl Default for ResidentStatus {
    /// Nothing settled yet.
    fn default() -> (status: Self)
        ensures
            status.settled().is_none(),
    {
        ResidentStatus { hotkey: None }
    }
}

impl ResidentStatus {
    /// The settled result of the hotkey registration.
    pub closed spec fn settled(&self) -> Option<HotkeyStatus> {
        self.hotkey
    }

    /// Settles the result of the hotkey registration.
    pub fn set_hotkey(&mut self, status: HotkeyStatus)
        ensures
            final(self).settled() == Some(status),
    {
        self.hotkey = Some(status);
    }

    /// The settled result; `None` until it is settled (never a default).
    pub fn hotkey(&self) -> (status: Option<HotkeyStatus>)
        ensures
            match self.settled() {
                None => status.is_none(),
                Some(s) => status matches Some(c) && c.accelerator@ == s.accelerator@ && c.registered
                    == s.registered && opt_text(c.error) == opt_text(s.error),
            },
    {
        match &self.hotkey {
            Some(status) => Some(status.clone()),
            None => None,
        }
    }
}

/// All that the overlay needs to draw.
#[derive(Debug)]
pub struct OverlaySnapshot {
    /// The result of the hotkey registration; always filled, even when the
    /// state could not be read.
    pub hotkey: HotkeyStatus,
    /// Why the state could not be read; `None` when it was.
    pub state_error: Option<String>,
    /// The content of the step the position points at; `None` when not started.
    pub step_content: Option<String>,
    /// Its ordinal (the N of "step N of M").
    pub step_ordinal: Option<u32>,
    /// The number of steps of its task (the M).
    pub step_count: Option<u32>,
    /// Its interruption note.
    pub interruption_note: Option<String>,
}

/// The step the position points at, with the number of steps of its task.
pub open spec fn shown_step(state: CoreView) -> Option<(StepView, nat)> {
    match step_of(state.current_position) {
        None => None,
        Some(s) => match owner_index(state.tasks, s) {
            None => None,
            Some(i) => Some((state.tasks[i].steps[step_at(state.tasks, i, s)], state.tasks[i].steps.len())),
        },
    }
}

/// `n` as a `u32`, saturating.
pub open spec fn saturating_u32(n: nat) -> u32 {
    if n <= u32::MAX {
        n as u32
    } else {
        u32::MAX
    }
}

/// The snapshot the overlay draws, from the state (or its absence). The step,
/// its ordinal, the count and the note come from one lookup, so that the
/// content is never shown without its count.
pub fn snapshot_of(hotkey: HotkeyStatus, state: Option<&CoreState>) -> (snapshot: OverlaySnapshot)
    ensures
        snapshot.hotkey == hotkey,
        match state {
            None => {
                &&& opt_text(snapshot.state_error) == Some(CORE_MISSING@)
                &&& snapshot.step_content.is_none()
                &&& snapshot.step_ordinal.is_none()
                &&& snapshot.step_count.is_none()
                &&& snapshot.interruption_note.is_none()
            },
            Some(st) => {
                &&& snapshot.state_error.is_none()
                &&& match shown_step(st@) {
                    None => {
                        &&& snapshot.step_content.is_none()
                        &&& snapshot.step_ordinal.is_none()
                        &&& snapshot.step_count.is_none()
                        &&& snapshot.interruption_note.is_none()
                    },
                    Some((step, count)) => {
                        &&& opt_text(snapshot.step_content) == Some(step.content)
                        &&& snapshot.step_ordinal == Some(step.ordinal)
                        &&& snapshot.step_count == Some(saturating_u32(count))
                        &&& opt_text(snapshot.interruption_note) == step.note
                    },
                }
            },
        },
{
    let state = match state {
        Some(state) => state,
        None => {
            return OverlaySnapshot {
                hotkey,
                state_error: Some(owned(CORE_MISSING)),
                step_content: None,
                step_ordinal: None,
                step_count: None,
                interruption_note: None,
            };
        },
    };
    let empty = OverlaySnapshot {
        hotkey,
        state_error: None,
        step_content: None,
        step_ordinal: None,
        step_count: None,
        interruption_note: None,
    };
    let step_id = match state.current_position().step_id() {
        Some(step_id) => step_id,
        None => return empty,
    };
    let task = match state.task_of_step(step_id) {
        Some(task) => task,
        None => return empty,
    };
    proof {
        lemma_has_step_index(task@.steps, step_id);
    }
    let step = match task.step(step_id) {
        Some(step) => step,
        None => return empty,
    };
    let steps = task.steps();
    let count = steps.len();
    assert(views(steps@).len() == steps@.len());
    let count: u32 = if count <= 4294967295usize {
        count as u32
    } else {
        4294967295u32
    };
    let note = match step.interruption_note() {
        Some(note) => Some(owned(note.text())),
        None => None,
    };
    OverlaySnapshot {
        hotkey: empty.hotkey,
        state_error: None,
        step_content: Some(owned(step.content())),
        step_ordinal: Some(step.ordinal()),
        step_count: Some(count),
        interruption_note: note,
    }
}

/// One row of the disclosure surface: a task heading (not selectable) or a
/// step. Only what is drawn is carried — no ordinal, no note, no count.
#[derive(Debug, PartialEq, Eq)]
pub enum DisclosureRow {
    /// A task heading.
    Task {
        /// The task's title.
        title: String,
    },
    /// A step.
    Step {
        /// The id sent back to select it (its id, never its ordinal).
        step_id: String,
        /// The step's content.
        content: String,
        /// Whether its completion was declared.
        completed: bool,
        /// Whether the position points at it.
        current: bool,
    },
}

/// What a row carries.
pub enum RowView {
    /// A task heading.
    Task { title: Seq<char> },
    /// A step.
    Step { step_id: Seq<char>, content: Seq<char>, completed: bool, current: bool },
}

impl View for DisclosureRow {
    type V = RowView;

    open spec fn view(&self) -> RowView {
        match self {
            DisclosureRow::Task { title } => RowView::Task { title: title@ },
            DisclosureRow::Step { step_id, content, completed, current } => RowView::Step {
                step_id: step_id@,
                content: content@,
                completed: *completed,
                current: *current,
            },
        }
    }
}

/// All that the disclosure surface needs to draw.
#[derive(Debug, PartialEq, Eq)]
pub struct DisclosureSurface {
    /// Why the state could not be read; `None` when it was.
    pub state_error: Option<String>,
    /// Task headings, each followed by its steps, in order.
    pub rows: Vec<DisclosureRow>,
}

/// The rows of one task: its heading, then its steps.
pub open spec fn task_rows(task: TaskView, current: Option<StepId>) -> Seq<RowView> {
    seq![RowView::Task { title: task.title }] + step_rows(task, current, task.steps.len() as int)
}

/// The rows of the first `k` steps of a task.
pub open spec fn step_rows(task: TaskView, current: Option<StepId>, k: int) -> Seq<RowView> {
    Seq::new(
        k as nat,
        |m: int|
            RowView::Step {
                step_id: task.steps[m].id.text(),
                content: task.steps[m].content,
                completed: task.steps[m].completed_at.is_some(),
                current: current == Some(task.steps[m].id),
            },
    )
}

/// The rows of all tasks, in order.
pub open spec fn rows_of(tasks: Seq<TaskView>, current: Option<StepId>) -> Seq<RowView>
    decreases tasks.len(),
{
    if tasks.len() == 0 {
        Seq::empty()
    } else {
        rows_of(tasks.drop_last(), current) + task_rows(tasks.last(), current)
    }
}

/// The number of step rows marked as the current position.
pub open spec fn current_rows(rows: Seq<RowView>) -> nat
    decreases rows.len(),
{
    if rows.len() == 0 {
        0
    } else {
        current_rows(rows.drop_last()) + match rows.last() {
            RowView::Step { current, .. } => if current { 1nat } else { 0nat },
            RowView::Task { .. } => 0nat,
        }
    }
}

/// No two steps, in one task or in two, share an id.
pub open spec fn step_ids_distinct(tasks: Seq<TaskView>) -> bool {
    forall|i1: int, m1: int, i2: int, m2: int|
        0 <= i1 < tasks.len() && 0 <= m1 < tasks[i1].steps.len() && 0 <= i2 < tasks.len() && 0 <= m2
            < tasks[i2].steps.len() && (i1 != i2 || m1 != m2) ==> #[trigger] tasks[i1].steps[m1].id
            != #[trigger] tasks[i2].steps[m2].id
}

/// Some task holds a step with id `id`.
pub open spec fn listed(tasks: Seq<TaskView>, id: StepId) -> bool {
    exists|i: int| 0 <= i < tasks.len() && #[trigger] has_step_id(tasks[i].steps, id)
}

proof fn lemma_current_rows_concat(a: Seq<RowView>, b: Seq<RowView>)
    ensures
        current_rows(a + b) == current_rows(a) + current_rows(b),
    decreases b.len(),
{
    if b.len() == 0 {
        assert(a + b =~= a);
    } else {
        assert((a + b).drop_last() =~= a + b.drop_last());
        lemma_current_rows_concat(a, b.drop_last());
    }
}

proof fn lemma_current_step_rows(task: TaskView, current: StepId, k: int)
    requires
        0 <= k <= task.steps.len(),
        forall|m1: int, m2: int|
            0 <= m1 < task.steps.len() && 0 <= m2 < task.steps.len() && m1 != m2 ==> #[trigger] task.steps[m1].id
                != #[trigger] task.steps[m2].id,
    ensures
        current_rows(step_rows(task, Some(current), k)) == if exists|m: int|
            0 <= m < k && #[trigger] task.steps[m].id == current {
            1nat
        } else {
            0nat
        },
    decreases k,
{
    let rows = step_rows(task, Some(current), k);
    if k > 0 {
        lemma_current_step_rows(task, current, k - 1);
        assert(rows.drop_last() =~= step_rows(task, Some(current), k - 1));
        if task.steps[k - 1].id == current {
            assert forall|m: int| 0 <= m < k - 1 implies #[trigger] task.steps[m].id != current by {
                assert(task.steps[m].id != task.steps[k - 1].id);
            }
        }
    } else {
        assert(rows =~= Seq::<RowView>::empty());
    }
}

proof fn lemma_current_rows_of(tasks: Seq<TaskView>, current: Option<StepId>)
    requires
        step_ids_distinct(tasks),
    ensures
        current_rows(rows_of(tasks, current)) == match current {
            Some(id) => if listed(tasks, id) { 1nat } else { 0nat },
            None => 0nat,
        },
    decreases tasks.len(),
{
    if tasks.len() == 0 {
        return;
    }
    let prefix = tasks.drop_last();
    let t = tasks.last();
    assert(step_ids_distinct(prefix)) by {
        assert forall|i1: int, m1: int, i2: int, m2: int|
            0 <= i1 < prefix.len() && 0 <= m1 < prefix[i1].steps.len() && 0 <= i2 < prefix.len() && 0 <= m2
                < prefix[i2].steps.len() && (i1 != i2 || m1 != m2) implies #[trigger] prefix[i1].steps[m1].id
            != #[trigger] prefix[i2].steps[m2].id by {
            assert(prefix[i1] == tasks[i1] && prefix[i2] == tasks[i2]);
        }
    }
    lemma_current_rows_of(prefix, current);
    lemma_current_rows_concat(rows_of(prefix, current), task_rows(t, current));
    let n = t.steps.len() as int;
    let steps = step_rows(t, current, n);
    lemma_current_rows_concat(seq![RowView::Task { title: t.title }], steps);
    assert(current_rows(seq![RowView::Task { title: t.title }]) == 0) by {
        let heading = seq![RowView::Task { title: t.title }];
        assert(heading.drop_last() =~= Seq::<RowView>::empty());
        assert(current_rows(heading.drop_last()) == 0);
        assert(heading.last() == RowView::Task { title: t.title });
    }
    let last = tasks.len() - 1;
    match current {
        None => {
            assert(current_rows(steps) == 0) by {
                lemma_no_current_rows(t, n);
            }
        },
        Some(id) => {
            assert forall|m1: int, m2: int|
                0 <= m1 < t.steps.len() && 0 <= m2 < t.steps.len() && m1 != m2 implies #[trigger] t.steps[m1].id
                != #[trigger] t.steps[m2].id by {
                assert(tasks[last].steps[m1].id != tasks[last].steps[m2].id);
            }
            lemma_current_step_rows(t, id, n);
            let in_last = exists|m: int| 0 <= m < n && #[trigger] t.steps[m].id == id;
            assert(in_last == has_step_id(t.steps, id));
            if listed(tasks, id) {
                let i = choose|i: int| 0 <= i < tasks.len() && #[trigger] has_step_id(tasks[i].steps, id);
                if i < last {
                    assert(prefix[i] == tasks[i]);
                    assert(listed(prefix, id));
                    if in_last {
                        let m1 = choose|m: int| 0 <= m < tasks[i].steps.len() && #[trigger] tasks[i].steps[m].id == id;
                        let m2 = choose|m: int| 0 <= m < n && #[trigger] t.steps[m].id == id;
                        assert(tasks[i].steps[m1].id != tasks[last].steps[m2].id);
                    }
                } else {
                    assert(in_last);
                    if listed(prefix, id) {
                        let j = choose|j: int| 0 <= j < prefix.len() && #[trigger] has_step_id(prefix[j].steps, id);
                        assert(prefix[j] == tasks[j]);
                        let m1 = choose|m: int| 0 <= m < tasks[j].steps.len() && #[trigger] tasks[j].steps[m].id == id;
                        let m2 = choose|m: int| 0 <= m < n && #[trigger] t.steps[m].id == id;
                        assert(tasks[j].steps[m1].id != tasks[last].steps[m2].id);
                    }
                }
            } else {
                assert(!has_step_id(tasks[last].steps, id));
                if listed(prefix, id) {
                    let j = choose|j: int| 0 <= j < prefix.len() && #[trigger] has_step_id(prefix[j].steps, id);
                    assert(prefix[j] == tasks[j]);
                }
            }
        },
    }
}

proof fn lemma_no_current_rows(task: TaskView, k: int)
    requires
        0 <= k <= task.steps.len(),
    ensures
        current_rows(step_rows(task, None, k)) == 0,
    decreases k,
{
    if k > 0 {
        lemma_no_current_rows(task, k - 1);
        assert(step_rows(task, None, k).drop_last() =~= step_rows(task, None, k - 1));
    } else {
        assert(step_rows(task, None, k) =~= Seq::<RowView>::empty());
    }
}

/// The current position is one value, so the list marks exactly one row as
/// current when it points at a listed step, and none otherwise (step ids are
/// UUIDs: no two steps share one).
pub proof fn law_one_current_row(tasks: Seq<TaskView>, current: Option<StepId>)
    requires
        step_ids_distinct(tasks),
    ensures
        current_rows(rows_of(tasks, current)) == match current {
            Some(id) => if listed(tasks, id) { 1nat } else { 0nat },
            None => 0nat,
        },
{
    lemma_current_rows_of(tasks, current);
}

/// The views of a list of rows.
pub open spec fn row_views(rows: Seq<DisclosureRow>) -> Seq<RowView> {
    rows.map_values(|r: DisclosureRow| r@)
}

/// The disclosure surface, from the state (or its absence): every task's
/// heading followed by its steps; the position is read once.
pub fn disclosure_of(state: Option<&CoreState>) -> (surface: DisclosureSurface)
    ensures
        match state {
            None => opt_text(surface.state_error) == Some(CORE_MISSING@) && surface.rows@.len() == 0,
            Some(st) => surface.state_error.is_none() && row_views(surface.rows@) == rows_of(
                st@.tasks,
                step_of(st@.current_position),
            ),
        },
{
    let state = match state {
        Some(state) => state,
        None => {
            return DisclosureSurface { state_error: Some(owned(CORE_MISSING)), rows: Vec::new() };
        },
    };
    let current = state.current_position().step_id();
    let tasks = state.tasks();
    let ghost all = state@.tasks;
    let mut rows: Vec<DisclosureRow> = Vec::new();
    let mut t: usize = 0;
    assert(all.take(0) =~= Seq::<TaskView>::empty());
    while t < tasks.len()
        invariant
            all == state@.tasks,
            crate::domain::state::task_views(tasks@) == all,
            t <= tasks@.len(),
            row_views(rows@) == rows_of(all.take(t as int), current),
        decreases tasks.len() - t,
    {
        let task = &tasks[t];
        let ghost tv = task@;
        assert(tv == all[t as int]);
        let ghost before = row_views(rows@);
        rows.push(DisclosureRow::Task { title: owned(task.title()) });
        assert(row_views(rows@) =~= before + seq![RowView::Task { title: tv.title }]);
        let steps = task.steps();
        let mut k: usize = 0;
        assert(step_rows(tv, current, 0) =~= Seq::<RowView>::empty());
        while k < steps.len()
            invariant
                views(steps@) == tv.steps,
                k <= steps@.len(),
                row_views(rows@) == before + seq![RowView::Task { title: tv.title }] + step_rows(
                    tv,
                    current,
                    k as int,
                ),
            decreases steps.len() - k,
        {
            let step = &steps[k];
            assert(step@ == tv.steps[k as int]);
            let ghost prior = row_views(rows@);
            rows.push(
                DisclosureRow::Step {
                    step_id: step.id().to_text(),
                    content: owned(step.content()),
                    completed: step.is_completed(),
                    current: current == Some(step.id()),
                },
            );
            assert(row_views(rows@) =~= prior.push(row_views(rows@).last()));
            assert(step_rows(tv, current, k + 1) =~= step_rows(tv, current, k as int).push(
                row_views(rows@).last(),
            ));
            k = k + 1;
        }
        assert(views(steps@).len() == steps@.len());
        proof {
            assert(all.take(t + 1).drop_last() =~= all.take(t as int));
            assert(all.take(t + 1).last() == tv);
        }
        t = t + 1;
    }
    assert(all.take(tasks@.len() as int) =~= all);
    DisclosureSurface { state_error: None, rows }
}

/// What `switch_current_position` receives.
#[derive(Debug, PartialEq, Eq)]
pub struct SwitchRequest {
    /// The note to settle; `None` or a blank text is an omission (the note
    /// already there stays).
    pub note: Option<String>,
    /// Whether to declare the completion.
    pub declare_completion: bool,
}

/// What `create_task` receives: the title, and the steps' input as typed (one
/// line, one step).
#[derive(Debug, PartialEq, Eq)]
pub struct CreateTaskRequest {
    /// The title.
    pub title: String,
    /// The input of the steps, as typed.
    pub steps: String,
    /// Whether to also move the position to the task's first step.
    pub move_current_position: bool,
}

/// How creating a task ended (once created, it never fails).
#[derive(Debug, Clone, Copy, PartialEq, Eq, Structural)]
pub struct CreateTaskOutcome {
    /// Whether the position moved to the task's first step.
    pub moved: bool,
}

/// What `select_step` receives.
#[derive(Debug, PartialEq, Eq)]
pub struct SelectStepRequest {
    /// The id of the chosen step, as the row carried it.
    pub step_id: String,
}

/// How a selection ended.
#[derive(Debug, Clone, Copy, PartialEq, Eq, Structural)]
pub struct SelectStepOutcome {
    /// Whether the position moved (nothing was written otherwise).
    pub moved: bool,
}

/// Whether a selection announces a move: only when the position moved.
pub fn announces_a_move(outcome: SelectStepOutcome) -> (announce: bool)
    ensures
        announce == outcome.moved,
{
    outcome.moved
}

/// The chosen row's id, read as a step id — before asking for the core, so
/// that a bad input is never answered with an unrelated reason.
pub fn step_to_select(step_id: &str) -> (selected: Result<StepId, String>)
    ensures
        match uuid_text_bits(step_id@) {
            Some(b) => selected matches Ok(id) && id.bits() == b,
            None => selected matches Err(reason) && reason@ == ROW_UNREADABLE@,
        },
        forall|id: StepId| step_id@ == id.text() ==> selected == Ok::<StepId, String>(id),
{
    match StepId::parse(step_id) {
        Ok(id) => Ok(id),
        Err(_) => Err(owned(ROW_UNREADABLE)),
    }
}

/// A task's title and its steps' contents, tidied from the input.
#[derive(Debug, PartialEq, Eq)]
pub struct TaskDefinition {
    /// The title, trimmed.
    pub title: String,
    /// The contents, one per non-blank line, trimmed, in order.
    pub step_contents: Vec<String>,
}

/// Whether `c` ends a line.
pub open spec fn is_separator(c: char) -> bool {
    c == '\n' || c == '\r' || c == '\u{2028}' || c == '\u{2029}'
}

/// `s` cut at every separator (`str::split`): `n` separators give `n + 1` pieces.
pub open spec fn split_lines(s: Seq<char>) -> Seq<Seq<char>>
    decreases s.len(),
{
    if s.len() == 0 {
        seq![Seq::empty()]
    } else {
        let pieces = split_lines(s.drop_last());
        if is_separator(s.last()) {
            pieces.push(Seq::empty())
        } else {
            pieces.update(pieces.len() - 1, pieces.last().push(s.last()))
        }
    }
}

/// The pieces trimmed, without the blank ones, in order.
pub open spec fn tidy_lines(pieces: Seq<Seq<char>>) -> Seq<Seq<char>>
    decreases pieces.len(),
{
    if pieces.len() == 0 {
        Seq::empty()
    } else {
        let kept = tidy_lines(pieces.drop_last());
        if trim_of(pieces.last()).len() == 0 {
            kept
        } else {
            kept.push(trim_of(pieces.last()))
        }
    }
}

/// Every piece of a split holds no separator.
proof fn lemma_split_pieces_lack_separators(s: Seq<char>)
    ensures
        forall|k: int, m: int|
            0 <= k < split_lines(s).len() && 0 <= m < split_lines(s)[k].len() ==> !is_separator(
                #[trigger] split_lines(s)[k][m],
            ),
    decreases s.len(),
{
    if s.len() > 0 {
        lemma_split_pieces_lack_separators(s.drop_last());
        lemma_split_nonempty(s.drop_last());
    }
}

/// A trimmed text is a part of the text.
proof fn lemma_trim_is_a_part(s: Seq<char>)
    ensures
        exists|a: int, b: int| 0 <= a <= b <= s.len() && trim_of(s) == s.subrange(a, b),
{
    lemma_trim_start_is_a_suffix(s);
    let t = crate::domain::setting::trim_start_of(s);
    let a = choose|a: int| 0 <= a <= s.len() && t == s.subrange(a, s.len() as int);
    lemma_trim_end_is_a_prefix(t);
    let b = choose|b: int| 0 <= b <= t.len() && trim_of(s) == t.subrange(0, b);
    assert(trim_of(s) =~= s.subrange(a, a + b));
}

proof fn lemma_trim_start_is_a_suffix(s: Seq<char>)
    ensures
        exists|a: int| 0 <= a <= s.len() && crate::domain::setting::trim_start_of(s) == s.subrange(a, s.len() as int),
    decreases s.len(),
{
    if s.len() > 0 && is_white_space(s[0]) {
        lemma_trim_start_is_a_suffix(s.drop_first());
        let a = choose|a: int|
            0 <= a <= s.drop_first().len() && crate::domain::setting::trim_start_of(s.drop_first())
                == s.drop_first().subrange(a, s.drop_first().len() as int);
        assert(s.drop_first().subrange(a, s.drop_first().len() as int) =~= s.subrange(a + 1, s.len() as int));
    } else {
        assert(s.subrange(0, s.len() as int) =~= s);
    }
}

proof fn lemma_trim_end_is_a_prefix(s: Seq<char>)
    ensures
        exists|b: int| 0 <= b <= s.len() && crate::domain::setting::trim_end_of(s) == s.subrange(0, b),
    decreases s.len(),
{
    if s.len() > 0 && is_white_space(s.last()) {
        lemma_trim_end_is_a_prefix(s.drop_last());
        let b = choose|b: int|
            0 <= b <= s.drop_last().len() && crate::domain::setting::trim_end_of(s.drop_last())
                == s.drop_last().subrange(0, b);
        assert(s.drop_last().subrange(0, b) =~= s.subrange(0, b));
    } else {
        assert(s.subrange(0, s.len() as int) =~= s);
    }
}

/// The steps made from an input are never blank and hold no line separator:
/// one line, one step.
pub proof fn law_no_step_carries_a_separator(input: Seq<char>)
    ensures
        forall|k: int|
            0 <= k < tidy_lines(split_lines(input)).len() ==> (#[trigger] tidy_lines(split_lines(input))[k]).len() > 0,
        forall|k: int, m: int|
            0 <= k < tidy_lines(split_lines(input)).len() && 0 <= m < tidy_lines(split_lines(input))[k].len()
                ==> !is_separator(#[trigger] tidy_lines(split_lines(input))[k][m]),
{
    lemma_split_pieces_lack_separators(input);
    lemma_tidy_parts(split_lines(input));
}

/// Each tidied line is a non-blank, trimmed part of some piece.
proof fn lemma_tidy_parts(pieces: Seq<Seq<char>>)
    requires
        forall|k: int, m: int|
            0 <= k < pieces.len() && 0 <= m < pieces[k].len() ==> !is_separator(#[trigger] pieces[k][m]),
    ensures
        forall|k: int| 0 <= k < tidy_lines(pieces).len() ==> (#[trigger] tidy_lines(pieces)[k]).len() > 0,
        forall|k: int, m: int|
            0 <= k < tidy_lines(pieces).len() && 0 <= m < tidy_lines(pieces)[k].len() ==> !is_separator(
                #[trigger] tidy_lines(pieces)[k][m],
            ),
    decreases pieces.len(),
{
    if pieces.len() > 0 {
        let prefix = pieces.drop_last();
        assert forall|k: int, m: int| 0 <= k < prefix.len() && 0 <= m < prefix[k].len() implies !is_separator(
            #[trigger] prefix[k][m],
        ) by {
            assert(prefix[k] == pieces[k]);
        }
        lemma_tidy_parts(prefix);
        let last = pieces.last();
        lemma_trim_is_a_part(last);
        let (a, b) = choose|a: int, b: int| 0 <= a <= b <= last.len() && trim_of(last) == last.subrange(a, b);
        assert forall|m: int| 0 <= m < trim_of(last).len() implies !is_separator(#[trigger] trim_of(last)[m]) by {
            assert(trim_of(last)[m] == last[a + m]);
            assert(last == pieces[pieces.len() - 1]);
        }
        let kept = tidy_lines(prefix);
        let all = tidy_lines(pieces);
        assert forall|k: int| 0 <= k < all.len() implies (#[trigger] all[k]).len() > 0 by {
            if k < kept.len() {
                assert(all[k] == kept[k]);
            } else {
                assert(all[k] == trim_of(last));
            }
        }
        assert forall|k: int, m: int| 0 <= k < all.len() && 0 <= m < all[k].len() implies !is_separator(
            #[trigger] all[k][m],
        ) by {
            if k < kept.len() {
                assert(all[k] == kept[k]);
                assert(!is_separator(kept[k][m]));
            } else {
                assert(all[k] == trim_of(last));
                assert(!is_separator(trim_of(last)[m]));
            }
        }
    }
}

/// The texts of a list of strings.
pub open spec fn string_views(strings: Seq<String>) -> Seq<Seq<char>> {
    strings.map_values(|s: String| s@)
}

/// A text trimmed of white space at both ends (`str::trim`).
pub fn trimmed(text: &Vec<char>) -> (trimmed: String)
    ensures
        trimmed@ == trim_of(text@),
{
    let (start, end) = trimmed_bounds(text);
    string_between(text, start, end)
}

fn separator(c: char) -> (sep: bool)
    ensures
        sep == is_separator(c),
{
    c == '\n' || c == '\r' || c == '\u{2028}' || c == '\u{2029}'
}

proof fn lemma_split_nonempty(s: Seq<char>)
    ensures
        split_lines(s).len() >= 1,
    decreases s.len(),
{
    if s.len() > 0 {
        lemma_split_nonempty(s.drop_last());
    }
}

/// The steps' input cut into lines, trimmed, without the blank ones.
fn step_lines(steps: &str) -> (lines: Vec<String>)
    ensures
        string_views(lines@) == tidy_lines(split_lines(steps@)),
{
    let chars = chars_of(steps);
    let mut lines: Vec<String> = Vec::new();
    let mut piece: Vec<char> = Vec::new();
    let ghost mut done: Seq<Seq<char>> = Seq::empty();
    let mut i: usize = 0;
    assert(chars@.take(0) =~= Seq::<char>::empty());
    assert(split_lines(Seq::<char>::empty()) =~= done.push(piece@));
    while i < chars.len()
        invariant
            i <= chars@.len(),
            chars@ == steps@,
            split_lines(chars@.take(i as int)) == done.push(piece@),
            string_views(lines@) == tidy_lines(done),
        decreases chars.len() - i,
    {
        let c = chars[i];
        proof {
            assert(chars@.take(i + 1).drop_last() =~= chars@.take(i as int));
            assert(chars@.take(i + 1).last() == c);
        }
        if separator(c) {
            let line = trimmed(&piece);
            let ghost before = string_views(lines@);
            if line.unicode_len() > 0 {
                lines.push(line);
                assert(string_views(lines@) =~= before.push(line@));
            }
            proof {
                let next = done.push(piece@);
                assert(next.drop_last() =~= done);
                assert(split_lines(chars@.take(i + 1)) == next.push(Seq::empty()));
                done = next;
            }
            piece = Vec::new();
        } else {
            let ghost before = piece@;
            piece.push(c);
            proof {
                let p = done.push(before);
                assert(p.update(p.len() - 1, p.last().push(c)) =~= done.push(piece@));
            }
        }
        i = i + 1;
    }
    let line = trimmed(&piece);
    let ghost before = string_views(lines@);
    if line.unicode_len() > 0 {
        lines.push(line);
        assert(string_views(lines@) =~= before.push(line@));
    }
    proof {
        assert(chars@.take(chars@.len() as int) =~= chars@);
        let all = done.push(piece@);
        assert(all.drop_last() =~= done);
    }
    lines
}

/// Tidies the input into a task's definition: the title trimmed (a blank one
/// is refused); one step per line (`\n`, `\r`, U+2028 and U+2029 all end a
/// line), each trimmed, blank lines dropped, in order (none left is refused).
pub fn as_task_definition(title: &str, steps: &str) -> (definition: Result<TaskDefinition, String>)
    ensures
        trim_of(title@).len() == 0 ==> (definition matches Err(reason) && reason@ == TITLE_MISSING@),
        trim_of(title@).len() > 0 && tidy_lines(split_lines(steps@)).len() == 0 ==> (
        definition matches Err(reason) && reason@ == STEPS_MISSING@),
        trim_of(title@).len() > 0 && tidy_lines(split_lines(steps@)).len() > 0 ==> (
        definition matches Ok(d) && d.title@ == trim_of(title@) && string_views(d.step_contents@)
            == tidy_lines(split_lines(steps@))),
{
    let title_chars = chars_of(title);
    let title = trimmed(&title_chars);
    if title.unicode_len() == 0 {
        return Err(owned(TITLE_MISSING));
    }
    let step_contents = step_lines(steps);
    if step_contents.len() == 0 {
        return Err(owned(STEPS_MISSING));
    }
    Ok(TaskDefinition { title, step_contents })
}

/// `k` is the first step numbered 1.
pub open spec fn is_first_numbered_one(steps: Seq<StepView>, k: int) -> bool {
    &&& 0 <= k < steps.len()
    &&& steps[k].ordinal == 1
    &&& forall|j: int| 0 <= j < k ==> steps[j].ordinal != 1
}

/// The step numbered 1, if any.
pub open spec fn first_numbered_one(steps: Seq<StepView>) -> Option<StepId> {
    if exists|k: int| is_first_numbered_one(steps, k) {
        Some(steps[choose|k: int| is_first_numbered_one(steps, k)].id)
    } else {
        None
    }
}

proof fn lemma_first_numbered_one(steps: Seq<StepView>, k: int)
    requires
        is_first_numbered_one(steps, k),
    ensures
        first_numbered_one(steps) == Some(steps[k].id),
{
    assert forall|m: int| is_first_numbered_one(steps, m) implies m == k by {
        if m < k {
            assert(steps[m].ordinal != 1);
        } else if m > k {
            assert(steps[k].ordinal != 1);
        }
    }
}

/// The step to start a task from: the one numbered 1 (by its ordinal, not by
/// its place in the list).
pub fn step_to_start_from(task: Option<&Task>) -> (start: Option<StepId>)
    ensures
        match task {
            None => start.is_none(),
            Some(t) => start == first_numbered_one(t@.steps),
        },
{
    let found = match task {
        Some(found) => found,
        None => return None,
    };
    let steps = found.steps();
    let mut k: usize = 0;
    while k < steps.len()
        invariant
            task == Some(found),
            views(steps@) == found@.steps,
            k <= steps@.len(),
            forall|j: int| 0 <= j < k ==> found@.steps[j].ordinal != 1,
        decreases steps.len() - k,
    {
        assert(steps@[k as int]@ == found@.steps[k as int]);
        if steps[k].ordinal() == 1 {
            proof {
                lemma_first_numbered_one(found@.steps, k as int);
            }
            let id = steps[k].id();
            assert(first_numbered_one(found@.steps) == Some(id));
            return Some(id);
        }
        k = k + 1;
    }
    assert(views(steps@).len() == steps@.len());
    proof {
        assert forall|m: int| !is_first_numbered_one(found@.steps, m) by {
            if 0 <= m < found@.steps.len() {
                assert(found@.steps[m].ordinal != 1);
            }
        }
    }
    None
}

/// How a switch ended.
#[derive(Debug, Clone, Copy, PartialEq, Eq, Structural)]
pub struct SwitchOutcome {
    /// Whether the position moved to the next step (from the last step it does not).
    pub moved: bool,
}

/// The start step of task `id` in `tasks`: its step numbered 1, if the task is there.
pub open spec fn start_of(tasks: Seq<TaskView>, id: crate::domain::task::TaskId) -> Option<StepId> {
    match task_index(tasks, id) {
        Some(i) => first_numbered_one(tasks[i].steps),
        None => None,
    }
}

/// What creating task `t` at `now` and, when asked, moving to its first step
/// settles, with `mid` the core right after the task's commit: a refused commit
/// is answered with the storage's error; once the task is committed the answer
/// is `Ok`, and `moved` says whether the position moved to the step numbered 1.
pub open spec fn creation_settled<C: Clock, S: Storage>(
    before: Core<C, S>,
    mid: Core<C, S>,
    after: Core<C, S>,
    now: crate::domain::Timestamp,
    t: TaskView,
    title: Seq<char>,
    contents: Seq<Seq<char>>,
    move_position: bool,
    result: Result<CreateTaskOutcome, CoreError>,
) -> bool {
    &&& created(t, now, title, contents)
    &&& committed(before, mid, task_commit(t), CoreView { tasks: before@.tasks.push(t), ..before@ })
    &&& match outcome(mid) {
        Err(error) => result == Err::<CreateTaskOutcome, CoreError>(CoreError::Storage(error)) && after == mid,
        Ok(_) => {
            let start = start_of(mid@.tasks, t.id);
            if !move_position || start is None {
                result == Ok::<CreateTaskOutcome, CoreError>(CreateTaskOutcome { moved: false }) && after == mid
            } else {
                exists|moved: Result<(), CoreError>|
                    #[trigger] position_moved(mid, after, start->0, moved) && result == Ok::<
                        CreateTaskOutcome,
                        CoreError,
                    >(CreateTaskOutcome { moved: moved is Ok })
            }
        },
    }
}

/// Creates a task and, when `move_position` asks for it, moves the position to
/// the task's step numbered 1. Only the creation can fail: once the task is
/// committed, a missing first step or a refused move is answered
/// `moved: false`, so that the task is never created twice.
pub fn create_and_start<C: Clock, S: Storage>(
    core: &mut Core<C, S>,
    title: String,
    step_contents: Vec<String>,
    move_position: bool,
) -> (result: Result<CreateTaskOutcome, CoreError>)
    requires
        old(core).wf(),
    ensures
        final(core).wf(),
        step_contents@.len() == 0 ==> result == Err::<CreateTaskOutcome, CoreError>(
            CoreError::Domain(crate::domain::DomainError::EmptyTask),
        ) && crate::domain::state::untouched(*old(core), *final(core)),
        step_contents@.len() > 0 ==> exists|mid: Core<C, S>, now: crate::domain::Timestamp, t: TaskView|
            #[trigger] creation_settled(
                *old(core),
                mid,
                *final(core),
                now,
                t,
                title@,
                texts(step_contents@),
                move_position,
                result,
            ),
{
    let ghost title_text = title@;
    let ghost contents = texts(step_contents@);
    let created_id = core.create_task(title, step_contents);
    let ghost mid = *core;
    let ghost (now, t) = choose|now: crate::domain::Timestamp, t: TaskView|
        #![trigger created(t, now, title_text, contents)]
        created(t, now, title_text, contents) && committed(
            *old(core),
            mid,
            task_commit(t),
            CoreView { tasks: old(core)@.tasks.push(t), ..old(core)@ },
        ) && crate::domain::state::answered(created_id, outcome(mid), t.id);
    let id = match created_id {
        Ok(id) => id,
        Err(error) => {
            proof {
                if contents.len() > 0 {
                    assert(creation_settled(*old(core), mid, *core, now, t, title_text, contents, move_position, Err(error)));
                }
            }
            return Err(error);
        },
    };
    if !move_position {
        let result = Ok(CreateTaskOutcome { moved: false });
        assert(creation_settled(*old(core), mid, *core, now, t, title_text, contents, move_position, result));
        return result;
    }
    let state = core.snapshot();
    let start = step_to_start_from(state.task(id));
    let first = match start {
        Some(first) => first,
        None => {
            let result = Ok(CreateTaskOutcome { moved: false });
            assert(creation_settled(*old(core), mid, *core, now, t, title_text, contents, move_position, result));
            return result;
        },
    };
    let moved = core.move_current_position(first);
    let result = Ok(CreateTaskOutcome { moved: moved.is_ok() });
    assert(position_moved(mid, *core, first, moved));
    assert(creation_settled(*old(core), mid, *core, now, t, title_text, contents, move_position, result));
    result
}

/// The outcome of a switch, from the step moved to.
pub fn outcome_of(destination: Option<StepId>) -> (outcome: SwitchOutcome)
    ensures
        outcome.moved == destination.is_some(),
{
    SwitchOutcome { moved: destination.is_some() }
}

/// The input of the note field as an interruption note: a blank input is an
/// omission; any other text is kept exactly as written (not trimmed).
pub fn as_interruption_note(note: Option<String>) -> (interruption: Option<InterruptionNote>)
    ensures
        match note {
            None => interruption.is_none(),
            Some(text) => if trim_of(text@).len() == 0 {
                interruption.is_none()
            } else {
                interruption matches Some(n) && n@ == text@
            },
        },
{
    let text = match note {
        Some(text) => text,
        None => return None,
    };
    let chars = chars_of(text.as_str());
    let (start, end) = trimmed_bounds(&chars);
    if start == end {
        return None;
    }
    Some(InterruptionNote::new(text))
}

} // verus!
