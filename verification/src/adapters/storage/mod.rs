//! The store's rows, in the core's own words: what the SQLite adapter reads is
//! decoded here, and what it writes is encoded here, where both can be checked.
//!
//! Tasks are read as the rows of the join of tasks and steps, ordered by task
//! and ordinal; consecutive rows of one task make that task. A task without
//! steps falls out of the join, so the number of tasks is checked against the
//! stored count: a mismatch is corruption, never silence.

pub mod schema;

use vstd::prelude::*;

use crate::domain::position::{activated_at_of, step_of, task_of, CurrentPosition};
use crate::domain::state::task_views;
use crate::domain::task::{
    note_view, renumbered, uuid_parsed, views, InterruptionNote, Step, StepId, StepView, Task,
    TaskId, TaskView,
};
use crate::domain::{
    iso8601_of, law_iso8601_round_trip, parse_iso8601_of, timestamp_error_text, Timestamp, MAX_UNIX_MILLIS,
    MIN_UNIX_MILLIS,
};
use crate::ports::storage::StorageError;
use crate::text::owned;

verus! {

broadcast use crate::domain::lemma_timestamp_view_eq, crate::domain::lemma_at_millis;

/// The file the state is kept in, under the application's data directory.
pub const DATABASE_FILE_NAME: &'static str = "state.sqlite3";

/// One row of the join of tasks and steps, as read.
#[derive(Debug)]
pub struct StepRow {
    /// The task's id, as text.
    pub task_id: String,
    /// The task's title.
    pub title: String,
    /// The step's id, as text.
    pub step_id: String,
    /// The step's content.
    pub content: String,
    /// When its completion was declared, as ISO 8601 text.
    pub completed_at: Option<String>,
    /// Its interruption note.
    pub interruption_note: Option<String>,
}

/// The texts of a step row.
pub struct StepRowView {
    pub task_id: Seq<char>,
    pub title: Seq<char>,
    pub step_id: Seq<char>,
    pub content: Seq<char>,
    pub completed_at: Option<Seq<char>>,
    pub interruption_note: Option<Seq<char>>,
}

/// The text of an optional string.
pub open spec fn text_of(text: Option<String>) -> Option<Seq<char>> {
    match text {
        Some(t) => Some(t@),
        None => None,
    }
}

impl View for StepRow {
    type V = StepRowView;

    open spec fn view(&self) -> StepRowView {
        StepRowView {
            task_id: self.task_id@,
            title: self.title@,
            step_id: self.step_id@,
            content: self.content@,
            completed_at: text_of(self.completed_at),
            interruption_note: text_of(self.interruption_note),
        }
    }
}

/// The message of a stored id that is not a UUID; `what` names whose id it is.
pub open spec fn id_error_text(what: Seq<char>, text: Seq<char>, detail: Seq<char>) -> Seq<char> {
    what + "の ID `"@ + text + "`: "@ + detail
}

/// A stored id of a task, read back.
pub open spec fn decoded_task_id(what: Seq<char>, text: Seq<char>) -> Result<TaskId, Seq<char>> {
    match uuid_parsed(text) {
        Ok(bits) => Ok(TaskId::with_bits(bits)),
        Err(detail) => Err(id_error_text(what, text, detail)),
    }
}

/// A stored id of a step, read back.
pub open spec fn decoded_step_id(what: Seq<char>, text: Seq<char>) -> Result<StepId, Seq<char>> {
    match uuid_parsed(text) {
        Ok(bits) => Ok(StepId::with_bits(bits)),
        Err(detail) => Err(id_error_text(what, text, detail)),
    }
}

/// A stored instant, read back.
pub open spec fn decoded_instant(text: Seq<char>) -> Result<Timestamp, Seq<char>> {
    match parse_iso8601_of(text) {
        Some(ms) => Ok(Timestamp::at_millis(ms)),
        None => Err(timestamp_error_text(text)),
    }
}

/// A row read back: the task's id and title and the step (numbered later), or
/// the message of the first field that cannot be read.
pub open spec fn decoded_row(row: StepRowView) -> Result<(TaskId, Seq<char>, StepView), Seq<char>> {
    match decoded_task_id("タスク"@, row.task_id) {
        Err(m) => Err(m),
        Ok(task_id) => match decoded_step_id("ステップ"@, row.step_id) {
            Err(m) => Err(m),
            Ok(step_id) => {
                let completed = match row.completed_at {
                    None => Ok(None),
                    Some(text) => match decoded_instant(text) {
                        Ok(t) => Ok(Some(t)),
                        Err(m) => Err(m),
                    },
                };
                match completed {
                    Err(m) => Err(m),
                    Ok(completed_at) => Ok(
                        (
                            task_id,
                            row.title,
                            StepView {
                                id: step_id,
                                ordinal: 0,
                                content: row.content,
                                completed_at,
                                note: row.interruption_note,
                            },
                        ),
                    ),
                }
            },
        },
    }
}

/// All rows read back, or the message of the first that cannot be.
pub open spec fn decoded_rows(rows: Seq<StepRowView>) -> Result<Seq<(TaskId, Seq<char>, StepView)>, Seq<char>>
    decreases rows.len(),
{
    if rows.len() == 0 {
        Ok(Seq::empty())
    } else {
        match decoded_rows(rows.drop_last()) {
            Err(m) => Err(m),
            Ok(prefix) => match decoded_row(rows.last()) {
                Err(m) => Err(m),
                Ok(row) => Ok(prefix.push(row)),
            },
        }
    }
}

/// Consecutive rows of one task gathered: its id, the title of its first row,
/// and its steps in order.
pub open spec fn grouped(rows: Seq<(TaskId, Seq<char>, StepView)>) -> Seq<(TaskId, Seq<char>, Seq<StepView>)>
    decreases rows.len(),
{
    if rows.len() == 0 {
        Seq::empty()
    } else {
        let groups = grouped(rows.drop_last());
        let row = rows.last();
        if groups.len() > 0 && groups.last().0 == row.0 {
            groups.update(
                groups.len() - 1,
                (groups.last().0, groups.last().1, groups.last().2.push(row.2)),
            )
        } else {
            groups.push((row.0, row.1, seq![row.2]))
        }
    }
}

/// A gathered group as a task, its steps numbered in order.
pub open spec fn group_task(group: (TaskId, Seq<char>, Seq<StepView>)) -> TaskView {
    TaskView { id: group.0, title: group.1, steps: renumbered(group.2) }
}

/// The tasks of gathered groups.
pub open spec fn group_tasks(groups: Seq<(TaskId, Seq<char>, Seq<StepView>)>) -> Seq<TaskView> {
    groups.map_values(|g: (TaskId, Seq<char>, Seq<StepView>)| group_task(g))
}

/// The views of a list of rows.
pub open spec fn row_views(rows: Seq<StepRow>) -> Seq<StepRowView> {
    rows.map_values(|r: StepRow| r@)
}

/// The message of a store holding a task without steps.
pub open spec fn stepless_task_text() -> Seq<char> {
    "ステップを持たないタスクが保存されている"@
}

fn decode_task_id(what: &str, text: &str) -> (id: Result<TaskId, StorageError>)
    ensures
        match decoded_task_id(what@, text@) {
            Ok(i) => id == Ok::<TaskId, StorageError>(i),
            Err(m) => id matches Err(StorageError::Corrupted(c)) && c@ == m,
        },
        forall|other: TaskId| text@ == other.text() ==> id == Ok::<TaskId, StorageError>(other),
{
    match TaskId::parse(text) {
        Ok(id) => Ok(id),
        Err(error) => {
            let mut message = owned(what);
            message.append("の ID `");
            message.append(text);
            message.append("`: ");
            message.append(error.detail.as_str());
            Err(StorageError::Corrupted(message))
        },
    }
}

fn decode_step_id(what: &str, text: &str) -> (id: Result<StepId, StorageError>)
    ensures
        match decoded_step_id(what@, text@) {
            Ok(i) => id == Ok::<StepId, StorageError>(i),
            Err(m) => id matches Err(StorageError::Corrupted(c)) && c@ == m,
        },
        forall|other: StepId| text@ == other.text() ==> id == Ok::<StepId, StorageError>(other),
{
    match StepId::parse(text) {
        Ok(id) => Ok(id),
        Err(error) => {
            let mut message = owned(what);
            message.append("の ID `");
            message.append(text);
            message.append("`: ");
            message.append(error.detail.as_str());
            Err(StorageError::Corrupted(message))
        },
    }
}

fn decode_instant(text: &str) -> (instant: Result<Timestamp, StorageError>)
    ensures
        match decoded_instant(text@) {
            Ok(t) => instant == Ok::<Timestamp, StorageError>(t),
            Err(m) => instant matches Err(StorageError::Corrupted(c)) && c@ == m,
        },
        forall|other: Timestamp| in_range(other) && text@ == iso8601_of(other@) ==> instant
            == Ok::<Timestamp, StorageError>(other),
{
    proof {
        assert forall|other: Timestamp| in_range(other) && text@ == iso8601_of(other@) implies decoded_instant(
            text@,
        ) == Ok::<Timestamp, Seq<char>>(other) by {
            law_iso8601_round_trip(other@);
            assert(Timestamp::at_millis(other@)@ == other@);
        }
    }
    match Timestamp::parse_iso8601(text) {
        Ok(instant) => {
            proof {
                let ms = parse_iso8601_of(text@).unwrap();
                assert(Timestamp::at_millis(ms)@ == ms);
            }
            Ok(instant)
        },
        Err(error) => Err(StorageError::Corrupted(error.message())),
    }
}

/// The step's instant, if any, lies within the representable range.
pub open spec fn step_in_range(s: StepView) -> bool {
    match s.completed_at {
        Some(t) => in_range(t),
        None => true,
    }
}

/// The row of the join that holds step `s` of task `t`.
pub open spec fn written_row(t: TaskView, s: StepView) -> StepRowView {
    StepRowView {
        task_id: t.id.text(),
        title: t.title,
        step_id: s.id.text(),
        content: s.content,
        completed_at: match s.completed_at {
            Some(at) => Some(iso8601_of(at@)),
            None => None,
        },
        interruption_note: s.note,
    }
}

/// What a row of step `s` of task `t` reads back as: the ordinal is left to
/// the renumbering of the task.
pub open spec fn read_back(t: TaskView, s: StepView) -> (TaskId, Seq<char>, StepView) {
    (t.id, t.title, StepView { ordinal: 0, ..s })
}

/// The rows of one task, in the order of its steps.
pub open spec fn task_rows(t: TaskView) -> Seq<StepRowView> {
    t.steps.map_values(|s: StepView| written_row(t, s))
}

/// What the rows of one task read back as.
pub open spec fn task_read_backs(t: TaskView) -> Seq<(TaskId, Seq<char>, StepView)> {
    t.steps.map_values(|s: StepView| read_back(t, s))
}

/// The rows of the join for tasks stored in this order.
pub open spec fn written_rows(ts: Seq<TaskView>) -> Seq<StepRowView>
    decreases ts.len(),
{
    if ts.len() == 0 {
        Seq::empty()
    } else {
        written_rows(ts.drop_last()) + task_rows(ts.last())
    }
}

/// What the rows of tasks stored in this order read back as.
pub open spec fn read_backs(ts: Seq<TaskView>) -> Seq<(TaskId, Seq<char>, StepView)>
    decreases ts.len(),
{
    if ts.len() == 0 {
        Seq::empty()
    } else {
        read_backs(ts.drop_last()) + task_read_backs(ts.last())
    }
}

/// Tasks as the store keeps them: each has steps numbered `1..=N` with
/// instants in range, and neighbours differ in id (the join is read ordered
/// by task).
pub open spec fn storable(ts: Seq<TaskView>) -> bool {
    &&& forall|i: int| 0 <= i < ts.len() ==> #[trigger] ts[i].steps.len() > 0
    &&& forall|i: int| 0 <= i < ts.len() ==> renumbered(#[trigger] ts[i].steps) == ts[i].steps
    &&& forall|i: int, j: int|
        0 <= i < ts.len() && 0 <= j < ts[i].steps.len() ==> step_in_range(#[trigger] ts[i].steps[j])
    &&& forall|i: int| 0 < i < ts.len() ==> #[trigger] ts[i].id != ts[i - 1].id
}

/// The steps as read back, before renumbering.
pub open spec fn stripped(steps: Seq<StepView>) -> Seq<StepView> {
    steps.map_values(|st: StepView| StepView { ordinal: 0, ..st })
}

/// The groups that tasks stored in this order read back as.
pub open spec fn task_groups(ts: Seq<TaskView>) -> Seq<(TaskId, Seq<char>, Seq<StepView>)> {
    ts.map_values(|t: TaskView| (t.id, t.title, stripped(t.steps)))
}

/// Which task and step the row at `k` of `written_rows(ts)` holds.
pub open spec fn row_owner(ts: Seq<TaskView>, k: int) -> (int, int)
    decreases ts.len(),
{
    if ts.len() == 0 {
        (0, 0)
    } else if k < written_rows(ts.drop_last()).len() {
        row_owner(ts.drop_last(), k)
    } else {
        (ts.len() - 1, k - written_rows(ts.drop_last()).len())
    }
}

proof fn lemma_row_owner(ts: Seq<TaskView>, k: int)
    requires
        0 <= k < written_rows(ts).len(),
    ensures
        written_rows(ts).len() == read_backs(ts).len(),
        ({
            let (i, j) = row_owner(ts, k);
            &&& 0 <= i < ts.len()
            &&& 0 <= j < ts[i].steps.len()
            &&& written_rows(ts)[k] == written_row(ts[i], ts[i].steps[j])
            &&& read_backs(ts)[k] == read_back(ts[i], ts[i].steps[j])
        }),
    decreases ts.len(),
{
    lemma_rows_len(ts);
    let prefix = ts.drop_last();
    lemma_rows_len(prefix);
    if k < written_rows(prefix).len() {
        lemma_row_owner(prefix, k);
    }
}

proof fn lemma_rows_len(ts: Seq<TaskView>)
    ensures
        written_rows(ts).len() == read_backs(ts).len(),
    decreases ts.len(),
{
    if ts.len() > 0 {
        lemma_rows_len(ts.drop_last());
    }
}

proof fn lemma_decoded_rows_ok(rows: Seq<StepRowView>, expected: Seq<(TaskId, Seq<char>, StepView)>)
    requires
        rows.len() == expected.len(),
        forall|k: int| 0 <= k < rows.len() ==> decoded_row(#[trigger] rows[k])
            == Ok::<(TaskId, Seq<char>, StepView), Seq<char>>(expected[k]),
    ensures
        decoded_rows(rows) == Ok::<Seq<(TaskId, Seq<char>, StepView)>, Seq<char>>(expected),
    decreases rows.len(),
{
    if rows.len() > 0 {
        let (r, e) = (rows.drop_last(), expected.drop_last());
        assert forall|k: int| 0 <= k < r.len() implies decoded_row(#[trigger] r[k])
            == Ok::<(TaskId, Seq<char>, StepView), Seq<char>>(e[k]) by {
            assert(r[k] == rows[k]);
        }
        lemma_decoded_rows_ok(r, e);
        assert(decoded_row(rows[rows.len() - 1]) == Ok::<(TaskId, Seq<char>, StepView), Seq<char>>(
            expected[rows.len() - 1],
        ));
        assert(e.push(expected.last()) =~= expected);
        assert(decoded_row(rows.last()) == Ok::<(TaskId, Seq<char>, StepView), Seq<char>>(expected.last()));
    } else {
        assert(expected =~= Seq::<(TaskId, Seq<char>, StepView)>::empty());
    }
}

proof fn lemma_grouped_block(prefix: Seq<(TaskId, Seq<char>, StepView)>, t: TaskView, n: int)
    requires
        1 <= n <= t.steps.len(),
        grouped(prefix).len() == 0 || grouped(prefix).last().0 != t.id,
    ensures
        grouped(prefix + task_read_backs(t).take(n)) == grouped(prefix).push(
            (t.id, t.title, stripped(t.steps).take(n)),
        ),
    decreases n,
{
    let x = prefix + task_read_backs(t).take(n);
    let row = read_back(t, t.steps[n - 1]);
    assert(x.last() == row);
    if n == 1 {
        assert(x.drop_last() =~= prefix);
        assert(stripped(t.steps).take(1) =~= seq![row.2]);
    } else {
        assert(x.drop_last() =~= prefix + task_read_backs(t).take(n - 1));
        lemma_grouped_block(prefix, t, n - 1);
        let groups = grouped(prefix).push((t.id, t.title, stripped(t.steps).take(n - 1)));
        assert(groups.last().0 == row.0);
        assert(stripped(t.steps).take(n - 1).push(row.2) =~= stripped(t.steps).take(n));
        assert(groups.update(groups.len() - 1, (t.id, t.title, stripped(t.steps).take(n))) =~= grouped(
            prefix,
        ).push((t.id, t.title, stripped(t.steps).take(n))));
    }
}

proof fn lemma_grouped_read_backs(ts: Seq<TaskView>)
    requires
        storable(ts),
    ensures
        grouped(read_backs(ts)) == task_groups(ts),
    decreases ts.len(),
{
    if ts.len() == 0 {
        assert(task_groups(ts) =~= Seq::<(TaskId, Seq<char>, Seq<StepView>)>::empty());
    } else {
        let prefix = ts.drop_last();
        let t = ts.last();
        assert(storable(prefix)) by {
            assert forall|i: int| 0 < i < prefix.len() implies #[trigger] prefix[i].id != prefix[i - 1].id by {
                assert(ts[i].id != ts[i - 1].id);
            }
            assert forall|i: int, j: int| 0 <= i < prefix.len() && 0 <= j < prefix[i].steps.len() implies step_in_range(
                #[trigger] prefix[i].steps[j],
            ) by {
                assert(prefix[i] == ts[i]);
            }
            assert forall|i: int| 0 <= i < prefix.len() implies renumbered(#[trigger] prefix[i].steps)
                == prefix[i].steps by {
                assert(prefix[i] == ts[i]);
            }
            assert forall|i: int| 0 <= i < prefix.len() implies #[trigger] prefix[i].steps.len() > 0 by {
                assert(prefix[i] == ts[i]);
            }
        }
        lemma_grouped_read_backs(prefix);
        assert(ts[ts.len() - 1].steps.len() > 0);
        if prefix.len() > 0 {
            assert(ts[ts.len() - 1].id != ts[ts.len() - 2].id);
            assert(task_groups(prefix).last().0 == prefix.last().id);
        }
        let n = t.steps.len() as int;
        lemma_grouped_block(read_backs(prefix), t, n);
        assert(task_read_backs(t).take(n) =~= task_read_backs(t));
        assert(stripped(t.steps).take(n) =~= stripped(t.steps));
        assert(task_groups(prefix).push((t.id, t.title, stripped(t.steps))) =~= task_groups(ts));
    }
}

proof fn lemma_group_tasks(ts: Seq<TaskView>)
    requires
        storable(ts),
    ensures
        group_tasks(task_groups(ts)) == ts,
{
    assert forall|i: int| 0 <= i < ts.len() implies #[trigger] group_tasks(task_groups(ts))[i] == ts[i] by {
        let t = ts[i];
        assert(renumbered(t.steps) == t.steps);
        assert(renumbered(stripped(t.steps)) =~= renumbered(t.steps));
        assert(group_tasks(task_groups(ts))[i] == group_task((t.id, t.title, stripped(t.steps))));
    }
    assert(group_tasks(task_groups(ts)) =~= ts);
}

/// Reads one row back.
fn decode_row(row: &StepRow) -> (decoded: Result<(TaskId, String, Step), StorageError>)
    ensures
        match decoded_row(row@) {
            Ok(r) => decoded matches Ok(d) && d.0 == r.0 && d.1@ == r.1 && d.2@ == r.2,
            Err(m) => decoded matches Err(StorageError::Corrupted(c)) && c@ == m,
        },
        forall|t: TaskView, st: StepView| #[trigger] written_row(t, st) == row@ && step_in_range(st)
            ==> decoded_row(row@) == Ok::<(TaskId, Seq<char>, StepView), Seq<char>>(read_back(t, st)),
{
    let task_id = match decode_task_id("タスク", row.task_id.as_str()) {
        Ok(id) => id,
        Err(error) => return Err(error),
    };
    let step_id = match decode_step_id("ステップ", row.step_id.as_str()) {
        Ok(id) => id,
        Err(error) => return Err(error),
    };
    let completed_at = match &row.completed_at {
        None => None,
        Some(text) => match decode_instant(text.as_str()) {
            Ok(instant) => Some(instant),
            Err(error) => return Err(error),
        },
    };
    let note = match &row.interruption_note {
        Some(text) => Some(InterruptionNote::new(text.clone())),
        None => None,
    };
    let step = Step::rehydrate(step_id, row.content.clone(), completed_at, note);
    Ok((task_id, row.title.clone(), step))
}

/// Rows written from stored tasks, each of which reads back as written, give
/// those tasks back.
proof fn lemma_rows_give_back(ts: Seq<TaskView>, all: Seq<StepRowView>, decoded: Seq<(TaskId, Seq<char>, StepView)>)
    requires
        storable(ts),
        written_rows(ts) == all,
        forall|k: int, t: TaskView, st: StepView|
            #![trigger written_row(t, st), all[k]]
            0 <= k < all.len() && written_row(t, st) == all[k] && step_in_range(st) ==> decoded_row(all[k])
                == Ok::<(TaskId, Seq<char>, StepView), Seq<char>>(read_back(t, st)),
        decoded_rows(all) == Ok::<Seq<(TaskId, Seq<char>, StepView)>, Seq<char>>(decoded),
    ensures
        group_tasks(grouped(decoded)) == ts,
{
    lemma_rows_len(ts);
    let expected = read_backs(ts);
    assert forall|k: int| 0 <= k < all.len() implies decoded_row(#[trigger] all[k])
        == Ok::<(TaskId, Seq<char>, StepView), Seq<char>>(expected[k]) by {
        lemma_row_owner(ts, k);
        let (a, b) = row_owner(ts, k);
        assert(step_in_range(ts[a].steps[b]));
        assert(written_row(ts[a], ts[a].steps[b]) == all[k]);
    }
    lemma_decoded_rows_ok(all, expected);
    lemma_grouped_read_backs(ts);
    lemma_group_tasks(ts);
}

/// The tasks of the rows of the join of tasks and steps (ordered by task, then
/// ordinal), checked against the number of tasks the store holds. A field that
/// cannot be read, or a task without steps (missing from the join), is
/// corruption.
pub fn tasks_from_rows(rows: &Vec<StepRow>, stored: i64) -> (tasks: Result<Vec<Task>, StorageError>)
    ensures
        match decoded_rows(row_views(rows@)) {
            Err(m) => tasks matches Err(StorageError::Corrupted(c)) && c@ == m,
            Ok(decoded) => {
                let expected = group_tasks(grouped(decoded));
                if stored == expected.len() || (expected.len() > i64::MAX && stored == i64::MAX) {
                    tasks matches Ok(ts) && task_views(ts@) == expected
                } else {
                    tasks matches Err(StorageError::Corrupted(c)) && c@ == stepless_task_text()
                }
            },
        },
        forall|ts: Seq<TaskView>| storable(ts) && #[trigger] written_rows(ts) == row_views(rows@)
            && stored == ts.len() ==> (tasks matches Ok(out) && task_views(out@) == ts),
{
    let ghost all = row_views(rows@);
    let mut tasks: Vec<Task> = Vec::new();
    let mut current: Option<(TaskId, String, Vec<Step>)> = None;
    let ghost mut decoded: Seq<(TaskId, Seq<char>, StepView)> = Seq::empty();
    let ghost mut finished: Seq<(TaskId, Seq<char>, Seq<StepView>)> = Seq::empty();
    let mut i: usize = 0;
    assert(all.take(0) =~= Seq::<StepRowView>::empty());
    while i < rows.len()
        invariant
            all == row_views(rows@),
            i <= rows@.len(),
            decoded_rows(all.take(i as int)) == Ok::<Seq<(TaskId, Seq<char>, StepView)>, Seq<char>>(decoded),
            task_views(tasks@) == group_tasks(finished),
            current.is_none() ==> decoded.len() == 0 && finished.len() == 0,
            current matches Some(group) ==> group.2@.len() > 0,
            current matches Some(group) ==> grouped(decoded) == finished.push((group.0, group.1@, views(group.2@))),
            forall|k: int, t: TaskView, st: StepView|
                #![trigger written_row(t, st), all[k]]
                0 <= k < i && written_row(t, st) == all[k] && step_in_range(st) ==> decoded_row(all[k])
                    == Ok::<(TaskId, Seq<char>, StepView), Seq<char>>(read_back(t, st)),
        decreases rows.len() - i,
    {
        proof {
            assert(all.take(i + 1).drop_last() =~= all.take(i as int));
            assert(all.take(i + 1).last() == rows@[i as int]@);
        }
        let (task_id, title, step) = match decode_row(&rows[i]) {
            Ok(row) => row,
            Err(error) => {
                proof {
                    lemma_decoded_error_stays(all, i as int + 1);
                    assert forall|ts: Seq<TaskView>| storable(ts) && #[trigger] written_rows(ts) == all implies false by {
                        lemma_row_owner(ts, i as int);
                        let (a, b) = row_owner(ts, i as int);
                        assert(step_in_range(ts[a].steps[b]));
                        assert(written_row(ts[a], ts[a].steps[b]) == rows@[i as int]@);
                    }
                }
                return Err(error);
            },
        };
        assert(all[i as int] == rows@[i as int]@);
        let ghost row = (task_id, title@, step@);
        let ghost next = decoded.push(row);
        assert(next.drop_last() =~= decoded);
        let continues = match &current {
            Some(group) => group.0 == task_id,
            None => false,
        };
        if continues {
            let mut group = current.unwrap();
            let ghost before = views(group.2@);
            let ghost old_group = (group.0, group.1@, before);
            group.2.push(step);
            assert(views(group.2@) =~= before.push(row.2));
            proof {
                let groups = finished.push(old_group);
                assert(grouped(decoded) == groups);
                assert(groups.last().0 == row.0);
                assert(groups.update(groups.len() - 1, (old_group.0, old_group.1, before.push(row.2)))
                    =~= finished.push((group.0, group.1@, views(group.2@))));
            }
            current = Some(group);
        } else {
            match current {
                Some(group) => {
                    let ghost raw = (group.0, group.1@, views(group.2@));
                    let task = match Task::rehydrate(group.0, group.1, group.2) {
                        Ok(task) => task,
                        Err(_) => {
                            assert(false);
                            return Err(StorageError::Corrupted(owned("ステップを持たないタスクが保存されている")));
                        },
                    };
                    let ghost prior = task_views(tasks@);
                    tasks.push(task);
                    proof {
                        assert(task_views(tasks@) =~= prior.push(group_task(raw)));
                        let f2 = finished.push(raw);
                        assert(group_tasks(f2) =~= group_tasks(finished).push(group_task(raw)));
                        finished = f2;
                    }
                },
                None => {},
            }
            let mut steps: Vec<Step> = Vec::new();
            steps.push(step);
            assert(views(steps@) =~= seq![row.2]);
            proof {
                let groups = grouped(decoded);
                assert(!(groups.len() > 0 && groups.last().0 == row.0));
                assert(grouped(next) == groups.push((row.0, row.1, seq![row.2])));
                assert(groups == finished);
            }
            current = Some((task_id, title, steps));
        }
        proof {
            decoded = next;
        }
        i = i + 1;
    }
    proof {
        assert(all.take(rows@.len() as int) =~= all);
    }
    match current {
        Some(group) => {
            let ghost raw = (group.0, group.1@, views(group.2@));
            let task = match Task::rehydrate(group.0, group.1, group.2) {
                Ok(task) => task,
                Err(_) => {
                    assert(false);
                    return Err(StorageError::Corrupted(owned("ステップを持たないタスクが保存されている")));
                },
            };
            let ghost prior = task_views(tasks@);
            tasks.push(task);
            proof {
                assert(task_views(tasks@) =~= prior.push(group_task(raw)));
                let f2 = finished.push(raw);
                assert(group_tasks(f2) =~= group_tasks(finished).push(group_task(raw)));
                finished = f2;
            }
        },
        None => {
            assert(grouped(decoded) =~= finished);
        },
    }
    assert(grouped(decoded) == finished);
    assert(task_views(tasks@).len() == tasks@.len());
    let len = tasks.len() as u64;
    let count: i64 = if len <= 9_223_372_036_854_775_807u64 {
        len as i64
    } else {
        9_223_372_036_854_775_807i64
    };
    proof {
        assert forall|ts: Seq<TaskView>| storable(ts) && #[trigger] written_rows(ts) == all && stored
            == ts.len() implies task_views(tasks@) == ts by {
            lemma_rows_give_back(ts, all, decoded);
        }
    }
    if stored != count {
        return Err(StorageError::Corrupted(owned("ステップを持たないタスクが保存されている")));
    }
    Ok(tasks)
}

/// Once a prefix of the rows fails to read, so do all the rows.
proof fn lemma_decoded_error_stays(rows: Seq<StepRowView>, k: int)
    requires
        0 <= k <= rows.len(),
        decoded_rows(rows.take(k)) is Err,
    ensures
        decoded_rows(rows) == decoded_rows(rows.take(k)),
    decreases rows.len() - k,
{
    if k < rows.len() {
        assert(rows.take(k + 1).drop_last() =~= rows.take(k));
        lemma_decoded_error_stays(rows, k + 1);
    } else {
        assert(rows.take(k) =~= rows);
    }
}

/// The stored row of the current position.
#[derive(Debug)]
pub struct PositionRow {
    /// The task's id, as text.
    pub task_id: String,
    /// The step's id, as text.
    pub step_id: String,
    /// 1 when active, 0 when inactive.
    pub is_active: i64,
    /// The start of the continuous work time, as ISO 8601 text.
    pub activated_at: String,
}

/// An instant within the representable range (what every [`Timestamp`] holds).
pub open spec fn in_range(t: Timestamp) -> bool {
    MIN_UNIX_MILLIS <= t@ <= MAX_UNIX_MILLIS
}

/// The position's instant lies within the representable range.
pub open spec fn position_in_range(p: CurrentPosition) -> bool {
    match activated_at_of(p) {
        Some(t) => in_range(t),
        None => true,
    }
}

/// The row a position is stored as: none when not started; else the ids' texts,
/// 1 or 0 for active or not, and the ISO 8601 text of the start of the work time.
pub open spec fn written_position(p: CurrentPosition) -> Option<(Seq<char>, Seq<char>, i64, Seq<char>)> {
    match p {
        CurrentPosition::NotStarted => None,
        CurrentPosition::Active { task_id, step_id, activated_at } => Some(
            (task_id.text(), step_id.text(), 1, iso8601_of(activated_at@)),
        ),
        CurrentPosition::Inactive { task_id, step_id, activated_at } => Some(
            (task_id.text(), step_id.text(), 0, iso8601_of(activated_at@)),
        ),
    }
}

/// The position of a stored row (`None`: no row, not started), or the message
/// of the first field that cannot be read.
pub open spec fn decoded_position(row: Option<(Seq<char>, Seq<char>, i64, Seq<char>)>) -> Result<CurrentPosition, Seq<char>> {
    match row {
        None => Ok(CurrentPosition::NotStarted),
        Some((task_text, step_text, is_active, activated_text)) => match decoded_task_id(
            "現在地のタスク"@,
            task_text,
        ) {
            Err(m) => Err(m),
            Ok(task_id) => match decoded_step_id("現在地のステップ"@, step_text) {
                Err(m) => Err(m),
                Ok(step_id) => match decoded_instant(activated_text) {
                    Err(m) => Err(m),
                    Ok(activated_at) => Ok(
                        if is_active != 0 {
                            CurrentPosition::Active { task_id, step_id, activated_at }
                        } else {
                            CurrentPosition::Inactive { task_id, step_id, activated_at }
                        },
                    ),
                },
            },
        },
    }
}

/// The texts of an optional position row.
pub open spec fn position_row_view(row: Option<PositionRow>) -> Option<(Seq<char>, Seq<char>, i64, Seq<char>)> {
    match row {
        None => None,
        Some(r) => Some((r.task_id@, r.step_id@, r.is_active, r.activated_at@)),
    }
}

/// Reads the stored position back: no row is "not started"; an id or an
/// instant that cannot be read is corruption.
pub fn position_from_row(row: Option<PositionRow>) -> (position: Result<CurrentPosition, StorageError>)
    ensures
        match decoded_position(position_row_view(row)) {
            Ok(p) => position == Ok::<CurrentPosition, StorageError>(p),
            Err(m) => position matches Err(StorageError::Corrupted(c)) && c@ == m,
        },
        forall|p: CurrentPosition| #[trigger] written_position(p) == position_row_view(row)
            && position_in_range(p) ==> position == Ok::<CurrentPosition, StorageError>(p),
{
    let row = match row {
        Some(row) => row,
        None => return Ok(CurrentPosition::NotStarted),
    };
    let task_id = match decode_task_id("現在地のタスク", row.task_id.as_str()) {
        Ok(id) => id,
        Err(error) => return Err(error),
    };
    let step_id = match decode_step_id("現在地のステップ", row.step_id.as_str()) {
        Ok(id) => id,
        Err(error) => return Err(error),
    };
    let activated_at = match decode_instant(row.activated_at.as_str()) {
        Ok(instant) => instant,
        Err(error) => return Err(error),
    };
    Ok(CurrentPosition::rehydrate(task_id, step_id, row.is_active != 0, activated_at))
}

/// The row that stores a position; `None` for "not started", which is stored
/// as no row.
pub fn position_record(position: CurrentPosition) -> (row: Option<PositionRow>)
    ensures
        position_row_view(row) == written_position(position),
{
    match position {
        CurrentPosition::NotStarted => None,
        CurrentPosition::Active { task_id, step_id, activated_at } => Some(
            PositionRow {
                task_id: task_id.to_text(),
                step_id: step_id.to_text(),
                is_active: 1,
                activated_at: activated_at.to_iso8601(),
            },
        ),
        CurrentPosition::Inactive { task_id, step_id, activated_at } => Some(
            PositionRow {
                task_id: task_id.to_text(),
                step_id: step_id.to_text(),
                is_active: 0,
                activated_at: activated_at.to_iso8601(),
            },
        ),
    }
}

/// The stored form of one step of a task.
#[derive(Debug)]
pub struct StepRecord {
    /// The step's id, as text.
    pub id: String,
    /// Its ordinal.
    pub ordinal: u32,
    /// Its content.
    pub content: String,
    /// When its completion was declared, as ISO 8601 text.
    pub completed_at: Option<String>,
    /// Its interruption note.
    pub interruption_note: Option<String>,
}

/// `record` stores `step`.
pub open spec fn stores_step(record: StepRecord, step: StepView) -> bool {
    &&& record.id@ == step.id.text()
    &&& record.ordinal == step.ordinal
    &&& record.content@ == step.content
    &&& text_of(record.completed_at) == match step.completed_at {
        Some(t) => Some(crate::domain::iso8601_of(t@)),
        None => None,
    }
    &&& text_of(record.interruption_note) == step.note
}

/// The stored form of every step of a task, in order (the task is written
/// whole; no row is ever deleted).
pub fn step_records(task: &Task) -> (records: Vec<StepRecord>)
    ensures
        records@.len() == task@.steps.len(),
        forall|k: int| 0 <= k < records@.len() ==> stores_step(#[trigger] records@[k], task@.steps[k]),
{
    let steps = task.steps();
    let mut records: Vec<StepRecord> = Vec::new();
    let mut k: usize = 0;
    while k < steps.len()
        invariant
            views(steps@) == task@.steps,
            k <= steps@.len(),
            records@.len() == k,
            forall|m: int| 0 <= m < k ==> stores_step(#[trigger] records@[m], task@.steps[m]),
        decreases steps.len() - k,
    {
        let step = &steps[k];
        assert(step@ == task@.steps[k as int]);
        let completed_at = match step.completed_at() {
            Some(at) => Some(at.to_iso8601()),
            None => None,
        };
        let note = match step.interruption_note() {
            Some(note) => Some(owned(note.text())),
            None => None,
        };
        records.push(
            StepRecord {
                id: step.id().to_text(),
                ordinal: step.ordinal(),
                content: owned(step.content()),
                completed_at,
                interruption_note: note,
            },
        );
        k = k + 1;
    }
    assert(views(steps@).len() == steps@.len());
    records
}

} // verus!
