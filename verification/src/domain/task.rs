//! Tasks and steps.
//!
//! Order is carried by `ordinal` alone and identity by a stable id alone: the
//! current position points at an id, so inserting or splitting steps (which
//! renumbers them) never moves it to another unit of work. Nothing outside can
//! write an ordinal; the order of the steps decides it.

use vstd::prelude::*;

use super::{DomainError, Timestamp};
use crate::text::{owned, string_of};

verus! {

broadcast use super::lemma_timestamp_view_eq;

// --- identifiers (UUID version 7) ---------------------------------------------

/// The character of the hexadecimal digit `n` in `0..16` (lower case).
pub open spec fn hex_digit(n: int) -> char {
    if n < 10 {
        (n + 48) as char
    } else {
        (n + 87) as char
    }
}

/// The `k`-th hexadecimal digit of `bits`, counted from the most significant one.
pub open spec fn nibble(bits: u128, k: int) -> int {
    ((bits >> ((124 - 4 * k) as u128)) & 0xf) as int
}

/// The number of hyphens before position `i` of the hyphenated form.
pub open spec fn hyphens_before(i: int) -> int {
    (if i > 8 { 1int } else { 0 }) + (if i > 13 { 1int } else { 0 }) + (if i > 18 { 1int } else { 0 }) + (
    if i > 23 { 1int } else { 0 })
}

/// The hyphenated lower-case text of a UUID: `xxxxxxxx-xxxx-xxxx-xxxx-xxxxxxxxxxxx`.
pub open spec fn hyphenated(bits: u128) -> Seq<char> {
    Seq::new(
        36,
        |i: int|
            if i == 8 || i == 13 || i == 18 || i == 23 {
                '-'
            } else {
                hex_digit(nibble(bits, i - hyphens_before(i)))
            },
    )
}

/// What `uuid::Uuid::parse_str` makes of a text: the 128 bits of the UUID, or
/// the description the crate gives of its error.
pub uninterp spec fn uuid_parsed(text: Seq<char>) -> Result<u128, Seq<char>>;

/// The 128 bits `uuid::Uuid::parse_str` reads from a text; `None` when it refuses it.
pub open spec fn uuid_text_bits(text: Seq<char>) -> Option<u128> {
    match uuid_parsed(text) {
        Ok(b) => Some(b),
        Err(_) => None,
    }
}

/// The view of a parse: the bits, or the characters of the error's text.
pub open spec fn parse_view(parsed: Result<u128, String>) -> Result<u128, Seq<char>> {
    match parsed {
        Ok(b) => Ok(b),
        Err(e) => Err(e@),
    }
}

/// `uuid::Uuid::parse_str`, keeping the 128 bits, or the text of the crate's
/// error (its `Display`). The crate reads the simple, hyphenated, braced and
/// URN forms; of these only the hyphenated form is stated here: reading the
/// text of some bits gives those bits back. What it makes of other texts, and
/// the words of its errors, are left to the name `uuid_parsed`.
#[verifier::external_body]
pub(crate) fn parse_uuid_bits(text: &str) -> (bits: Result<u128, String>)
    ensures
        parse_view(bits) == uuid_parsed(text@),
        forall|b: u128| text@ == hyphenated(b) ==> bits is Ok && bits->Ok_0 == b,
{
    match uuid::Uuid::parse_str(text) {
        Ok(id) => Ok(id.as_u128()),
        Err(error) => Err(error.to_string()),
    }
}

/// `uuid::Uuid::new_v7` of `uuid::Timestamp::from_unix_time(seconds, subsec_nanos, 0, 0)`.
/// Per the crate's source (`v7.rs`, `timestamp.rs`): the top 48 bits hold the
/// Unix milliseconds, then the version nibble 7, then 12 random bits, the
/// variant `0b10` and 62 random bits. The random bits are not stated.
#[verifier::external_body]
fn new_v7_bits(seconds: u64, subsec_nanos: u32) -> (bits: u128)
    requires
        seconds * 1000 + subsec_nanos / 1_000_000 < 0x1_0000_0000_0000,
    ensures
        bits >> 80 == seconds * 1000 + subsec_nanos / 1_000_000,
        (bits >> 76) & 0xf == 7,
        (bits >> 62) & 0x3 == 2,
{
    uuid::Uuid::new_v7(uuid::Timestamp::from_unix_time(seconds, subsec_nanos, 0, 0)).as_u128()
}

/// Bits of a version 7 UUID stamped with the instant `now` (instants before the
/// epoch are stamped with the epoch, in seconds and fraction alike).
pub open spec fn v7_stamped(bits: u128, now: Timestamp) -> bool {
    &&& bits >> 80 == (if now@ < 0 { 0 } else { now@ })
    &&& (bits >> 76) & 0xf == 7
    &&& (bits >> 62) & 0x3 == 2
}

/// Issues the bits of a new version 7 UUID from the core's clock reading.
pub(crate) fn issue_v7(now: Timestamp) -> (bits: u128)
    ensures
        v7_stamped(bits, now),
{
    let millis = now.unix_millis();
    let millis: i64 = if millis < 0 {
        0
    } else {
        millis
    };
    let seconds = (millis / 1000) as u64;
    let subsec_nanos = ((millis % 1000) * 1_000_000) as u32;
    assert(subsec_nanos / 1_000_000 == millis % 1000);
    new_v7_bits(seconds, subsec_nanos)
}

/// The hyphenated lower-case text of the UUID `bits`.
pub(crate) fn hyphenated_text(bits: u128) -> (text: String)
    ensures
        text@ == hyphenated(bits),
{
    let mut out: Vec<char> = Vec::new();
    let mut k: u32 = 0;
    while k < 32
        invariant
            k <= 32,
            out@.len() == k + (if k > 8 { 1int } else { 0 }) + (if k > 12 { 1int } else { 0 }) + (
            if k > 16 { 1int } else { 0 }) + (if k > 20 { 1int } else { 0 }),
            forall|i: int| 0 <= i < out@.len() ==> #[trigger] out@[i] == hyphenated(bits)[i],
        decreases 32 - k,
    {
        let shift: u128 = (124 - 4 * k) as u128;
        let wide = (bits >> shift) & 0xf;
        assert(wide < 16) by (bit_vector)
            requires
                wide == (bits >> shift) & 0xf,
        ;
        let n = wide as u8;
        assert(n as int == nibble(bits, k as int));
        let c = if n < 10 {
            (n + 48) as char
        } else {
            (n + 87) as char
        };
        let ghost p = out@.len() as int;
        if k == 8 || k == 12 || k == 16 || k == 20 {
            assert(hyphenated(bits)[p] == '-');
            out.push('-');
            assert(hyphenated(bits)[p + 1] == hex_digit(nibble(bits, k as int)));
        } else {
            assert(hyphenated(bits)[p] == hex_digit(nibble(bits, k as int)));
        }
        out.push(c);
        k = k + 1;
    }
    let text = string_of(out.as_slice());
    assert(text@ =~= hyphenated(bits));
    text
}

/// A text that is not a UUID, with the description of what is wrong with it.
#[derive(Debug, Clone, PartialEq, Eq)]
pub struct IdError {
    /// What the UUID reader found wrong, in its own words.
    pub detail: String,
}

impl IdError {
    /// The message shown for this error: the reader's description.
    pub fn message(&self) -> (message: String)
        ensures
            message@ == self.detail@,
    {
        self.detail.clone()
    }
}

/// The id of a task: a version 7 UUID.
#[derive(Debug, Clone, Copy, PartialEq, Eq, Structural, PartialOrd, Ord, Hash)]
pub struct TaskId {
    bits: u128,
}

/// The id of a step: a version 7 UUID. The current position points at this id,
/// never at an ordinal.
#[derive(Debug, Clone, Copy, PartialEq, Eq, Structural, PartialOrd, Ord, Hash)]
pub struct StepId {
    bits: u128,
}

impl TaskId {
    /// The 128 bits of the UUID.
    pub closed spec fn bits(self) -> u128 {
        self.bits
    }

    /// The id of the given bits.
    pub closed spec fn with_bits(bits: u128) -> Self {
        TaskId { bits }
    }

    /// The id was issued at `now`.
    pub open spec fn issued_at(self, now: Timestamp) -> bool {
        v7_stamped(self.bits(), now)
    }

    /// Issues a new id stamped with `now`.
    pub fn new(now: Timestamp) -> (id: Self)
        ensures
            id.issued_at(now),
    {
        TaskId { bits: issue_v7(now) }
    }

    /// Reads the text form back.
    pub fn parse(text: &str) -> (id: Result<Self, IdError>)
        ensures
            match uuid_parsed(text@) {
                Ok(b) => id == Ok::<Self, IdError>(Self::with_bits(b)) && Self::with_bits(b).bits() == b,
                Err(m) => id matches Err(e) && e.detail@ == m,
            },
            forall|other: Self| text@ == other.text() ==> id == Ok::<Self, IdError>(other),
    {
        match parse_uuid_bits(text) {
            Ok(bits) => Ok(TaskId { bits }),
            Err(detail) => Err(IdError { detail }),
        }
    }

    /// The text form: hyphenated lower-case hexadecimal.
    pub closed spec fn text(self) -> Seq<char> {
        hyphenated(self.bits)
    }

    /// The text form: hyphenated lower-case hexadecimal.
    pub fn to_text(&self) -> (text: String)
        ensures
            text@ == self.text(),
    {
        hyphenated_text(self.bits)
    }
}

impl StepId {
    /// The 128 bits of the UUID.
    pub closed spec fn bits(self) -> u128 {
        self.bits
    }

    /// The id of the given bits.
    pub closed spec fn with_bits(bits: u128) -> Self {
        StepId { bits }
    }

    /// The id was issued at `now`.
    pub open spec fn issued_at(self, now: Timestamp) -> bool {
        v7_stamped(self.bits(), now)
    }

    /// Issues a new id stamped with `now`.
    pub fn new(now: Timestamp) -> (id: Self)
        ensures
            id.issued_at(now),
    {
        StepId { bits: issue_v7(now) }
    }

    /// Reads the text form back.
    pub fn parse(text: &str) -> (id: Result<Self, IdError>)
        ensures
            match uuid_parsed(text@) {
                Ok(b) => id == Ok::<Self, IdError>(Self::with_bits(b)) && Self::with_bits(b).bits() == b,
                Err(m) => id matches Err(e) && e.detail@ == m,
            },
            forall|other: Self| text@ == other.text() ==> id == Ok::<Self, IdError>(other),
    {
        match parse_uuid_bits(text) {
            Ok(bits) => Ok(StepId { bits }),
            Err(detail) => Err(IdError { detail }),
        }
    }

    /// The text form: hyphenated lower-case hexadecimal.
    pub closed spec fn text(self) -> Seq<char> {
        hyphenated(self.bits)
    }

    /// The text form: hyphenated lower-case hexadecimal.
    pub fn to_text(&self) -> (text: String)
        ensures
            text@ == self.text(),
    {
        hyphenated_text(self.bits)
    }
}

// --- interruption notes, steps and tasks -------------------------------------

/// An interruption note: the minimal context left on a step when leaving it.
#[derive(Debug, PartialEq, Eq)]
pub struct InterruptionNote {
    text: String,
}

impl View for InterruptionNote {
    type V = Seq<char>;

    closed spec fn view(&self) -> Seq<char> {
        self.text@
    }
}

impl Clone for InterruptionNote {
    fn clone(&self) -> (copy: Self)
        ensures
            copy@ == self@,
    {
        InterruptionNote { text: self.text.clone() }
    }
}

/// The text of an optional note.
pub open spec fn note_view(note: Option<InterruptionNote>) -> Option<Seq<char>> {
    match note {
        Some(n) => Some(n@),
        None => None,
    }
}

fn clone_note(note: &Option<InterruptionNote>) -> (copy: Option<InterruptionNote>)
    ensures
        note_view(copy) == note_view(*note),
{
    match note {
        Some(n) => Some(n.clone()),
        None => None,
    }
}

impl InterruptionNote {
    /// A note with the given text.
    pub fn new(text: String) -> (note: Self)
        ensures
            note@ == text@,
    {
        InterruptionNote { text }
    }

    /// The text of the note.
    pub fn text(&self) -> (text: &str)
        ensures
            text@ == self@,
    {
        self.text.as_str()
    }
}

/// What a step holds.
pub struct StepView {
    pub id: StepId,
    pub ordinal: u32,
    pub content: Seq<char>,
    pub completed_at: Option<Timestamp>,
    pub note: Option<Seq<char>>,
}

/// What a task holds.
pub struct TaskView {
    pub id: TaskId,
    pub title: Seq<char>,
    pub steps: Seq<StepView>,
}

/// A step: a unit of work within a task. `ordinal` is its place `1..=N` in the
/// task, recomputed whenever steps are inserted or split.
#[derive(Debug, PartialEq, Eq)]
pub struct Step {
    id: StepId,
    ordinal: u32,
    content: String,
    completed_at: Option<Timestamp>,
    interruption_note: Option<InterruptionNote>,
}

impl View for Step {
    type V = StepView;

    closed spec fn view(&self) -> StepView {
        StepView {
            id: self.id,
            ordinal: self.ordinal,
            content: self.content@,
            completed_at: self.completed_at,
            note: note_view(self.interruption_note),
        }
    }
}

impl Clone for Step {
    fn clone(&self) -> (copy: Self)
        ensures
            copy@ == self@,
    {
        Step {
            id: self.id,
            ordinal: self.ordinal,
            content: self.content.clone(),
            completed_at: self.completed_at,
            interruption_note: clone_note(&self.interruption_note),
        }
    }
}

/// The views of a sequence of steps.
pub open spec fn views(steps: Seq<Step>) -> Seq<StepView> {
    steps.map_values(|s: Step| s@)
}

/// The ordinal of the step at index `i`: `i + 1`, saturating at `u32::MAX`.
pub open spec fn ordinal_at(i: int) -> u32 {
    if i + 1 <= u32::MAX {
        (i + 1) as u32
    } else {
        u32::MAX
    }
}

/// The steps numbered from their order; nothing but the ordinals changes.
pub open spec fn renumbered(steps: Seq<StepView>) -> Seq<StepView> {
    Seq::new(steps.len(), |i: int| StepView { ordinal: ordinal_at(i), ..steps[i] })
}

/// A new step: not completed, without a note (its ordinal is assigned by renumbering).
pub open spec fn blank_step(id: StepId, content: Seq<char>) -> StepView {
    StepView { id, ordinal: 0, content, completed_at: None, note: None }
}

/// `i` is the first index of a step with id `id`.
pub open spec fn is_step_index(steps: Seq<StepView>, id: StepId, i: int) -> bool {
    &&& 0 <= i < steps.len()
    &&& steps[i].id == id
    &&& forall|j: int| 0 <= j < i ==> steps[j].id != id
}

/// The index of the (first) step with id `id`.
pub open spec fn step_index(steps: Seq<StepView>, id: StepId) -> Option<int> {
    if exists|i: int| is_step_index(steps, id, i) {
        Some(choose|i: int| is_step_index(steps, id, i))
    } else {
        None
    }
}

/// The index of a step is the first one carrying its id.
pub proof fn lemma_step_index(steps: Seq<StepView>, id: StepId, i: int)
    requires
        is_step_index(steps, id, i),
    ensures
        step_index(steps, id) == Some(i),
{
    assert forall|m: int| is_step_index(steps, id, m) implies m == i by {
        if m < i {
            assert(steps[m].id != id);
        } else if m > i {
            assert(steps[i].id != id);
        }
    }
}

impl Step {
    /// The id.
    pub fn id(&self) -> (id: StepId)
        ensures
            id == self@.id,
    {
        self.id
    }

    /// The place `1..=N` within the task.
    pub fn ordinal(&self) -> (ordinal: u32)
        ensures
            ordinal == self@.ordinal,
    {
        self.ordinal
    }

    /// The content.
    pub fn content(&self) -> (content: &str)
        ensures
            content@ == self@.content,
    {
        self.content.as_str()
    }

    /// When the completion was declared; `None` when it was not.
    pub fn completed_at(&self) -> (at: Option<Timestamp>)
        ensures
            at == self@.completed_at,
    {
        self.completed_at
    }

    /// Whether a completion has been declared.
    pub fn is_completed(&self) -> (completed: bool)
        ensures
            completed == self@.completed_at.is_some(),
    {
        self.completed_at.is_some()
    }

    /// The interruption note.
    pub fn interruption_note(&self) -> (note: Option<&InterruptionNote>)
        ensures
            match note {
                Some(n) => self@.note == Some(n@),
                None => self@.note.is_none(),
            },
    {
        match &self.interruption_note {
            Some(n) => Some(n),
            None => None,
        }
    }

    /// Rebuilds a stored step. The ordinal is assigned by [`Task::rehydrate`]
    /// from the order of the steps.
    pub fn rehydrate(
        id: StepId,
        content: String,
        completed_at: Option<Timestamp>,
        interruption_note: Option<InterruptionNote>,
    ) -> (step: Self)
        ensures
            step@ == (StepView {
                id,
                ordinal: 0,
                content: content@,
                completed_at,
                note: note_view(interruption_note),
            }),
    {
        Step { id, ordinal: 0, content, completed_at, interruption_note }
    }

    fn blank(id: StepId, content: String) -> (step: Self)
        ensures
            step@ == blank_step(id, content@),
    {
        Step { id, ordinal: 0, content, completed_at: None, interruption_note: None }
    }
}

/// The steps, numbered from their order.
fn renumber(steps: &Vec<Step>) -> (numbered: Vec<Step>)
    ensures
        views(numbered@) == renumbered(views(steps@)),
{
    let mut numbered: Vec<Step> = Vec::new();
    let mut i: usize = 0;
    while i < steps.len()
        invariant
            i <= steps@.len(),
            numbered@.len() == i,
            forall|k: int| 0 <= k < i ==> #[trigger] numbered@[k]@ == renumbered(views(steps@))[k],
        decreases steps.len() - i,
    {
        let ordinal: u32 = if i < u32::MAX as usize {
            (i + 1) as u32
        } else {
            u32::MAX
        };
        let s = &steps[i];
        numbered.push(
            Step {
                id: s.id,
                ordinal,
                content: s.content.clone(),
                completed_at: s.completed_at,
                interruption_note: clone_note(&s.interruption_note),
            },
        );
        i = i + 1;
    }
    assert(views(numbered@) =~= renumbered(views(steps@)));
    numbered
}

/// A task: something to achieve, made of one or more ordered steps.
#[derive(Debug, PartialEq, Eq)]
pub struct Task {
    id: TaskId,
    title: String,
    steps: Vec<Step>,
}

impl View for Task {
    type V = TaskView;

    closed spec fn view(&self) -> TaskView {
        TaskView { id: self.id, title: self.title@, steps: views(self.steps@) }
    }
}

fn clone_steps(steps: &Vec<Step>) -> (copy: Vec<Step>)
    ensures
        views(copy@) == views(steps@),
        copy@.len() == steps@.len(),
{
    let mut copy: Vec<Step> = Vec::new();
    let mut i: usize = 0;
    while i < steps.len()
        invariant
            i <= steps@.len(),
            copy@.len() == i,
            forall|k: int| 0 <= k < i ==> #[trigger] copy@[k]@ == steps@[k]@,
        decreases steps.len() - i,
    {
        copy.push(steps[i].clone());
        i = i + 1;
    }
    assert(views(copy@) =~= views(steps@));
    copy
}

impl Clone for Task {
    fn clone(&self) -> (copy: Self)
        ensures
            copy@ == self@,
    {
        Task { id: self.id, title: self.title.clone(), steps: clone_steps(&self.steps) }
    }
}

/// `task` was freshly created at `now` with `title` and one step per content,
/// in order: new ids, ordinals `1..=N`, nothing completed, no notes.
pub open spec fn created(task: TaskView, now: Timestamp, title: Seq<char>, contents: Seq<Seq<char>>) -> bool {
    &&& task.id.issued_at(now)
    &&& task.title == title
    &&& task.steps.len() == contents.len()
    &&& forall|i: int|
        0 <= i < contents.len() ==> {
            &&& (#[trigger] task.steps[i]) == (StepView {
                ordinal: ordinal_at(i),
                ..blank_step(task.steps[i].id, contents[i])
            })
            &&& task.steps[i].id.issued_at(now)
        }
}

/// The contents of a list of strings.
pub open spec fn texts(strings: Seq<String>) -> Seq<Seq<char>> {
    strings.map_values(|s: String| s@)
}

/// The largest place a step can be inserted at: `N + 1` (counted in `u32`, saturating).
pub open spec fn insertion_limit(len: nat) -> u32 {
    let count: u32 = if len <= u32::MAX {
        len as u32
    } else {
        u32::MAX
    };
    if count < u32::MAX {
        (count + 1) as u32
    } else {
        u32::MAX
    }
}

/// The steps after replacing step `i` with `step`.
pub open spec fn with_step(task: TaskView, i: int, step: StepView) -> TaskView {
    TaskView { steps: task.steps.update(i, step), ..task }
}

/// The task after inserting the new step `id` at place `ordinal` (in `1..=N+1`),
/// renumbered.
pub open spec fn after_insert(task: TaskView, ordinal: int, id: StepId, content: Seq<char>) -> TaskView {
    TaskView { steps: renumbered(task.steps.insert(ordinal - 1, blank_step(id, content))), ..task }
}

/// The task after splitting step `i`: it keeps its id and note and takes
/// `first`; the new step `id` with `second` follows it; renumbered.
pub open spec fn after_split(task: TaskView, i: int, id: StepId, first: Seq<char>, second: Seq<char>) -> TaskView {
    TaskView {
        steps: renumbered(
            task.steps.update(i, StepView { content: first, ..task.steps[i] }).insert(
                i + 1,
                blank_step(id, second),
            ),
        ),
        ..task
    }
}

/// The task after declaring step `i` completed at `now` (a declared step keeps its instant).
pub open spec fn after_declare(task: TaskView, i: int, now: Timestamp) -> TaskView {
    with_step(
        task,
        i,
        StepView {
            completed_at: if task.steps[i].completed_at.is_none() {
                Some(now)
            } else {
                task.steps[i].completed_at
            },
            ..task.steps[i]
        },
    )
}

/// The task after revoking the completion of step `i`.
pub open spec fn after_revoke(task: TaskView, i: int) -> TaskView {
    with_step(task, i, StepView { completed_at: None, ..task.steps[i] })
}

/// The task after setting the note of step `i`.
pub open spec fn after_note(task: TaskView, i: int, note: Option<Seq<char>>) -> TaskView {
    with_step(task, i, StepView { note, ..task.steps[i] })
}

/// The task after replacing the content of step `i`.
pub open spec fn after_content(task: TaskView, i: int, content: Seq<char>) -> TaskView {
    with_step(task, i, StepView { content, ..task.steps[i] })
}

/// `steps` has a step with id `id`.
pub open spec fn has_step_id(steps: Seq<StepView>, id: StepId) -> bool {
    exists|k: int| 0 <= k < steps.len() && #[trigger] steps[k].id == id
}

/// `after` is the same task as `before` and still has every step of it.
pub open spec fn keeps_steps(before: TaskView, after: TaskView) -> bool {
    &&& after.id == before.id
    &&& forall|id: StepId| has_step_id(before.steps, id) ==> has_step_id(after.steps, id)
}

/// A step of the task has an index.
pub proof fn lemma_has_step_index(steps: Seq<StepView>, id: StepId)
    ensures
        step_index(steps, id).is_some() == has_step_id(steps, id),
        step_index(steps, id) matches Some(i) ==> is_step_index(steps, id, i),
{
    if has_step_id(steps, id) {
        let k = choose|k: int| 0 <= k < steps.len() && #[trigger] steps[k].id == id;
        lemma_first_step(steps, id, k);
    }
}

proof fn lemma_first_step(steps: Seq<StepView>, id: StepId, k: int)
    requires
        0 <= k < steps.len(),
        steps[k].id == id,
    ensures
        exists|i: int| is_step_index(steps, id, i),
    decreases k,
{
    if exists|j: int| 0 <= j < k && steps[j].id == id {
        let j = choose|j: int| 0 <= j < k && steps[j].id == id;
        lemma_first_step(steps, id, j);
    } else {
        assert(is_step_index(steps, id, k));
    }
}

/// Renumbering changes no id.
proof fn lemma_renumbered_ids(steps: Seq<StepView>)
    ensures
        renumbered(steps).len() == steps.len(),
        forall|k: int| 0 <= k < steps.len() ==> (#[trigger] renumbered(steps)[k]).id == steps[k].id,
{
}

proof fn lemma_insert_keeps_steps(task: TaskView, ordinal: int, id: StepId, a: Seq<char>)
    requires
        1 <= ordinal <= task.steps.len() + 1,
    ensures
        keeps_steps(task, after_insert(task, ordinal, id, a)),
{
    let ins = task.steps.insert(ordinal - 1, blank_step(id, a));
    lemma_renumbered_ids(ins);
    assert forall|s: StepId| has_step_id(task.steps, s) implies has_step_id(
        after_insert(task, ordinal, id, a).steps,
        s,
    ) by {
        let k = choose|k: int| 0 <= k < task.steps.len() && #[trigger] task.steps[k].id == s;
        let m = if k < ordinal - 1 {
            k
        } else {
            k + 1
        };
        assert(renumbered(ins)[m].id == s);
    }
}

/// The steps are numbered `1..=N` in their order.
pub open spec fn numbered(steps: Seq<StepView>) -> bool {
    forall|k: int| 0 <= k < steps.len() ==> #[trigger] steps[k].ordinal == ordinal_at(k)
}

/// Every change keeps the ordinals `1..=N` in the order of the steps:
/// inserting and splitting renumber, and the other changes leave them alone.
pub proof fn law_ordinals_stay_numbered(
    task: TaskView,
    i: int,
    ordinal: int,
    id: StepId,
    a: Seq<char>,
    b: Seq<char>,
    now: Timestamp,
    note: Option<Seq<char>>,
)
    requires
        numbered(task.steps),
    ensures
        1 <= ordinal <= task.steps.len() + 1 ==> numbered(after_insert(task, ordinal, id, a).steps),
        0 <= i < task.steps.len() ==> {
            &&& numbered(after_split(task, i, id, a, b).steps)
            &&& numbered(after_declare(task, i, now).steps)
            &&& numbered(after_revoke(task, i).steps)
            &&& numbered(after_note(task, i, note).steps)
            &&& numbered(after_content(task, i, a).steps)
        },
{
    if 0 <= i < task.steps.len() {
        assert forall|k: int| 0 <= k < task.steps.len() implies #[trigger] after_declare(task, i, now).steps[k].ordinal
            == ordinal_at(k) by {
            assert(task.steps[k].ordinal == ordinal_at(k));
        }
        assert forall|k: int| 0 <= k < task.steps.len() implies #[trigger] after_revoke(task, i).steps[k].ordinal
            == ordinal_at(k) by {
            assert(task.steps[k].ordinal == ordinal_at(k));
        }
        assert forall|k: int| 0 <= k < task.steps.len() implies #[trigger] after_note(task, i, note).steps[k].ordinal
            == ordinal_at(k) by {
            assert(task.steps[k].ordinal == ordinal_at(k));
        }
        assert forall|k: int| 0 <= k < task.steps.len() implies #[trigger] after_content(task, i, a).steps[k].ordinal
            == ordinal_at(k) by {
            assert(task.steps[k].ordinal == ordinal_at(k));
        }
    }
}


/// Every task operation keeps the task and all of its steps: inserting,
/// splitting, declaring or revoking a completion, setting a note, replacing a
/// content. (Steps are never deleted, so a position stays valid.)
pub proof fn law_steps_are_never_lost(
    task: TaskView,
    i: int,
    ordinal: int,
    id: StepId,
    a: Seq<char>,
    b: Seq<char>,
    now: Timestamp,
    note: Option<Seq<char>>,
)
    ensures
        1 <= ordinal <= task.steps.len() + 1 ==> keeps_steps(task, after_insert(task, ordinal, id, a)),
        0 <= i < task.steps.len() ==> {
            &&& keeps_steps(task, after_split(task, i, id, a, b))
            &&& keeps_steps(task, after_declare(task, i, now))
            &&& keeps_steps(task, after_revoke(task, i))
            &&& keeps_steps(task, after_note(task, i, note))
            &&& keeps_steps(task, after_content(task, i, a))
        },
{
    if 1 <= ordinal <= task.steps.len() + 1 {
        lemma_insert_keeps_steps(task, ordinal, id, a);
    }
    if 0 <= i < task.steps.len() {
        lemma_change_keeps_steps(task, i, id, a, b, now, note);
    }
}

proof fn lemma_change_keeps_steps(
    task: TaskView,
    i: int,
    id: StepId,
    a: Seq<char>,
    b: Seq<char>,
    now: Timestamp,
    note: Option<Seq<char>>,
)
    requires
        0 <= i < task.steps.len(),
    ensures
        keeps_steps(task, after_split(task, i, id, a, b)),
        keeps_steps(task, after_declare(task, i, now)),
        keeps_steps(task, after_revoke(task, i)),
        keeps_steps(task, after_note(task, i, note)),
        keeps_steps(task, after_content(task, i, a)),
{
    let upd = task.steps.update(i, StepView { content: a, ..task.steps[i] });
    let sp = upd.insert(i + 1, blank_step(id, b));
    lemma_renumbered_ids(sp);
    assert forall|s: StepId| has_step_id(task.steps, s) implies has_step_id(
        after_split(task, i, id, a, b).steps,
        s,
    ) by {
        let k = choose|k: int| 0 <= k < task.steps.len() && #[trigger] task.steps[k].id == s;
        let m = if k <= i {
            k
        } else {
            k + 1
        };
        assert(renumbered(sp)[m].id == s);
    }
    assert forall|s: StepId| has_step_id(task.steps, s) implies has_step_id(
        after_declare(task, i, now).steps,
        s,
    ) && has_step_id(after_revoke(task, i).steps, s) && has_step_id(after_note(task, i, note).steps, s)
        && has_step_id(after_content(task, i, a).steps, s) by {
        let k = choose|k: int| 0 <= k < task.steps.len() && #[trigger] task.steps[k].id == s;
        assert(after_declare(task, i, now).steps[k].id == s);
        assert(after_revoke(task, i).steps[k].id == s);
        assert(after_note(task, i, note).steps[k].id == s);
        assert(after_content(task, i, a).steps[k].id == s);
    }
}

impl Task {
    /// Creates a task from a title and the contents of one or more steps, in
    /// order; the steps are numbered `1..=N`.
    ///
    /// A task without steps is refused with [`DomainError::EmptyTask`].
    pub fn create(now: Timestamp, title: String, step_contents: Vec<String>) -> (task: Result<
        Self,
        DomainError,
    >)
        ensures
            step_contents@.len() == 0 ==> task == Err::<Self, DomainError>(DomainError::EmptyTask),
            step_contents@.len() > 0 ==> (task matches Ok(t) && created(
                t@,
                now,
                title@,
                texts(step_contents@),
            )),
    {
        if step_contents.len() == 0 {
            return Err(DomainError::EmptyTask);
        }
        let mut steps: Vec<Step> = Vec::new();
        let mut i: usize = 0;
        while i < step_contents.len()
            invariant
                i <= step_contents@.len(),
                steps@.len() == i,
                forall|k: int|
                    0 <= k < i ==> {
                        &&& (#[trigger] steps@[k])@ == blank_step(
                            steps@[k]@.id,
                            step_contents@[k]@,
                        )
                        &&& steps@[k]@.id.issued_at(now)
                    },
            decreases step_contents.len() - i,
        {
            let content = step_contents[i].clone();
            steps.push(Step::blank(StepId::new(now), content));
            i = i + 1;
        }
        let steps = renumber(&steps);
        let task = Task { id: TaskId::new(now), title, steps };
        proof {
            assert forall|k: int| 0 <= k < step_contents@.len() implies {
                &&& (#[trigger] task@.steps[k]) == (StepView {
                    ordinal: ordinal_at(k),
                    ..blank_step(task@.steps[k].id, texts(step_contents@)[k])
                })
                &&& task@.steps[k].id.issued_at(now)
            } by {
                assert(task@.steps[k] == renumbered(views(steps@))[k]);
            }
        }
        Ok(task)
    }

    /// Rebuilds a stored task; its steps are numbered `1..=N` in the given order.
    /// A stored task without steps is corrupt and refused with [`DomainError::EmptyTask`].
    pub fn rehydrate(id: TaskId, title: String, steps: Vec<Step>) -> (task: Result<Self, DomainError>)
        ensures
            steps@.len() == 0 ==> task == Err::<Self, DomainError>(DomainError::EmptyTask),
            steps@.len() > 0 ==> (task matches Ok(t) && t@ == (TaskView {
                id,
                title: title@,
                steps: renumbered(views(steps@)),
            })),
    {
        if steps.len() == 0 {
            return Err(DomainError::EmptyTask);
        }
        let steps = renumber(&steps);
        Ok(Task { id, title, steps })
    }

    /// The id.
    pub fn id(&self) -> (id: TaskId)
        ensures
            id == self@.id,
    {
        self.id
    }

    /// The title.
    pub fn title(&self) -> (title: &str)
        ensures
            title@ == self@.title,
    {
        self.title.as_str()
    }

    /// The steps, in order of their ordinals.
    pub fn steps(&self) -> (steps: &[Step])
        ensures
            views(steps@) == self@.steps,
    {
        self.steps.as_slice()
    }

    /// The (first) step with the given id.
    pub fn step(&self, id: StepId) -> (step: Option<&Step>)
        ensures
            match step_index(self@.steps, id) {
                Some(i) => step matches Some(s) && s@ == self@.steps[i],
                None => step.is_none(),
            },
    {
        match self.index_of(id) {
            Some(i) => Some(&self.steps[i]),
            None => None,
        }
    }

    /// The index of the (first) step with the given id.
    pub fn index_of(&self, id: StepId) -> (index: Option<usize>)
        ensures
            match step_index(self@.steps, id) {
                Some(i) => index == Some(i as usize),
                None => index.is_none(),
            },
            match index {
                Some(k) => is_step_index(self@.steps, id, k as int),
                None => forall|j: int| 0 <= j < self@.steps.len() ==> self@.steps[j].id != id,
            },
    {
        let ghost steps = self@.steps;
        let mut i: usize = 0;
        while i < self.steps.len()
            invariant
                steps == self@.steps,
                i <= steps.len(),
                forall|j: int| 0 <= j < i ==> steps[j].id != id,
            decreases self.steps.len() - i,
        {
            if self.steps[i].id == id {
                proof {
                    lemma_step_index(steps, id, i as int);
                }
                return Some(i);
            }
            i = i + 1;
        }
        proof {
            assert forall|m: int| !is_step_index(steps, id, m) by {
                if 0 <= m < steps.len() {
                    assert(steps[m].id != id);
                }
            }
        }
        None
    }

    /// True when one of the steps has the id `id`.
    pub fn has_step(&self, id: StepId) -> (has: bool)
        ensures
            has == step_index(self@.steps, id).is_some(),
    {
        self.index_of(id).is_some()
    }

    /// Whether two tasks hold the same values.
    pub fn same_as(&self, other: &Task) -> (same: bool)
        ensures
            same == (self@ == other@),
    {
        if self.id != other.id || self.title != other.title || self.steps.len()
            != other.steps.len() {
            proof {
                if self@ == other@ {
                    assert(self@.steps.len() == other@.steps.len());
                }
            }
            return false;
        }
        let mut i: usize = 0;
        while i < self.steps.len()
            invariant
                i <= self.steps@.len(),
                self.steps@.len() == other.steps@.len(),
                forall|k: int| 0 <= k < i ==> #[trigger] self.steps@[k]@ == other.steps@[k]@,
            decreases self.steps.len() - i,
        {
            let a = &self.steps[i];
            let b = &other.steps[i];
            let same_note = match (&a.interruption_note, &b.interruption_note) {
                (Some(x), Some(y)) => x.text == y.text,
                (None, None) => true,
                _ => false,
            };
            if a.id != b.id || a.ordinal != b.ordinal || a.content != b.content || a.completed_at
                != b.completed_at || !same_note {
                proof {
                    assert(self@.steps[i as int] == a@);
                    assert(other@.steps[i as int] == b@);
                }
                return false;
            }
            i = i + 1;
        }
        assert(self@.steps =~= other@.steps);
        true
    }

    /// Inserts a new step at `ordinal`, the place it takes among `1..=N+1`.
    /// Later steps are renumbered; no id changes. Returns the new step's id.
    ///
    /// A place outside `1..=N+1` is refused with [`DomainError::OrdinalOutOfRange`].
    pub fn insert_step(&mut self, now: Timestamp, ordinal: u32, content: String) -> (inserted: Result<
        StepId,
        DomainError,
    >)
        ensures
            (ordinal < 1 || ordinal > insertion_limit(old(self)@.steps.len())) ==> {
                &&& inserted == Err::<StepId, DomainError>(DomainError::OrdinalOutOfRange)
                &&& final(self)@ == old(self)@
            },
            (1 <= ordinal <= insertion_limit(old(self)@.steps.len())) ==> (inserted matches Ok(id) && {
                &&& id.issued_at(now)
                &&& final(self)@ == after_insert(old(self)@, ordinal as int, id, content@)
            }),
    {
        let count: u32 = if self.steps.len() <= u32::MAX as usize {
            self.steps.len() as u32
        } else {
            u32::MAX
        };
        let limit = count.saturating_add(1);
        if ordinal < 1 || ordinal > limit {
            return Err(DomainError::OrdinalOutOfRange);
        }
        let id = StepId::new(now);
        let index = (ordinal - 1) as usize;
        let mut steps = clone_steps(&self.steps);
        steps.insert(index, Step::blank(id, content));
        proof {
            assert(views(steps@) =~= old(self)@.steps.insert(ordinal - 1, blank_step(id, content@)));
        }
        self.steps = renumber(&steps);
        Ok(id)
    }

    /// Appends a new step at the end. Returns the new step's id.
    pub fn append_step(&mut self, now: Timestamp, content: String) -> (appended: Result<
        StepId,
        DomainError,
    >)
        ensures
            appended matches Ok(id) && {
                &&& id.issued_at(now)
                &&& final(self)@ == after_insert(
                    old(self)@,
                    insertion_limit(old(self)@.steps.len()) as int,
                    id,
                    content@,
                )
            },
    {
        let count: u32 = if self.steps.len() <= u32::MAX as usize {
            self.steps.len() as u32
        } else {
            u32::MAX
        };
        let ordinal = count.saturating_add(1);
        self.insert_step(now, ordinal, content)
    }

    /// Splits a step in two. The first half keeps the step's id and note and
    /// takes `first_content`; the second half is a new step with
    /// `second_content`. Returns the second half's id.
    ///
    /// An unknown step is refused with [`DomainError::UnknownStep`], a completed
    /// one with [`DomainError::SplitCompleted`].
    pub fn split_step(
        &mut self,
        now: Timestamp,
        step_id: StepId,
        first_content: String,
        second_content: String,
    ) -> (second: Result<StepId, DomainError>)
        ensures
            match step_index(old(self)@.steps, step_id) {
                None => second == Err::<StepId, DomainError>(DomainError::UnknownStep) && final(self)@ == old(self)@,
                Some(i) => if old(self)@.steps[i].completed_at.is_some() {
                    second == Err::<StepId, DomainError>(DomainError::SplitCompleted) && final(self)@ == old(self)@
                } else {
                    second matches Ok(id) && {
                        &&& id.issued_at(now)
                        &&& final(self)@ == after_split(
                            old(self)@,
                            i,
                            id,
                            first_content@,
                            second_content@,
                        )
                    }
                },
            },
    {
        let index = match self.index_of(step_id) {
            Some(index) => index,
            None => return Err(DomainError::UnknownStep),
        };
        if self.steps[index].is_completed() {
            return Err(DomainError::SplitCompleted);
        }
        let second_id = StepId::new(now);
        let mut steps = clone_steps(&self.steps);
        let old_step = &self.steps[index];
        let first_half = Step {
            id: old_step.id,
            ordinal: old_step.ordinal,
            content: first_content,
            completed_at: old_step.completed_at,
            interruption_note: clone_note(&old_step.interruption_note),
        };
        assert(index < steps.len());
        steps.set(index, first_half);
        steps.insert(index + 1, Step::blank(second_id, second_content));
        proof {
            let i = index as int;
            assert(views(steps@) =~= old(self)@.steps.update(
                i,
                StepView { content: first_content@, ..old(self)@.steps[i] },
            ).insert(i + 1, blank_step(second_id, second_content@)));
        }
        self.steps = renumber(&steps);
        Ok(second_id)
    }

    /// Replaces the step at `index` (the ordinals stay as they are).
    fn replace_step(&mut self, index: usize, step: Step)
        requires
            index < old(self)@.steps.len(),
        ensures
            final(self)@ == with_step(old(self)@, index as int, step@),
    {
        self.steps.set(index, step);
        assert(self@.steps =~= old(self)@.steps.update(index as int, step@));
    }

    /// Declares the step completed at `now`. A step already declared keeps its
    /// first instant.
    ///
    /// An unknown step is refused with [`DomainError::UnknownStep`].
    pub fn declare_completion(&mut self, now: Timestamp, step_id: StepId) -> (declared: Result<
        (),
        DomainError,
    >)
        ensures
            match step_index(old(self)@.steps, step_id) {
                None => declared == Err::<(), DomainError>(DomainError::UnknownStep) && final(self)@ == old(self)@,
                Some(i) => declared == Ok::<(), DomainError>(()) && final(self)@ == after_declare(
                    old(self)@,
                    i,
                    now,
                )
            },
    {
        let index = match self.index_of(step_id) {
            Some(index) => index,
            None => return Err(DomainError::UnknownStep),
        };
        let mut step = self.steps[index].clone();
        if step.completed_at.is_none() {
            step.completed_at = Some(now);
        }
        self.replace_step(index, step);
        Ok(())
    }

    /// Revokes the declared completion of the step.
    ///
    /// An unknown step is refused with [`DomainError::UnknownStep`].
    pub fn revoke_completion(&mut self, step_id: StepId) -> (revoked: Result<(), DomainError>)
        ensures
            match step_index(old(self)@.steps, step_id) {
                None => revoked == Err::<(), DomainError>(DomainError::UnknownStep) && final(self)@ == old(self)@,
                Some(i) => revoked == Ok::<(), DomainError>(()) && final(self)@ == after_revoke(old(self)@, i)
            },
    {
        let index = match self.index_of(step_id) {
            Some(index) => index,
            None => return Err(DomainError::UnknownStep),
        };
        let mut step = self.steps[index].clone();
        step.completed_at = None;
        self.replace_step(index, step);
        Ok(())
    }

    /// Sets (or clears) the interruption note of the step.
    ///
    /// An unknown step is refused with [`DomainError::UnknownStep`].
    pub fn set_interruption_note(&mut self, step_id: StepId, note: Option<InterruptionNote>) -> (set:
        Result<(), DomainError>)
        ensures
            match step_index(old(self)@.steps, step_id) {
                None => set == Err::<(), DomainError>(DomainError::UnknownStep) && final(self)@
                    == old(self)@,
                Some(i) => set == Ok::<(), DomainError>(()) && final(self)@ == after_note(old(self)@, i, note_view(note))
            },
    {
        let index = match self.index_of(step_id) {
            Some(index) => index,
            None => return Err(DomainError::UnknownStep),
        };
        let mut step = self.steps[index].clone();
        step.interruption_note = note;
        self.replace_step(index, step);
        Ok(())
    }

    /// Replaces the content of the step.
    ///
    /// An unknown step is refused with [`DomainError::UnknownStep`].
    pub fn set_step_content(&mut self, step_id: StepId, content: String) -> (set: Result<
        (),
        DomainError,
    >)
        ensures
            match step_index(old(self)@.steps, step_id) {
                None => set == Err::<(), DomainError>(DomainError::UnknownStep) && final(self)@
                    == old(self)@,
                Some(i) => set == Ok::<(), DomainError>(()) && final(self)@ == after_content(old(self)@, i, content@)
            },
    {
        let index = match self.index_of(step_id) {
            Some(index) => index,
            None => return Err(DomainError::UnknownStep),
        };
        let mut step = self.steps[index].clone();
        step.content = content;
        self.replace_step(index, step);
        Ok(())
    }

    /// Replaces the title.
    pub fn rename(&mut self, title: String)
        ensures
            final(self)@ == (TaskView { title: title@, ..old(self)@ }),
    {
        self.title = title;
    }
}

} // verus!
