//! Switch records: the fact that a switch happened, kept for measurement.
//!
//! A record holds when it happened, which step was left and whether an
//! interruption note was written — never the text of the note, so that no
//! user text can leak into a history that is not shown to the user. Records
//! are written and never read back by the core.

use vstd::prelude::*;

use super::task::{hyphenated, hyphenated_text, issue_v7, parse_uuid_bits, uuid_parsed, v7_stamped, IdError, StepId};
use super::Timestamp;

verus! {

/// The id of a switch record: a version 7 UUID.
#[derive(Debug, Clone, Copy, PartialEq, Eq, Structural, PartialOrd, Ord, Hash)]
pub struct SwitchRecordId {
    bits: u128,
}

impl SwitchRecordId {
    /// The 128 bits of the UUID.
    pub closed spec fn bits(self) -> u128 {
        self.bits
    }

    /// The id was issued at `now`.
    pub open spec fn issued_at(self, now: Timestamp) -> bool {
        v7_stamped(self.bits(), now)
    }

    /// Issues a new id stamped with `now`.
    pub fn new(now: Timestamp) -> (id: Self)
        ensures
            id.issued_at(now),
    {
        SwitchRecordId { bits: issue_v7(now) }
    }

    /// Reads the text form back.
    pub fn parse(text: &str) -> (id: Result<Self, IdError>)
        ensures
            match uuid_parsed(text@) {
                Ok(b) => id matches Ok(i) && i.bits() == b,
                Err(m) => id matches Err(e) && e.detail@ == m,
            },
            forall|other: Self| text@ == other.text() ==> id == Ok::<Self, IdError>(other),
    {
        match parse_uuid_bits(text) {
            Ok(bits) => Ok(SwitchRecordId { bits }),
            Err(detail) => Err(IdError { detail }),
        }
    }

    /// The text form: hyphenated lower-case hexadecimal.
    pub closed spec fn text(self) -> Seq<char> {
        hyphenated(self.bits)
    }

    /// The text form: hyphenated lower-case hexadecimal.
    pub fn to_text(&self) -> (text: String)
        ensures
            text@ == self.text(),
    {
        hyphenated_text(self.bits)
    }
}

/// One switch: when, from which step, and whether a note was written.
#[derive(Debug, Clone, Copy, PartialEq, Eq, Structural)]
pub struct SwitchRecord {
    id: SwitchRecordId,
    departed_step_id: StepId,
    occurred_at: Timestamp,
    note_written: bool,
}

impl SwitchRecord {
    /// The id.
    pub closed spec fn spec_id(self) -> SwitchRecordId {
        self.id
    }

    /// The step that was left (not the destination).
    pub closed spec fn departed(self) -> StepId {
        self.departed_step_id
    }

    /// When the switch happened.
    pub closed spec fn occurred(self) -> Timestamp {
        self.occurred_at
    }

    /// Whether an interruption note was written.
    pub closed spec fn written(self) -> bool {
        self.note_written
    }

    /// A record of a switch at `now` away from `departed_step_id`.
    pub fn new(now: Timestamp, departed_step_id: StepId, note_written: bool) -> (record: Self)
        ensures
            record.spec_id().issued_at(now),
            record.departed() == departed_step_id,
            record.occurred() == now,
            record.written() == note_written,
    {
        SwitchRecord { id: SwitchRecordId::new(now), departed_step_id, occurred_at: now, note_written }
    }

    /// The id.
    pub fn id(&self) -> (id: SwitchRecordId)
        ensures
            id == self.spec_id(),
    {
        self.id
    }

    /// The step that was left.
    pub fn departed_step_id(&self) -> (step: StepId)
        ensures
            step == self.departed(),
    {
        self.departed_step_id
    }

    /// When the switch happened.
    pub fn occurred_at(&self) -> (at: Timestamp)
        ensures
            at == self.occurred(),
    {
        self.occurred_at
    }

    /// Whether an interruption note was written.
    pub fn note_written(&self) -> (written: bool)
        ensures
            written == self.written(),
    {
        self.note_written
    }
}

} // verus!
