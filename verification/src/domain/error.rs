//! The messages shown for the errors of the domain.

use vstd::prelude::*;

use super::DomainError;

verus! {

/// The message shown for each domain error.
pub open spec fn domain_message(error: DomainError) -> Seq<char> {
    match error {
        DomainError::EmptyTask => "ステップを持たないタスクは作成できない"@,
        DomainError::SplitCompleted => "完了済みのステップは分割できない"@,
        DomainError::UnknownTask => "指定されたタスクが存在しない"@,
        DomainError::UnknownStep => "指定されたステップが存在しない"@,
        DomainError::OrdinalOutOfRange => "指定された位置はステップの範囲外である"@,
        DomainError::NoCurrentPosition => "現在地が無い"@,
    }
}

impl DomainError {
    /// The message shown for this error.
    pub fn message(&self) -> (message: String)
        ensures
            message@ == domain_message(*self),
    {
        let text = match self {
            DomainError::EmptyTask => "ステップを持たないタスクは作成できない",
            DomainError::SplitCompleted => "完了済みのステップは分割できない",
            DomainError::UnknownTask => "指定されたタスクが存在しない",
            DomainError::UnknownStep => "指定されたステップが存在しない",
            DomainError::OrdinalOutOfRange => "指定された位置はステップの範囲外である",
            DomainError::NoCurrentPosition => "現在地が無い",
        };
        crate::text::owned(text)
    }
}

} // verus!
