//! Why a task request is refused.

use vstd::prelude::*;
use vstd::string::StringExecFns;

verus! {

#[derive(Debug, Clone, PartialEq, Eq)]
pub enum TaskError {
    Invalid(String),
    AlreadyExists(String),
    NotFound(String),
    NotActive(String),
    ParentNotFound(String),
    ParentUnavailable(String),
    BudgetExhausted(String),
    ActiveChildren(String),
    EmptyAdjustment,
    Persistence(String),
    CorruptSnapshot(String),
}

/// What a [`TaskError`] says: its kind and its text.
pub enum Refusal {
    Invalid(Seq<char>),
    AlreadyExists(Seq<char>),
    NotFound(Seq<char>),
    NotActive(Seq<char>),
    ParentNotFound(Seq<char>),
    ParentUnavailable(Seq<char>),
    BudgetExhausted(Seq<char>),
    ActiveChildren(Seq<char>),
    EmptyAdjustment,
    Persistence(Seq<char>),
    CorruptSnapshot(Seq<char>),
}

impl View for TaskError {
    type V = Refusal;

    open spec fn view(&self) -> Refusal {
        match self {
            TaskError::Invalid(text) => Refusal::Invalid(text@),
            TaskError::AlreadyExists(id) => Refusal::AlreadyExists(id@),
            TaskError::NotFound(id) => Refusal::NotFound(id@),
            TaskError::NotActive(id) => Refusal::NotActive(id@),
            TaskError::ParentNotFound(id) => Refusal::ParentNotFound(id@),
            TaskError::ParentUnavailable(id) => Refusal::ParentUnavailable(id@),
            TaskError::BudgetExhausted(id) => Refusal::BudgetExhausted(id@),
            TaskError::ActiveChildren(id) => Refusal::ActiveChildren(id@),
            TaskError::EmptyAdjustment => Refusal::EmptyAdjustment,
            TaskError::Persistence(text) => Refusal::Persistence(text@),
            TaskError::CorruptSnapshot(text) => Refusal::CorruptSnapshot(text@),
        }
    }
}

impl Refusal {
    /// The refusal as one line of text.
    pub open spec fn line(self) -> Seq<char> {
        match self {
            Refusal::Invalid(text) => "invalid request: "@ + text,
            Refusal::AlreadyExists(id) => "task already exists: "@ + id,
            Refusal::NotFound(id) => "task not found: "@ + id,
            Refusal::NotActive(id) => "task is not active: "@ + id,
            Refusal::ParentNotFound(id) => "parent task not found: "@ + id,
            Refusal::ParentUnavailable(id) => "parent task unavailable: "@ + id,
            Refusal::BudgetExhausted(id) => "no budget available for task: "@ + id,
            Refusal::ActiveChildren(id) => "task has active children: "@ + id,
            Refusal::EmptyAdjustment => "adjustment did not change anything"@,
            Refusal::Persistence(text) => "persistence error: "@ + text,
            Refusal::CorruptSnapshot(text) => "corrupt snapshot: "@ + text,
        }
    }
}

impl TaskError {
    pub fn invalid(text: &str) -> (r: Self)
        ensures
            r@ == Refusal::Invalid(text@),
    {
        TaskError::Invalid(text.to_owned())
    }

    pub fn corrupt(text: &str) -> (r: Self)
        ensures
            r@ == Refusal::CorruptSnapshot(text@),
    {
        TaskError::CorruptSnapshot(text.to_owned())
    }

    /// The error as one line of text.
    pub fn message(&self) -> (r: String)
        ensures
            r@ == self@.line(),
    {
        match self {
            TaskError::Invalid(text) => "invalid request: ".to_owned().concat(text.as_str()),
            TaskError::AlreadyExists(id) => "task already exists: ".to_owned().concat(id.as_str()),
            TaskError::NotFound(id) => "task not found: ".to_owned().concat(id.as_str()),
            TaskError::NotActive(id) => "task is not active: ".to_owned().concat(id.as_str()),
            TaskError::ParentNotFound(id) => "parent task not found: ".to_owned().concat(
                id.as_str(),
            ),
            TaskError::ParentUnavailable(id) => "parent task unavailable: ".to_owned().concat(
                id.as_str(),
            ),
            TaskError::BudgetExhausted(id) => "no budget available for task: ".to_owned().concat(
                id.as_str(),
            ),
            TaskError::ActiveChildren(id) => "task has active children: ".to_owned().concat(
                id.as_str(),
            ),
            TaskError::EmptyAdjustment => "adjustment did not change anything".to_owned(),
            TaskError::Persistence(text) => "persistence error: ".to_owned().concat(text.as_str()),
            TaskError::CorruptSnapshot(text) => "corrupt snapshot: ".to_owned().concat(
                text.as_str(),
            ),
        }
    }
}

} // verus!
