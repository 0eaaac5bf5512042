//! The task record: the example record type riding on the repository.

use vstd::prelude::*;

verus! {

/// Task status lifecycle.
#[derive(Debug, Clone, Copy, PartialEq, Eq, Structural)]
pub enum TaskStatus {
    Todo,
    InProgress,
    Done,
}

impl Default for TaskStatus {
    fn default() -> (r: Self)
        ensures
            r == TaskStatus::Todo,
    {
        TaskStatus::Todo
    }
}

/// The views of a string sequence.
pub open spec fn string_views(ss: Seq<String>) -> Seq<Seq<char>> {
    ss.map_values(|s: String| s@)
}

/// Short label for a status.
pub fn status_label(status: &TaskStatus) -> (r: &'static str)
    ensures
        status is Todo ==> r@ == "todo"@,
        status is InProgress ==> r@ == "doing"@,
        status is Done ==> r@ == "done"@,
{
    match status {
        TaskStatus::Todo => "todo",
        TaskStatus::InProgress => "doing",
        TaskStatus::Done => "done",
    }
}

/// Task entity. The identifier is a random 128-bit value; timestamps are
/// milliseconds since the epoch.
#[derive(Debug)]
pub struct Task {
    pub id: u128,
    pub title: String,
    pub description: Option<String>,
    pub tags: Vec<String>,
    pub status: TaskStatus,
    pub created_at: i64,
    pub updated_at: i64,
}

/// Relies on uuid's `Uuid::new_v4`: a fresh random identifier, taken as its
/// 128-bit value.
#[verifier::external_body]
pub(crate) fn fresh_uuid() -> (r: u128)
{
    uuid::Uuid::new_v4().as_u128()
}

/// Relies on chrono's `Utc::now`: the system clock's milliseconds since the
/// epoch.
#[verifier::external_body]
pub(crate) fn now_millis() -> (r: i64)
{
    chrono::Utc::now().timestamp_millis()
}

impl Task {
    /// A new task: fresh identifier, status `Todo`, creation and update
    /// timestamps both "now".
    pub fn new(title: String, description: Option<String>, tags: Vec<String>) -> (r: Task)
        ensures
            r.title == title,
            r.description == description,
            r.tags == tags,
            r.status == TaskStatus::Todo,
            r.created_at == r.updated_at,
    {
        let now = now_millis();
        Task {
            id: fresh_uuid(),
            title,
            description,
            tags,
            status: TaskStatus::Todo,
            created_at: now,
            updated_at: now,
        }
    }
}

} // verus!
