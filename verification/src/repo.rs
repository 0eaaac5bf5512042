//! The record repository: a typed collection stored as one serialized
//! document under a fixed logical key inside a secure store.
//!
//! Every mutation reads the full collection, changes the in-memory copy, and
//! writes the full collection back as one `put` — never a partial update.
//! The cycle is not serializable across concurrent repository instances:
//! each mutation takes the repository exclusively (`&mut self`), which makes
//! writers within one process single-flight, but two repositories over the
//! same underlying files still race with last-writer-wins. Callers that need
//! concurrent writers must add their own lock.

use vstd::prelude::*;

use vstd::pervasive::VecAdditionalExecFns;

use crate::store::{SecureStore, SecureStoreError};
use crate::taskdoc::{decode_tasks, encode_tasks, spec_encode_tasks, views_of, TaskView};
use crate::tasks::{now_millis, string_views, Task, TaskStatus};

verus! {

/// The fixed logical key under which the whole collection is stored.
pub open spec fn tasks_key() -> Seq<char> {
    "tasks"@
}

/// The fixed logical key, for calls.
fn tasks_key_exec() -> (r: &'static str)
    ensures
        r@ == tasks_key(),
{
    "tasks"
}

/// How repository operations fail.
#[derive(Debug)]
pub enum RepoError {
    /// No record with the requested identifier.
    NotFound,
    /// Underlying storage, serialization, or decryption failure.
    Storage { reason: String },
}

/// The store holds collection `tvs`: the document under the fixed key is its
/// encoding, or the key is absent and the collection is empty.
pub open spec fn repo_holds(m: Map<Seq<char>, Seq<u8>>, tvs: Seq<TaskView>) -> bool {
    if m.contains_key(tasks_key()) {
        m[tasks_key()] == spec_encode_tasks(tvs)
    } else {
        tvs == Seq::<TaskView>::empty()
    }
}

/// `t` is `prior` with its status replaced and its update timestamp bumped.
pub open spec fn with_status(prior: TaskView, status: TaskStatus, updated_at: i64) -> TaskView {
    TaskView { status, updated_at, ..prior }
}

impl Clone for Task {
    fn clone(&self) -> (r: Self)
        ensures
            r@ == self@,
    {
        let r = Task {
            id: self.id,
            title: self.title.clone(),
            description: match &self.description {
                Some(d) => Some(d.clone()),
                None => None,
            },
            tags: self.tags.clone(),
            status: self.status,
            created_at: self.created_at,
            updated_at: self.updated_at,
        };
        proof {
            assert(r.tags@ =~= self.tags@);
            assert(r@.tags =~= self@.tags);
        }
        r
    }
}

/// Task repository backed by a `SecureStore` (encrypted at rest).
pub struct SecureStoreTaskRepo<S: SecureStore> {
    store: S,
}

impl<S: SecureStore> SecureStoreTaskRepo<S> {
    /// The logical map of the underlying store.
    pub closed spec fn contents(&self) -> Map<Seq<char>, Seq<u8>> {
        self.store.contents()
    }

    pub fn new(store: S) -> (r: Self)
        ensures
            r.contents() == store.contents(),
    {
        SecureStoreTaskRepo { store }
    }

    /// Read the whole collection; an absent document is the empty
    /// collection (first use), not an error.
    fn load(&self) -> (r: Result<Vec<Task>, RepoError>)
        ensures
            r matches Ok(ts) ==> repo_holds(self.contents(), views_of(ts@)),
            !self.contents().contains_key(tasks_key())
                ==> (r matches Ok(ts) && ts@.len() == 0),
            r matches Err(e) ==> e matches RepoError::Storage { .. },
    {
        match self.store.get(tasks_key_exec()) {
            Ok(bytes) => match decode_tasks(bytes.as_slice()) {
                Some(ts) => Ok(ts),
                None => Err(RepoError::Storage {
                    reason: "stored task document is corrupt".to_owned(),
                }),
            },
            Err(e) => match e {
                SecureStoreError::NotFound { key: _ } => {
                    let empty: Vec<Task> = Vec::new();
                    proof {
                        assert(views_of(empty@) =~= Seq::<TaskView>::empty());
                    }
                    Ok(empty)
                },
                SecureStoreError::Storage { reason } => Err(RepoError::Storage { reason }),
            },
        }
    }

    /// Write the whole collection back as one document.
    fn save(&mut self, tasks: &Vec<Task>) -> (r: Result<(), RepoError>)
        ensures
            r is Ok ==> final(self).contents() == old(self).contents().insert(
                tasks_key(),
                spec_encode_tasks(views_of(tasks@)),
            ),
            r is Err ==> final(self).contents() == old(self).contents(),
            r matches Err(e) ==> e matches RepoError::Storage { .. },
    {
        let bytes = encode_tasks(tasks);
        match self.store.put(tasks_key_exec(), bytes.as_slice()) {
            Ok(()) => Ok(()),
            Err(e) => match e {
                SecureStoreError::Storage { reason } => Err(RepoError::Storage { reason }),
                SecureStoreError::NotFound { key: _ } => Err(RepoError::Storage {
                    reason: "store refused the write".to_owned(),
                }),
            },
        }
    }

    /// List the collection: exactly what the stored document holds, and the
    /// empty collection when nothing was ever written.
    pub fn list(&self) -> (r: Result<Vec<Task>, RepoError>)
        ensures
            r matches Ok(ts) ==> repo_holds(self.contents(), views_of(ts@)),
            !self.contents().contains_key(tasks_key())
                ==> (r matches Ok(ts) && ts@.len() == 0),
            r matches Err(e) ==> e matches RepoError::Storage { .. },
    {
        self.load()
    }

    /// Append a new record with a fresh identifier, status `Todo` and equal
    /// creation/update timestamps, writing the whole collection back.
    pub fn create(&mut self, title: String, description: Option<String>, tags: Vec<String>) -> (r: Result<Task, RepoError>)
        ensures
            r matches Ok(t) ==> t.status == TaskStatus::Todo
                && t.created_at == t.updated_at
                && t.title@ == title@
                && t@.description == (match description {
                    Some(d) => Some(d@),
                    None => None::<Seq<char>>,
                })
                && t@.tags == string_views(tags@)
                && (exists|prior: Seq<TaskView>|
                    #[trigger] repo_holds(old(self).contents(), prior)
                    && final(self).contents() == old(self).contents().insert(
                        tasks_key(),
                        spec_encode_tasks(prior.push(t@)),
                    )),
            r is Err ==> final(self).contents() == old(self).contents(),
            r matches Err(e) ==> e matches RepoError::Storage { .. },
    {
        let mut tasks = match self.load() {
            Ok(ts) => ts,
            Err(e) => {
                return Err(e);
            },
        };
        let ghost prior = views_of(tasks@);
        let task = Task::new(title, description, tags);
        let result = task.clone();
        tasks.push(task);
        proof {
            assert(views_of(tasks@) =~= prior.push(result@));
        }
        match self.save(&tasks) {
            Ok(()) => Ok(result),
            Err(e) => Err(e),
        }
    }

    /// Update the status of the record with the given identifier — the
    /// first such record, as stored — bump its update timestamp strictly
    /// past the old one (unless that is already the largest timestamp), and
    /// write the whole collection back. Fails with `NotFound` when no record
    /// has the identifier.
    pub fn set_status(&mut self, id: u128, status: TaskStatus) -> (r: Result<Task, RepoError>)
        ensures
            r matches Ok(t) ==> t.id == id && t.status == status
                && (exists|prior: Seq<TaskView>, i: int|
                    #![trigger repo_holds(old(self).contents(), prior), prior.update(i, t@)]
                    repo_holds(old(self).contents(), prior)
                    && 0 <= i < prior.len()
                    && prior[i].id == id
                    && (forall|j: int| 0 <= j < i ==> prior[j].id != id)
                    && t@ == with_status(prior[i], status, t.updated_at)
                    && t.updated_at >= prior[i].updated_at
                    && (prior[i].updated_at < i64::MAX ==> t.updated_at > prior[i].updated_at)
                    && final(self).contents() == old(self).contents().insert(
                        tasks_key(),
                        spec_encode_tasks(prior.update(i, t@)),
                    )),
            r is Err ==> final(self).contents() == old(self).contents(),
            r matches Err(e) ==> (e matches RepoError::NotFound ==> exists|prior: Seq<TaskView>|
                #[trigger] repo_holds(old(self).contents(), prior)
                && (forall|j: int| 0 <= j < prior.len() ==> prior[j].id != id)),
    {
        let mut tasks = match self.load() {
            Ok(ts) => ts,
            Err(e) => {
                return Err(e);
            },
        };
        let ghost prior = views_of(tasks@);
        let i = match find_task(&tasks, id) {
            Some(i) => i,
            None => {
                proof {
                    assert(repo_holds(old(self).contents(), prior));
                    assert forall|j: int| 0 <= j < prior.len() implies prior[j].id != id by {
                        assert(prior[j] == tasks@[j]@);
                    }
                }
                return Err(RepoError::NotFound);
            },
        };
        let now = now_millis();
        let old_updated = tasks[i].updated_at;
        let new_updated: i64 = if now > old_updated {
            now
        } else if old_updated < i64::MAX {
            old_updated + 1
        } else {
            old_updated
        };
        let mut updated = tasks[i].clone();
        updated.status = status;
        updated.updated_at = new_updated;
        let result = updated.clone();
        tasks.set(i, updated);
        proof {
            assert(views_of(tasks@) =~= prior.update(i as int, result@));
        }
        match self.save(&tasks) {
            Ok(()) => Ok(result),
            Err(e) => Err(e),
        }
    }
}

/// The index of the first task with the given identifier.
fn find_task(tasks: &Vec<Task>, id: u128) -> (r: Option<usize>)
    ensures
        r matches Some(i) ==> i < tasks@.len() && tasks@[i as int].id == id
            && (forall|j: int| 0 <= j < i ==> tasks@[j].id != id),
        r is None ==> forall|j: int| 0 <= j < tasks@.len() ==> tasks@[j].id != id,
{
    let mut i: usize = 0;
    while i < tasks.len()
        invariant
            i <= tasks@.len(),
            forall|j: int| 0 <= j < i ==> tasks@[j].id != id,
        decreases tasks@.len() - i,
    {
        if tasks[i].id == id {
            return Some(i);
        }
        i = i + 1;
    }
    None
}

} // verus!
