//! The task record: one to-do item.

use vstd::prelude::*;
use crate::text::valid_stored_text;

verus! {

/// One to-do item. `text` holds the normalized UTF-8 bytes of the task's
/// display text; `created_at` and `updated_at` are milliseconds since the
/// epoch. Ids are allocated by the store from a monotonic counter and are
/// never reused or mutated.
#[derive(Debug)]
pub struct Task {
    pub id: u64,
    pub text: Vec<u8>,
    pub completed: bool,
    pub created_at: i64,
    pub updated_at: i64,
}

/// The mathematical value of a `Task`.
pub struct TaskView {
    pub id: u64,
    pub text: Seq<u8>,
    pub completed: bool,
    pub created_at: i64,
    pub updated_at: i64,
}

impl View for Task {
    type V = TaskView;

    open spec fn view(&self) -> TaskView {
        TaskView {
            id: self.id,
            text: self.text@,
            completed: self.completed,
            created_at: self.created_at,
            updated_at: self.updated_at,
        }
    }
}

impl TaskView {
    /// A well-formed task has text fit for storage.
    pub open spec fn wf(self) -> bool {
        valid_stored_text(self.text)
    }
}

/// Copies a byte vector; the copy holds the same bytes.
pub fn clone_bytes(v: &Vec<u8>) -> (r: Vec<u8>)
    ensures
        r@ == v@,
{
    let mut r: Vec<u8> = Vec::new();
    let n = v.len();
    let mut i: usize = 0;
    while i < n
        invariant
            0 <= i <= n,
            n == v@.len(),
            r@ == v@.subrange(0, i as int),
        decreases n - i,
    {
        r.push(v[i]);
        proof {
            assert(v@.subrange(0, i as int + 1)
                =~= v@.subrange(0, i as int) + seq![v@[i as int]]);
        }
        i += 1;
    }
    proof {
        assert(v@.subrange(0, n as int) =~= v@);
    }
    r
}

impl Task {
    /// Creates a fresh, uncompleted task with the given id and normalized
    /// text, stamped with the given creation time.
    pub fn new(id: u64, text: Vec<u8>, now: i64) -> (t: Task)
        ensures
            t@ == (TaskView {
                id,
                text: text@,
                completed: false,
                created_at: now,
                updated_at: now,
            }),
    {
        Task { id, text, completed: false, created_at: now, updated_at: now }
    }

    /// Flips the completion flag, stamping the update time.
    pub fn toggle(&mut self, now: i64)
        ensures
            final(self)@ == (TaskView {
                completed: !old(self)@.completed,
                updated_at: now,
                ..old(self)@
            }),
    {
        self.completed = !self.completed;
        self.updated_at = now;
    }
}

impl Clone for Task {
    /// The copy has the same value as the original.
    fn clone(&self) -> (t: Task)
        ensures
            t@ == self@,
    {
        Task {
            id: self.id,
            text: clone_bytes(&self.text),
            completed: self.completed,
            created_at: self.created_at,
            updated_at: self.updated_at,
        }
    }
}

} // verus!
