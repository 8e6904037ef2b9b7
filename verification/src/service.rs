//! The command surface: a task store and its persistence scheduler under one
//! handle.
//!
//! Every mutating command validates its input, applies the change to the
//! in-memory collection, and asks the scheduler whether the host must write
//! the snapshot durably at once; the returned effect carries the encoded
//! snapshot when it must. The host performs the write and reports its
//! outcome back, so the library never touches storage itself. Commands
//! ending in `_at` take the current time explicitly; the plain commands read
//! the wall clock and are otherwise the same.

use vstd::prelude::*;
use vstd::string::StringSliceAdditionalSpecFns;
use crate::codec::{decode, enc_store, encode, parse_store};
use crate::errors::TodoError;
use crate::sched::{FlushDecision, PersistenceState, SAVE_DEBOUNCE_MS};
use crate::store::{FilterType, StoreView, TaskStore, task_idx};
use crate::task::{Task, TaskView};
use crate::text::{normalize, normalize_and_validate, validate_spec};

verus! {

/// Relies on chrono's `Utc::now` (and `DateTime::timestamp_millis`) for the
/// current wall-clock time in milliseconds since the epoch. Nothing is
/// assumed of the value: every caller is verified for every possible time.
/// Assumed of the environment: `Utc::now` itself panics when the system
/// clock reads before the Unix epoch or beyond chrono's representable range,
/// so the library's no-panic guarantee is conditional on a clock at or after
/// the epoch and within that range.
#[verifier::external_body]
fn now_millis() -> i64 {
    chrono::Utc::now().timestamp_millis()
}

/// What the host must do after a command: nothing, or write the given
/// encoded snapshot durably and report the outcome.
pub enum SaveEffect {
    NoWrite,
    Write(Vec<u8>),
}

/// The in-memory collection together with its persistence bookkeeping, to be
/// held by the host under one exclusive-access lock.
pub struct TodoService {
    pub store: TaskStore,
    pub sched: PersistenceState,
}

/// What a mutating command's effect must be: the snapshot is written at once
/// exactly when the debounce interval had elapsed, and what is written is
/// the encoded state after the mutation.
pub open spec fn effect_post(
    pre: PersistenceState,
    post_store: StoreView,
    post_sched: PersistenceState,
    now: i64,
    e: SaveEffect,
) -> bool {
    &&& post_sched == pre.noted()
    &&& (pre.due(now) ==> e is Write && e->Write_0@ == enc_store(post_store))
    &&& (!pre.due(now) ==> e is NoWrite)
}

/// What `add_task` does, given the raw text's bytes and the time of the
/// call: invalid text is rejected with the exact reason and nothing changes;
/// valid text is normalized and appended as a fresh, uncompleted task under
/// the next id, both timestamps stamped with the call time.
pub open spec fn add_post(
    pre: TodoService,
    post: TodoService,
    text: Seq<u8>,
    now: i64,
    r: (Result<Task, TodoError>, SaveEffect),
) -> bool {
    &&& validate_spec(text) is Err ==> {
        &&& r.0 is Err
        &&& r.0->Err_0 == TodoError::InvalidInput(validate_spec(text)->Err_0)
        &&& post.store@ == pre.store@
        &&& post.sched == pre.sched
        &&& r.1 is NoWrite
    }
    &&& validate_spec(text) is Ok ==> {
        let t = TaskView {
            id: pre.store@.next_id,
            text: normalize(text),
            completed: false,
            created_at: now,
            updated_at: now,
        };
        &&& r.0 is Ok
        &&& r.0->Ok_0@ == t
        &&& post.store@.tasks == pre.store@.tasks.push(t)
        &&& post.store@.next_id == pre.store@.next_id + 1
        &&& effect_post(pre.sched, post.store@, post.sched, now, r.1)
    }
}

/// What `toggle_task` does: an unknown id fails with `NotFound` and changes
/// nothing; otherwise the task's completion flag flips, its update time is
/// stamped, and everything else stays.
pub open spec fn toggle_post(
    pre: TodoService,
    post: TodoService,
    id: u64,
    now: i64,
    r: (Result<Task, TodoError>, SaveEffect),
) -> bool {
    &&& !pre.store@.contains_id(id) ==> {
        &&& r.0 is Err && r.0->Err_0 == TodoError::NotFound
        &&& post.store@ == pre.store@
        &&& post.sched == pre.sched
        &&& r.1 is NoWrite
    }
    &&& pre.store@.contains_id(id) ==> {
        let i = task_idx(pre.store@.tasks, id);
        &&& r.0 is Ok
        &&& r.0->Ok_0@ == (TaskView {
            completed: !pre.store@.tasks[i].completed,
            updated_at: now,
            ..pre.store@.tasks[i]
        })
        &&& post.store@.tasks == pre.store@.tasks.update(i, r.0->Ok_0@)
        &&& post.store@.next_id == pre.store@.next_id
        &&& effect_post(pre.sched, post.store@, post.sched, now, r.1)
    }
}

/// What `edit_task` does: invalid text is rejected with the exact reason and
/// an unknown id with `NotFound` (text is checked first), both changing
/// nothing; otherwise the task's text is replaced by the normalized text and
/// its update time is stamped.
pub open spec fn edit_post(
    pre: TodoService,
    post: TodoService,
    id: u64,
    text: Seq<u8>,
    now: i64,
    r: (Result<Task, TodoError>, SaveEffect),
) -> bool {
    &&& validate_spec(text) is Err ==> {
        &&& r.0 is Err
        &&& r.0->Err_0 == TodoError::InvalidInput(validate_spec(text)->Err_0)
        &&& post.store@ == pre.store@
        &&& post.sched == pre.sched
        &&& r.1 is NoWrite
    }
    &&& validate_spec(text) is Ok && !pre.store@.contains_id(id) ==> {
        &&& r.0 is Err && r.0->Err_0 == TodoError::NotFound
        &&& post.store@ == pre.store@
        &&& post.sched == pre.sched
        &&& r.1 is NoWrite
    }
    &&& validate_spec(text) is Ok && pre.store@.contains_id(id) ==> {
        let i = task_idx(pre.store@.tasks, id);
        &&& r.0 is Ok
        &&& r.0->Ok_0@ == (TaskView {
            text: normalize(text),
            updated_at: now,
            ..pre.store@.tasks[i]
        })
        &&& post.store@.tasks == pre.store@.tasks.update(i, r.0->Ok_0@)
        &&& post.store@.next_id == pre.store@.next_id
        &&& effect_post(pre.sched, post.store@, post.sched, now, r.1)
    }
}

/// What `delete_task` does: an unknown id fails with `NotFound` and changes
/// nothing; otherwise exactly the one task with that id is removed.
pub open spec fn delete_post(
    pre: TodoService,
    post: TodoService,
    id: u64,
    now: i64,
    r: (Result<(), TodoError>, SaveEffect),
) -> bool {
    &&& !pre.store@.contains_id(id) ==> {
        &&& r.0 is Err && r.0->Err_0 == TodoError::NotFound
        &&& post.store@ == pre.store@
        &&& post.sched == pre.sched
        &&& r.1 is NoWrite
    }
    &&& pre.store@.contains_id(id) ==> {
        &&& r.0 is Ok
        &&& post.store@.tasks == pre.store@.tasks.remove(task_idx(pre.store@.tasks, id))
        &&& post.store@.next_id == pre.store@.next_id
        &&& effect_post(pre.sched, post.store@, post.sched, now, r.1)
    }
}

/// What `clear_completed` does: every completed task is removed, the others
/// stay in order, and the count of removed tasks is returned; zero removals
/// is not an error, and the scheduler is notified either way.
pub open spec fn clear_post(
    pre: TodoService,
    post: TodoService,
    now: i64,
    r: (usize, SaveEffect),
) -> bool {
    &&& post.store@.tasks == pre.store@.tasks.filter(|t: TaskView| !t.completed)
    &&& post.store@.next_id == pre.store@.next_id
    &&& r.0 == pre.store@.tasks.len() - post.store@.tasks.len()
    &&& effect_post(pre.sched, post.store@, post.sched, now, r.1)
}

impl TodoService {
    /// The service's invariant: the collection is well-formed.
    pub open spec fn wf(&self) -> bool {
        self.store.wf()
    }

    /// A fresh service: empty collection, nothing flushed, nothing pending,
    /// the default debounce interval.
    pub fn new() -> (s: TodoService)
        ensures
            s.wf(),
            s.store@ == StoreView::empty(),
            s.sched == (PersistenceState {
                last_flush: None::<i64>,
                pending: false,
                debounce_ms: SAVE_DEBOUNCE_MS,
            }),
    {
        TodoService { store: TaskStore::new(), sched: PersistenceState::new(SAVE_DEBOUNCE_MS) }
    }

    /// Starts a service from the durable file's bytes. An unparseable file
    /// is recoverable: the service starts from an empty collection, and the
    /// flag reports whether decoding succeeded, so the host can log it.
    pub fn startup(saved: &[u8]) -> (r: (TodoService, bool))
        ensures
            r.0.wf(),
            r.0.sched == (PersistenceState {
                last_flush: None::<i64>,
                pending: false,
                debounce_ms: SAVE_DEBOUNCE_MS,
            }),
            parse_store(saved@) is Some ==> r.1 && r.0.store@ == parse_store(saved@)->0,
            parse_store(saved@) is None ==> !r.1 && r.0.store@ == StoreView::empty(),
    {
        match decode(saved) {
            Ok(store) => {
                (TodoService { store, sched: PersistenceState::new(SAVE_DEBOUNCE_MS) }, true)
            },
            Err(_) => (TodoService::new(), false),
        }
    }

    /// A snapshot copy of the collection in insertion order; never fails.
    pub fn list_tasks(&self) -> (r: Vec<Task>)
        ensures
            crate::store::views_of(r@) == self.store@.tasks,
    {
        self.store.list()
    }

    /// Adds a task from raw text at the given time; see `add_post`.
    pub fn add_task_at(&mut self, text: &str, now: i64) -> (r: (
        Result<Task, TodoError>,
        SaveEffect,
    ))
        requires
            old(self).wf(),
            old(self).store.next_id < u64::MAX,
        ensures
            final(self).wf(),
            add_post(*old(self), *final(self), text.spec_bytes(), now, r),
    {
        match normalize_and_validate(text) {
            Err(e) => (Err(TodoError::InvalidInput(e)), SaveEffect::NoWrite),
            Ok(norm) => {
                let t = self.store.add(norm, now);
                let d = self.sched.note_mutation(now);
                let eff = match d {
                    FlushDecision::WriteNow => SaveEffect::Write(encode(&self.store)),
                    FlushDecision::Deferred => SaveEffect::NoWrite,
                };
                (Ok(t), eff)
            },
        }
    }

    /// Adds a task from raw text, stamped with the wall clock; the relation
    /// of `add_task_at` holds for whatever time the clock returned.
    pub fn add_task(&mut self, text: &str) -> (r: (Result<Task, TodoError>, SaveEffect))
        requires
            old(self).wf(),
            old(self).store.next_id < u64::MAX,
        ensures
            final(self).wf(),
            exists|now: i64| add_post(*old(self), *final(self), text.spec_bytes(), now, r),
    {
        let now = now_millis();
        let r = self.add_task_at(text, now);
        proof {
            assert(add_post(*old(self), *final(self), text.spec_bytes(), now, r));
        }
        r
    }

    /// Toggles a task's completion at the given time; see `toggle_post`.
    pub fn toggle_task_at(&mut self, id: u64, now: i64) -> (r: (
        Result<Task, TodoError>,
        SaveEffect,
    ))
        requires
            old(self).wf(),
        ensures
            final(self).wf(),
            toggle_post(*old(self), *final(self), id, now, r),
    {
        match self.store.toggle(id, now) {
            Err(e) => (Err(e), SaveEffect::NoWrite),
            Ok(t) => {
                let d = self.sched.note_mutation(now);
                let eff = match d {
                    FlushDecision::WriteNow => SaveEffect::Write(encode(&self.store)),
                    FlushDecision::Deferred => SaveEffect::NoWrite,
                };
                (Ok(t), eff)
            },
        }
    }

    /// Toggles a task's completion, stamped with the wall clock.
    pub fn toggle_task(&mut self, id: u64) -> (r: (Result<Task, TodoError>, SaveEffect))
        requires
            old(self).wf(),
        ensures
            final(self).wf(),
            exists|now: i64| toggle_post(*old(self), *final(self), id, now, r),
    {
        let now = now_millis();
        let r = self.toggle_task_at(id, now);
        proof {
            assert(toggle_post(*old(self), *final(self), id, now, r));
        }
        r
    }

    /// Replaces a task's text at the given time; see `edit_post`.
    pub fn edit_task_at(&mut self, id: u64, text: &str, now: i64) -> (r: (
        Result<Task, TodoError>,
        SaveEffect,
    ))
        requires
            old(self).wf(),
        ensures
            final(self).wf(),
            edit_post(*old(self), *final(self), id, text.spec_bytes(), now, r),
    {
        match normalize_and_validate(text) {
            Err(e) => (Err(TodoError::InvalidInput(e)), SaveEffect::NoWrite),
            Ok(norm) => {
                match self.store.edit(id, norm, now) {
                    Err(e) => (Err(e), SaveEffect::NoWrite),
                    Ok(t) => {
                        let d = self.sched.note_mutation(now);
                        let eff = match d {
                            FlushDecision::WriteNow => SaveEffect::Write(encode(&self.store)),
                            FlushDecision::Deferred => SaveEffect::NoWrite,
                        };
                        (Ok(t), eff)
                    },
                }
            },
        }
    }

    /// Replaces a task's text, stamped with the wall clock.
    pub fn edit_task(&mut self, id: u64, text: &str) -> (r: (Result<Task, TodoError>, SaveEffect))
        requires
            old(self).wf(),
        ensures
            final(self).wf(),
            exists|now: i64| edit_post(*old(self), *final(self), id, text.spec_bytes(), now, r),
    {
        let now = now_millis();
        let r = self.edit_task_at(id, text, now);
        proof {
            assert(edit_post(*old(self), *final(self), id, text.spec_bytes(), now, r));
        }
        r
    }

    /// Deletes a task at the given time; see `delete_post`.
    pub fn delete_task_at(&mut self, id: u64, now: i64) -> (r: (Result<(), TodoError>, SaveEffect))
        requires
            old(self).wf(),
        ensures
            final(self).wf(),
            delete_post(*old(self), *final(self), id, now, r),
    {
        match self.store.delete(id) {
            Err(e) => (Err(e), SaveEffect::NoWrite),
            Ok(()) => {
                let d = self.sched.note_mutation(now);
                let eff = match d {
                    FlushDecision::WriteNow => SaveEffect::Write(encode(&self.store)),
                    FlushDecision::Deferred => SaveEffect::NoWrite,
                };
                (Ok(()), eff)
            },
        }
    }

    /// Deletes a task, the notification stamped with the wall clock.
    pub fn delete_task(&mut self, id: u64) -> (r: (Result<(), TodoError>, SaveEffect))
        requires
            old(self).wf(),
        ensures
            final(self).wf(),
            exists|now: i64| delete_post(*old(self), *final(self), id, now, r),
    {
        let now = now_millis();
        let r = self.delete_task_at(id, now);
        proof {
            assert(delete_post(*old(self), *final(self), id, now, r));
        }
        r
    }

    /// Removes every completed task at the given time; see `clear_post`.
    pub fn clear_completed_at(&mut self, now: i64) -> (r: (usize, SaveEffect))
        requires
            old(self).wf(),
        ensures
            final(self).wf(),
            clear_post(*old(self), *final(self), now, r),
    {
        let n = self.store.clear_completed();
        let d = self.sched.note_mutation(now);
        let eff = match d {
            FlushDecision::WriteNow => SaveEffect::Write(encode(&self.store)),
            FlushDecision::Deferred => SaveEffect::NoWrite,
        };
        (n, eff)
    }

    /// Removes every completed task, the notification stamped with the wall
    /// clock.
    pub fn clear_completed(&mut self) -> (r: (usize, SaveEffect))
        requires
            old(self).wf(),
        ensures
            final(self).wf(),
            exists|now: i64| clear_post(*old(self), *final(self), now, r),
    {
        let now = now_millis();
        let r = self.clear_completed_at(now);
        proof {
            assert(clear_post(*old(self), *final(self), now, r));
        }
        r
    }

    /// The encoded snapshot for a forced flush: unconditional, regardless of
    /// elapsed time. The host must write it and report the outcome.
    pub fn force_save(&self) -> (bytes: Vec<u8>)
        ensures
            bytes@ == enc_store(self.store@),
    {
        encode(&self.store)
    }

    /// Records a successful durable write finished at the given time.
    pub fn save_succeeded_at(&mut self, now: i64)
        ensures
            final(self).store == old(self).store,
            final(self).sched == (PersistenceState {
                last_flush: Some(now),
                pending: false,
                debounce_ms: old(self).sched.debounce_ms,
            }),
    {
        self.sched.flush_succeeded(now);
    }

    /// Records a successful durable write finished now.
    pub fn save_succeeded(&mut self)
        ensures
            final(self).store == old(self).store,
            exists|now: i64| final(self).sched == (PersistenceState {
                last_flush: Some(now),
                pending: false,
                debounce_ms: old(self).sched.debounce_ms,
            }),
    {
        let now = now_millis();
        self.save_succeeded_at(now);
    }

    /// Records a failed durable write: the change stays pending and the
    /// in-memory state is untouched; durability is not yet guaranteed.
    pub fn save_failed(&mut self)
        ensures
            final(self).store == old(self).store,
            final(self).sched == (PersistenceState { pending: true, ..old(self).sched }),
    {
        self.sched.flush_failed();
    }

    /// Whether an unflushed change is pending.
    pub fn is_pending(&self) -> (b: bool)
        ensures
            b == self.sched.pending,
    {
        self.sched.is_pending()
    }
}

} // verus!
