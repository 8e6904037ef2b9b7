//! The in-memory task collection and its operations.
//!
//! The store owns an ordered sequence of tasks, insertion order significant,
//! and allocates ids from a monotonic counter, so ids are pairwise distinct,
//! strictly increasing in insertion order, and never reused.

use vstd::prelude::*;
use crate::errors::TodoError;
use crate::task::{Task, TaskView};
use crate::text::valid_stored_text;

verus! {

/// Which tasks a view of the collection shows. The filter is transient
/// display state: it is not part of the durable form of the collection.
#[derive(Clone, Copy, Debug, PartialEq, Eq, Structural)]
pub enum FilterType {
    All,
    Active,
    Completed,
}

impl FilterType {
    /// Whether a task passes this filter.
    pub open spec fn admits(self, t: TaskView) -> bool {
        match self {
            FilterType::All => true,
            FilterType::Active => !t.completed,
            FilterType::Completed => t.completed,
        }
    }

    /// The name shown for this filter.
    pub fn display_name(&self) -> (r: &'static str)
        ensures
            *self is All ==> r@ == "All"@,
            *self is Active ==> r@ == "Active"@,
            *self is Completed ==> r@ == "Completed"@,
    {
        match self {
            FilterType::All => "All",
            FilterType::Active => "Active",
            FilterType::Completed => "Completed",
        }
    }
}

/// The mathematical value of the store: the task sequence and the id counter.
/// The transient filter is deliberately left out; it is not durable state.
pub struct StoreView {
    pub tasks: Seq<TaskView>,
    pub next_id: u64,
}

/// The views of a sequence of tasks, in order.
pub open spec fn views_of(ts: Seq<Task>) -> Seq<TaskView> {
    Seq::new(ts.len(), |i: int| ts[i]@)
}

impl StoreView {
    /// The store's invariant: the counter starts at one, every task holds
    /// storable text and an id below the counter, and ids strictly increase
    /// in insertion order (hence are pairwise distinct).
    pub open spec fn wf(self) -> bool {
        &&& 1 <= self.next_id
        &&& forall|i: int| 0 <= i < self.tasks.len() ==> {
            &&& (#[trigger] self.tasks[i]).id >= 1
            &&& self.tasks[i].id < self.next_id
            &&& valid_stored_text(self.tasks[i].text)
        }
        &&& forall|i: int, j: int| #![trigger self.tasks[i], self.tasks[j]]
            0 <= i < j < self.tasks.len() ==> self.tasks[i].id < self.tasks[j].id
    }

    /// Whether some task in the collection has the given id.
    pub open spec fn contains_id(self, id: u64) -> bool {
        exists|i: int| 0 <= i < self.tasks.len() && (#[trigger] self.tasks[i]).id == id
    }

    /// The empty collection, as on first start.
    pub open spec fn empty() -> StoreView {
        StoreView { tasks: Seq::empty(), next_id: 1 }
    }
}

/// The index of the task with the given id; meaningful only when some task
/// has that id, in which case well-formedness makes it unique.
pub open spec fn task_idx(tasks: Seq<TaskView>, id: u64) -> int {
    choose|i: int| 0 <= i < tasks.len() && (#[trigger] tasks[i]).id == id
}

/// Filtering a well-formed collection keeps it well-formed: the kept tasks
/// stay in order, and each is a task of the original collection.
pub proof fn lemma_filter_keeps_wf(v: StoreView, pred: spec_fn(TaskView) -> bool)
    requires
        v.wf(),
    ensures
        (StoreView { tasks: v.tasks.filter(pred), next_id: v.next_id }).wf(),
        forall|k: int| 0 <= k < v.tasks.filter(pred).len() ==> exists|m: int|
            0 <= m < v.tasks.len() && #[trigger] v.tasks.filter(pred)[k] == v.tasks[m],
    decreases v.tasks.len(),
{
    reveal(Seq::filter);
    let s = v.tasks;
    let f = s.filter(pred);
    if s.len() > 0 {
        let prev = StoreView { tasks: s.drop_last(), next_id: v.next_id };
        assert(prev.wf());
        lemma_filter_keeps_wf(prev, pred);
        let fp = s.drop_last().filter(pred);
        let last = s.last();
        if pred(last) {
            assert(f == fp.push(last));
            assert forall|k: int| 0 <= k < f.len() implies exists|m: int|
                0 <= m < s.len() && #[trigger] f[k] == s[m] by {
                if k < fp.len() {
                    let m = choose|m: int|
                        0 <= m < s.drop_last().len() && fp[k] == s.drop_last()[m];
                    assert(f[k] == s[m]);
                } else {
                    assert(f[k] == s[s.len() - 1]);
                }
            }
            assert forall|i: int, j: int| 0 <= i < j < f.len()
                implies #[trigger] f[i].id < #[trigger] f[j].id by {
                if j < fp.len() {
                    let pv = StoreView { tasks: fp, next_id: v.next_id };
                    assert(pv.wf());
                    assert(pv.tasks[i].id < pv.tasks[j].id);
                } else {
                    assert(f[i] == fp[i]);
                    let m = choose|m: int|
                        0 <= m < s.drop_last().len() && fp[i] == s.drop_last()[m];
                    assert(f[i] == s[m]);
                    assert(s[m].id < s[s.len() - 1].id);
                }
            }
            assert forall|i: int| 0 <= i < f.len() implies {
                &&& (#[trigger] f[i]).id >= 1
                &&& f[i].id < v.next_id
                &&& valid_stored_text(f[i].text)
            } by {
                if i < fp.len() {
                    assert(fp[i].id >= 1 && fp[i].id < v.next_id
                        && valid_stored_text(fp[i].text));
                }
            }
        } else {
            assert(f == fp);
            assert forall|k: int| 0 <= k < f.len() implies exists|m: int|
                0 <= m < s.len() && #[trigger] f[k] == s[m] by {
                let m = choose|m: int|
                    0 <= m < s.drop_last().len() && fp[k] == s.drop_last()[m];
                assert(f[k] == s[m]);
            }
        }
    }
}

/// In a well-formed collection, ids determine indices.
pub proof fn lemma_id_unique(v: StoreView, i: int, j: int)
    requires
        v.wf(),
        0 <= i < v.tasks.len(),
        0 <= j < v.tasks.len(),
        v.tasks[i].id == v.tasks[j].id,
    ensures
        i == j,
{
    if i < j {
        assert(v.tasks[i].id < v.tasks[j].id);
    } else if j < i {
        assert(v.tasks[j].id < v.tasks[i].id);
    }
}

/// The in-memory task collection, owned exclusively by its holder. Mutating
/// operations keep the invariant `wf` and report exactly how the sequence of
/// tasks changed.
#[derive(Debug)]
pub struct TaskStore {
    pub tasks: Vec<Task>,
    pub next_id: u64,
    pub filter: FilterType,
}

impl View for TaskStore {
    type V = StoreView;

    open spec fn view(&self) -> StoreView {
        StoreView { tasks: views_of(self.tasks@), next_id: self.next_id }
    }
}

impl TaskStore {
    /// The store's invariant; see `StoreView::wf`.
    pub open spec fn wf(&self) -> bool {
        self@.wf()
    }

    /// Creates an empty store with the counter at one and the filter showing
    /// all tasks.
    pub fn new() -> (s: TaskStore)
        ensures
            s@ == StoreView::empty(),
            s.wf(),
            s.filter == FilterType::All,
    {
        let s = TaskStore { tasks: Vec::new(), next_id: 1, filter: FilterType::All };
        proof {
            assert(s@.tasks =~= Seq::<TaskView>::empty());
        }
        s
    }

    /// The index of the task with the given id, if any.
    fn find_index(&self, id: u64) -> (r: Option<usize>)
        ensures
            r is Some ==> r->0 < self.tasks@.len() && self@.tasks[r->0 as int].id == id,
            r is None ==> !self@.contains_id(id),
    {
        let n = self.tasks.len();
        let mut i: usize = 0;
        while i < n
            invariant
                0 <= i <= n,
                n == self.tasks@.len(),
                forall|k: int| 0 <= k < i ==> self@.tasks[k].id != id,
            decreases n - i,
        {
            if self.tasks[i].id == id {
                return Some(i);
            }
            i += 1;
        }
        None
    }

    /// Appends a fresh task with the given normalized text, allocating the
    /// next id and stamping both timestamps with `now`. Never fails on
    /// already-validated text.
    pub fn add(&mut self, text: Vec<u8>, now: i64) -> (t: Task)
        requires
            old(self).wf(),
            valid_stored_text(text@),
            old(self).next_id < u64::MAX,
        ensures
            final(self).wf(),
            t@ == (TaskView {
                id: old(self)@.next_id,
                text: text@,
                completed: false,
                created_at: now,
                updated_at: now,
            }),
            final(self)@.tasks == old(self)@.tasks.push(t@),
            final(self)@.next_id == old(self)@.next_id + 1,
            final(self).filter == old(self).filter,
    {
        let id = self.next_id;
        let t = Task::new(id, text, now);
        let copy = t.clone();
        self.tasks.push(copy);
        self.next_id = id + 1;
        proof {
            assert(self@.tasks =~= old(self)@.tasks.push(t@));
        }
        t
    }

    /// Flips the completion flag of the task with the given id, stamping its
    /// update time; fails with `NotFound`, changing nothing, exactly when no
    /// task has that id.
    pub fn toggle(&mut self, id: u64, now: i64) -> (r: Result<Task, TodoError>)
        requires
            old(self).wf(),
        ensures
            final(self).wf(),
            final(self)@.next_id == old(self)@.next_id,
            final(self).filter == old(self).filter,
            !old(self)@.contains_id(id) ==> {
                &&& r is Err && r->Err_0 == TodoError::NotFound
                &&& final(self)@ == old(self)@
            },
            old(self)@.contains_id(id) ==> {
                let i = task_idx(old(self)@.tasks, id);
                &&& r is Ok
                &&& r->Ok_0@ == (TaskView {
                    completed: !old(self)@.tasks[i].completed,
                    updated_at: now,
                    ..old(self)@.tasks[i]
                })
                &&& final(self)@.tasks == old(self)@.tasks.update(i, r->Ok_0@)
            },
    {
        match self.find_index(id) {
            None => Err(TodoError::NotFound),
            Some(i) => {
                proof {
                    lemma_id_unique(old(self)@, i as int, task_idx(old(self)@.tasks, id));
                }
                let slot = &mut self.tasks[i];
                slot.completed = !slot.completed;
                slot.updated_at = now;
                let out = self.tasks[i].clone();
                proof {
                    assert(self@.tasks =~= old(self)@.tasks.update(i as int, self@.tasks[i as int]));
                }
                Ok(out)
            },
        }
    }

    /// Replaces the text of the task with the given id, stamping its update
    /// time; fails with `NotFound`, changing nothing, exactly when no task
    /// has that id.
    pub fn edit(&mut self, id: u64, text: Vec<u8>, now: i64) -> (r: Result<Task, TodoError>)
        requires
            old(self).wf(),
            valid_stored_text(text@),
        ensures
            final(self).wf(),
            final(self)@.next_id == old(self)@.next_id,
            final(self).filter == old(self).filter,
            !old(self)@.contains_id(id) ==> {
                &&& r is Err && r->Err_0 == TodoError::NotFound
                &&& final(self)@ == old(self)@
            },
            old(self)@.contains_id(id) ==> {
                let i = task_idx(old(self)@.tasks, id);
                &&& r is Ok
                &&& r->Ok_0@ == (TaskView {
                    text: text@,
                    updated_at: now,
                    ..old(self)@.tasks[i]
                })
                &&& final(self)@.tasks == old(self)@.tasks.update(i, r->Ok_0@)
            },
    {
        match self.find_index(id) {
            None => Err(TodoError::NotFound),
            Some(i) => {
                proof {
                    lemma_id_unique(old(self)@, i as int, task_idx(old(self)@.tasks, id));
                }
                let slot = &mut self.tasks[i];
                slot.text = text;
                slot.updated_at = now;
                let out = self.tasks[i].clone();
                proof {
                    assert(self@.tasks =~= old(self)@.tasks.update(i as int, self@.tasks[i as int]));
                }
                Ok(out)
            },
        }
    }

    /// Removes the task with the given id; fails with `NotFound`, changing
    /// nothing, exactly when no task has that id. Removes exactly one record.
    pub fn delete(&mut self, id: u64) -> (r: Result<(), TodoError>)
        requires
            old(self).wf(),
        ensures
            final(self).wf(),
            final(self)@.next_id == old(self)@.next_id,
            final(self).filter == old(self).filter,
            !old(self)@.contains_id(id) ==> {
                &&& r is Err && r->Err_0 == TodoError::NotFound
                &&& final(self)@ == old(self)@
            },
            old(self)@.contains_id(id) ==> {
                &&& r is Ok
                &&& final(self)@.tasks
                    == old(self)@.tasks.remove(task_idx(old(self)@.tasks, id))
            },
    {
        match self.find_index(id) {
            None => Err(TodoError::NotFound),
            Some(i) => {
                proof {
                    lemma_id_unique(old(self)@, i as int, task_idx(old(self)@.tasks, id));
                }
                self.tasks.remove(i);
                proof {
                    assert(self@.tasks =~= old(self)@.tasks.remove(i as int));
                }
                Ok(())
            },
        }
    }

    /// Removes every completed task, keeping the others in order, and
    /// reports how many were removed; zero removals is not an error.
    #[verifier::loop_isolation(false)]
    pub fn clear_completed(&mut self) -> (n: usize)
        requires
            old(self).wf(),
        ensures
            final(self).wf(),
            final(self)@.next_id == old(self)@.next_id,
            final(self).filter == old(self).filter,
            final(self)@.tasks == old(self)@.tasks.filter(|t: TaskView| !t.completed),
            n == old(self)@.tasks.len() - final(self)@.tasks.len(),
    {
        let ghost pred = |t: TaskView| !t.completed;
        let m = self.tasks.len();
        let mut kept: Vec<Task> = Vec::new();
        let mut i: usize = 0;
        while i < m
            invariant
                0 <= i <= m,
                m == self.tasks@.len(),
                kept@.len() <= i,
                views_of(kept@) == self@.tasks.subrange(0, i as int).filter(pred),
            decreases m - i,
        {
            proof {
                assert(self@.tasks.subrange(0, i as int + 1)
                    =~= self@.tasks.subrange(0, i as int).push(self@.tasks[i as int]));
                self@.tasks.subrange(0, i as int).lemma_filter_push(self@.tasks[i as int], pred);
            }
            if !self.tasks[i].completed {
                let t = self.tasks[i].clone();
                kept.push(t);
                proof {
                    assert(views_of(kept@)
                        =~= self@.tasks.subrange(0, i as int).filter(pred).push(
                        self@.tasks[i as int]));
                }
            }
            i += 1;
        }
        proof {
            assert(self@.tasks.subrange(0, m as int) =~= self@.tasks);
            lemma_filter_keeps_wf(old(self)@, pred);
        }
        let n = m - kept.len();
        self.tasks = kept;
        n
    }

    /// The number of tasks in the collection.
    pub fn total_count(&self) -> (n: usize)
        ensures
            n == self@.tasks.len(),
    {
        self.tasks.len()
    }

    /// The number of tasks not yet completed.
    #[verifier::loop_isolation(false)]
    pub fn active_count(&self) -> (n: usize)
        ensures
            n == self@.tasks.filter(|t: TaskView| !t.completed).len(),
    {
        let ghost pred = |t: TaskView| !t.completed;
        let m = self.tasks.len();
        let mut n: usize = 0;
        let mut i: usize = 0;
        while i < m
            invariant
                0 <= i <= m,
                m == self.tasks@.len(),
                n <= i,
                n == self@.tasks.subrange(0, i as int).filter(pred).len(),
            decreases m - i,
        {
            proof {
                assert(self@.tasks.subrange(0, i as int + 1)
                    =~= self@.tasks.subrange(0, i as int).push(self@.tasks[i as int]));
                self@.tasks.subrange(0, i as int).lemma_filter_push(self@.tasks[i as int], pred);
            }
            if !self.tasks[i].completed {
                n += 1;
            }
            i += 1;
        }
        proof {
            assert(self@.tasks.subrange(0, m as int) =~= self@.tasks);
        }
        n
    }

    /// The number of completed tasks.
    #[verifier::loop_isolation(false)]
    pub fn completed_count(&self) -> (n: usize)
        ensures
            n == self@.tasks.filter(|t: TaskView| t.completed).len(),
    {
        let ghost pred = |t: TaskView| t.completed;
        let m = self.tasks.len();
        let mut n: usize = 0;
        let mut i: usize = 0;
        while i < m
            invariant
                0 <= i <= m,
                m == self.tasks@.len(),
                n <= i,
                n == self@.tasks.subrange(0, i as int).filter(pred).len(),
            decreases m - i,
        {
            proof {
                assert(self@.tasks.subrange(0, i as int + 1)
                    =~= self@.tasks.subrange(0, i as int).push(self@.tasks[i as int]));
                self@.tasks.subrange(0, i as int).lemma_filter_push(self@.tasks[i as int], pred);
            }
            if self.tasks[i].completed {
                n += 1;
            }
            i += 1;
        }
        proof {
            assert(self@.tasks.subrange(0, m as int) =~= self@.tasks);
        }
        n
    }

    /// Whether the collection holds any task.
    pub fn has_todos(&self) -> (b: bool)
        ensures
            b == (self@.tasks.len() > 0),
    {
        self.tasks.len() > 0
    }

    /// Whether the collection holds any completed task.
    pub fn has_completed(&self) -> (b: bool)
        ensures
            b == exists|i: int|
                0 <= i < self@.tasks.len() && (#[trigger] self@.tasks[i]).completed,
    {
        let m = self.tasks.len();
        let mut i: usize = 0;
        while i < m
            invariant
                0 <= i <= m,
                m == self.tasks@.len(),
                forall|k: int| 0 <= k < i ==> !(#[trigger] self@.tasks[k]).completed,
            decreases m - i,
        {
            if self.tasks[i].completed {
                proof {
                    assert(0 <= i < self@.tasks.len() && self@.tasks[i as int].completed);
                }
                return true;
            }
            i += 1;
        }
        false
    }

    /// The task with the given id, if any.
    pub fn get_todo(&self, id: u64) -> (r: Option<&Task>)
        requires
            self.wf(),
        ensures
            r is Some <==> self@.contains_id(id),
            r is Some ==> r->0@ == self@.tasks[task_idx(self@.tasks, id)],
    {
        match self.find_index(id) {
            None => None,
            Some(i) => {
                proof {
                    lemma_id_unique(self@, i as int, task_idx(self@.tasks, id));
                }
                Some(&self.tasks[i])
            },
        }
    }

    /// Changes the transient filter; the collection itself is untouched.
    pub fn set_filter(&mut self, filter: FilterType)
        ensures
            final(self)@ == old(self)@,
            final(self).filter == filter,
    {
        self.filter = filter;
    }

    /// A snapshot copy of the collection in insertion order; never fails.
    pub fn list(&self) -> (r: Vec<Task>)
        ensures
            views_of(r@) == self@.tasks,
    {
        let m = self.tasks.len();
        let mut r: Vec<Task> = Vec::new();
        let mut i: usize = 0;
        while i < m
            invariant
                0 <= i <= m,
                m == self.tasks@.len(),
                views_of(r@) == self@.tasks.subrange(0, i as int),
            decreases m - i,
        {
            let t = self.tasks[i].clone();
            r.push(t);
            proof {
                assert(views_of(r@)
                    =~= self@.tasks.subrange(0, i as int).push(self@.tasks[i as int]));
                assert(self@.tasks.subrange(0, i as int).push(self@.tasks[i as int])
                    =~= self@.tasks.subrange(0, i as int + 1));
            }
            i += 1;
        }
        proof {
            assert(self@.tasks.subrange(0, m as int) =~= self@.tasks);
        }
        r
    }

    /// A snapshot copy of the tasks the current filter admits, in order.
    #[verifier::loop_isolation(false)]
    pub fn filtered_items(&self) -> (r: Vec<Task>)
        ensures
            views_of(r@) == self@.tasks.filter(|t: TaskView| self.filter.admits(t)),
    {
        let ghost pred = |t: TaskView| self.filter.admits(t);
        let m = self.tasks.len();
        let mut r: Vec<Task> = Vec::new();
        let mut i: usize = 0;
        while i < m
            invariant
                0 <= i <= m,
                m == self.tasks@.len(),
                views_of(r@) == self@.tasks.subrange(0, i as int).filter(pred),
            decreases m - i,
        {
            proof {
                assert(self@.tasks.subrange(0, i as int + 1)
                    =~= self@.tasks.subrange(0, i as int).push(self@.tasks[i as int]));
                self@.tasks.subrange(0, i as int).lemma_filter_push(self@.tasks[i as int], pred);
            }
            let admit_it = match self.filter {
                FilterType::All => true,
                FilterType::Active => !self.tasks[i].completed,
                FilterType::Completed => self.tasks[i].completed,
            };
            if admit_it {
                let t = self.tasks[i].clone();
                r.push(t);
                proof {
                    assert(views_of(r@)
                        =~= self@.tasks.subrange(0, i as int).filter(pred).push(self@.tasks[i as int]));
                }
            }
            i += 1;
        }
        proof {
            assert(self@.tasks.subrange(0, m as int) =~= self@.tasks);
        }
        r
    }
}

} // verus!
