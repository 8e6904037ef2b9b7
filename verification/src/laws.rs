//! Laws of the core, stated and proved once over the mathematical model.

use vstd::prelude::*;
use crate::codec::{enc_store, lemma_round_trip, parse_store};
use crate::service::TodoService;
use crate::store::{StoreView, lemma_id_unique, task_idx};
use crate::task::TaskView;
use crate::text::valid_stored_text;

verus! {

/// The collection after one `add` of already-normalized text at the given
/// time, as the store's `add` ensures it.
pub open spec fn spec_add(v: StoreView, text: Seq<u8>, now: i64) -> StoreView
    recommends
        v.next_id < u64::MAX,
{
    StoreView {
        tasks: v.tasks.push(
            TaskView { id: v.next_id, text, completed: false, created_at: now, updated_at: now },
        ),
        next_id: (v.next_id + 1) as u64,
    }
}

/// The collection after a sequence of adds, applied in call order.
pub open spec fn apply_adds(v: StoreView, inputs: Seq<(Seq<u8>, i64)>) -> StoreView
    decreases inputs.len(),
{
    if inputs.len() == 0 {
        v
    } else {
        apply_adds(spec_add(v, inputs[0].0, inputs[0].1), inputs.drop_first())
    }
}

/// For every sequence of adds with storable text, the collection gains
/// exactly one entry per call: earlier tasks stay in place, the new tasks
/// appear at the end in call order with consecutive fresh ids, and the
/// collection stays well-formed — in particular all ids remain pairwise
/// distinct.
pub proof fn lemma_add_sequence(v: StoreView, inputs: Seq<(Seq<u8>, i64)>)
    requires
        v.wf(),
        forall|i: int| 0 <= i < inputs.len() ==> valid_stored_text((#[trigger] inputs[i]).0),
        v.next_id + inputs.len() <= u64::MAX,
    ensures
        apply_adds(v, inputs).wf(),
        apply_adds(v, inputs).tasks.len() == v.tasks.len() + inputs.len(),
        apply_adds(v, inputs).next_id == v.next_id + inputs.len(),
        forall|k: int| 0 <= k < v.tasks.len()
            ==> #[trigger] apply_adds(v, inputs).tasks[k] == v.tasks[k],
        forall|k: int| 0 <= k < inputs.len() ==> {
            &&& (#[trigger] apply_adds(v, inputs).tasks[v.tasks.len() + k]).id == v.next_id + k
            &&& apply_adds(v, inputs).tasks[v.tasks.len() + k].text == inputs[k].0
            &&& !apply_adds(v, inputs).tasks[v.tasks.len() + k].completed
        },
    decreases inputs.len(),
{
    if inputs.len() > 0 {
        let t0 = TaskView {
            id: v.next_id,
            text: inputs[0].0,
            completed: false,
            created_at: inputs[0].1,
            updated_at: inputs[0].1,
        };
        let v1 = spec_add(v, inputs[0].0, inputs[0].1);
        assert(v1.tasks == v.tasks.push(t0));
        assert(v1.wf()) by {
            assert forall|i: int, j: int| #![trigger v1.tasks[i], v1.tasks[j]]
                0 <= i < j < v1.tasks.len() implies v1.tasks[i].id < v1.tasks[j].id by {
                if j < v.tasks.len() {
                    assert(v.tasks[i].id < v.tasks[j].id);
                } else {
                    assert(v1.tasks[j] == t0);
                    assert(v1.tasks[i] == v.tasks[i]);
                    assert(v.tasks[i].id < v.next_id);
                }
            }
            assert forall|i: int| 0 <= i < v1.tasks.len() implies {
                &&& (#[trigger] v1.tasks[i]).id >= 1
                &&& v1.tasks[i].id < v1.next_id
                &&& valid_stored_text(v1.tasks[i].text)
            } by {
                if i < v.tasks.len() {
                    assert(v.tasks[i].id >= 1 && v.tasks[i].id < v.next_id
                        && valid_stored_text(v.tasks[i].text));
                } else {
                    assert(v1.tasks[i] == t0);
                    assert(valid_stored_text(inputs[0].0));
                }
            }
        }
        assert forall|i: int| 0 <= i < inputs.drop_first().len() implies valid_stored_text(
            (#[trigger] inputs.drop_first()[i]).0) by {
            assert(inputs.drop_first()[i] == inputs[i + 1]);
        }
        lemma_add_sequence(v1, inputs.drop_first());
        let out = apply_adds(v, inputs);
        assert(out == apply_adds(v1, inputs.drop_first()));
        assert forall|k: int| 0 <= k < v.tasks.len() implies #[trigger] out.tasks[k]
            == v.tasks[k] by {
            assert(out.tasks[k] == v1.tasks[k]);
        }
        assert forall|k: int| 0 <= k < inputs.len() implies {
            &&& (#[trigger] out.tasks[v.tasks.len() + k]).id == v.next_id + k
            &&& out.tasks[v.tasks.len() + k].text == inputs[k].0
            &&& !out.tasks[v.tasks.len() + k].completed
        } by {
            if k == 0 {
                assert(out.tasks[v.tasks.len() as int] == v1.tasks[v.tasks.len() as int]);
                assert(v1.tasks[v.tasks.len() as int] == t0);
            } else {
                assert(out.tasks[v1.tasks.len() + (k - 1)].id == v1.next_id + (k - 1));
                assert(out.tasks[v1.tasks.len() + (k - 1)].text
                    == inputs.drop_first()[k - 1].0);
                assert(inputs.drop_first()[k - 1] == inputs[k]);
            }
        }
    }
}

/// The collection after one `toggle` of a present id at the given time, as
/// the store's `toggle` ensures it.
pub open spec fn spec_toggle(v: StoreView, id: u64, now: i64) -> StoreView
    recommends
        v.contains_id(id),
{
    let i = task_idx(v.tasks, id);
    StoreView {
        tasks: v.tasks.update(
            i,
            TaskView { completed: !v.tasks[i].completed, updated_at: now, ..v.tasks[i] },
        ),
        next_id: v.next_id,
    }
}

/// Toggling the same task twice returns every task's completion flag — and
/// its id, text and creation time — to its original value.
pub proof fn lemma_toggle_twice(v: StoreView, id: u64, n1: i64, n2: i64)
    requires
        v.wf(),
        v.contains_id(id),
    ensures
        spec_toggle(spec_toggle(v, id, n1), id, n2).tasks.len() == v.tasks.len(),
        forall|k: int| 0 <= k < v.tasks.len() ==> {
            let w = (#[trigger] spec_toggle(spec_toggle(v, id, n1), id, n2).tasks[k]);
            &&& w.completed == v.tasks[k].completed
            &&& w.id == v.tasks[k].id
            &&& w.text == v.tasks[k].text
            &&& w.created_at == v.tasks[k].created_at
        },
{
    let i = task_idx(v.tasks, id);
    assert(0 <= i < v.tasks.len() && v.tasks[i].id == id) by {
        assert(v.contains_id(id));
    }
    let v1 = spec_toggle(v, id, n1);
    assert(v1.wf()) by {
        assert forall|p: int, q: int| #![trigger v1.tasks[p], v1.tasks[q]]
            0 <= p < q < v1.tasks.len() implies v1.tasks[p].id < v1.tasks[q].id by {
            assert(v1.tasks[p].id == v.tasks[p].id);
            assert(v1.tasks[q].id == v.tasks[q].id);
            assert(v.tasks[p].id < v.tasks[q].id);
        }
        assert forall|p: int| 0 <= p < v1.tasks.len() implies {
            &&& (#[trigger] v1.tasks[p]).id >= 1
            &&& v1.tasks[p].id < v1.next_id
            &&& valid_stored_text(v1.tasks[p].text)
        } by {
            assert(v1.tasks[p].id == v.tasks[p].id);
            assert(v1.tasks[p].text == v.tasks[p].text);
        }
    }
    assert(v1.contains_id(id)) by {
        assert(v1.tasks[i].id == id);
    }
    let i2 = task_idx(v1.tasks, id);
    assert(0 <= i2 < v1.tasks.len() && v1.tasks[i2].id == id) by {
        assert(v1.contains_id(id));
    }
    lemma_id_unique(v1, i, i2);
}

/// Deleting a present id removes exactly one record and leaves the id
/// absent, so a second delete of the same id finds nothing.
pub proof fn lemma_delete_then_absent(v: StoreView, id: u64)
    requires
        v.wf(),
        v.contains_id(id),
    ensures
        v.tasks.remove(task_idx(v.tasks, id)).len() == v.tasks.len() - 1,
        !(StoreView {
            tasks: v.tasks.remove(task_idx(v.tasks, id)),
            next_id: v.next_id,
        }).contains_id(id),
{
    let i = task_idx(v.tasks, id);
    assert(0 <= i < v.tasks.len() && v.tasks[i].id == id) by {
        assert(v.contains_id(id));
    }
    let r = v.tasks.remove(i);
    assert forall|k: int| 0 <= k < r.len() implies (#[trigger] r[k]).id != id by {
        if k < i {
            assert(r[k] == v.tasks[k]);
            if v.tasks[k].id == id {
                lemma_id_unique(v, k, i);
            }
        } else {
            assert(r[k] == v.tasks[k + 1]);
            if v.tasks[k + 1].id == id {
                lemma_id_unique(v, k + 1, i);
            }
        }
    }
}

/// Crash durability: a forced save hands out exactly the encoded snapshot of
/// the in-memory collection, and a fresh process decoding those bytes on
/// startup reconstructs a collection equal to the in-memory one at the
/// moment of the save.
pub proof fn lemma_crash_durability(s: TodoService, bytes: Seq<u8>)
    requires
        s.wf(),
        bytes == enc_store(s.store@),
    ensures
        parse_store(bytes) == Some(s.store@),
{
    lemma_round_trip(s.store@);
}

} // verus!
