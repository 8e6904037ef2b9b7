use todo_core::errors::{TodoError, ValidationError};
use todo_core::service::{SaveEffect, TodoService};
use todo_core::store::{FilterType, TaskStore};
use todo_core::task::Task;

const T0: i64 = 1_700_000_000_000;

fn add_ok(s: &mut TodoService, text: &str, now: i64) -> Task {
    let (r, _eff) = s.add_task_at(text, now);
    r.expect("add should succeed on valid text")
}

#[test]
fn test_new_todo_item() {
    let todo = Task::new(1, "Test Todo".as_bytes().to_vec(), T0);

    assert_eq!(todo.id, 1);
    assert_eq!(todo.text, "Test Todo".as_bytes().to_vec());
    assert!(!todo.completed);
    assert!(todo.created_at > 0);
}

#[test]
fn test_toggle_todo_item() {
    let mut todo = Task::new(1, "Test".as_bytes().to_vec(), T0);

    assert!(!todo.completed);
    todo.toggle(T0 + 1);
    assert!(todo.completed);
    todo.toggle(T0 + 2);
    assert!(!todo.completed);
}

#[test]
fn test_new_todo_list() {
    let list = TaskStore::new();
    assert_eq!(list.tasks.len(), 0);
    assert_eq!(list.next_id, 1);
    assert_eq!(list.filter, FilterType::All);
}

#[test]
fn test_add_todo() {
    let mut s = TodoService::new();
    let task = add_ok(&mut s, "Test todo", T0);

    assert_eq!(task.id, 1);
    assert_eq!(s.store.tasks.len(), 1);
    assert_eq!(s.store.tasks[0].text, "Test todo".as_bytes().to_vec());
    assert!(!s.store.tasks[0].completed);
}

#[test]
fn test_add_empty_todo() {
    let mut s = TodoService::new();
    let (r, eff) = s.add_task_at("", T0);

    assert_eq!(
        r.unwrap_err(),
        TodoError::InvalidInput(ValidationError::EmptyInput)
    );
    assert!(matches!(eff, SaveEffect::NoWrite));
    assert_eq!(s.store.tasks.len(), 0);
}

#[test]
fn test_remove_todo() {
    let mut s = TodoService::new();
    let task = add_ok(&mut s, "Test", T0);

    let (r, _) = s.delete_task_at(task.id, T0 + 1);
    assert!(r.is_ok());
    assert_eq!(s.store.tasks.len(), 0);
}

#[test]
fn test_remove_nonexistent_todo() {
    let mut s = TodoService::new();
    let (r, _) = s.delete_task_at(999, T0);
    assert_eq!(r.unwrap_err(), TodoError::NotFound);
}

#[test]
fn test_toggle_todo() {
    let mut s = TodoService::new();
    let task = add_ok(&mut s, "Test", T0);

    assert!(!s.store.tasks[0].completed);
    let (r, _) = s.toggle_task_at(task.id, T0 + 1);
    assert!(r.is_ok());
    assert!(s.store.tasks[0].completed);
    let (r, _) = s.toggle_task_at(task.id, T0 + 2);
    assert!(r.is_ok());
    assert!(!s.store.tasks[0].completed);
}

#[test]
fn test_update_todo() {
    let mut s = TodoService::new();
    let task = add_ok(&mut s, "Original", T0);

    let (r, _) = s.edit_task_at(task.id, "Updated", T0 + 1);
    assert!(r.is_ok());
    assert_eq!(s.store.tasks[0].text, "Updated".as_bytes().to_vec());
}

#[test]
fn test_clear_completed() {
    let mut s = TodoService::new();
    let id1 = add_ok(&mut s, "Todo 1", T0).id;
    let id2 = add_ok(&mut s, "Todo 2", T0 + 1).id;
    let id3 = add_ok(&mut s, "Todo 3", T0 + 2).id;

    s.toggle_task_at(id1, T0 + 3).0.unwrap();
    s.toggle_task_at(id3, T0 + 4).0.unwrap();

    let (removed, _) = s.clear_completed_at(T0 + 5);
    assert_eq!(removed, 2);
    assert_eq!(s.store.tasks.len(), 1);
    assert_eq!(s.store.tasks[0].id, id2);
}

#[test]
fn test_filtered_items() {
    let mut s = TodoService::new();
    let id1 = add_ok(&mut s, "Todo 1", T0).id;
    let _id2 = add_ok(&mut s, "Todo 2", T0 + 1).id;
    let id3 = add_ok(&mut s, "Todo 3", T0 + 2).id;

    s.toggle_task_at(id1, T0 + 3).0.unwrap();
    s.toggle_task_at(id3, T0 + 4).0.unwrap();

    s.store.set_filter(FilterType::All);
    assert_eq!(s.store.filtered_items().len(), 3);

    s.store.set_filter(FilterType::Active);
    assert_eq!(s.store.filtered_items().len(), 1);

    s.store.set_filter(FilterType::Completed);
    assert_eq!(s.store.filtered_items().len(), 2);
}

#[test]
fn test_counters() {
    let mut s = TodoService::new();
    let id1 = add_ok(&mut s, "Todo 1", T0).id;
    let _id2 = add_ok(&mut s, "Todo 2", T0 + 1).id;
    let id3 = add_ok(&mut s, "Todo 3", T0 + 2).id;

    s.toggle_task_at(id1, T0 + 3).0.unwrap();
    s.toggle_task_at(id3, T0 + 4).0.unwrap();

    assert_eq!(s.store.total_count(), 3);
    assert_eq!(s.store.active_count(), 1);
    assert_eq!(s.store.completed_count(), 2);
}

#[test]
fn test_has_todos_and_has_completed() {
    let mut s = TodoService::new();

    assert!(!s.store.has_todos());
    assert!(!s.store.has_completed());

    let task = add_ok(&mut s, "Test", T0);
    assert!(s.store.has_todos());
    assert!(!s.store.has_completed());

    s.toggle_task_at(task.id, T0 + 1).0.unwrap();
    assert!(s.store.has_completed());
}

#[test]
fn test_filter_type_display_name() {
    assert_eq!(FilterType::All.display_name(), "All");
    assert_eq!(FilterType::Active.display_name(), "Active");
    assert_eq!(FilterType::Completed.display_name(), "Completed");
}

#[test]
fn add_sequence_keeps_call_order_and_unique_ids() {
    let mut s = TodoService::new();
    let texts = ["alpha", "beta", "gamma", "delta"];
    let mut ids = Vec::new();
    for (k, text) in texts.iter().enumerate() {
        ids.push(add_ok(&mut s, text, T0 + k as i64).id);
    }

    let listed = s.list_tasks();
    assert_eq!(listed.len(), texts.len());
    for (k, text) in texts.iter().enumerate() {
        assert_eq!(listed[k].text, text.as_bytes().to_vec());
        assert_eq!(listed[k].id, ids[k]);
    }
    for a in 0..ids.len() {
        for b in 0..ids.len() {
            if a != b {
                assert_ne!(ids[a], ids[b]);
            }
        }
    }
}

#[test]
fn toggle_unknown_id_mutates_nothing() {
    let mut s = TodoService::new();
    add_ok(&mut s, "keep me", T0);

    let (r, eff) = s.toggle_task_at(42, T0 + 1);
    assert_eq!(r.unwrap_err(), TodoError::NotFound);
    assert!(matches!(eff, SaveEffect::NoWrite));
    assert_eq!(s.store.tasks.len(), 1);
    assert!(!s.store.tasks[0].completed);
}

#[test]
fn delete_twice_fails_second_time() {
    let mut s = TodoService::new();
    let a = add_ok(&mut s, "one", T0).id;
    let b = add_ok(&mut s, "two", T0 + 1).id;

    let (r, _) = s.delete_task_at(a, T0 + 2);
    assert!(r.is_ok());
    assert_eq!(s.store.tasks.len(), 1);
    assert_eq!(s.store.tasks[0].id, b);

    let (r, _) = s.delete_task_at(a, T0 + 3);
    assert_eq!(r.unwrap_err(), TodoError::NotFound);
    assert_eq!(s.store.tasks.len(), 1);
}

#[test]
fn get_todo_finds_by_id() {
    let mut s = TodoService::new();
    let a = add_ok(&mut s, "first", T0).id;
    let b = add_ok(&mut s, "second", T0 + 1).id;

    assert_eq!(s.store.get_todo(a).unwrap().text, "first".as_bytes().to_vec());
    assert_eq!(s.store.get_todo(b).unwrap().text, "second".as_bytes().to_vec());
    assert!(s.store.get_todo(999).is_none());
}
