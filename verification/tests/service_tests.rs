use todo_core::codec::decode;
use todo_core::errors::{TodoError, ValidationError};
use todo_core::sched::{FlushDecision, PersistenceState, SAVE_DEBOUNCE_MS};
use todo_core::service::{SaveEffect, TodoService};
use todo_core::task::Task;
use todo_core::text::{
    normalize_and_validate, sanitize_todo_text, validate_todo_text, MAX_TODO_TEXT_LENGTH,
};

const T0: i64 = 1_700_000_000_000;

fn add_ok(s: &mut TodoService, text: &str, now: i64) -> Task {
    let (r, _eff) = s.add_task_at(text, now);
    r.expect("add should succeed on valid text")
}

fn written(eff: &SaveEffect) -> Option<&Vec<u8>> {
    match eff {
        SaveEffect::NoWrite => None,
        SaveEffect::Write(bytes) => Some(bytes),
    }
}

#[test]
fn validate_rejects_empty_and_whitespace_and_null() {
    assert_eq!(
        validate_todo_text("").unwrap_err(),
        ValidationError::EmptyInput
    );
    assert_eq!(
        validate_todo_text("   ").unwrap_err(),
        ValidationError::EmptyInput
    );
    assert_eq!(
        validate_todo_text("bad\0text").unwrap_err(),
        ValidationError::InvalidCharacters
    );
    assert!(validate_todo_text("fine").is_ok());
}

#[test]
fn validate_checks_raw_length_before_trimming() {
    let long = "x".repeat(MAX_TODO_TEXT_LENGTH + 1);
    assert_eq!(validate_todo_text(&long).unwrap_err(), ValidationError::TooLong);

    let exact = "x".repeat(MAX_TODO_TEXT_LENGTH);
    assert!(validate_todo_text(&exact).is_ok());

    // padding cannot smuggle long text past the limit: the raw length counts
    let padded = format!("  {}  ", "x".repeat(MAX_TODO_TEXT_LENGTH - 1));
    assert_eq!(validate_todo_text(&padded).unwrap_err(), ValidationError::TooLong);
}

#[test]
fn add_rejects_invalid_input_unchanged() {
    let mut s = TodoService::new();
    for bad in ["", "   ", "has\0null"] {
        let before = s.store.tasks.len();
        let (r, eff) = s.add_task_at(bad, T0);
        assert!(matches!(r.unwrap_err(), TodoError::InvalidInput(_)));
        assert!(written(&eff).is_none());
        assert_eq!(s.store.tasks.len(), before);
    }
}

#[test]
fn add_length_boundary() {
    let mut s = TodoService::new();
    let too_long = "y".repeat(MAX_TODO_TEXT_LENGTH + 1);
    let (r, _) = s.add_task_at(&too_long, T0);
    assert_eq!(
        r.unwrap_err(),
        TodoError::InvalidInput(ValidationError::TooLong)
    );
    assert_eq!(s.store.tasks.len(), 0);

    let max_len = "y".repeat(MAX_TODO_TEXT_LENGTH);
    let task = add_ok(&mut s, &max_len, T0);
    assert_eq!(task.text.len(), MAX_TODO_TEXT_LENGTH);
    assert_eq!(s.store.tasks.len(), 1);
}

#[test]
fn sanitize_trims_and_collapses_line_breaks() {
    assert_eq!(sanitize_todo_text("  hello  "), b"hello".to_vec());
    assert_eq!(sanitize_todo_text("a\nb"), b"a b".to_vec());
    assert_eq!(sanitize_todo_text("a \r\n b"), b"a b".to_vec());
    assert_eq!(sanitize_todo_text("  a\n\nb "), b"a  b".to_vec());
    assert_eq!(sanitize_todo_text("a \t b"), b"a \t b".to_vec());
    assert_eq!(sanitize_todo_text("\n\t \r"), b"".to_vec());
}

#[test]
fn normalize_and_validate_agrees_with_parts() {
    assert_eq!(
        normalize_and_validate(" multi\nline  paste ").unwrap(),
        b"multi line  paste".to_vec()
    );
    assert_eq!(
        normalize_and_validate("\t\n").unwrap_err(),
        ValidationError::EmptyInput
    );
}

#[test]
fn added_task_stores_normalized_text() {
    let mut s = TodoService::new();
    let task = add_ok(&mut s, "  shop\nfor milk  ", T0);
    assert_eq!(task.text, b"shop for milk".to_vec());
    assert_eq!(s.store.tasks[0].text, b"shop for milk".to_vec());
}

#[test]
fn first_mutation_writes_then_debounce_defers() {
    let mut s = TodoService::new();

    // never flushed: the first mutation is written through at once
    let (r, eff) = s.add_task_at("first", T0);
    r.unwrap();
    assert!(written(&eff).is_some());
    s.save_succeeded_at(T0);

    // within the debounce interval: deferred, merely pending
    let (r, eff) = s.add_task_at("second", T0 + 200);
    r.unwrap();
    assert!(written(&eff).is_none());
    assert!(s.is_pending());

    // after the interval has elapsed: written through again
    let (r, eff) = s.add_task_at("third", T0 + 200 + SAVE_DEBOUNCE_MS as i64);
    r.unwrap();
    assert!(written(&eff).is_some());
}

#[test]
fn debounce_coalesces_two_mutations_into_one_forced_write() {
    let mut s = TodoService::new();
    let (r, eff) = s.add_task_at("setup", T0);
    r.unwrap();
    assert!(written(&eff).is_some());
    s.save_succeeded_at(T0);

    // two mutations within the debounce interval: no immediate write
    let mut writes: usize = 0;
    let (r, eff) = s.add_task_at("burst one", T0 + 100);
    r.unwrap();
    if written(&eff).is_some() {
        writes += 1;
    }
    let (r, eff) = s.add_task_at("burst two", T0 + 300);
    r.unwrap();
    if written(&eff).is_some() {
        writes += 1;
    }
    assert_eq!(writes, 0);
    assert!(s.is_pending());

    // a forced save right after writes once, with the state after the
    // second mutation
    let bytes = s.force_save();
    s.save_succeeded_at(T0 + 301);
    let decoded = decode(&bytes).unwrap();
    assert_eq!(decoded.tasks.len(), 3);
    assert_eq!(decoded.tasks[2].text, b"burst two".to_vec());
    assert!(!s.is_pending());
}

#[test]
fn failed_write_keeps_change_pending() {
    let mut s = TodoService::new();
    let (r, eff) = s.add_task_at("will not stick", T0);
    r.unwrap();
    assert!(written(&eff).is_some());
    s.save_failed();
    assert!(s.is_pending());
    assert_eq!(s.store.tasks.len(), 1);

    let bytes = s.force_save();
    s.save_succeeded_at(T0 + 1);
    assert!(!s.is_pending());
    assert_eq!(decode(&bytes).unwrap().tasks.len(), 1);
}

#[test]
fn crash_durability_after_force_save() {
    let mut s = TodoService::new();
    add_ok(&mut s, "alpha", T0);
    let b = add_ok(&mut s, "beta", T0 + 1).id;
    add_ok(&mut s, "gamma", T0 + 2);
    s.toggle_task_at(b, T0 + 3).0.unwrap();
    s.edit_task_at(b, "beta, edited", T0 + 4).0.unwrap();
    s.delete_task_at(1, T0 + 5).0.unwrap();

    let bytes = s.force_save();
    let (fresh, decoded_ok) = TodoService::startup(&bytes);
    assert!(decoded_ok);

    let before = s.list_tasks();
    let after = fresh.list_tasks();
    assert_eq!(before.len(), after.len());
    for k in 0..before.len() {
        assert_eq!(before[k].id, after[k].id);
        assert_eq!(before[k].text, after[k].text);
        assert_eq!(before[k].completed, after[k].completed);
        assert_eq!(before[k].created_at, after[k].created_at);
        assert_eq!(before[k].updated_at, after[k].updated_at);
    }
    // ids keep counting from where the saved collection left off
    assert_eq!(fresh.store.next_id, s.store.next_id);
}

#[test]
fn startup_from_unparseable_file_starts_empty() {
    let (s, decoded_ok) = TodoService::startup(b"{ not the expected format }");
    assert!(!decoded_ok);
    assert_eq!(s.store.tasks.len(), 0);
    assert_eq!(s.store.next_id, 1);
}

#[test]
fn scheduler_decisions_follow_elapsed_time() {
    let mut p = PersistenceState::new(SAVE_DEBOUNCE_MS);
    assert!(!p.is_pending());

    // never flushed: due at once
    assert_eq!(p.note_mutation(T0), FlushDecision::WriteNow);
    assert!(p.is_pending());
    p.flush_succeeded(T0);
    assert!(!p.is_pending());

    assert_eq!(p.note_mutation(T0 + 999), FlushDecision::Deferred);
    assert_eq!(p.note_mutation(T0 + 1000), FlushDecision::WriteNow);

    p.flush_failed();
    assert!(p.is_pending());
}

#[test]
fn edit_rejects_invalid_text_and_unknown_id() {
    let mut s = TodoService::new();
    let task = add_ok(&mut s, "stable", T0);

    let (r, eff) = s.edit_task_at(task.id, "   ", T0 + 1);
    assert_eq!(
        r.unwrap_err(),
        TodoError::InvalidInput(ValidationError::EmptyInput)
    );
    assert!(written(&eff).is_none());
    assert_eq!(s.store.tasks[0].text, b"stable".to_vec());

    let (r, eff) = s.edit_task_at(999, "fine text", T0 + 2);
    assert_eq!(r.unwrap_err(), TodoError::NotFound);
    assert!(written(&eff).is_none());
    assert_eq!(s.store.tasks[0].text, b"stable".to_vec());
}

#[test]
fn mutations_stamp_updated_at_and_keep_created_at() {
    let mut s = TodoService::new();
    let task = add_ok(&mut s, "timed", T0);
    assert_eq!(task.created_at, T0);
    assert_eq!(task.updated_at, T0);

    let toggled = s.toggle_task_at(task.id, T0 + 50).0.unwrap();
    assert_eq!(toggled.created_at, T0);
    assert_eq!(toggled.updated_at, T0 + 50);

    let edited = s.edit_task_at(task.id, "timed again", T0 + 80).0.unwrap();
    assert_eq!(edited.created_at, T0);
    assert_eq!(edited.updated_at, T0 + 80);
}

#[test]
fn clear_completed_with_none_completed_removes_nothing() {
    let mut s = TodoService::new();
    add_ok(&mut s, "active one", T0);
    add_ok(&mut s, "active two", T0 + 1);

    let (removed, _) = s.clear_completed_at(T0 + 2);
    assert_eq!(removed, 0);
    assert_eq!(s.store.tasks.len(), 2);
}

#[test]
fn sanitize_trims_form_feed() {
    assert_eq!(sanitize_todo_text("\x0Ca\x0C"), b"a".to_vec());
}

#[test]
fn validate_rejects_unicode_whitespace_only_input() {
    // vertical tab, no-break space, em space, ideographic space: all trim
    // to nothing, as under str::trim
    for ws in ["\u{000B}", "\u{00A0}\u{00A0}", "\u{2003}", "\u{3000}", " \u{0085}\t"] {
        assert_eq!(
            validate_todo_text(ws).unwrap_err(),
            ValidationError::EmptyInput,
            "input {:?}",
            ws
        );
        let mut s = TodoService::new();
        let (r, _) = s.add_task_at(ws, T0);
        assert_eq!(
            r.unwrap_err(),
            TodoError::InvalidInput(ValidationError::EmptyInput),
            "input {:?}",
            ws
        );
        assert_eq!(s.store.tasks.len(), 0);
    }
}

#[test]
fn sanitize_trims_unicode_whitespace_at_the_edges() {
    assert_eq!(sanitize_todo_text("\u{00A0}a\u{00A0}"), b"a".to_vec());
    assert_eq!(sanitize_todo_text("\u{3000}x\u{2028}"), b"x".to_vec());
    assert_eq!(sanitize_todo_text("\u{000B}y\u{000B}"), b"y".to_vec());
    assert_eq!(sanitize_todo_text("\u{1680}\u{205F}z"), b"z".to_vec());
}

#[test]
fn sanitize_keeps_internal_unicode_whitespace_without_breaks() {
    // str::lines splits only on line feeds, so internal whitespace that
    // holds no line break stays as it is
    assert_eq!(
        sanitize_todo_text("a\u{00A0}b"),
        "a\u{00A0}b".as_bytes().to_vec()
    );
    assert_eq!(
        sanitize_todo_text("a\u{2028}b"),
        "a\u{2028}b".as_bytes().to_vec()
    );
}

#[test]
fn sanitize_collapses_breaks_inside_unicode_whitespace_runs() {
    // the run around the line feed is trimmed away with it, one space left
    assert_eq!(
        sanitize_todo_text("a\u{00A0}\n\u{00A0}b"),
        b"a b".to_vec()
    );
}

#[test]
fn empty_collection_round_trips_through_save() {
    let s = TodoService::new();
    let bytes = s.force_save();
    assert_eq!(bytes, b"1\n".to_vec());
    let (fresh, decoded_ok) = TodoService::startup(&bytes);
    assert!(decoded_ok);
    assert_eq!(fresh.store.tasks.len(), 0);
    assert_eq!(fresh.store.next_id, 1);
}

#[test]
fn error_messages_name_each_failure() {
    assert_eq!(
        TodoError::InvalidInput(ValidationError::TooLong).message(),
        "task text exceeds the maximum length"
    );
    assert_eq!(
        TodoError::InvalidInput(ValidationError::EmptyInput).message(),
        "task text cannot be empty"
    );
    assert_eq!(
        TodoError::InvalidInput(ValidationError::InvalidCharacters).message(),
        "task text contains invalid characters"
    );
    assert_eq!(TodoError::NotFound.message(), "no task has the given id");
    assert_eq!(TodoError::IOFailure.message(), "durable storage operation failed");
    assert_eq!(
        TodoError::DecodeFailure.message(),
        "durable file is present but unparseable"
    );
    assert_eq!(TodoError::LockFailure.message(), "state lock is unusable");
}
