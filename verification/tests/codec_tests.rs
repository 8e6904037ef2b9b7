use todo_core::codec::{decode, encode};
use todo_core::errors::TodoError;
use todo_core::service::TodoService;
use todo_core::store::{FilterType, TaskStore};
use todo_core::task::Task;

const T0: i64 = 1_700_000_000_000;

fn add_ok(s: &mut TodoService, text: &str, now: i64) -> Task {
    let (r, _eff) = s.add_task_at(text, now);
    r.expect("add should succeed on valid text")
}

fn assert_stores_equal(a: &TaskStore, b: &TaskStore) {
    assert_eq!(a.next_id, b.next_id);
    assert_eq!(a.tasks.len(), b.tasks.len());
    for k in 0..a.tasks.len() {
        assert_eq!(a.tasks[k].id, b.tasks[k].id);
        assert_eq!(a.tasks[k].text, b.tasks[k].text);
        assert_eq!(a.tasks[k].completed, b.tasks[k].completed);
        assert_eq!(a.tasks[k].created_at, b.tasks[k].created_at);
        assert_eq!(a.tasks[k].updated_at, b.tasks[k].updated_at);
    }
}

#[test]
fn test_todo_serialization() {
    let mut s = TodoService::new();
    let todo = add_ok(&mut s, "Test", T0);

    let bytes = encode(&s.store);
    let text = String::from_utf8(bytes.clone()).expect("document is valid text");
    assert!(text.contains("Test"));

    let decoded = decode(&bytes).expect("canonical document decodes");
    assert_eq!(decoded.tasks.len(), 1);
    assert_eq!(decoded.tasks[0].id, todo.id);
    assert_eq!(decoded.tasks[0].text, todo.text);
    assert_eq!(decoded.tasks[0].completed, todo.completed);
}

#[test]
fn encode_exact_document() {
    let store = TaskStore {
        tasks: vec![Task {
            id: 1,
            text: "Hi".as_bytes().to_vec(),
            completed: false,
            created_at: 5,
            updated_at: -7,
        }],
        next_id: 3,
        filter: FilterType::All,
    };
    let bytes = encode(&store);
    assert_eq!(bytes, b"3\n1|0|5|-7|Hi\n".to_vec());
}

#[test]
fn round_trip_preserves_collection() {
    let mut s = TodoService::new();
    add_ok(&mut s, "alpha", T0);
    let b = add_ok(&mut s, "beta with | bar", T0 + 1).id;
    add_ok(&mut s, "gamma", T0 + 2);
    s.toggle_task_at(b, T0 + 3).0.unwrap();
    s.delete_task_at(1, T0 + 4).0.unwrap();

    let bytes = encode(&s.store);
    let decoded = decode(&bytes).expect("canonical document decodes");
    assert_stores_equal(&decoded, &s.store);
}

#[test]
fn round_trip_negative_timestamps() {
    let store = TaskStore {
        tasks: vec![
            Task {
                id: 2,
                text: "before the epoch".as_bytes().to_vec(),
                completed: true,
                created_at: -123_456_789,
                updated_at: i64::MIN,
            },
            Task {
                id: 7,
                text: "after it".as_bytes().to_vec(),
                completed: false,
                created_at: i64::MAX,
                updated_at: 0,
            },
        ],
        next_id: 8,
        filter: FilterType::All,
    };
    let bytes = encode(&store);
    let decoded = decode(&bytes).expect("canonical document decodes");
    assert_stores_equal(&decoded, &store);
}

#[test]
fn decode_empty_input_yields_empty_collection() {
    let decoded = decode(&[]).expect("no prior save is not a failure");
    assert_eq!(decoded.tasks.len(), 0);
    assert_eq!(decoded.next_id, 1);
    assert_eq!(decoded.filter, FilterType::All);
}

#[test]
fn decode_rejects_malformed_documents() {
    let cases: Vec<Vec<u8>> = vec![
        b"not a number\n".to_vec(),
        b"3".to_vec(),
        b"03\n".to_vec(),
        b"0\n".to_vec(),
        b"3\n1|0|5\n".to_vec(),
        b"3\n1|2|5|6|x\n".to_vec(),
        b"3\n4|0|5|6|x\n".to_vec(),
        b"3\n1|0|5|6|\n".to_vec(),
        b"3\n2|0|5|6|x\n1|0|5|6|y\n".to_vec(),
        b"3\n1|0|-0|6|x\n".to_vec(),
        b"99999999999999999999999999\n".to_vec(),
    ];
    for bytes in cases {
        assert_eq!(decode(&bytes).unwrap_err(), TodoError::DecodeFailure);
    }
}

#[test]
fn decode_resets_transient_filter() {
    let mut s = TodoService::new();
    add_ok(&mut s, "thing", T0);
    s.store.set_filter(FilterType::Completed);

    let bytes = encode(&s.store);
    let decoded = decode(&bytes).expect("canonical document decodes");
    assert_eq!(decoded.filter, FilterType::All);
}
