use agsh::todo::{
    apply_todo_input, format_todo_state, TodoInput, TodoItem, TodoItemInput, TodoState,
    TodoStatus,
};

fn text_items(texts: &[&str]) -> Option<Vec<TodoItemInput>> {
    Some(texts.iter().map(|t| TodoItemInput::Text(t.to_string())).collect())
}

fn input(
    title: Option<&str>,
    items: Option<Vec<TodoItemInput>>,
    set: Option<Vec<(&str, TodoStatus)>>,
) -> TodoInput {
    TodoInput {
        title: title.map(|t| t.to_string()),
        items,
        set: set.map(|s| s.into_iter().map(|(k, v)| (k.to_string(), v)).collect()),
    }
}

fn full(text: &str, status: Option<&str>) -> TodoItemInput {
    TodoItemInput::Full {
        text: text.to_string(),
        status: status.map(|s| TodoStatus::from_name(s).expect("known status")),
    }
}

#[test]
fn test_format_heading_and_markers() {
    let state = TodoState {
        title: Some("My tasks".to_string()),
        items: vec![
            TodoItem {
                text: "Pending one".to_string(),
                status: TodoStatus::Pending,
            },
            TodoItem {
                text: "Working".to_string(),
                status: TodoStatus::InProgress,
            },
            TodoItem {
                text: "Finished".to_string(),
                status: TodoStatus::Completed,
            },
            TodoItem {
                text: "Dropped".to_string(),
                status: TodoStatus::Cancelled,
            },
        ],
    };
    let output = format_todo_state(&state);
    assert!(output.starts_with("TODO: My tasks\n\n"));
    assert!(!output.contains("done"));
    assert!(output.contains("- [ ] 1 Pending one"));
    assert!(output.contains("- [~] 2 Working"));
    assert!(output.contains("- [x] 3 Finished"));
    assert!(output.contains("- [-] 4 (cancelled) Dropped"));
}

#[test]
fn test_format_soft_invariant_multiple_in_progress() {
    let state = TodoState {
        items: vec![
            TodoItem {
                text: "A".to_string(),
                status: TodoStatus::InProgress,
            },
            TodoItem {
                text: "B".to_string(),
                status: TodoStatus::InProgress,
            },
        ],
        ..Default::default()
    };
    let output = format_todo_state(&state);
    assert!(output.contains("(!) tasks #1, #2 are all in_progress"));
}

#[test]
fn test_format_soft_invariant_none_in_progress() {
    let state = TodoState {
        items: vec![TodoItem {
            text: "A".to_string(),
            status: TodoStatus::Pending,
        }],
        ..Default::default()
    };
    assert!(format_todo_state(&state).contains("(!) no task in_progress"));
}

#[test]
fn test_format_empty() {
    assert!(format_todo_state(&TodoState::default()).contains("(no tasks)"));
}

#[test]
fn format_exact_text() {
    let state = TodoState {
        title: None,
        items: vec![
            TodoItem { text: "A".to_string(), status: TodoStatus::Completed },
            TodoItem { text: "B".to_string(), status: TodoStatus::InProgress },
            TodoItem { text: "C".to_string(), status: TodoStatus::Pending },
        ],
    };
    assert_eq!(
        format_todo_state(&state),
        "TODO: Tasks\n\n- [x] 1 A\n- [~] 2 B\n- [ ] 3 C\n"
    );
    assert_eq!(format_todo_state(&TodoState::default()), "(no tasks)\n");
}

#[test]
fn format_lists_every_task_in_progress() {
    let mut items = Vec::new();
    for i in 0..12 {
        let status = if i % 5 == 0 { TodoStatus::InProgress } else { TodoStatus::Completed };
        items.push(TodoItem { text: format!("t{}", i), status });
    }
    let output = format_todo_state(&TodoState { title: Some("T".to_string()), items });
    assert!(output.ends_with(
        "(!) tasks #1, #6, #11 are all in_progress \u{2014} keep exactly one in_progress at a time\n"
    ));
    assert!(output.contains("- [~] 11 t10\n"));
}

#[test]
fn format_no_warning_when_one_in_progress_or_all_done() {
    let one = TodoState {
        title: Some("T".to_string()),
        items: vec![
            TodoItem { text: "a".to_string(), status: TodoStatus::InProgress },
            TodoItem { text: "b".to_string(), status: TodoStatus::Pending },
        ],
    };
    assert!(!format_todo_state(&one).contains("(!)"));
    let done = TodoState {
        title: Some("T".to_string()),
        items: vec![TodoItem { text: "a".to_string(), status: TodoStatus::Completed }],
    };
    assert!(!format_todo_state(&done).contains("(!)"));
}

#[test]
fn test_empty_call_reads() {
    let mut state = TodoState::default();
    let result = apply_todo_input(&mut state, input(None, None, None));
    assert!(!result.is_error);
    assert!(result.text.contains("(no tasks)"));
}

#[test]
fn test_items_as_strings_default_pending() {
    let mut state = TodoState::default();
    let result = apply_todo_input(&mut state, input(Some("Setup"), text_items(&["First", "Second"]), None));
    assert!(!result.is_error);
    assert_eq!(state.title.as_deref(), Some("Setup"));
    assert_eq!(state.items.len(), 2);
    assert_eq!(state.items[0].text, "First");
    assert_eq!(state.items[0].status, TodoStatus::Pending);
    assert_eq!(state.items[1].status, TodoStatus::Pending);
}

#[test]
fn test_items_as_objects_honor_status() {
    let mut state = TodoState::default();
    apply_todo_input(
        &mut state,
        input(Some("Work"), Some(vec![full("A", Some("in_progress")), full("B", None)]), None),
    );
    assert_eq!(state.items[0].status, TodoStatus::InProgress);
    assert_eq!(state.items[1].status, TodoStatus::Pending);
}

#[test]
fn test_status_aliases() {
    let mut state = TodoState::default();
    apply_todo_input(
        &mut state,
        input(
            Some("Work"),
            Some(vec![full("A", Some("done")), full("B", Some("wip")), full("C", Some("skipped"))]),
            None,
        ),
    );
    assert_eq!(state.items[0].status, TodoStatus::Completed);
    assert_eq!(state.items[1].status, TodoStatus::InProgress);
    assert_eq!(state.items[2].status, TodoStatus::Cancelled);
}

#[test]
fn status_names_and_aliases() {
    for (name, status) in [
        ("pending", TodoStatus::Pending),
        ("in_progress", TodoStatus::InProgress),
        ("wip", TodoStatus::InProgress),
        ("in-progress", TodoStatus::InProgress),
        ("in progress", TodoStatus::InProgress),
        ("started", TodoStatus::InProgress),
        ("completed", TodoStatus::Completed),
        ("done", TodoStatus::Completed),
        ("complete", TodoStatus::Completed),
        ("finished", TodoStatus::Completed),
        ("cancelled", TodoStatus::Cancelled),
        ("canceled", TodoStatus::Cancelled),
        ("skipped", TodoStatus::Cancelled),
        ("dropped", TodoStatus::Cancelled),
        ("wontfix", TodoStatus::Cancelled),
    ] {
        assert_eq!(TodoStatus::from_name(name), Some(status));
    }
    for status in [TodoStatus::Pending, TodoStatus::InProgress, TodoStatus::Completed, TodoStatus::Cancelled] {
        assert_eq!(TodoStatus::from_name(status.name()), Some(status));
    }
}

#[test]
fn test_rejects_unknown_status() {
    assert_eq!(TodoStatus::from_name("bogus"), None);
    assert_eq!(TodoStatus::from_name("Done"), None);
}

#[test]
fn test_title_required_when_building() {
    let mut state = TodoState::default();
    let result = apply_todo_input(&mut state, input(None, text_items(&["A", "B"]), None));
    assert!(result.is_error);
    assert!(result.text.contains("title"));
    assert_eq!(
        result.text,
        "todo: a `title` is required when creating or replacing the task list"
    );
    assert!(state.items.is_empty(), "list must be untouched");
}

#[test]
fn blank_title_counts_as_missing() {
    let mut state = TodoState::default();
    let result = apply_todo_input(&mut state, input(Some("   "), text_items(&["A"]), None));
    assert!(result.is_error);
    assert!(state.items.is_empty());
}

#[test]
fn title_is_trimmed_and_empty_items_clear_the_list() {
    let mut state = TodoState::default();
    apply_todo_input(&mut state, input(Some("  Work  "), text_items(&["A"]), None));
    assert_eq!(state.title.as_deref(), Some("Work"));
    let result = apply_todo_input(&mut state, input(None, Some(Vec::new()), None));
    assert!(!result.is_error);
    assert!(state.items.is_empty());
    assert_eq!(state.title, None);
    assert_eq!(result.text, "(no tasks)\n");
}

#[test]
fn title_alone_renames() {
    let mut state = TodoState::default();
    apply_todo_input(&mut state, input(Some("Old"), text_items(&["A"]), None));
    let result = apply_todo_input(&mut state, input(Some("New"), None, None));
    assert_eq!(state.title.as_deref(), Some("New"));
    assert_eq!(state.items.len(), 1);
    assert!(result.text.starts_with("TODO: New\n\n"));
}

#[test]
fn test_title_persists_across_set() {
    let mut state = TodoState::default();
    apply_todo_input(&mut state, input(Some("Refactor"), text_items(&["A", "B"]), None));
    apply_todo_input(&mut state, input(None, None, Some(vec![("1", TodoStatus::Completed)])));
    assert_eq!(state.title.as_deref(), Some("Refactor"));
}

#[test]
fn test_set_patches_by_position() {
    let mut state = TodoState::default();
    apply_todo_input(&mut state, input(Some("Work"), text_items(&["A", "B", "C"]), None));
    let result = apply_todo_input(
        &mut state,
        input(None, None, Some(vec![("1", TodoStatus::Completed), ("2", TodoStatus::InProgress)])),
    );
    assert_eq!(state.items[0].status, TodoStatus::Completed);
    assert_eq!(state.items[1].status, TodoStatus::InProgress);
    assert_eq!(state.items[2].status, TodoStatus::Pending);
    assert_eq!(result.text, format_todo_state(&state));
}

#[test]
fn test_set_out_of_range_is_error_and_no_mutation() {
    let mut state = TodoState::default();
    apply_todo_input(&mut state, input(Some("Work"), text_items(&["A"]), None));
    let result = apply_todo_input(&mut state, input(None, None, Some(vec![("9", TodoStatus::Completed)])));
    assert!(result.is_error);
    assert!(result.text.contains("valid task number"));
    assert_eq!(
        result.text,
        "todo set: '9' is not a valid task number (the list has 1 task)"
    );
    assert_eq!(state.items[0].status, TodoStatus::Pending);
}

#[test]
fn test_set_non_numeric_key_is_error() {
    let mut state = TodoState::default();
    apply_todo_input(&mut state, input(Some("Work"), text_items(&["A", "B"]), None));
    let result = apply_todo_input(&mut state, input(None, None, Some(vec![("abc", TodoStatus::Completed)])));
    assert!(result.is_error);
    assert_eq!(
        result.text,
        "todo set: 'abc' is not a valid task number (the list has 2 tasks)"
    );
}

#[test]
fn set_keys_follow_integer_parsing() {
    let mut state = TodoState::default();
    apply_todo_input(&mut state, input(Some("Work"), text_items(&["A", "B"]), None));
    let ok = apply_todo_input(&mut state, input(None, None, Some(vec![("+2", TodoStatus::Completed), ("01", TodoStatus::Cancelled)])));
    assert!(!ok.is_error);
    assert_eq!(state.items[0].status, TodoStatus::Cancelled);
    assert_eq!(state.items[1].status, TodoStatus::Completed);
    for bad in ["0", "-1", "+", "", " 1", "1 ", "99999999999999999999999"] {
        let result = apply_todo_input(&mut state, input(None, None, Some(vec![(bad, TodoStatus::Pending)])));
        assert!(result.is_error, "key {:?} should be rejected", bad);
    }
    assert_eq!(state.items[0].status, TodoStatus::Cancelled);
}

#[test]
fn one_bad_key_leaves_every_status_untouched() {
    let mut state = TodoState::default();
    apply_todo_input(&mut state, input(Some("Work"), text_items(&["A", "B"]), None));
    let result = apply_todo_input(
        &mut state,
        input(None, None, Some(vec![("1", TodoStatus::Completed), ("3", TodoStatus::Completed)])),
    );
    assert!(result.is_error);
    assert!(result.text.contains("'3'"));
    assert_eq!(state.items[0].status, TodoStatus::Pending);
}

#[test]
fn later_update_of_the_same_task_wins() {
    let mut state = TodoState::default();
    apply_todo_input(&mut state, input(Some("Work"), text_items(&["A"]), None));
    apply_todo_input(
        &mut state,
        input(None, None, Some(vec![("1", TodoStatus::Completed), ("+1", TodoStatus::Cancelled)])),
    );
    assert_eq!(state.items[0].status, TodoStatus::Cancelled);
    assert_eq!(state.items[0].text, "A");
}

#[test]
fn test_items_then_set_precedence_in_one_call() {
    let mut state = TodoState::default();
    apply_todo_input(
        &mut state,
        input(Some("Work"), text_items(&["A", "B", "C"]), Some(vec![("2", TodoStatus::Completed)])),
    );
    assert_eq!(state.items.len(), 3);
    assert_eq!(state.items[1].status, TodoStatus::Completed);
}

#[test]
fn items_are_applied_even_when_set_fails() {
    let mut state = TodoState::default();
    let result = apply_todo_input(
        &mut state,
        input(Some("Work"), text_items(&["A", "B"]), Some(vec![("5", TodoStatus::Completed)])),
    );
    assert!(result.is_error);
    assert_eq!(state.items.len(), 2);
    assert_eq!(state.title.as_deref(), Some("Work"));
}

#[test]
fn item_from_input_defaults_to_pending() {
    let item: TodoItem = TodoItem::from(TodoItemInput::Text("x".to_string()));
    assert_eq!(item, TodoItem { text: "x".to_string(), status: TodoStatus::Pending });
    let item = TodoItem::from(TodoItemInput::Full { text: "y".to_string(), status: Some(TodoStatus::Completed) });
    assert_eq!(item.status, TodoStatus::Completed);
}
