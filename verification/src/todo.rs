//! The task list kept by the `todo` tool: how a call changes it, and the
//! plain text that echoes it back to the model after every call.

use vstd::prelude::*;

use crate::text::{
    decimal, owned, parse_usize, parsed_usize, push_decimal, push_str, same_text, trim_str,
    trimmed,
};
use crate::tool::ToolOutput;

verus! {

/// Where a task stands.
#[derive(Debug, Clone, Copy, PartialEq, Eq, Structural)]
pub enum TodoStatus {
    Pending,
    InProgress,
    Completed,
    Cancelled,
}

/// One task of the list.
#[derive(Debug, Clone, PartialEq, Eq)]
pub struct TodoItem {
    pub text: String,
    pub status: TodoStatus,
}

/// The full task-list state: a `title` (set by the agent when it builds the
/// list and rendered as the heading) and the ordered items. Task numbers are
/// positional (1-based), so they are derived from order rather than stored
/// on the item.
#[derive(Debug, Clone, Default, PartialEq, Eq)]
pub struct TodoState {
    pub title: Option<String>,
    pub items: Vec<TodoItem>,
}

/// A task list as values: its title and its tasks' texts and statuses.
pub struct TodoListView {
    pub title: Option<Seq<char>>,
    pub items: Seq<(Seq<char>, TodoStatus)>,
}

impl View for TodoItem {
    type V = (Seq<char>, TodoStatus);

    open spec fn view(&self) -> (Seq<char>, TodoStatus) {
        (self.text@, self.status)
    }
}

/// The tasks of a vector as values.
pub open spec fn items_view(items: Seq<TodoItem>) -> Seq<(Seq<char>, TodoStatus)> {
    items.map_values(|item: TodoItem| item@)
}

/// An optional string as an optional character sequence.
pub open spec fn opt_text(s: Option<String>) -> Option<Seq<char>> {
    match s {
        Some(t) => Some(t@),
        None => None,
    }
}

impl View for TodoState {
    type V = TodoListView;

    open spec fn view(&self) -> TodoListView {
        TodoListView { title: opt_text(self.title), items: items_view(self.items@) }
    }
}

/// The status that a name in a call selects: the canonical snake_case name,
/// or one of the aliases that models tend to use.
pub open spec fn status_named(name: Seq<char>) -> Option<TodoStatus> {
    if name == "pending"@ {
        Some(TodoStatus::Pending)
    } else if name == "in_progress"@ || name == "wip"@ || name == "in-progress"@ || name
        == "in progress"@ || name == "started"@ {
        Some(TodoStatus::InProgress)
    } else if name == "completed"@ || name == "done"@ || name == "complete"@ || name
        == "finished"@ {
        Some(TodoStatus::Completed)
    } else if name == "cancelled"@ || name == "canceled"@ || name == "skipped"@ || name
        == "dropped"@ || name == "wontfix"@ {
        Some(TodoStatus::Cancelled)
    } else {
        None
    }
}

/// The canonical name of a status.
pub open spec fn status_name(s: TodoStatus) -> Seq<char> {
    match s {
        TodoStatus::Pending => "pending"@,
        TodoStatus::InProgress => "in_progress"@,
        TodoStatus::Completed => "completed"@,
        TodoStatus::Cancelled => "cancelled"@,
    }
}

impl TodoStatus {
    /// The status that a name in a call selects, if any.
    pub fn from_name(name: &str) -> (r: Option<TodoStatus>)
        ensures
            r == status_named(name@),
    {
        if same_text(name, "pending") {
            Some(TodoStatus::Pending)
        } else if same_text(name, "in_progress") || same_text(name, "wip") || same_text(
            name,
            "in-progress",
        ) || same_text(name, "in progress") || same_text(name, "started") {
            Some(TodoStatus::InProgress)
        } else if same_text(name, "completed") || same_text(name, "done") || same_text(
            name,
            "complete",
        ) || same_text(name, "finished") {
            Some(TodoStatus::Completed)
        } else if same_text(name, "cancelled") || same_text(name, "canceled") || same_text(
            name,
            "skipped",
        ) || same_text(name, "dropped") || same_text(name, "wontfix") {
            Some(TodoStatus::Cancelled)
        } else {
            None
        }
    }

    /// The canonical name of the status.
    pub fn name(self) -> (r: &'static str)
        ensures
            r@ == status_name(self),
    {
        match self {
            TodoStatus::Pending => "pending",
            TodoStatus::InProgress => "in_progress",
            TodoStatus::Completed => "completed",
            TodoStatus::Cancelled => "cancelled",
        }
    }
}

/// The checkbox that shows a status.
pub open spec fn status_marker(s: TodoStatus) -> Seq<char> {
    match s {
        TodoStatus::Pending => "[ ]"@,
        TodoStatus::InProgress => "[~]"@,
        TodoStatus::Completed => "[x]"@,
        TodoStatus::Cancelled => "[-]"@,
    }
}

/// The checklist line of task number `number`.
pub open spec fn item_line(item: (Seq<char>, TodoStatus), number: nat) -> Seq<char> {
    "- "@ + status_marker(item.1) + " "@ + decimal(number) + " "@ + (if item.1
        == TodoStatus::Cancelled {
        "(cancelled) "@
    } else {
        Seq::<char>::empty()
    }) + item.0 + "\n"@
}

/// The checklist lines of all tasks, numbered from 1.
pub open spec fn item_lines(items: Seq<(Seq<char>, TodoStatus)>) -> Seq<char>
    decreases items.len(),
{
    if items.len() == 0 {
        Seq::<char>::empty()
    } else {
        item_lines(items.drop_last()) + item_line(items.last(), items.len())
    }
}

/// The numbers of the tasks in progress, in order.
pub open spec fn in_progress_numbers(items: Seq<(Seq<char>, TodoStatus)>) -> Seq<nat>
    decreases items.len(),
{
    if items.len() == 0 {
        Seq::<nat>::empty()
    } else {
        in_progress_numbers(items.drop_last()) + (if items.last().1 == TodoStatus::InProgress {
            seq![items.len()]
        } else {
            Seq::<nat>::empty()
        })
    }
}

/// Task numbers written `#1, #2, ...`.
pub open spec fn task_refs(numbers: Seq<nat>) -> Seq<char>
    decreases numbers.len(),
{
    if numbers.len() == 0 {
        Seq::<char>::empty()
    } else if numbers.len() == 1 {
        "#"@ + decimal(numbers[0])
    } else {
        task_refs(numbers.drop_last()) + ", #"@ + decimal(numbers.last())
    }
}

/// Whether some task is pending.
pub open spec fn has_pending(items: Seq<(Seq<char>, TodoStatus)>) -> bool {
    exists|i: int| 0 <= i < items.len() && items[i].1 == TodoStatus::Pending
}

/// The note under the checklist when the list breaks the "exactly one task
/// in progress" convention: several tasks in progress, or none while some
/// are pending.
pub open spec fn todo_footer(items: Seq<(Seq<char>, TodoStatus)>) -> Seq<char> {
    let numbers = in_progress_numbers(items);
    if numbers.len() > 1 {
        "(!) tasks "@ + task_refs(numbers)
            + " are all in_progress \u{2014} keep exactly one in_progress at a time\n"@
    } else if numbers.len() == 0 && has_pending(items) {
        "(!) no task in_progress \u{2014} set the next task to in_progress\n"@
    } else {
        Seq::<char>::empty()
    }
}

/// The plain text of a task list: `(no tasks)` for an empty list, else the
/// heading `TODO: <title>` (`Tasks` when there is no title), a blank line,
/// the checklist and the note of `todo_footer`.
pub open spec fn todo_text(list: TodoListView) -> Seq<char> {
    if list.items.len() == 0 {
        "(no tasks)\n"@
    } else {
        "TODO: "@ + (match list.title {
            Some(t) => t,
            None => "Tasks"@,
        }) + "\n\n"@ + item_lines(list.items) + todo_footer(list.items)
    }
}

fn push_marker(out: &mut String, status: TodoStatus)
    ensures
        final(out)@ == old(out)@ + status_marker(status),
{
    match status {
        TodoStatus::Pending => push_str(out, "[ ]"),
        TodoStatus::InProgress => push_str(out, "[~]"),
        TodoStatus::Completed => push_str(out, "[x]"),
        TodoStatus::Cancelled => push_str(out, "[-]"),
    }
}

fn push_item_line(out: &mut String, item: &TodoItem, number: usize)
    ensures
        final(out)@ == old(out)@ + item_line(item@, number as nat),
{
    push_str(out, "- ");
    push_marker(out, item.status);
    push_str(out, " ");
    push_decimal(out, number as u64);
    push_str(out, " ");
    if item.status == TodoStatus::Cancelled {
        push_str(out, "(cancelled) ");
    }
    push_str(out, item.text.as_str());
    push_str(out, "\n");
}

/// Render the task list as plain text (no ANSI), used both as the `todo` tool
/// result echoed to the model and in the per-turn context blocks.
pub fn format_todo_state(state: &TodoState) -> (r: String)
    ensures
        r@ == todo_text(state@),
{
    let ghost items = state@.items;
    if state.items.len() == 0 {
        return owned("(no tasks)\n");
    }
    let mut output = owned("TODO: ");
    match &state.title {
        Some(title) => push_str(&mut output, title.as_str()),
        None => push_str(&mut output, "Tasks"),
    }
    push_str(&mut output, "\n\n");
    let ghost head = output@;
    let mut in_progress: Vec<usize> = Vec::new();
    let mut any_pending = false;
    let mut index: usize = 0;
    assert(items.take(0) == Seq::<(Seq<char>, TodoStatus)>::empty());
    while index < state.items.len()
        invariant
            index <= state.items.len(),
            items == state@.items,
            items.len() == state.items.len(),
            output@ == head + item_lines(items.take(index as int)),
            in_progress@.map_values(|n: usize| n as nat) == in_progress_numbers(
                items.take(index as int),
            ),
            any_pending == has_pending(items.take(index as int)),
        decreases state.items.len() - index,
    {
        let item = &state.items[index];
        let number = index + 1;
        proof {
            let prev = items.take(index as int);
            let next = items.take(number as int);
            assert(next.drop_last() == prev);
            assert(next.last() == item@);
        }
        push_item_line(&mut output, item, number);
        proof {
            let next = items.take(number as int);
            assert(output@ == head + item_lines(next));
        }
        let ghost before = in_progress@;
        if item.status == TodoStatus::InProgress {
            in_progress.push(number);
            assert(in_progress@.map_values(|n: usize| n as nat) == before.map_values(
                |n: usize| n as nat,
            ).push(number as nat));
        }
        proof {
            let prev = items.take(index as int);
            let next = items.take(number as int);
            if has_pending(next) {
                let i = choose|i: int| 0 <= i < next.len() && next[i].1 == TodoStatus::Pending;
                if i < index {
                    assert(prev[i] == next[i]);
                }
            }
            if has_pending(prev) {
                let i = choose|i: int| 0 <= i < prev.len() && prev[i].1 == TodoStatus::Pending;
                assert(next[i] == prev[i]);
            }
        }
        if item.status == TodoStatus::Pending {
            any_pending = true;
        }
        index = number;
    }
    assert(items.take(index as int) == items);
    let ghost numbers = in_progress_numbers(items);
    if in_progress.len() > 1 {
        push_str(&mut output, "(!) tasks ");
        let ghost mid = output@;
        let mut k: usize = 0;
        while k < in_progress.len()
            invariant
                k <= in_progress.len(),
                in_progress@.map_values(|n: usize| n as nat) == numbers,
                output@ == mid + task_refs(numbers.take(k as int)),
            decreases in_progress.len() - k,
        {
            proof {
                let next = numbers.take(k + 1);
                assert(next.drop_last() == numbers.take(k as int));
                assert(next.last() == in_progress@[k as int] as nat);
            }
            if k == 0 {
                push_str(&mut output, "#");
            } else {
                push_str(&mut output, ", #");
            }
            push_decimal(&mut output, in_progress[k] as u64);
            k = k + 1;
        }
        assert(numbers.take(k as int) == numbers);
        push_str(
            &mut output,
            " are all in_progress \u{2014} keep exactly one in_progress at a time\n",
        );
    } else if in_progress.len() == 0 && any_pending {
        push_str(&mut output, "(!) no task in_progress \u{2014} set the next task to in_progress\n");
    }
    output
}

/// One element of the `items` array of a call: either a bare task string
/// (status defaults to pending) or a task with an optional explicit status.
pub enum TodoItemInput {
    Text(String),
    Full { text: String, status: Option<TodoStatus> },
}

/// A call of the `todo` tool: an optional `title`, an optional `items` list
/// that replaces the whole list, and an optional `set` of status updates
/// keyed by 1-based task number, in key order.
pub struct TodoInput {
    pub title: Option<String>,
    pub items: Option<Vec<TodoItemInput>>,
    pub set: Option<Vec<(String, TodoStatus)>>,
}

/// The task an `items` element describes.
pub open spec fn item_from_input(input: TodoItemInput) -> (Seq<char>, TodoStatus) {
    match input {
        TodoItemInput::Text(text) => (text@, TodoStatus::Pending),
        TodoItemInput::Full { text, status } => (text@, match status {
            Some(s) => s,
            None => TodoStatus::Pending,
        }),
    }
}

impl From<TodoItemInput> for TodoItem {
    fn from(input: TodoItemInput) -> (r: TodoItem) {
        match input {
            TodoItemInput::Text(text) => TodoItem { text, status: TodoStatus::Pending },
            TodoItemInput::Full { text, status } => TodoItem {
                text,
                status: match status {
                    Some(s) => s,
                    None => TodoStatus::Pending,
                },
            },
        }
    }
}

impl vstd::std_specs::convert::FromSpecImpl<TodoItemInput> for TodoItem {
    open spec fn obeys_from_spec() -> bool {
        true
    }

    open spec fn from_spec(input: TodoItemInput) -> TodoItem {
        match input {
            TodoItemInput::Text(text) => TodoItem { text, status: TodoStatus::Pending },
            TodoItemInput::Full { text, status } => TodoItem {
                text,
                status: match status {
                    Some(s) => s,
                    None => TodoStatus::Pending,
                },
            },
        }
    }
}

/// The title a call gives: trimmed, and absent when nothing is left.
pub open spec fn call_title(title: Option<String>) -> Option<Seq<char>> {
    match title {
        Some(t) => if trimmed(t@).len() == 0 {
            None
        } else {
            Some(trimmed(t@))
        },
        None => None,
    }
}

/// The list after the `items` and `title` of a call, before its `set`:
/// `items` replaces the whole list and its title (a non-empty list needs a
/// title, else the call is refused: `None`); a title alone renames the list.
pub open spec fn todo_rebuilt(list: TodoListView, input: TodoInput) -> Option<TodoListView> {
    let title = call_title(input.title);
    match input.items {
        Some(items) => {
            let new_items = items@.map_values(|i: TodoItemInput| item_from_input(i));
            if new_items.len() > 0 && title is None {
                None
            } else {
                Some(TodoListView { title, items: new_items })
            }
        },
        None => match title {
            Some(t) => Some(TodoListView { title: Some(t), items: list.items }),
            None => Some(list),
        },
    }
}

/// Whether a `set` key names a task of a list of `len` tasks.
pub open spec fn valid_task_key(key: Seq<char>, len: nat) -> bool {
    match parsed_usize(key) {
        Some(n) => 1 <= n <= len,
        None => false,
    }
}

/// The position of the first `set` entry whose key names no task, or -1.
pub open spec fn first_invalid_key(set: Seq<(String, TodoStatus)>, len: nat) -> int
    decreases set.len(),
{
    if set.len() == 0 {
        -1
    } else if first_invalid_key(set.drop_last(), len) >= 0 {
        first_invalid_key(set.drop_last(), len)
    } else if !valid_task_key(set.last().0@, len) {
        set.len() - 1
    } else {
        -1
    }
}

/// The tasks after the `set` entries, applied in order: each sets the status
/// of the task its key numbers.
pub open spec fn patched(items: Seq<(Seq<char>, TodoStatus)>, set: Seq<(String, TodoStatus)>) -> Seq<
    (Seq<char>, TodoStatus),
>
    decreases set.len(),
{
    if set.len() == 0 {
        items
    } else {
        let before = patched(items, set.drop_last());
        let index = match parsed_usize(set.last().0@) {
            Some(n) => n - 1,
            None => -1,
        };
        if 0 <= index < before.len() {
            before.update(index, (before[index].0, set.last().1))
        } else {
            before
        }
    }
}

proof fn lemma_patched_len(items: Seq<(Seq<char>, TodoStatus)>, set: Seq<(String, TodoStatus)>)
    ensures
        patched(items, set).len() == items.len(),
    decreases set.len(),
{
    if set.len() > 0 {
        lemma_patched_len(items, set.drop_last());
    }
}

proof fn lemma_first_invalid_key_prefix(set: Seq<(String, TodoStatus)>, len: nat, m: int)
    requires
        0 <= m <= set.len(),
        first_invalid_key(set.take(m), len) >= 0,
    ensures
        first_invalid_key(set, len) == first_invalid_key(set.take(m), len),
    decreases set.len() - m,
{
    if m < set.len() {
        assert(set.take(m + 1).drop_last() == set.take(m));
        lemma_first_invalid_key_prefix(set, len, m + 1);
    } else {
        assert(set.take(m) == set);
    }
}

/// The message that refuses a list without a title.
pub open spec fn title_required_message() -> Seq<char> {
    "todo: a `title` is required when creating or replacing the task list"@
}

/// The message that refuses a `set` key that names no task.
pub open spec fn invalid_key_message(key: Seq<char>, len: nat) -> Seq<char> {
    "todo set: '"@ + key + "' is not a valid task number (the list has "@ + decimal(len)
        + " task"@ + (if len == 1 {
        Seq::<char>::empty()
    } else {
        "s"@
    }) + ")"@
}

fn build_items(inputs: Vec<TodoItemInput>) -> (r: Vec<TodoItem>)
    ensures
        items_view(r@) == inputs@.map_values(|i: TodoItemInput| item_from_input(i)),
{
    let ghost all = inputs@;
    let mut out: Vec<TodoItem> = Vec::new();
    for input in it: inputs.into_iter()
        invariant
            it.seq() == all,
            out.len() == it.index(),
            items_view(out@) == all.take(it.index() as int).map_values(
                |i: TodoItemInput| item_from_input(i),
            ),
    {
        let ghost k = out.len() as int;
        proof {
            assert(input == all[k]);
        }
        let item = TodoItem::from(input);
        assert(item@ == item_from_input(all[k]));
        let ghost before = out@;
        out.push(item);
        proof {
            assert(items_view(out@) =~= items_view(before).push(item_from_input(all[k])));
            assert(all.take(k + 1) == all.take(k).push(all[k]));
        }
    }
    assert(all.take(all.len() as int) == all);
    out
}

/// Applies one call of the `todo` tool to the list and returns the result
/// that echoes it. Precedence: `items` (replace), then `title`, then `set`
/// (patch by position in the resulting list). Every `set` key is checked
/// before any is applied, so a bad key leaves the statuses untouched.
pub fn apply_todo_input(state: &mut TodoState, input: TodoInput) -> (r: ToolOutput)
    ensures
        match todo_rebuilt(old(state)@, input) {
            None => final(state)@ == old(state)@ && r.is_error && r.text@
                == title_required_message(),
            Some(mid) => match input.set {
                None => final(state)@ == mid && !r.is_error && r.text@ == todo_text(mid),
                Some(set) => {
                    let k = first_invalid_key(set@, mid.items.len());
                    if k >= 0 {
                        &&& final(state)@ == mid
                        &&& r.is_error
                        &&& r.text@ == invalid_key_message(set@[k].0@, mid.items.len())
                    } else {
                        &&& final(state)@ == (TodoListView {
                            title: mid.title,
                            items: patched(mid.items, set@),
                        })
                        &&& !r.is_error
                        &&& r.text@ == todo_text(final(state)@)
                    }
                },
            },
        },
{
    let ghost spec_input = input;
    let TodoInput { title, items, set } = input;
    let title: Option<String> = match title {
        Some(t) => {
            let trimmed_title = trim_str(t.as_str());
            if trimmed_title.is_empty() {
                None
            } else {
                Some(owned(trimmed_title))
            }
        },
        None => None,
    };
    assert(opt_text(title) == call_title(spec_input.title));
    match items {
        Some(list) => {
            let new_items = build_items(list);
            if new_items.len() > 0 && title.is_none() {
                return ToolOutput {
                    text: owned(
                        "todo: a `title` is required when creating or replacing the task list",
                    ),
                    is_error: true,
                };
            }
            state.title = title;
            state.items = new_items;
        },
        None => {
            if let Some(t) = title {
                state.title = Some(t);
            }
        },
    }
    let ghost mid = state@;
    assert(todo_rebuilt(old(state)@, spec_input) == Some(mid));
    if let Some(patches) = set {
        let len = state.items.len();
        let mut ids: Vec<usize> = Vec::new();
        let mut i: usize = 0;
        while i < patches.len()
            invariant
                i <= patches.len(),
                len == mid.items.len(),
                state@ == mid,
                todo_rebuilt(old(state)@, spec_input) == Some(mid),
                spec_input.set == Some(patches),
                spec_input == input,
                ids.len() == i,
                first_invalid_key(patches@.take(i as int), len as nat) == -1,
                forall|j: int|
                    0 <= j < i ==> parsed_usize(patches@[j].0@) == Some(
                        #[trigger] ids@[j] as nat,
                    ) && 1 <= ids@[j] <= len,
            decreases patches.len() - i,
        {
            let ghost prefix = patches@.take(i + 1);
            assert(prefix.drop_last() == patches@.take(i as int));
            let key = &patches[i].0;
            let id = parse_usize(key.as_str());
            let valid = match id {
                Some(n) => 1 <= n && n <= len,
                None => false,
            };
            if !valid {
                assert(first_invalid_key(prefix, len as nat) == i);
                let mut text = owned("todo set: '");
                push_str(&mut text, key.as_str());
                push_str(&mut text, "' is not a valid task number (the list has ");
                push_decimal(&mut text, len as u64);
                push_str(&mut text, " task");
                if len != 1 {
                    push_str(&mut text, "s");
                }
                push_str(&mut text, ")");
                proof {
                    lemma_first_invalid_key_prefix(patches@, len as nat, i + 1);
                }
                return ToolOutput { text, is_error: true };
            }
            ids.push(id.unwrap());
            i = i + 1;
        }
        assert(patches@.take(patches.len() as int) == patches@);
        let mut k: usize = 0;
        assert(patched(mid.items, patches@.take(0)) == mid.items);
        while k < ids.len()
            invariant
                k <= ids.len() == patches.len(),
                len == mid.items.len() == state.items.len(),
                state@.title == mid.title,
                forall|j: int|
                    0 <= j < ids.len() ==> parsed_usize(patches@[j].0@) == Some(
                        #[trigger] ids@[j] as nat,
                    ) && 1 <= ids@[j] <= len,
                state@.items == patched(mid.items, patches@.take(k as int)),
            decreases ids.len() - k,
        {
            let index = ids[k] - 1;
            let status = patches[k].1;
            let ghost before = state.items@;
            proof {
                lemma_patched_len(mid.items, patches@.take(k as int));
            }
            let text = state.items[index].text.clone();
            state.items.set(index, TodoItem { text, status });
            proof {
                let prefix = patches@.take(k + 1);
                assert(prefix.drop_last() == patches@.take(k as int));
                assert(prefix.last() == patches@[k as int]);
                assert(items_view(state.items@) == items_view(before).update(
                    index as int,
                    (items_view(before)[index as int].0, status),
                ));
            }
            k = k + 1;
        }
        assert(patches@.take(ids.len() as int) == patches@);
    }
    let text = format_todo_state(state);
    ToolOutput { text, is_error: false }
}

/// The status that the last `set` entry naming task `number` gives, if any
/// entry names it.
pub open spec fn last_status_for(set: Seq<(String, TodoStatus)>, number: nat) -> Option<TodoStatus>
    decreases set.len(),
{
    if set.len() == 0 {
        None
    } else if parsed_usize(set.last().0@) == Some(number) {
        Some(set.last().1)
    } else {
        last_status_for(set.drop_last(), number)
    }
}

/// A `set` changes only statuses: the list keeps its length and every task
/// its text, and each task ends with the status of the last entry that names
/// its number, or its old status when no entry names it.
pub proof fn lemma_patched(items: Seq<(Seq<char>, TodoStatus)>, set: Seq<(String, TodoStatus)>)
    ensures
        patched(items, set).len() == items.len(),
        forall|i: int|
            0 <= i < items.len() ==> (#[trigger] patched(items, set)[i]).0 == items[i].0
                && patched(items, set)[i].1 == match last_status_for(set, (i + 1) as nat) {
                Some(s) => s,
                None => items[i].1,
            },
    decreases set.len(),
{
    if set.len() > 0 {
        lemma_patched(items, set.drop_last());
    }
}

/// A call with neither `items` nor `title` leaves the list as it is before
/// its `set`: in particular the title persists across status updates.
pub proof fn lemma_set_only_call_keeps_list(list: TodoListView, input: TodoInput)
    requires
        input.items is None,
        input.title is None,
    ensures
        todo_rebuilt(list, input) == Some(list),
{
}

/// A call that gives `items` replaces the whole list with them, in order,
/// a bare string becoming a pending task; it is refused only when the list
/// would be non-empty without a title.
pub proof fn lemma_items_replace_list(list: TodoListView, input: TodoInput)
    requires
        input.items is Some,
    ensures
        todo_rebuilt(list, input) matches Some(mid) ==> mid.items.len() == input.items->0@.len()
            && mid.title == call_title(input.title) && forall|i: int|
            0 <= i < mid.items.len() ==> #[trigger] mid.items[i] == item_from_input(
                input.items->0@[i],
            ),
        todo_rebuilt(list, input) is None <==> (input.items->0@.len() > 0 && call_title(
            input.title,
        ) is None),
{
}

/// `in_progress_numbers` lists, in increasing order, exactly the 1-based
/// numbers of the tasks in progress.
pub proof fn lemma_in_progress_numbers(items: Seq<(Seq<char>, TodoStatus)>)
    ensures
        in_progress_numbers(items).len() <= items.len(),
        forall|k: int|
            0 <= k < in_progress_numbers(items).len() ==> 1 <= #[trigger] in_progress_numbers(
                items,
            )[k] <= items.len() && items[in_progress_numbers(items)[k] - 1].1
                == TodoStatus::InProgress,
        forall|k: int, l: int|
            0 <= k < l < in_progress_numbers(items).len() ==> #[trigger] in_progress_numbers(
                items,
            )[k] < #[trigger] in_progress_numbers(items)[l],
        forall|i: int|
            0 <= i < items.len() && #[trigger] items[i].1 == TodoStatus::InProgress ==> exists|
                k: int,
            |
                0 <= k < in_progress_numbers(items).len() && #[trigger] in_progress_numbers(
                    items,
                )[k] == i + 1,
    decreases items.len(),
{
    if items.len() > 0 {
        let prev = items.drop_last();
        lemma_in_progress_numbers(prev);
        let ids = in_progress_numbers(items);
        let prev_ids = in_progress_numbers(prev);
        assert forall|i: int|
            0 <= i < items.len() && #[trigger] items[i].1 == TodoStatus::InProgress implies exists|
                k: int,
            | 0 <= k < ids.len() && #[trigger] ids[k] == i + 1 by {
            if i < items.len() - 1 {
                assert(prev[i].1 == TodoStatus::InProgress);
                let k = choose|k: int| 0 <= k < prev_ids.len() && #[trigger] prev_ids[k] == i + 1;
                assert(ids[k] == prev_ids[k]);
            } else {
                assert(ids[prev_ids.len() as int] == i + 1);
            }
        }
    }
}

/// With exactly one task in progress the list carries no warning.
pub proof fn lemma_one_in_progress_no_warning(items: Seq<(Seq<char>, TodoStatus)>, i: int)
    requires
        0 <= i < items.len(),
        items[i].1 == TodoStatus::InProgress,
        forall|j: int|
            0 <= j < items.len() && #[trigger] items[j].1 == TodoStatus::InProgress ==> j == i,
    ensures
        todo_footer(items) == Seq::<char>::empty(),
{
    lemma_in_progress_numbers(items);
    let ids = in_progress_numbers(items);
    assert(ids.len() > 0);
    if ids.len() > 1 {
        assert(items[ids[0] - 1].1 == TodoStatus::InProgress);
        assert(items[ids[1] - 1].1 == TodoStatus::InProgress);
        assert(ids[0] < ids[1]);
    }
}

/// With pending tasks and none in progress the list asks for the next task
/// to be started.
pub proof fn lemma_idle_list_warns(items: Seq<(Seq<char>, TodoStatus)>, i: int)
    requires
        0 <= i < items.len(),
        items[i].1 == TodoStatus::Pending,
        forall|j: int| 0 <= j < items.len() ==> #[trigger] items[j].1 != TodoStatus::InProgress,
    ensures
        todo_footer(items) == "(!) no task in_progress \u{2014} set the next task to in_progress\n"@,
{
    lemma_in_progress_numbers(items);
    let ids = in_progress_numbers(items);
    if ids.len() > 0 {
        assert(items[ids[0] - 1].1 == TodoStatus::InProgress);
    }
}

/// A list with no task in progress and none pending carries no warning: the
/// text is the heading and the checklist alone.
pub proof fn lemma_no_warning_without_open_tasks(list: TodoListView)
    requires
        list.items.len() > 0,
        forall|j: int|
            0 <= j < list.items.len() ==> #[trigger] list.items[j].1 != TodoStatus::InProgress
                && list.items[j].1 != TodoStatus::Pending,
    ensures
        todo_footer(list.items) == Seq::<char>::empty(),
        todo_text(list) == "TODO: "@ + (match list.title {
            Some(t) => t,
            None => "Tasks"@,
        }) + "\n\n"@ + item_lines(list.items),
{
    lemma_in_progress_numbers(list.items);
    let ids = in_progress_numbers(list.items);
    if ids.len() > 0 {
        assert(list.items[ids[0] - 1].1 == TodoStatus::InProgress);
    }
    if has_pending(list.items) {
        let i = choose|i: int| 0 <= i < list.items.len() && list.items[i].1 == TodoStatus::Pending;
        assert(list.items[i].1 != TodoStatus::Pending);
    }
    assert(item_lines(list.items) + Seq::<char>::empty() == item_lines(list.items));
}

/// The note asking for the next task to be started appears exactly when no
/// task is in progress and some task has the status pending; completed and
/// cancelled tasks never call for it.
pub proof fn lemma_idle_warning_exactly_when(items: Seq<(Seq<char>, TodoStatus)>)
    ensures
        todo_footer(items) == "(!) no task in_progress \u{2014} set the next task to in_progress\n"@
            <==> ((forall|j: int|
            0 <= j < items.len() ==> #[trigger] items[j].1 != TodoStatus::InProgress) && exists|
            i: int,
        | 0 <= i < items.len() && #[trigger] items[i].1 == TodoStatus::Pending),
{
    let idle = "(!) no task in_progress \u{2014} set the next task to in_progress\n"@;
    let many_head = "(!) tasks "@;
    reveal_strlit("(!) no task in_progress \u{2014} set the next task to in_progress\n");
    reveal_strlit("(!) tasks ");
    lemma_in_progress_numbers(items);
    let ids = in_progress_numbers(items);
    if ids.len() > 0 {
        assert(items[ids[0] - 1].1 == TodoStatus::InProgress);
    }
    if ids.len() > 1 {
        let many = many_head + task_refs(ids)
            + " are all in_progress \u{2014} keep exactly one in_progress at a time\n"@;
        assert(many[4] == many_head[4]);
        assert(many[4] != idle[4]);
    }
    if ids.len() == 0 {
        assert forall|j: int|
            0 <= j < items.len() implies #[trigger] items[j].1 != TodoStatus::InProgress by {
            if items[j].1 == TodoStatus::InProgress {
                let k = choose|k: int| 0 <= k < ids.len() && #[trigger] ids[k] == j + 1;
            }
        }
    }
    assert(idle.len() > 0);
}

/// After a `set`, a task named by some entry keeps its text and has the
/// status of the last entry that names it, whatever that status is.
pub proof fn lemma_set_entry_wins(
    items: Seq<(Seq<char>, TodoStatus)>,
    set: Seq<(String, TodoStatus)>,
    j: int,
    n: nat,
)
    requires
        0 <= j < set.len(),
        parsed_usize(set[j].0@) == Some(n),
        1 <= n <= items.len(),
        forall|l: int| j < l < set.len() ==> parsed_usize(#[trigger] set[l].0@) != Some(n),
    ensures
        patched(items, set)[n - 1] == (items[n - 1].0, set[j].1),
    decreases set.len(),
{
    lemma_patched_len(items, set.drop_last());
    if j < set.len() - 1 {
        assert forall|l: int| j < l < set.drop_last().len() implies parsed_usize(
            #[trigger] set.drop_last()[l].0@,
        ) != Some(n) by {
            assert(set.drop_last()[l] == set[l]);
        }
        assert(set.drop_last()[j] == set[j]);
        lemma_set_entry_wins(items, set.drop_last(), j, n);
        assert(parsed_usize(set.last().0@) != Some(n));
    } else {
        lemma_patched(items, set.drop_last());
        assert(set.last() == set[j]);
    }
}

/// A task that no `set` entry names keeps its text and status.
pub proof fn lemma_unnamed_task_unchanged(
    items: Seq<(Seq<char>, TodoStatus)>,
    set: Seq<(String, TodoStatus)>,
    n: nat,
)
    requires
        1 <= n <= items.len(),
        forall|l: int| 0 <= l < set.len() ==> parsed_usize(#[trigger] set[l].0@) != Some(n),
    ensures
        patched(items, set)[n - 1] == items[n - 1],
    decreases set.len(),
{
    if set.len() > 0 {
        lemma_patched_len(items, set.drop_last());
        assert forall|l: int| 0 <= l < set.drop_last().len() implies parsed_usize(
            #[trigger] set.drop_last()[l].0@,
        ) != Some(n) by {
            assert(set.drop_last()[l] == set[l]);
        }
        lemma_unnamed_task_unchanged(items, set.drop_last(), n);
        assert(parsed_usize(set.last().0@) != Some(n));
    }
}

} // verus!
