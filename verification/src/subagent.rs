//! The `spawn_agent` tool's decisions: the level a sub-agent runs at and the
//! system prompt it is given. Creating its session and running it happen
//! around these.

use vstd::prelude::*;

use crate::permission::{level_name, Permission};
use crate::text::{owned, push_str, trim_str, trimmed};
use crate::tool::ToolDefinition;

verus! {

/// The level a sub-agent runs at. Ask is demoted to Read: a sub-agent has no
/// interactive shell to ask for approval, so every Ask-mode tool call would
/// fail; Read keeps it useful for research and exploration.
pub open spec fn subagent_level(parent: Permission) -> Permission {
    if parent == Permission::Ask {
        Permission::Read
    } else {
        parent
    }
}

/// The level a sub-agent runs at, given its parent's.
pub fn subagent_permission(parent: Permission) -> (r: Permission)
    ensures
        r == subagent_level(parent),
{
    match parent {
        Permission::Ask => Permission::Read,
        other => other,
    }
}

/// The first message of a sub-agent: the environment context, a line feed,
/// and the task.
pub fn augmented_prompt(environment_context: &str, prompt: &str) -> (r: String)
    ensures
        r@ == environment_context@ + seq!['\n'] + prompt@,
{
    let mut text = owned(environment_context);
    crate::text::push_char(&mut text, '\n');
    push_str(&mut text, prompt);
    text
}

/// The report a sub-agent hands back: its last assistant text, or a note
/// that it produced none.
pub fn subagent_report(last_assistant_text: Option<String>) -> (r: String)
    ensures
        r@ == match last_assistant_text {
            Some(text) => text@,
            None => "(sub-agent produced no final text)"@,
        },
{
    match last_assistant_text {
        Some(text) => text,
        None => owned("(sub-agent produced no final text)"),
    }
}

/// The opening of every sub-agent's system prompt.
pub const SUBAGENT_INTRO: &'static str = "You are a research sub-agent. Complete the assigned task using the available tools, then produce a concise final report summarizing your findings. Do not ask follow-up questions \u{2014} work with what you have. For multi-step work, use `todo_write` to plan and `todo_read` to check progress \u{2014} your todo list is private to this sub-agent.\n\n";

/// The preface of the user's instructions.
pub const USER_INSTRUCTIONS_PREFACE: &'static str = "These are installation-specific rules set by the user. Treat them as hard constraints unless they conflict with safety requirements.\n\n";

/// The preface of the inherited scratchpad entries.
pub const INHERITED_PREFACE: &'static str = "Your parent agent has granted you read-only access to the following scratchpad entries from its own session. Use `scratchpad_read` with the exact names below to load them on demand \u{2014} do not assume their contents without reading. `scratchpad_write`, `_edit`, and `_delete` against these names will return an error; if you need to derive new state, save it under a different name (e.g. `<name>_local`).\n\n";

/// Names as a bullet list, one `- name` line each.
pub open spec fn bullet_lines(names: Seq<Seq<char>>) -> Seq<char>
    decreases names.len(),
{
    if names.len() == 0 {
        Seq::<char>::empty()
    } else {
        bullet_lines(names.drop_last()) + "- "@ + names.last() + "\n"@
    }
}

/// Tools as a bullet list, one `- **name**: description` line each.
pub open spec fn tool_lines(tools: Seq<ToolDefinition>) -> Seq<char>
    decreases tools.len(),
{
    if tools.len() == 0 {
        Seq::<char>::empty()
    } else {
        tool_lines(tools.drop_last()) + "- **"@ + tools.last().name@ + "**: "@
            + tools.last().description@ + "\n"@
    }
}

/// The user's instructions, trimmed, when any are left.
pub open spec fn given_instructions(user_instructions: Option<Seq<char>>) -> Option<Seq<char>> {
    match user_instructions {
        Some(text) => if trimmed(text).len() > 0 {
            Some(trimmed(text))
        } else {
            None
        },
        None => None,
    }
}

/// The section with the user's instructions, when there are any.
pub open spec fn instructions_section(user_instructions: Option<Seq<char>>) -> Seq<char> {
    match given_instructions(user_instructions) {
        Some(text) => "## User Instructions\n\n"@ + USER_INSTRUCTIONS_PREFACE@ + text + "\n\n"@,
        None => Seq::<char>::empty(),
    }
}

/// The section with the parent's scratchpad entries the sub-agent may read,
/// when there are any.
pub open spec fn inherited_section(inherited: Seq<Seq<char>>) -> Seq<char> {
    if inherited.len() > 0 {
        "## Inherited Scratchpad Entries\n\n"@ + INHERITED_PREFACE@ + bullet_lines(inherited)
            + "\n"@
    } else {
        Seq::<char>::empty()
    }
}

/// The section with the sub-agent's tools, when there are any.
pub open spec fn tools_section(tools: Seq<ToolDefinition>) -> Seq<char> {
    if tools.len() > 0 {
        "## Available Tools\n\n"@ + tool_lines(tools) + "\n"@
    } else {
        Seq::<char>::empty()
    }
}

/// A sub-agent's system prompt: the opening, its permission level, the
/// user's instructions when there are any, the parent's scratchpad entries it
/// may read when there are any, and its tools when there are any.
pub open spec fn subagent_prompt(
    permission: Permission,
    tools: Seq<ToolDefinition>,
    user_instructions: Option<Seq<char>>,
    inherited: Seq<Seq<char>>,
) -> Seq<char> {
    SUBAGENT_INTRO@ + "## Permission Level: "@ + level_name(permission) + "\n\n"@
        + instructions_section(user_instructions) + inherited_section(inherited) + tools_section(
        tools,
    )
}

fn push_instructions(prompt: &mut String, user_instructions: Option<&str>)
    ensures
        final(prompt)@ == old(prompt)@ + instructions_section(
            match user_instructions {
                Some(t) => Some(t@),
                None => None,
            },
        ),
{
    if let Some(raw) = user_instructions {
        let instructions = trim_str(raw);
        if !instructions.is_empty() {
            push_str(prompt, "## User Instructions\n\n");
            push_str(prompt, USER_INSTRUCTIONS_PREFACE);
            push_str(prompt, instructions);
            push_str(prompt, "\n\n");
        }
    }
}

fn push_inherited(prompt: &mut String, inherited_scratchpad: &Vec<String>)
    ensures
        final(prompt)@ == old(prompt)@ + inherited_section(
            inherited_scratchpad@.map_values(|s: String| s@),
        ),
{
    let ghost names = inherited_scratchpad@.map_values(|s: String| s@);
    if inherited_scratchpad.len() > 0 {
        push_str(prompt, "## Inherited Scratchpad Entries\n\n");
        push_str(prompt, INHERITED_PREFACE);
        let ghost start = prompt@;
        let mut i: usize = 0;
        assert(names.take(0) == Seq::<Seq<char>>::empty());
        while i < inherited_scratchpad.len()
            invariant
                i <= inherited_scratchpad.len(),
                names == inherited_scratchpad@.map_values(|s: String| s@),
                prompt@ == start + bullet_lines(names.take(i as int)),
            decreases inherited_scratchpad.len() - i,
        {
            push_str(prompt, "- ");
            push_str(prompt, inherited_scratchpad[i].as_str());
            push_str(prompt, "\n");
            proof {
                let next = names.take(i + 1);
                assert(next.drop_last() == names.take(i as int));
                assert(next.last() == inherited_scratchpad@[i as int]@);
            }
            i = i + 1;
        }
        assert(names.take(i as int) == names);
        push_str(prompt, "\n");
    }
}

fn push_tools(prompt: &mut String, tools: &Vec<ToolDefinition>)
    ensures
        final(prompt)@ == old(prompt)@ + tools_section(tools@),
{
    if tools.len() > 0 {
        push_str(prompt, "## Available Tools\n\n");
        let ghost start = prompt@;
        let mut i: usize = 0;
        assert(tools@.take(0) == Seq::<ToolDefinition>::empty());
        while i < tools.len()
            invariant
                i <= tools.len(),
                prompt@ == start + tool_lines(tools@.take(i as int)),
            decreases tools.len() - i,
        {
            let tool = &tools[i];
            push_str(prompt, "- **");
            push_str(prompt, tool.name.as_str());
            push_str(prompt, "**: ");
            push_str(prompt, tool.description.as_str());
            push_str(prompt, "\n");
            proof {
                let next = tools@.take(i + 1);
                assert(next.drop_last() == tools@.take(i as int));
                assert(next.last() == tools@[i as int]);
            }
            i = i + 1;
        }
        assert(tools@.take(i as int) == tools@);
        push_str(prompt, "\n");
    }
}

/// Builds a sub-agent's system prompt.
pub fn build_subagent_system_prompt(
    permission: Permission,
    tools: &Vec<ToolDefinition>,
    user_instructions: Option<&str>,
    inherited_scratchpad: &Vec<String>,
) -> (r: String)
    ensures
        r@ == subagent_prompt(
            permission,
            tools@,
            match user_instructions {
                Some(t) => Some(t@),
                None => None,
            },
            inherited_scratchpad@.map_values(|s: String| s@),
        ),
{
    let mut prompt = owned(SUBAGENT_INTRO);
    push_str(&mut prompt, "## Permission Level: ");
    let name = permission.to_string();
    push_str(&mut prompt, name.as_str());
    push_str(&mut prompt, "\n\n");
    push_instructions(&mut prompt, user_instructions);
    push_inherited(&mut prompt, inherited_scratchpad);
    push_tools(&mut prompt, tools);
    prompt
}

/// A sub-agent never runs in Ask mode and never gets more than its parent:
/// every tool it may use, its parent may use too.
pub proof fn lemma_subagent_never_exceeds_parent(parent: Permission, required: Permission)
    ensures
        subagent_level(parent) != Permission::Ask,
        crate::permission::level_allows(subagent_level(parent), required)
            ==> crate::permission::level_allows(parent, required),
        parent != Permission::Ask ==> subagent_level(parent) == parent,
{
}

} // verus!
