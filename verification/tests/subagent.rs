use agsh::permission::Permission;
use agsh::subagent::{
    augmented_prompt, build_subagent_system_prompt, subagent_permission, subagent_report,
    SUBAGENT_INTRO,
};
use agsh::tool::ToolDefinition;

#[test]
fn test_subagent_system_prompt_reflects_inherited_permission() {
    let prompt = build_subagent_system_prompt(Permission::Write, &vec![], None, &vec![]);
    assert!(
        prompt.contains(&format!("## Permission Level: {}", Permission::Write.to_string())),
        "expected Write level in prompt, got: {}",
        prompt
    );

    let read_prompt = build_subagent_system_prompt(Permission::Read, &vec![], None, &vec![]);
    assert!(read_prompt.contains(&format!("## Permission Level: {}", Permission::Read.to_string())));
}

#[test]
fn test_subagent_system_prompt_mentions_todo_tools() {
    let prompt = build_subagent_system_prompt(Permission::Read, &vec![], None, &vec![]);
    assert!(
        prompt.contains("todo_write") && prompt.contains("todo_read"),
        "expected todo_write/todo_read mention in prompt, got: {}",
        prompt
    );
}

#[test]
fn test_subagent_system_prompt_omits_inheritance_section_when_empty() {
    let prompt = build_subagent_system_prompt(Permission::Read, &vec![], None, &vec![]);
    assert!(
        !prompt.contains("Inherited Scratchpad"),
        "no inherited section expected for empty allowlist, got: {}",
        prompt
    );
}

#[test]
fn test_subagent_system_prompt_lists_inherited_names() {
    let names = vec!["captured_output".to_string(), "research_notes".to_string()];
    let prompt = build_subagent_system_prompt(Permission::Read, &vec![], None, &names);
    assert!(prompt.contains("## Inherited Scratchpad Entries"));
    assert!(prompt.contains("- captured_output"));
    assert!(prompt.contains("- research_notes"));
    assert!(prompt.contains("scratchpad_read"));
}

#[test]
fn test_subagent_system_prompt_warns_inherited_writes_will_error() {
    let names = vec!["build_log".to_string()];
    let prompt = build_subagent_system_prompt(Permission::Read, &vec![], None, &names);
    assert!(
        prompt.contains("will return an error"),
        "expected write-rejection wording, got: {}",
        prompt,
    );
    assert!(
        prompt.contains("_local"),
        "expected naming suggestion, got: {}",
        prompt,
    );
}

#[test]
fn prompt_exact_layout() {
    let tools = vec![
        ToolDefinition { name: "read_file".to_string(), description: "Read.".to_string() },
        ToolDefinition { name: "todo".to_string(), description: "Track.".to_string() },
    ];
    let prompt = build_subagent_system_prompt(
        Permission::NoTools,
        &tools,
        Some("  be brief  \n"),
        &vec!["log".to_string()],
    );
    assert!(prompt.starts_with(SUBAGENT_INTRO));
    let rest = &prompt[SUBAGENT_INTRO.len()..];
    assert!(rest.starts_with("## Permission Level: none\n\n## User Instructions\n\n"));
    assert!(rest.contains("safety requirements.\n\nbe brief\n\n## Inherited Scratchpad Entries\n\n"));
    assert!(rest.ends_with(
        "- log\n\n## Available Tools\n\n- **read_file**: Read.\n- **todo**: Track.\n\n"
    ));
}

#[test]
fn blank_instructions_are_left_out() {
    let prompt = build_subagent_system_prompt(Permission::Read, &vec![], Some(" \t\n"), &vec![]);
    assert!(!prompt.contains("User Instructions"));
    assert_eq!(prompt, format!("{}## Permission Level: read\n\n", SUBAGENT_INTRO));
}

#[test]
fn ask_is_demoted_to_read_for_subagents() {
    assert_eq!(subagent_permission(Permission::Ask), Permission::Read);
    assert_eq!(subagent_permission(Permission::Write), Permission::Write);
    assert_eq!(subagent_permission(Permission::Read), Permission::Read);
    assert_eq!(subagent_permission(Permission::NoTools), Permission::NoTools);
}

#[test]
fn subagent_first_message_and_report() {
    assert_eq!(augmented_prompt("cwd: /tmp", "list files"), "cwd: /tmp\nlist files");
    assert_eq!(subagent_report(Some("done".to_string())), "done");
    assert_eq!(subagent_report(None), "(sub-agent produced no final text)");
}
