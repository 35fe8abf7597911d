//! What a tool call hands back, and the error that aborts one.

use vstd::prelude::*;

use crate::permission::{level_allows, Permission};
use crate::text::{owned, push_str};

verus! {

/// The text result of a tool call. `is_error` marks a result that reports a
/// failure to the model without aborting the turn.
#[derive(Debug)]
pub struct ToolOutput {
    pub text: String,
    pub is_error: bool,
}

impl ToolOutput {
    pub fn text(text: String, is_error: bool) -> (r: ToolOutput)
        ensures
            r.text == text,
            r.is_error == is_error,
    {
        ToolOutput { text, is_error }
    }
}

/// A failure that aborts a tool call.
#[derive(Debug)]
pub struct ToolError {
    pub tool_name: String,
    pub message: String,
}

/// The name and description under which a tool is offered to the model.
#[derive(Debug)]
pub struct ToolDefinition {
    pub name: String,
    pub description: String,
}

/// The message for a required string parameter that the call lacks.
pub open spec fn missing_parameter_message(field: Seq<char>) -> Seq<char> {
    "missing '"@ + field + "' parameter"@
}

/// The error of a tool call that lacks the string parameter `field`.
pub fn missing_parameter(tool_name: &str, field: &str) -> (r: ToolError)
    ensures
        r.tool_name@ == tool_name@,
        r.message@ == missing_parameter_message(field@),
{
    let mut message = owned("missing '");
    push_str(&mut message, field);
    push_str(&mut message, "' parameter");
    ToolError { tool_name: owned(tool_name), message }
}

/// The tools whose logic this crate holds.
#[derive(Debug, Clone, Copy, PartialEq, Eq, Structural)]
pub enum BuiltinTool {
    ReadFile,
    EditFile,
    WriteFile,
    FindFiles,
    ReadStash,
    Todo,
    SpawnAgent,
}

/// The level a tool needs: writing and editing files need Write, the rest
/// Read.
pub open spec fn tool_level(tool: BuiltinTool) -> Permission {
    match tool {
        BuiltinTool::EditFile | BuiltinTool::WriteFile => Permission::Write,
        _ => Permission::Read,
    }
}

/// The name under which a tool is offered to the model.
pub open spec fn tool_name(tool: BuiltinTool) -> Seq<char> {
    match tool {
        BuiltinTool::ReadFile => "read_file"@,
        BuiltinTool::EditFile => "edit_file"@,
        BuiltinTool::WriteFile => "write_file"@,
        BuiltinTool::FindFiles => "find_files"@,
        BuiltinTool::ReadStash => "read_stash"@,
        BuiltinTool::Todo => "todo"@,
        BuiltinTool::SpawnAgent => "spawn_agent"@,
    }
}

impl BuiltinTool {
    pub fn required_permission(self) -> (r: Permission)
        ensures
            r == tool_level(self),
    {
        match self {
            BuiltinTool::EditFile | BuiltinTool::WriteFile => Permission::Write,
            _ => Permission::Read,
        }
    }

    pub fn name(self) -> (r: &'static str)
        ensures
            r@ == tool_name(self),
    {
        match self {
            BuiltinTool::ReadFile => "read_file",
            BuiltinTool::EditFile => "edit_file",
            BuiltinTool::WriteFile => "write_file",
            BuiltinTool::FindFiles => "find_files",
            BuiltinTool::ReadStash => "read_stash",
            BuiltinTool::Todo => "todo",
            BuiltinTool::SpawnAgent => "spawn_agent",
        }
    }
}

/// In none mode no tool is available; in read mode every tool but the two
/// that write files; in ask and write mode every tool.
pub proof fn lemma_tools_by_level(tool: BuiltinTool)
    ensures
        !level_allows(Permission::NoTools, tool_level(tool)),
        level_allows(Permission::Read, tool_level(tool)) <==> (tool != BuiltinTool::EditFile
            && tool != BuiltinTool::WriteFile),
        level_allows(Permission::Ask, tool_level(tool)),
        level_allows(Permission::Write, tool_level(tool)),
{
}

/// Tools are grouped by the least level they need: the two tools that write
/// files need Write, every other tool needs Read, and none needs Ask or
/// NoTools.
pub proof fn lemma_tool_levels(tool: BuiltinTool)
    ensures
        tool_level(tool) == Permission::Write || tool_level(tool) == Permission::Read,
        tool_level(tool) == Permission::Write <==> (tool == BuiltinTool::EditFile || tool
            == BuiltinTool::WriteFile),
{
}

} // verus!
