use agsh::permission::Permission;
use agsh::text::decimal_string;
use agsh::tool::{missing_parameter, BuiltinTool, ToolOutput};

#[test]
fn missing_parameter_message() {
    let error = missing_parameter("edit_file", "path");
    assert_eq!(error.tool_name, "edit_file");
    assert_eq!(error.message, "missing 'path' parameter");
}

#[test]
fn tool_levels() {
    let all = [
        BuiltinTool::ReadFile,
        BuiltinTool::EditFile,
        BuiltinTool::WriteFile,
        BuiltinTool::FindFiles,
        BuiltinTool::ReadStash,
        BuiltinTool::Todo,
        BuiltinTool::SpawnAgent,
    ];
    for tool in all {
        assert!(!Permission::NoTools.allows(tool.required_permission()));
        assert!(Permission::Ask.allows(tool.required_permission()));
        let writes = tool.name() == "edit_file" || tool.name() == "write_file";
        assert_eq!(Permission::Read.allows(tool.required_permission()), !writes);
    }
    assert_eq!(BuiltinTool::Todo.name(), "todo");
    assert_eq!(BuiltinTool::WriteFile.required_permission(), Permission::Write);
}

#[test]
fn output_constructor() {
    let out = ToolOutput::text("x".to_string(), true);
    assert!(out.is_error);
    assert_eq!(out.text, "x");
}

#[test]
fn decimals() {
    for n in [0u64, 7, 10, 99, 100, 2000, u64::MAX] {
        assert_eq!(decimal_string(n), n.to_string());
    }
}
