use liteclaw::claw::{all_claws, BuiltinClaw};
use liteclaw::cli::{
    agent_tools, claw_line, find_claw, left_align, mcp_call_result, mcp_call_target, mcp_method, mcp_skip_line,
    skill_row_exec, suggest_closest, truncate, McpMethod,
};
use liteclaw::parser::{assemble, Frontmatter};
use liteclaw::skills::{build_skill, Skill, Source};
use liteclaw::tools::ToolOutcome;

fn skill(name: &str, version: Option<&str>) -> Skill {
    let fm = Frontmatter { name: name.into(), description: "d".into(), slug: None, version: version.map(String::from) };
    build_skill(assemble(fm, "b".into()).unwrap(), "/s", name, Source::Global, vec![])
}

#[test]
fn columns_are_cut_and_padded() {
    assert_eq!(truncate("abcdef", 4), "abc…");
    assert_eq!(truncate("abc", 4), "abc");
    assert_eq!(left_align("ab", 4), "ab  ");
    assert_eq!(left_align("abcdef", 4), "abcdef");
    let row = skill_row_exec(&skill("Alpha", Some("1.2")));
    assert_eq!(row, format!("G  {:<28} {:<10} Alpha", "alpha", "1.2"));
    let row = skill_row_exec(&skill("beta", None));
    assert!(row.contains(" -          beta"));
}

#[test]
fn missing_ids_get_suggestions() {
    let skills = vec![skill("alpha", None), skill("alphabet", None), skill("gamma", None)];
    assert_eq!(suggest_closest(&skills, "ALPH").as_deref(), Some("did you mean one of: alpha, alphabet"));
    assert_eq!(suggest_closest(&skills, "gammas").as_deref(), Some("did you mean one of: gamma"));
    assert_eq!(suggest_closest(&skills, "zzz").as_deref(), Some("did you mean one of: alpha, alphabet, gamma"));
    assert_eq!(suggest_closest(&vec![], "zzz"), None);
}

#[test]
fn claws_are_listed_and_found() {
    let claws = all_claws();
    assert_eq!(find_claw(&claws, "grep"), Some(BuiltinClaw::Grep));
    assert_eq!(find_claw(&claws, "nope"), None);
    assert_eq!(claw_line(BuiltinClaw::Read), "read       Read a file (or list a directory) with line numbers and safety guards");
}

#[test]
fn mcp_requests_are_dispatched() {
    assert_eq!(mcp_method("initialize"), McpMethod::Initialize);
    assert_eq!(mcp_method("tools/list"), McpMethod::ListTools);
    assert_eq!(mcp_method("tools/call"), McpMethod::CallTool);
    assert_eq!(mcp_method("ping"), McpMethod::NotFound);
    assert!(mcp_skip_line("   "));
    assert!(!mcp_skip_line("{}"));
    let tools = agent_tools(&all_claws(), "read");
    assert_eq!(tools.len(), 11);
    assert_eq!(mcp_call_target(&tools, "glob"), Ok(8));
    assert_eq!(mcp_call_target(&tools, "nope"), Err("unknown tool: nope".to_string()));
    assert_eq!(mcp_call_result(ToolOutcome::failed("x")), ("x".to_string(), true));
}
