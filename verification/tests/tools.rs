use devdeck::tools::{
    after_claim, call_step, CallStep,
    access_for, definitions_for, is_assistant_tool, parse_tool_call, required_access, wire_name,
    Access, Permission, PermissionMatrix, ToolResult,
};
use devdeck::json::Json;

fn matrix(agent: &str, p: Permission) -> PermissionMatrix {
    let mut m = PermissionMatrix::new();
    for t in ["files", "git", "terminal", "process", "tests", "knowledge"] {
        m.set(agent, t, p);
    }
    m
}

fn object(keys: &[&str]) -> Json {
    Json::Obj(keys.iter().map(|k| (k.to_string(), Json::Str(String::new()))).collect())
}

#[test]
fn a_wire_name_round_trips_back_to_its_tool_and_action() {
    let defs = definitions_for("dev", &matrix("dev", Permission::Full));
    assert!(defs.len() >= 12, "expected the full surface, got {}", defs.len());
    for d in &defs {
        let keys: Vec<&str> = d.input_schema.required.iter().map(|k| k.as_str()).collect();
        let args = object(&keys);
        let call = parse_tool_call(&d.name, &args).unwrap_or_else(|e| panic!("'{}' did not parse: {e}", d.name));
        assert_eq!(wire_name(&call.tool, &call.action), d.name);
    }
}

#[test]
fn a_missing_required_argument_is_refused_with_a_usable_message() {
    let e = parse_tool_call("files_read", &object(&[])).unwrap_err();
    assert!(e.contains("missing required argument 'path'"), "got: {e}");
}

#[test]
fn an_invented_tool_is_refused_and_the_error_lists_the_real_ones() {
    let e = parse_tool_call("filesystem_delete", &object(&[])).unwrap_err();
    assert!(e.contains("unknown tool"), "got: {e}");
    assert!(e.contains("files_read"), "the error should name what does exist: {e}");
}

#[test]
fn a_non_object_argument_payload_is_refused() {
    let e = parse_tool_call("files_read", &Json::Arr(vec![])).unwrap_err();
    assert!(e.contains("expects an object"), "got: {e}");
}

#[test]
fn access_comes_from_the_registry_not_a_parallel_list() {
    assert_eq!(required_access("files", "read"), Access::Read);
    assert_eq!(required_access("files", "write"), Access::Write);
    assert_eq!(required_access("git", "log"), Access::Read);
    assert_eq!(required_access("files", "invented"), Access::Write);
    assert_eq!(access_for("nothing", "at-all"), Access::Write);
}

#[test]
fn a_read_only_agent_is_never_offered_a_write() {
    let defs = definitions_for("qa", &matrix("qa", Permission::Read));
    assert!(!defs.is_empty(), "read-only still gets the reads");
    for d in &defs {
        assert!(!d.name.ends_with("_write") && !d.name.ends_with("_commit"), "read-only agent was offered '{}'", d.name);
    }
    assert!(defs.iter().any(|d| d.name == "files_read"));
}

#[test]
fn none_advertises_nothing() {
    let defs = definitions_for("x", &matrix("x", Permission::Nothing));
    assert!(defs.is_empty(), "got {}", defs.len());
}

#[test]
fn approval_advertises_and_says_it_will_pause() {
    let defs = definitions_for("x", &matrix("x", Permission::Approval));
    assert!(!defs.is_empty());
    assert!(defs.iter().any(|d| d.name == "files_write"));
    for d in &defs {
        assert!(d.description.contains("requires human approval"), "{}", d.description);
    }
}

#[test]
fn an_unknown_agent_is_offered_nothing() {
    let defs = definitions_for("typo", &matrix("lead", Permission::Full));
    assert!(defs.is_empty(), "permissions must fail closed here too");
}

#[test]
fn an_unknown_agent_gets_nothing_rather_than_everything() {
    let m = matrix("lead", Permission::Full);
    assert_eq!(m.get("typo-in-agent-id", "files"), Permission::Nothing);
    assert_eq!(m.get("lead", "files"), Permission::Full);
    assert_eq!(m.get("lead", "unlisted"), Permission::Nothing);
}

#[test]
fn a_permission_change_takes_effect_immediately() {
    let mut m = matrix("qa", Permission::Read);
    assert_eq!(m.get("qa", "files"), Permission::Read);
    m.set("qa", "files", Permission::Full);
    assert_eq!(m.get("qa", "files"), Permission::Full);
    assert_eq!(m.agents(), vec!["qa".to_string()]);
}

#[test]
fn permissions_read_and_print_as_the_settings_screen_writes_them() {
    assert_eq!(Permission::parse("FULL"), Permission::Full);
    assert_eq!(Permission::parse("read-only"), Permission::Read);
    assert_eq!(Permission::parse("approval"), Permission::Approval);
    assert_eq!(Permission::parse("whatever"), Permission::Nothing);
    for p in [Permission::Full, Permission::Read, Permission::Approval, Permission::Nothing] {
        assert_eq!(Permission::parse(p.label()), p);
    }
    assert!(is_assistant_tool("delegate") && is_assistant_tool("memory") && !is_assistant_tool("files"));
    assert_eq!(wire_name("files", "read"), "files_read");
}

#[test]
fn a_result_carries_what_it_wrote() {
    let r = ToolResult::ok("files", "write", "ok".into()).with_files(vec!["a.txt".into()]);
    assert!(r.ok);
    assert_eq!(r.changed_files, vec!["a.txt".to_string()]);
    let f = ToolResult::failed("files", "read", "nope".into());
    assert!(!f.ok);
    assert_eq!(f.error, Some("nope".to_string()));
}

#[test]
fn a_call_is_run_refused_or_asked_about_by_its_permission() {
    assert_eq!(call_step(Permission::Full, Access::Write, "files", "write", "dev-a"), CallStep::Run);
    assert_eq!(call_step(Permission::Read, Access::Read, "files", "read", "qa"), CallStep::Run);
    assert_eq!(
        call_step(Permission::Read, Access::Write, "files", "write", "qa"),
        CallStep::Refuse("'files' is read-only for qa; 'write' writes".into())
    );
    assert_eq!(
        call_step(Permission::Nothing, Access::Read, "terminal", "run", "auditor"),
        CallStep::Refuse("'terminal' is denied for auditor".into())
    );
    assert_eq!(call_step(Permission::Approval, Access::Write, "terminal", "run", "assistant"), CallStep::Claim);
    assert_eq!(after_claim(true, true, "terminal"), CallStep::Run);
    assert_eq!(after_claim(false, false, "terminal"), CallStep::AskPerson);
    match after_claim(false, true, "terminal") {
        CallStep::Refuse(m) => {
            assert!(m.starts_with("'terminal' needed approval and this was started by a clock"));
            assert!(m.ends_with("do this unattended."));
        }
        other => panic!("{other:?}"),
    }
}

#[test]
fn every_action_declares_a_usable_schema() {
    for tool in devdeck::tools::registry() {
        assert!(!tool.actions.is_empty(), "{} has no actions", tool.id);
        for a in &tool.actions {
            assert!(!a.description.is_empty(), "{}.{} has no description", tool.id, a.name);
            let schema = devdeck::wire::schema_json(&a.params);
            assert_eq!(
                schema.get("type").and_then(|t| t.as_str()),
                Some("object"),
                "{}.{} schema must be an object",
                tool.id,
                a.name
            );
            let props = schema.get("properties").expect("properties");
            let Json::Obj(props) = props else { panic!("{}.{} properties is not an object", tool.id, a.name) };
            let required = schema.get("required").and_then(|r| r.as_array()).expect("required");
            for k in required {
                let k = k.as_str().unwrap();
                assert!(props.iter().any(|(p, _)| p == k), "{}.{} requires undeclared '{k}'", tool.id, a.name);
            }
        }
    }
}

#[test]
fn a_path_escaping_the_project_is_refused() {
    for bad in ["../outside.txt", "a/../../outside.txt"] {
        let r = devdeck::tools::project_path(bad);
        assert!(r.is_err(), "'{bad}' should be refused");
        assert!(r.unwrap_err().contains("escapes"));
    }
    assert_eq!(
        devdeck::tools::project_path("/etc/passwd").unwrap_err(),
        "path must be project-relative: /etc/passwd"
    );
    assert!(devdeck::tools::project_path("src/..hidden/a..b.txt").is_ok());
    assert!(devdeck::tools::project_path("a/b/c.txt").is_ok());
}

#[test]
fn a_windows_path_is_read_with_either_separator() {
    for bad in ["..\\outside.txt", "a\\..\\..\\x", "a/..\\b", "src\\.."] {
        assert_eq!(
            devdeck::tools::project_path(bad).unwrap_err(),
            format!("path escapes the project: {bad}")
        );
    }
    for rooted in ["C:\\x", "c:x", "\\\\server\\share\\x", "\\x"] {
        assert_eq!(
            devdeck::tools::project_path(rooted).unwrap_err(),
            format!("path must be project-relative: {rooted}")
        );
    }
    assert!(devdeck::tools::project_path("src\\..hidden\\a.txt").is_ok());
    assert!(devdeck::tools::project_path("1:2/x").is_ok());
}
