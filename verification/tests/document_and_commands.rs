use cc_mcp_admin::commands::{
    add_mcp_server, list_mcp_servers, remove_mcp_server, show_mcp_server, AddOutcome, ArgDisplay,
    CommandError, EnvDisplay, ProjectUse, RemoveOutcome, TargetLine,
};
use cc_mcp_admin::document::{JsonDocument, RegistryError};
use cc_mcp_admin::model::{EnvVar, McpEntry, McpServer};
use cc_mcp_admin::project::get_current_project_mcp_servers;
use cc_mcp_admin::reading::{load_claude_json, load_mcp_json, load_overrides, OverrideFile};
use cc_mcp_admin::registry::{collect_all_mcp_servers, ClaudeJson, NamedServer, ProjectConfig};
use cc_mcp_admin::resolver::ResolveError;

fn server(command: &str, args: &[&str]) -> McpServer {
    McpServer {
        server_type: None,
        command: Some(command.to_string()),
        url: None,
        args: args.iter().map(|s| s.to_string()).collect(),
        env: Vec::new(),
    }
}

fn entry(project: &str, server: McpServer) -> McpEntry {
    McpEntry { server, source_project: project.to_string() }
}

fn doc(text: &str) -> JsonDocument {
    JsonDocument::parse(text).unwrap()
}

fn canonical(text: &str) -> String {
    doc(text).render().unwrap()
}

const TWO_PROJECTS: &str = r#"{
  "numStartups": 7,
  "projects": {
    "/A": {"mcpServers": {"foo": {"command": "run", "args": ["/A/data"]}}, "history": [1, 2.5, "x", null, true]},
    "/B": {"mcpServers": {"foo": {"command": "run", "args": ["/B/data"]}, "bar": {"url": "http://b", "type": "http"}}}
  },
  "userID": "abc"
}"#;

const TWO_VERSIONS: &str = r#"{"projects": {
    "/A": {"mcpServers": {"foo": {"command": "run-v1"}}},
    "/B": {"mcpServers": {"foo": {"command": "run-v2"}}}
}}"#;

#[test]
fn parse_refuses_what_is_no_json() {
    assert!(matches!(JsonDocument::parse(""), Err(RegistryError::Unreadable)));
    assert!(matches!(JsonDocument::parse("{"), Err(RegistryError::Unreadable)));
    assert!(matches!(JsonDocument::parse("{} trailing"), Err(RegistryError::Unreadable)));
    assert!(JsonDocument::parse("{}").is_ok());
    assert!(JsonDocument::parse(" [1, 2] ").is_ok());
}

#[test]
fn render_writes_indented_text_with_sorted_members() {
    assert_eq!(canonical("{}"), "{}");
    assert_eq!(canonical(r#"{"b": [1, "x", null], "a": {"k": true}}"#), "{\n  \"a\": {\n    \"k\": true\n  },\n  \"b\": [\n    1,\n    \"x\",\n    null\n  ]\n}");
}

#[test]
fn install_makes_the_structure_it_needs() {
    let mut d = doc("{}");
    let added = d.install("foo", &entry("/A", server("run", &["/A/data"])), "/C").unwrap();
    assert_eq!(added.args, vec!["/C/data"]);
    let expected = "{\n  \"projects\": {\n    \"/C\": {\n      \"mcpServers\": {\n        \"foo\": {\n          \"args\": [\n            \"/C/data\"\n          ],\n          \"command\": \"run\",\n          \"env\": {},\n          \"type\": null,\n          \"url\": null\n        }\n      }\n    }\n  }\n}";
    assert_eq!(d.render().unwrap(), expected);
}

#[test]
fn install_takes_null_for_a_missing_object() {
    for text in ["null", r#"{"projects": null}"#, r#"{"projects": {"/C": null}}"#, r#"{"projects": {"/C": {"mcpServers": null}}}"#] {
        let mut d = doc(text);
        d.install("foo", &entry("/A", server("run", &[])), "/C").unwrap();
        let mut fresh = doc("{}");
        fresh.install("foo", &entry("/A", server("run", &[])), "/C").unwrap();
        assert_eq!(d.render().unwrap(), fresh.render().unwrap());
    }
}

#[test]
fn install_refuses_a_document_that_cannot_hold_servers() {
    for text in ["[]", "3", r#""text""#, r#"{"projects": []}"#, r#"{"projects": {"/C": 1}}"#, r#"{"projects": {"/C": {"mcpServers": "x"}}}"#] {
        let mut d = doc(text);
        let before = d.render().unwrap();
        assert_eq!(d.install("foo", &entry("/A", server("run", &[])), "/C"), Err(RegistryError::Unwritable));
        assert_eq!(d.render().unwrap(), before);
    }
}

#[test]
fn install_writes_every_field_of_the_definition() {
    let mut s = server("run", &["a", "b"]);
    s.server_type = Some("stdio".to_string());
    s.url = Some("http://x".to_string());
    s.env = vec![
        EnvVar { name: "Z".to_string(), value: "1".to_string() },
        EnvVar { name: "A".to_string(), value: "2".to_string() },
    ];
    let mut d = doc(r#"{"projects": {"/C": {"mcpServers": {}}}}"#);
    d.install("foo", &entry("/none", s.clone()), "/C").unwrap();
    let expected = r#"{"projects": {"/C": {"mcpServers": {"foo": {
        "type": "stdio", "command": "run", "url": "http://x", "args": ["a", "b"], "env": {"A": "2", "Z": "1"}}}}}}"#;
    assert_eq!(d.render().unwrap(), canonical(expected));
    let read = d.claude_json().unwrap();
    assert_eq!(read.projects[0].mcp_servers[0].server.command, s.command);
    assert_eq!(read.projects[0].mcp_servers[0].server.server_type, s.server_type);
    assert_eq!(read.projects[0].mcp_servers[0].server.url, s.url);
    assert_eq!(read.projects[0].mcp_servers[0].server.args, s.args);
}

#[test]
fn install_leaves_everything_else_as_it_was() {
    let mut d = doc(TWO_PROJECTS);
    d.install("foo", &entry("/A", server("run", &["/A/data"])), "/C").unwrap();
    let expected = r#"{
  "numStartups": 7,
  "projects": {
    "/A": {"mcpServers": {"foo": {"command": "run", "args": ["/A/data"]}}, "history": [1, 2.5, "x", null, true]},
    "/B": {"mcpServers": {"foo": {"command": "run", "args": ["/B/data"]}, "bar": {"url": "http://b", "type": "http"}}},
    "/C": {"mcpServers": {"foo": {"type": null, "command": "run", "url": null, "args": ["/C/data"], "env": {}}}}
  },
  "userID": "abc"
}"#;
    assert_eq!(d.render().unwrap(), canonical(expected));
}

#[test]
fn install_twice_overwrites() {
    let mut once = doc(TWO_PROJECTS);
    once.install("foo", &entry("/B", server("new", &["/B/x"])), "/A").unwrap();
    let mut twice = doc(TWO_PROJECTS);
    twice.install("foo", &entry("/B", server("old", &[])), "/A").unwrap();
    twice.install("foo", &entry("/B", server("new", &["/B/x"])), "/A").unwrap();
    twice.install("foo", &entry("/B", server("new", &["/B/x"])), "/A").unwrap();
    assert_eq!(once.render().unwrap(), twice.render().unwrap());
    let read = once.claude_json().unwrap();
    let a = read.projects.iter().find(|p| p.path == "/A").unwrap();
    assert_eq!(a.mcp_servers.len(), 1);
    assert_eq!(a.mcp_servers[0].server.args, vec!["/A/x"]);
}

#[test]
fn uninstall_removes_only_the_named_server_of_the_project() {
    let mut d = doc(TWO_PROJECTS);
    d.uninstall("foo", "/B");
    let expected = r#"{
  "numStartups": 7,
  "projects": {
    "/A": {"mcpServers": {"foo": {"command": "run", "args": ["/A/data"]}}, "history": [1, 2.5, "x", null, true]},
    "/B": {"mcpServers": {"bar": {"url": "http://b", "type": "http"}}}
  },
  "userID": "abc"
}"#;
    assert_eq!(d.render().unwrap(), canonical(expected));
}

#[test]
fn uninstall_of_what_is_not_there_changes_nothing() {
    for text in [TWO_PROJECTS, "{}", "[]", "null", r#"{"projects": 1}"#, r#"{"projects": {"/B": []}}"#, r#"{"projects": {"/B": {"mcpServers": ["foo"]}}}"#] {
        let mut d = doc(text);
        d.uninstall("nothing", "/B");
        d.uninstall("foo", "/nowhere");
        assert_eq!(d.render().unwrap(), canonical(text));
    }
}

#[test]
fn uninstall_after_install_gives_the_document_back() {
    let mut d = doc(TWO_PROJECTS);
    d.install("new", &entry("/A", server("run", &["/A/data"])), "/B").unwrap();
    assert_ne!(d.render().unwrap(), canonical(TWO_PROJECTS));
    d.uninstall("new", "/B");
    assert_eq!(d.render().unwrap(), canonical(TWO_PROJECTS));
}

#[test]
fn registry_is_read_project_by_project() {
    let claude = load_claude_json(TWO_PROJECTS).unwrap();
    assert_eq!(claude.projects.len(), 2);
    let a = claude.projects.iter().find(|p| p.path == "/A").unwrap();
    let b = claude.projects.iter().find(|p| p.path == "/B").unwrap();
    assert_eq!(a.mcp_servers, vec![NamedServer { name: "foo".to_string(), server: server("run", &["/A/data"]) }]);
    assert_eq!(b.mcp_servers.len(), 2);
    let bar = b.mcp_servers.iter().find(|s| s.name == "bar").unwrap();
    assert_eq!(bar.server.command, None);
    assert_eq!(bar.server.url, Some("http://b".to_string()));
    assert_eq!(bar.server.server_type, Some("http".to_string()));
    assert_eq!(bar.server.args, Vec::<String>::new());
    assert_eq!(bar.server.env, Vec::<EnvVar>::new());
}

#[test]
fn registry_is_read_in_ascending_order() {
    let claude = load_claude_json(
        r#"{"projects": {"/b": {"mcpServers": {"z": {}, "a": {}, "m": {}}}, "/a/x": {}, "/a": {}}}"#,
    )
    .unwrap();
    let paths: Vec<&str> = claude.projects.iter().map(|p| p.path.as_str()).collect();
    assert_eq!(paths, vec!["/a", "/a/x", "/b"]);
    let names: Vec<&str> = claude.projects[2].mcp_servers.iter().map(|s| s.name.as_str()).collect();
    assert_eq!(names, vec!["a", "m", "z"]);
}

#[test]
fn what_is_read_is_well_formed() {
    let claude = load_claude_json(TWO_PROJECTS).unwrap();
    assert!(claude.is_well_formed());
    let local = load_mcp_json(r#"{"mcpServers": {"b": {"env": {"Z": "1", "A": "2"}}, "a": {}}}"#).unwrap();
    assert!(cc_mcp_admin::registry::servers_well_formed(&local));
    let sources = load_overrides(&vec![OverrideFile { project: "/A".to_string(), content: "{}".to_string() }]);
    assert!(cc_mcp_admin::registry::sources_well_formed(&sources));
}

#[test]
fn render_always_gives_a_text() {
    for text in ["null", "true", "1", "-2.5e3", "1e400", r#""x""#, "[]", "{}", r#"{"a": [{"b": null}, 1.0, "é"]}"#] {
        if let Ok(d) = JsonDocument::parse(text) {
            let written = d.render();
            assert!(written.is_ok());
            assert_eq!(JsonDocument::parse(&written.unwrap()).unwrap().render(), d.render());
        }
    }
}

#[test]
fn registry_without_projects_is_empty() {
    assert_eq!(load_claude_json("{}"), Ok(ClaudeJson { projects: Vec::new() }));
    assert_eq!(load_claude_json(r#"{"projects": {}}"#), Ok(ClaudeJson { projects: Vec::new() }));
    assert_eq!(
        load_claude_json(r#"{"projects": {"/A": {}}}"#),
        Ok(ClaudeJson { projects: vec![ProjectConfig { path: "/A".to_string(), mcp_servers: Vec::new() }] })
    );
}

#[test]
fn registry_that_is_not_written_as_one_is_unreadable() {
    for text in [
        "not json",
        "[]",
        "null",
        r#"{"projects": []}"#,
        r#"{"projects": null}"#,
        r#"{"projects": {"/A": 1}}"#,
        r#"{"projects": {"/A": {"mcpServers": []}}}"#,
        r#"{"projects": {"/A": {"mcpServers": {"foo": "run"}}}}"#,
        r#"{"projects": {"/A": {"mcpServers": {"foo": {"command": 1}}}}}"#,
        r#"{"projects": {"/A": {"mcpServers": {"foo": {"args": "x"}}}}}"#,
        r#"{"projects": {"/A": {"mcpServers": {"foo": {"args": ["x", 1]}}}}}"#,
        r#"{"projects": {"/A": {"mcpServers": {"foo": {"args": null}}}}}"#,
        r#"{"projects": {"/A": {"mcpServers": {"foo": {"env": {"K": 1}}}}}}"#,
        r#"{"projects": {"/A": {"mcpServers": {"foo": {"env": []}}}}}"#,
        r#"{"projects": {"/A": {}, "/B": {"mcpServers": {"ok": {}, "bad": {"url": false}}}}}"#,
    ] {
        assert_eq!(load_claude_json(text), Err(RegistryError::Unreadable));
    }
}

#[test]
fn server_members_may_be_missing_or_null() {
    let read = load_mcp_json(r#"{"mcpServers": {"foo": {"type": null, "command": null, "url": null, "extra": [1]}, "bar": {}}}"#).unwrap();
    assert_eq!(read.len(), 2);
    for s in &read {
        assert_eq!(s.server, McpServer { server_type: None, command: None, url: None, args: Vec::new(), env: Vec::new() });
    }
}

#[test]
fn override_file_is_read_or_not() {
    let read = load_mcp_json(r#"{"mcpServers": {"foo": {"command": "run", "env": {"K": "V"}}}}"#).unwrap();
    assert_eq!(read.len(), 1);
    assert_eq!(read[0].name, "foo");
    assert_eq!(read[0].server.env, vec![EnvVar { name: "K".to_string(), value: "V".to_string() }]);
    assert_eq!(load_mcp_json("{}"), Some(Vec::new()));
    assert_eq!(load_mcp_json("{ broken"), None);
    assert_eq!(load_mcp_json("[]"), None);
    assert_eq!(load_mcp_json(r#"{"mcpServers": {"foo": 1}}"#), None);
}

#[test]
fn unreadable_override_files_are_passed_over() {
    let files = vec![
        OverrideFile { project: "/A".to_string(), content: r#"{"mcpServers": {"foo": {"command": "a"}}}"#.to_string() },
        OverrideFile { project: "/B".to_string(), content: "{ broken".to_string() },
        OverrideFile { project: "/C".to_string(), content: r#"{"mcpServers": {"foo": {"command": 3}}}"#.to_string() },
        OverrideFile { project: "/D".to_string(), content: r#"{"mcpServers": {"bar": {"command": "d"}}}"#.to_string() },
    ];
    let sources = load_overrides(&files);
    assert_eq!(sources.len(), 2);
    assert_eq!(sources[0].path, "/A");
    assert_eq!(sources[1].path, "/D");
    assert_eq!(sources[1].mcp_servers[0].name, "bar");
    let registry = collect_all_mcp_servers(&ClaudeJson { projects: Vec::new() }, &sources);
    assert_eq!(registry.len(), 2);
}

#[test]
fn listing_has_one_line_for_every_name_in_order() {
    let claude = load_claude_json(TWO_PROJECTS).unwrap();
    let registry = collect_all_mcp_servers(&claude, &Vec::new());
    let current = get_current_project_mcp_servers(&claude, "/B", None);
    let lines = list_mcp_servers(&registry, &current, "/B");
    assert_eq!(lines.len(), 2);
    assert_eq!(lines[0].name, "bar");
    assert!(lines[0].enabled);
    assert!(!lines[0].has_diff);
    assert_eq!(lines[0].target, "http://b");
    assert!(lines[0].target_is_url);
    assert_eq!(lines[0].used_in, vec![ProjectUse { project: "/B".to_string(), is_current: true }]);
    assert_eq!(lines[1].name, "foo");
    assert!(lines[1].enabled);
    assert!(!lines[1].has_diff);
    assert_eq!(lines[1].target, "run");
    assert!(!lines[1].target_is_url);
    assert_eq!(
        lines[1].used_in,
        vec![
            ProjectUse { project: "/A".to_string(), is_current: false },
            ProjectUse { project: "/B".to_string(), is_current: true },
        ]
    );
    let elsewhere = list_mcp_servers(&registry, &get_current_project_mcp_servers(&claude, "/A", None), "/A");
    assert!(!elsewhere[0].enabled);
    assert!(elsewhere[1].enabled);
    assert!(elsewhere[1].used_in[0].is_current);
}

#[test]
fn listing_marks_names_whose_definitions_differ() {
    let claude = load_claude_json(TWO_VERSIONS).unwrap();
    let registry = collect_all_mcp_servers(&claude, &Vec::new());
    let current = get_current_project_mcp_servers(&claude, "/C", None);
    let lines = list_mcp_servers(&registry, &current, "/C");
    assert_eq!(lines.len(), 1);
    assert!(lines[0].has_diff);
    assert!(!lines[0].enabled);
    assert_eq!(lines[0].target, "run-v1");
    assert!(list_mcp_servers(&collect_all_mcp_servers(&ClaudeJson { projects: Vec::new() }, &Vec::new()), &current, "/C").is_empty());
}

#[test]
fn report_fails_for_an_unknown_name() {
    let claude = load_claude_json(TWO_PROJECTS).unwrap();
    let registry = collect_all_mcp_servers(&claude, &Vec::new());
    let current = get_current_project_mcp_servers(&claude, "/A", None);
    assert_eq!(show_mcp_server("nothing", &registry, &current), Err(CommandError::NameNotFound));
}

#[test]
fn report_highlights_what_sets_a_definition_apart() {
    let text = r#"{"projects": {
        "/A": {"mcpServers": {"foo": {"command": "run", "args": ["/A/data", "-v", "x"], "env": {"K": "V"}}}},
        "/B": {"mcpServers": {"foo": {"command": "run", "args": ["/B/data", "-q"], "env": {"K": "V"}}}},
        "/C": {"mcpServers": {"foo": {"command": "other", "args": ["/C/data", "-v", "x"]}}},
        "/D": {"mcpServers": {"foo": {"url": "http://d", "env": {"K": "W"}}}}
    }}"#;
    let claude = load_claude_json(text).unwrap();
    let registry = collect_all_mcp_servers(&claude, &Vec::new());
    let current = get_current_project_mcp_servers(&claude, "/B", None);
    let report = show_mcp_server("foo", &registry, &current).unwrap();
    assert_eq!(report.name, "foo");
    assert!(report.enabled);
    assert_eq!(report.configurations.len(), 4);
    let plain = |t: &str| ArgDisplay { text: t.to_string(), highlighted: false };
    let marked = |t: &str| ArgDisplay { text: t.to_string(), highlighted: true };
    let k = |v: &str| vec![EnvVar { name: "K".to_string(), value: v.to_string() }];

    let a = &report.configurations[0];
    assert_eq!(a.source_project, "/A");
    assert_eq!(a.target, Some(TargetLine { is_url: false, text: "run".to_string(), highlighted: false }));
    assert_eq!(a.args, vec![plain("/A/data"), plain("-v"), plain("x")]);
    assert!(!a.args_differ);
    assert_eq!(a.env, EnvDisplay::Shown { vars: k("V"), highlighted: false });

    let b = &report.configurations[1];
    assert_eq!(b.target, Some(TargetLine { is_url: false, text: "run".to_string(), highlighted: false }));
    assert_eq!(b.args, vec![plain("/B/data"), marked("-q")]);
    assert!(b.args_differ);
    assert_eq!(b.env, EnvDisplay::Shown { vars: k("V"), highlighted: false });

    let c = &report.configurations[2];
    assert_eq!(c.target, Some(TargetLine { is_url: false, text: "other".to_string(), highlighted: true }));
    assert_eq!(c.args, vec![plain("/C/data"), plain("-v"), plain("x")]);
    assert!(!c.args_differ);
    assert_eq!(c.env, EnvDisplay::Missing);

    let d = &report.configurations[3];
    assert_eq!(d.source_project, "/D");
    assert_eq!(d.target, Some(TargetLine { is_url: true, text: "http://d".to_string(), highlighted: true }));
    assert_eq!(d.args, Vec::<ArgDisplay>::new());
    assert!(!d.args_differ);
    assert_eq!(d.env, EnvDisplay::Shown { vars: k("W"), highlighted: true });
}

#[test]
fn report_of_a_bare_definition_shows_nothing_but_the_project() {
    let claude = load_claude_json(r#"{"projects": {"/A": {"mcpServers": {"foo": {}}}, "/B": {"mcpServers": {"foo": {"args": ["/B/x", "y"]}}}}}"#).unwrap();
    let registry = collect_all_mcp_servers(&claude, &Vec::new());
    let current = get_current_project_mcp_servers(&claude, "/Z", None);
    let report = show_mcp_server("foo", &registry, &current).unwrap();
    assert!(!report.enabled);
    assert_eq!(report.configurations[0].target, None);
    assert_eq!(report.configurations[0].args, Vec::<ArgDisplay>::new());
    assert_eq!(report.configurations[0].env, EnvDisplay::Hidden);
    assert_eq!(report.configurations[1].env, EnvDisplay::Hidden);
    assert!(report.configurations[1].args_differ);
    assert_eq!(
        report.configurations[1].args,
        vec![
            ArgDisplay { text: "/B/x".to_string(), highlighted: true },
            ArgDisplay { text: "y".to_string(), highlighted: true },
        ]
    );
}

#[test]
fn add_does_nothing_for_a_server_that_is_enabled() {
    let claude = load_claude_json(TWO_PROJECTS).unwrap();
    let registry = collect_all_mcp_servers(&claude, &Vec::new());
    let current = get_current_project_mcp_servers(&claude, "/A", None);
    let mut d = doc(TWO_PROJECTS);
    assert_eq!(add_mcp_server("foo", None, &registry, &current, "/A", &mut d), Ok(AddOutcome::AlreadyEnabled));
    assert_eq!(add_mcp_server("foo", Some("zzz"), &registry, &current, "/A", &mut d), Ok(AddOutcome::AlreadyEnabled));
    assert_eq!(d.render().unwrap(), canonical(TWO_PROJECTS));
}

#[test]
fn add_fails_for_an_unknown_name() {
    let claude = load_claude_json(TWO_PROJECTS).unwrap();
    let registry = collect_all_mcp_servers(&claude, &Vec::new());
    let current = get_current_project_mcp_servers(&claude, "/C", None);
    let mut d = doc(TWO_PROJECTS);
    assert_eq!(add_mcp_server("nothing", None, &registry, &current, "/C", &mut d), Err(CommandError::NameNotFound));
    assert_eq!(d.render().unwrap(), canonical(TWO_PROJECTS));
}

#[test]
fn add_fails_where_the_hint_matches_nothing() {
    let claude = load_claude_json(TWO_PROJECTS).unwrap();
    let registry = collect_all_mcp_servers(&claude, &Vec::new());
    let current = get_current_project_mcp_servers(&claude, "/C", None);
    let mut d = doc(TWO_PROJECTS);
    assert_eq!(
        add_mcp_server("foo", Some("zzz"), &registry, &current, "/C", &mut d),
        Err(CommandError::Resolve(ResolveError::NoMatchingSource {
            name: "foo".to_string(),
            hint: "zzz".to_string(),
            available: vec!["/A".to_string(), "/B".to_string()],
        }))
    );
    assert_eq!(d.render().unwrap(), canonical(TWO_PROJECTS));
}

#[test]
fn add_fails_where_the_registry_cannot_take_the_server() {
    let claude = load_claude_json(TWO_PROJECTS).unwrap();
    let registry = collect_all_mcp_servers(&claude, &Vec::new());
    let current = get_current_project_mcp_servers(&claude, "/C", None);
    let mut d = doc(r#"{"projects": "none"}"#);
    assert_eq!(
        add_mcp_server("foo", None, &registry, &current, "/C", &mut d),
        Err(CommandError::Registry(RegistryError::Unwritable))
    );
}

#[test]
fn add_of_equivalent_definitions_needs_no_hint() {
    let text = r#"{"projects": {
        "/A": {"mcpServers": {"foo": {"command": "run", "args": ["/A/data"]}}},
        "/B": {"mcpServers": {"foo": {"command": "run", "args": ["/B/data"]}}}
    }}"#;
    let claude = load_claude_json(text).unwrap();
    let registry = collect_all_mcp_servers(&claude, &Vec::new());
    assert!(!cc_mcp_admin::differ::configs_differ(registry.get("foo").unwrap()));
    assert_eq!(
        cc_mcp_admin::differ::normalize_args(&registry.get("foo").unwrap()[0].server.args, "/A"),
        vec!["<PROJECT>/data"]
    );
    assert_eq!(
        cc_mcp_admin::differ::normalize_args(&registry.get("foo").unwrap()[1].server.args, "/B"),
        vec!["<PROJECT>/data"]
    );
    let current = get_current_project_mcp_servers(&claude, "/C", None);
    let mut d = doc(text);
    let done = add_mcp_server("foo", None, &registry, &current, "/C", &mut d).unwrap();
    match done {
        AddOutcome::Added(s) => assert_eq!(s.args, vec!["/C/data"]),
        AddOutcome::AlreadyEnabled => panic!("the server was not enabled"),
    }
    let after = load_claude_json(&d.render().unwrap()).unwrap();
    let c = after.projects.iter().find(|p| p.path == "/C").unwrap();
    assert_eq!(c.mcp_servers.len(), 1);
    assert_eq!(c.mcp_servers[0].name, "foo");
    assert_eq!(c.mcp_servers[0].server.args, vec!["/C/data"]);
    assert_eq!(c.mcp_servers[0].server.command, Some("run".to_string()));
}

#[test]
fn add_of_differing_definitions_needs_a_hint() {
    let claude = load_claude_json(TWO_VERSIONS).unwrap();
    let registry = collect_all_mcp_servers(&claude, &Vec::new());
    assert!(cc_mcp_admin::differ::configs_differ(registry.get("foo").unwrap()));
    let current = get_current_project_mcp_servers(&claude, "/C", None);
    let mut d = doc(TWO_VERSIONS);
    assert_eq!(
        add_mcp_server("foo", None, &registry, &current, "/C", &mut d),
        Err(CommandError::Resolve(ResolveError::AmbiguousSource {
            name: "foo".to_string(),
            candidates: vec!["/A".to_string(), "/B".to_string()],
        }))
    );
    assert_eq!(d.render().unwrap(), canonical(TWO_VERSIONS));
    let done = add_mcp_server("foo", Some("B"), &registry, &current, "/C", &mut d).unwrap();
    match done {
        AddOutcome::Added(s) => assert_eq!(s.command, Some("run-v2".to_string())),
        AddOutcome::AlreadyEnabled => panic!("the server was not enabled"),
    }
    let after = load_claude_json(&d.render().unwrap()).unwrap();
    let c = after.projects.iter().find(|p| p.path == "/C").unwrap();
    assert_eq!(c.mcp_servers[0].server.command, Some("run-v2".to_string()));
}

#[test]
fn install_then_fresh_aggregation_shows_the_server_under_the_destination() {
    let mut d = doc(TWO_PROJECTS);
    let before = collect_all_mcp_servers(&d.claude_json().unwrap(), &Vec::new());
    let source = before.get("foo").unwrap()[0].clone();
    assert_eq!(source.source_project, "/A");
    d.install("foo", &source, "/home/u/new").unwrap();
    let fresh = collect_all_mcp_servers(&load_claude_json(&d.render().unwrap()).unwrap(), &Vec::new());
    let foo = fresh.get("foo").unwrap();
    assert_eq!(foo.len(), 3);
    let installed = foo.iter().find(|e| e.source_project == "/home/u/new").unwrap();
    assert_eq!(installed.server.args, vec!["/home/u/new/data"]);
    assert_eq!(installed.server.command, Some("run".to_string()));
    assert!(!cc_mcp_admin::differ::configs_differ(foo));
}

#[test]
fn remove_fails_for_a_server_that_is_not_enabled() {
    let claude = load_claude_json(TWO_PROJECTS).unwrap();
    let current = get_current_project_mcp_servers(&claude, "/A", None);
    let mut d = doc(TWO_PROJECTS);
    assert_eq!(remove_mcp_server("bar", &current, None, "/A", &mut d), Err(CommandError::NotEnabled));
    assert_eq!(d.render().unwrap(), canonical(TWO_PROJECTS));
}

#[test]
fn remove_leaves_a_server_of_the_override_file_alone() {
    let claude = load_claude_json(TWO_PROJECTS).unwrap();
    let local = load_mcp_json(r#"{"mcpServers": {"foo": {"command": "local"}}}"#).unwrap();
    let current = get_current_project_mcp_servers(&claude, "/A", Some(&local));
    let mut d = doc(TWO_PROJECTS);
    assert_eq!(remove_mcp_server("foo", &current, Some(&local), "/A", &mut d), Ok(RemoveOutcome::OverrideNotRemovable));
    assert_eq!(d.render().unwrap(), canonical(TWO_PROJECTS));
}

#[test]
fn remove_takes_the_server_out_of_the_registry() {
    let claude = load_claude_json(TWO_PROJECTS).unwrap();
    let local = load_mcp_json(r#"{"mcpServers": {"other": {"command": "local"}}}"#).unwrap();
    let current = get_current_project_mcp_servers(&claude, "/B", Some(&local));
    let mut d = doc(TWO_PROJECTS);
    assert_eq!(remove_mcp_server("foo", &current, Some(&local), "/B", &mut d), Ok(RemoveOutcome::Removed));
    let after = d.claude_json().unwrap();
    let a = after.projects.iter().find(|p| p.path == "/A").unwrap();
    let b = after.projects.iter().find(|p| p.path == "/B").unwrap();
    assert_eq!(a.mcp_servers.len(), 1);
    assert_eq!(b.mcp_servers.len(), 1);
    assert_eq!(b.mcp_servers[0].name, "bar");
    let mut expected = doc(TWO_PROJECTS);
    expected.uninstall("foo", "/B");
    assert_eq!(d.render().unwrap(), expected.render().unwrap());
}
