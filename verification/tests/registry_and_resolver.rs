use cc_mcp_admin::model::{EnvVar, McpEntry, McpServer};
use cc_mcp_admin::project::{
    defines_server, find_mcp_json_files, get_current_project_mcp_servers, project_paths,
    shorten_path,
};
use cc_mcp_admin::registry::{
    collect_all_mcp_servers, insert_sorted, servers_well_formed, sources_well_formed, ClaudeJson,
    NamedServer, ProjectConfig, Registry,
};
use cc_mcp_admin::resolver::{adapt_to_project, resolve_source, ResolveError};
use cc_mcp_admin::strmap::StrMap;

fn server(command: &str, args: &[&str]) -> McpServer {
    McpServer {
        server_type: None,
        command: Some(command.to_string()),
        url: None,
        args: args.iter().map(|s| s.to_string()).collect(),
        env: Vec::new(),
    }
}

fn named(name: &str, server: McpServer) -> NamedServer {
    NamedServer { name: name.to_string(), server }
}

fn project(path: &str, servers: Vec<NamedServer>) -> ProjectConfig {
    ProjectConfig { path: path.to_string(), mcp_servers: servers }
}

fn entry(project: &str, server: McpServer) -> McpEntry {
    McpEntry { server, source_project: project.to_string() }
}

fn projects_of(entries: &[McpEntry]) -> Vec<String> {
    entries.iter().map(|e| e.source_project.clone()).collect()
}

#[test]
fn strmap_holds_one_value_per_key_in_key_order() {
    let mut m: StrMap<u32> = StrMap::new();
    assert_eq!(m.len(), 0);
    m.insert("b".to_string(), 2);
    m.insert("a".to_string(), 1);
    m.insert("c".to_string(), 3);
    m.insert("b".to_string(), 20);
    assert_eq!(m.len(), 3);
    assert_eq!(m.key_at(0), "a");
    assert_eq!(m.key_at(1), "b");
    assert_eq!(m.key_at(2), "c");
    assert_eq!(*m.value_at(1), 20);
    assert_eq!(m.get("a"), Some(&1));
    assert_eq!(m.get("d"), None);
    assert!(m.contains_key("c"));
    assert!(!m.contains_key(""));
    assert_eq!(m.remove("a"), Some(1));
    assert_eq!(m.remove("a"), None);
    assert_eq!(m.len(), 2);
    assert_eq!(m.key_at(0), "b");
}

#[test]
fn sources_are_well_formed_where_they_are_maps() {
    let good = vec![named("foo", server("f", &[])), named("bar", server("b", &[]))];
    let twice = vec![named("foo", server("f", &[])), named("bar", server("b", &[])), named("foo", server("g", &[]))];
    let mut bad_env = server("e", &[]);
    bad_env.env = vec![
        EnvVar { name: "K".to_string(), value: "1".to_string() },
        EnvVar { name: "K".to_string(), value: "2".to_string() },
    ];
    let with_bad_env = vec![named("foo", bad_env)];
    assert!(servers_well_formed(&Vec::new()));
    assert!(servers_well_formed(&good));
    assert!(!servers_well_formed(&twice));
    assert!(!servers_well_formed(&with_bad_env));
    assert!(project("/A", good.clone()).is_well_formed());
    assert!(!project("/A", twice.clone()).is_well_formed());
    assert!(sources_well_formed(&vec![project("/A", good.clone()), project("/A", good.clone())]));
    assert!(!sources_well_formed(&vec![project("/A", good.clone()), project("/B", twice.clone())]));
    assert!(ClaudeJson { projects: Vec::new() }.is_well_formed());
    assert!(ClaudeJson { projects: vec![project("/A", good.clone()), project("/B", good.clone())] }.is_well_formed());
    assert!(!ClaudeJson { projects: vec![project("/A", good.clone()), project("/A", Vec::new())] }.is_well_formed());
    assert!(!ClaudeJson { projects: vec![project("/A", good.clone()), project("/B", twice)] }.is_well_formed());
    assert!(!ClaudeJson { projects: vec![project("/A", with_bad_env)] }.is_well_formed());
}

#[test]
fn insert_sorted_goes_behind_equal_projects() {
    let mut entries = vec![entry("/A", server("a", &[])), entry("/C", server("c", &[]))];
    insert_sorted(&mut entries, entry("/B", server("b", &[])));
    insert_sorted(&mut entries, entry("/A", server("a2", &[])));
    insert_sorted(&mut entries, entry("/D", server("d", &[])));
    insert_sorted(&mut entries, entry("", server("first", &[])));
    let commands: Vec<String> = entries.iter().map(|e| e.server.display_target().to_string()).collect();
    assert_eq!(commands, vec!["first", "a", "a2", "b", "c", "d"]);
}

#[test]
fn collect_keeps_every_definition_under_its_name() {
    let claude = ClaudeJson {
        projects: vec![
            project("/B", vec![named("foo", server("run", &["/B/data"])), named("bar", server("bar", &[]))]),
            project("/A", vec![named("foo", server("run", &["/A/data"]))]),
        ],
    };
    let overrides = vec![project("/C", vec![named("foo", server("local", &[])), named("zed", server("z", &[]))])];
    let registry = collect_all_mcp_servers(&claude, &overrides);
    assert_eq!(registry.len(), 3);
    assert!(!registry.is_empty());
    assert_eq!(registry.name_at(0), "bar");
    assert_eq!(registry.name_at(1), "foo");
    assert_eq!(registry.name_at(2), "zed");
    let foo = registry.get("foo").unwrap();
    assert_eq!(projects_of(foo), vec!["/A", "/B", "/C"]);
    assert_eq!(foo[0].server.args, vec!["/A/data"]);
    assert_eq!(foo[2].server.display_target(), "local");
    assert_eq!(projects_of(registry.entries_at(0)), vec!["/B"]);
    assert_eq!(projects_of(registry.get("zed").unwrap()), vec!["/C"]);
    assert!(registry.get("none").is_none());
}

#[test]
fn collect_puts_the_global_definition_before_the_override_of_one_project() {
    let claude = ClaudeJson { projects: vec![project("/A", vec![named("foo", server("global", &[]))])] };
    let overrides = vec![project("/A", vec![named("foo", server("local", &[]))])];
    let registry = collect_all_mcp_servers(&claude, &overrides);
    let foo = registry.get("foo").unwrap();
    assert_eq!(foo.len(), 2);
    assert_eq!(foo[0].server.display_target(), "global");
    assert_eq!(foo[1].server.display_target(), "local");
}

#[test]
fn collect_of_nothing_is_empty() {
    let registry = collect_all_mcp_servers(&ClaudeJson { projects: Vec::new() }, &Vec::new());
    assert!(registry.is_empty());
    assert_eq!(registry.len(), 0);
    assert!(Registry::new().is_empty());
}

#[test]
fn collect_does_not_depend_on_the_order_of_the_sources() {
    let a = project("/A", vec![named("foo", server("run", &["/A/x"])), named("bar", server("b", &[]))]);
    let b = project("/B", vec![named("foo", server("run", &["/B/x"]))]);
    let c = project("/C", vec![named("bar", server("b2", &[]))]);
    let one = collect_all_mcp_servers(
        &ClaudeJson { projects: vec![a.clone(), b.clone(), c.clone()] },
        &Vec::new(),
    );
    let two = collect_all_mcp_servers(&ClaudeJson { projects: vec![c, b, a] }, &Vec::new());
    assert_eq!(one.len(), two.len());
    for i in 0..one.len() {
        assert_eq!(one.name_at(i), two.name_at(i));
        assert_eq!(one.entries_at(i), two.entries_at(i));
    }
}

#[test]
fn registry_add_orders_by_project() {
    let mut registry = Registry::new();
    registry.add("foo", entry("/B", server("b", &[])));
    registry.add("foo", entry("/A", server("a", &[])));
    registry.add("bar", entry("/Z", server("z", &[])));
    assert_eq!(registry.len(), 2);
    assert_eq!(projects_of(registry.get("foo").unwrap()), vec!["/A", "/B"]);
}

#[test]
fn resolver_with_a_hint_takes_the_first_match() {
    let entries = vec![
        entry("/home/u/alpha", server("a", &[])),
        entry("/home/u/beta", server("b", &[])),
        entry("/home/u/betamax", server("c", &[])),
    ];
    assert_eq!(resolve_source("foo", &entries, Some("beta")), Ok(&entries[1]));
    assert_eq!(resolve_source("foo", &entries, Some("betam")), Ok(&entries[2]));
    assert_eq!(resolve_source("foo", &entries, Some("/home")), Ok(&entries[0]));
    assert_eq!(resolve_source("foo", &entries, Some("")), Ok(&entries[0]));
}

#[test]
fn resolver_with_a_hint_matching_one_source_returns_it() {
    let mut entries = vec![entry("/p/target", server("wanted", &[]))];
    for i in 0..20 {
        entries.push(entry(&format!("/q/other{}", i), server(&format!("c{}", i), &[])));
        entries.insert(0, entry(&format!("/a/other{}", i), server(&format!("d{}", i), &[])));
        let picked = resolve_source("foo", &entries, Some("target")).unwrap();
        assert_eq!(picked.server.display_target(), "wanted");
    }
}

#[test]
fn resolver_with_a_hint_that_matches_nothing_lists_every_source() {
    let entries = vec![entry("/A", server("a", &[])), entry("/B", server("b", &[]))];
    assert_eq!(
        resolve_source("foo", &entries, Some("zzz")),
        Err(ResolveError::NoMatchingSource {
            name: "foo".to_string(),
            hint: "zzz".to_string(),
            available: vec!["/A".to_string(), "/B".to_string()],
        })
    );
}

#[test]
fn resolver_without_a_hint_takes_the_first_of_equivalent_sources() {
    let one = vec![entry("/A", server("run", &["/A/data"]))];
    assert_eq!(resolve_source("foo", &one, None), Ok(&one[0]));
    let same = vec![
        entry("/A", server("run", &["/A/data"])),
        entry("/B", server("run", &["/B/data"])),
        entry("/C", server("run", &["/C/data"])),
    ];
    for _ in 0..3 {
        assert_eq!(resolve_source("foo", &same, None), Ok(&same[0]));
    }
}

#[test]
fn resolver_without_a_hint_refuses_sources_that_differ() {
    let entries = vec![entry("/A", server("run-v1", &[])), entry("/B", server("run-v2", &[]))];
    assert_eq!(
        resolve_source("foo", &entries, None),
        Err(ResolveError::AmbiguousSource {
            name: "foo".to_string(),
            candidates: vec!["/A".to_string(), "/B".to_string()],
        })
    );
    assert_eq!(resolve_source("foo", &entries, Some("B")).unwrap().server.display_target(), "run-v2");
}

#[test]
fn resolver_without_a_hint_picks_the_first_project_of_the_merged_registry() {
    let claude = ClaudeJson {
        projects: vec![
            project("/zeta", vec![named("foo", server("run", &["/zeta/x"]))]),
            project("/alpha", vec![named("foo", server("run", &["/alpha/x"]))]),
            project("/mid", vec![named("foo", server("run", &["/mid/x"]))]),
        ],
    };
    let registry = collect_all_mcp_servers(&claude, &Vec::new());
    let entries = registry.get("foo").unwrap();
    assert_eq!(resolve_source("foo", entries, None).unwrap().source_project, "/alpha");
}

#[test]
fn adapt_rewrites_the_arguments_that_hold_the_source_project() {
    let mut s = server("run", &["/A/data", "--root=/A", "plain", "/A", "/B/data"]);
    s.server_type = Some("stdio".to_string());
    s.url = Some("http://x".to_string());
    s.env = vec![EnvVar { name: "HOME".to_string(), value: "/A".to_string() }];
    let adapted = adapt_to_project(&entry("/A", s.clone()), "/C");
    assert_eq!(adapted.args, vec!["/C/data", "--root=/C", "plain", "/C", "/B/data"]);
    assert_eq!(adapted.server_type, s.server_type);
    assert_eq!(adapted.command, s.command);
    assert_eq!(adapted.url, s.url);
    assert_eq!(adapted.env, s.env);
}

#[test]
fn adapt_replaces_every_occurrence_in_an_argument() {
    let adapted = adapt_to_project(&entry("/A", server("run", &["/A/x:/A/y"])), "/home/u/new");
    assert_eq!(adapted.args, vec!["/home/u/new/x:/home/u/new/y"]);
}

#[test]
fn current_servers_are_the_global_ones_with_the_override_laid_over() {
    let claude = ClaudeJson {
        projects: vec![
            project("/A", vec![named("foo", server("global-foo", &[])), named("bar", server("bar", &[]))]),
            project("/B", vec![named("other", server("o", &[]))]),
        ],
    };
    let local = vec![named("foo", server("local-foo", &[])), named("zed", server("z", &[]))];
    let current = get_current_project_mcp_servers(&claude, "/A", Some(&local));
    assert_eq!(current.len(), 3);
    assert!(current.contains_key("foo"));
    assert!(current.contains_key("bar"));
    assert!(current.contains_key("zed"));
    assert!(!current.contains_key("other"));
    assert_eq!(current.get("foo").unwrap().display_target(), "local-foo");
    assert_eq!(current.get("bar").unwrap().display_target(), "bar");
    let global_only = get_current_project_mcp_servers(&claude, "/A", None);
    assert_eq!(global_only.len(), 2);
    assert_eq!(global_only.get("foo").unwrap().display_target(), "global-foo");
    let unknown = get_current_project_mcp_servers(&claude, "/nowhere", Some(&local));
    assert_eq!(unknown.len(), 2);
    assert!(unknown.get("bar").is_none());
    assert_eq!(get_current_project_mcp_servers(&claude, "/nowhere", None).len(), 0);
}

#[test]
fn defines_server_looks_for_the_name() {
    let local = vec![named("foo", server("f", &[])), named("bar", server("b", &[]))];
    assert!(defines_server(&local, "foo"));
    assert!(defines_server(&local, "bar"));
    assert!(!defines_server(&local, "fo"));
    assert!(!defines_server(&Vec::new(), "foo"));
}

#[test]
fn override_files_are_looked_for_in_the_known_projects() {
    let claude = ClaudeJson {
        projects: vec![project("/A", Vec::new()), project("/B", Vec::new()), project("/C", Vec::new())],
    };
    let paths = project_paths(&claude);
    assert_eq!(paths, vec!["/A", "/B", "/C"]);
    assert_eq!(find_mcp_json_files(&paths, &[true, false, true]), vec!["/A", "/C"]);
    assert_eq!(find_mcp_json_files(&paths, &[false, false, false]), Vec::<String>::new());
    assert_eq!(find_mcp_json_files(&paths, &[true]), vec!["/A"]);
    assert_eq!(find_mcp_json_files(&paths, &[false, true, true, true]), vec!["/B", "/C"]);
    assert_eq!(find_mcp_json_files(&[], &[true]), Vec::<String>::new());
}

#[test]
fn shorten_path_writes_the_home_directory_as_a_tilde() {
    assert_eq!(shorten_path("/home/u/proj", Some("/home/u")), "~/proj");
    assert_eq!(shorten_path("/home/u", Some("/home/u")), "~");
    assert_eq!(shorten_path("/srv/home/u/proj", Some("/home/u")), "/srv/home/u/proj");
    assert_eq!(shorten_path("/home/u/proj", None), "/home/u/proj");
    assert_eq!(shorten_path("/home/u/proj", Some("")), "~/home/u/proj");
    assert_eq!(shorten_path("/home/u/home/u", Some("/home/u")), "~/home/u");
}
