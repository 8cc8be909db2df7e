use cc_mcp_admin::differ::{configs_differ, normalize_args};
use cc_mcp_admin::model::{env_equal, env_lookup, texts_distinct, EnvVar, McpEntry, McpServer};
use cc_mcp_admin::text::{str_contains, str_eq, str_le, str_matches_at, str_replace, str_starts_with};

fn server(command: Option<&str>, url: Option<&str>, args: &[&str], env: &[(&str, &str)]) -> McpServer {
    McpServer {
        server_type: None,
        command: command.map(|s| s.to_string()),
        url: url.map(|s| s.to_string()),
        args: args.iter().map(|s| s.to_string()).collect(),
        env: env
            .iter()
            .map(|(k, v)| EnvVar { name: k.to_string(), value: v.to_string() })
            .collect(),
    }
}

fn entry(project: &str, server: McpServer) -> McpEntry {
    McpEntry { server, source_project: project.to_string() }
}

#[test]
fn contains_finds_a_substring_anywhere() {
    assert!(str_contains("/home/u/votingmachine", "voting"));
    assert!(str_contains("/home/u/votingmachine", "/home"));
    assert!(str_contains("/home/u/votingmachine", "machine"));
    assert!(!str_contains("/home/u/votingmachine", "votes"));
    assert!(!str_contains("ab", "abc"));
}

#[test]
fn contains_the_empty_text_always() {
    assert!(str_contains("", ""));
    assert!(str_contains("abc", ""));
    assert!(!str_contains("", "a"));
}

#[test]
fn contains_agrees_with_std_on_samples() {
    let samples = ["", "a", "aa", "ab", "aba", "abab", "é", "aéb", "日本語", "本"];
    for hay in samples {
        for needle in samples {
            assert_eq!(str_contains(hay, needle), hay.contains(needle));
        }
    }
}

#[test]
fn matches_at_counts_characters_not_bytes() {
    assert!(str_matches_at("日本語", "本", 1));
    assert!(!str_matches_at("日本語", "本", 3));
    assert!(str_matches_at("abc", "", 3));
    assert!(!str_matches_at("abc", "", 4));
    assert!(str_starts_with("/home/u/p", "/home/u"));
    assert!(!str_starts_with("/home/u/p", "home"));
}

#[test]
fn replace_replaces_every_occurrence() {
    assert_eq!(str_replace("/A/data:/A/log", "/A", "<PROJECT>"), "<PROJECT>/data:<PROJECT>/log");
    assert_eq!(str_replace("abc", "x", "y"), "abc");
    assert_eq!(str_replace("abc", "abc", ""), "");
    assert_eq!(str_replace("", "a", "b"), "");
}

#[test]
fn replace_does_not_match_inside_a_match() {
    assert_eq!(str_replace("aaa", "aa", "b"), "ba");
    assert_eq!(str_replace("aaaa", "aa", "b"), "bb");
    assert_eq!(str_replace("ababa", "aba", "x"), "xba");
}

#[test]
fn replace_of_the_empty_text_goes_between_all_characters() {
    assert_eq!(str_replace("ab", "", "-"), "-a-b-");
    assert_eq!(str_replace("", "", "<PROJECT>"), "<PROJECT>");
}

#[test]
fn replace_agrees_with_std_on_samples() {
    let samples = ["", "a", "aa", "ab", "aba", "abab", "é", "aéb", "日本語", "本", "/A", "/A/x/A"];
    for s in samples {
        for from in samples {
            for to in ["", "-", "<PROJECT>", "é"] {
                assert_eq!(str_replace(s, from, to), s.replace(from, to));
            }
        }
    }
}

#[test]
fn order_is_lexicographic_by_code_point() {
    assert!(str_le("", ""));
    assert!(str_le("", "a"));
    assert!(!str_le("a", ""));
    assert!(str_le("/A", "/B"));
    assert!(!str_le("/B", "/A"));
    assert!(str_le("/A", "/A/x"));
    assert!(!str_le("/A/x", "/A"));
    assert!(str_le("Z", "a"));
    assert!(str_le("z", "é"));
}

#[test]
fn order_agrees_with_std_on_samples() {
    let samples = ["", "a", "aa", "ab", "b", "B", "é", "aéb", "日本語", "本", "/A", "/A/x", "/B", "\u{10000}", "\u{ffff}"];
    for a in samples {
        for b in samples {
            assert_eq!(str_le(a, b), a <= b);
            assert_eq!(str_eq(a, b), a == b);
        }
    }
}

#[test]
fn display_target_prefers_the_command() {
    assert_eq!(server(Some("run"), Some("http://x"), &[], &[]).display_target(), "run");
    assert_eq!(server(None, Some("http://x"), &[], &[]).display_target(), "http://x");
    assert_eq!(server(None, None, &[], &[]).display_target(), "unknown");
}

#[test]
fn texts_are_distinct_where_none_repeats() {
    let list = |items: &[&str]| items.iter().map(|s| s.to_string()).collect::<Vec<String>>();
    assert!(texts_distinct(&list(&[])));
    assert!(texts_distinct(&list(&["a"])));
    assert!(texts_distinct(&list(&["a", "b", "ab", ""])));
    assert!(!texts_distinct(&list(&["a", "b", "a"])));
    assert!(!texts_distinct(&list(&["x", "x"])));
    assert!(!texts_distinct(&list(&["a", "b", "c", "", "d", ""])));
}

#[test]
fn server_is_well_formed_where_no_variable_is_named_twice() {
    assert!(server(None, None, &[], &[]).is_well_formed());
    assert!(server(None, None, &[], &[("A", "1"), ("B", "1")]).is_well_formed());
    assert!(!server(None, None, &[], &[("A", "1"), ("B", "2"), ("A", "1")]).is_well_formed());
}

#[test]
fn clone_keeps_every_field() {
    let mut s = server(Some("run"), Some("u"), &["a", "b"], &[("K", "V")]);
    s.server_type = Some("stdio".to_string());
    assert_eq!(s.clone(), s);
    let e = entry("/A", s);
    assert_eq!(e.clone(), e);
}

#[test]
fn env_lookup_gives_the_last_binding() {
    let vars = vec![
        EnvVar { name: "A".to_string(), value: "1".to_string() },
        EnvVar { name: "B".to_string(), value: "2".to_string() },
        EnvVar { name: "A".to_string(), value: "3".to_string() },
    ];
    assert_eq!(env_lookup(&vars, "A"), Some(&"3".to_string()));
    assert_eq!(env_lookup(&vars, "B"), Some(&"2".to_string()));
    assert_eq!(env_lookup(&vars, "C"), None);
}

#[test]
fn env_equal_ignores_the_order() {
    let a = server(None, None, &[], &[("A", "1"), ("B", "2")]).env;
    let b = server(None, None, &[], &[("B", "2"), ("A", "1")]).env;
    let c = server(None, None, &[], &[("A", "1"), ("B", "3")]).env;
    let d = server(None, None, &[], &[("A", "1")]).env;
    let e = server(None, None, &[], &[("A", "0"), ("B", "2"), ("A", "1")]).env;
    assert!(env_equal(&a, &b));
    assert!(!env_equal(&a, &c));
    assert!(!env_equal(&a, &d));
    assert!(!env_equal(&d, &a));
    assert!(env_equal(&a, &e));
    assert!(env_equal(&Vec::new(), &Vec::new()));
}

#[test]
fn normalize_args_puts_the_placeholder_for_the_project_path() {
    let args = vec!["/A/data".to_string(), "--root=/A".to_string(), "plain".to_string()];
    assert_eq!(normalize_args(&args, "/A"), vec!["<PROJECT>/data", "--root=<PROJECT>", "plain"]);
    assert_eq!(normalize_args(&args, "/B"), vec!["/A/data", "--root=/A", "plain"]);
    assert_eq!(normalize_args(&[], "/A"), Vec::<String>::new());
}

#[test]
fn differs_is_false_for_none_and_for_one() {
    assert!(!configs_differ(&[]));
    assert!(!configs_differ(&[entry("/A", server(Some("run"), None, &["/A/x"], &[("K", "V")]))]));
    assert!(!configs_differ(&[entry("", server(None, None, &[], &[]))]));
}

#[test]
fn differs_is_false_where_only_the_own_path_differs() {
    let a = entry("/A", server(Some("run"), None, &["/A", "/A/data", "x"], &[("K", "V")]));
    let b = entry("/B", server(Some("run"), None, &["/B", "/B/data", "x"], &[("K", "V")]));
    assert!(!configs_differ(&[a.clone(), b.clone()]));
    assert!(!configs_differ(&[b, a]));
}

#[test]
fn differs_is_true_for_each_kind_of_mismatch() {
    let base = entry("/A", server(Some("run"), Some("u"), &["/A/x"], &[("K", "V")]));
    let same = entry("/B", server(Some("run"), Some("u"), &["/B/x"], &[("K", "V")]));
    let command = entry("/B", server(Some("run2"), Some("u"), &["/B/x"], &[("K", "V")]));
    let no_command = entry("/B", server(None, Some("u"), &["/B/x"], &[("K", "V")]));
    let url = entry("/B", server(Some("run"), Some("v"), &["/B/x"], &[("K", "V")]));
    let args = entry("/B", server(Some("run"), Some("u"), &["/B/y"], &[("K", "V")]));
    let foreign = entry("/B", server(Some("run"), Some("u"), &["/A/x"], &[("K", "V")]));
    let more_args = entry("/B", server(Some("run"), Some("u"), &["/B/x", "z"], &[("K", "V")]));
    let env = entry("/B", server(Some("run"), Some("u"), &["/B/x"], &[("K", "W")]));
    assert!(!configs_differ(&[base.clone(), same.clone()]));
    for other in [command, no_command, url, args, foreign, more_args, env] {
        assert!(configs_differ(&[base.clone(), other.clone()]));
        assert!(configs_differ(&[base.clone(), same.clone(), other]));
    }
}

#[test]
fn differs_compares_with_the_first_only() {
    let a = entry("/A", server(Some("run"), None, &[], &[]));
    let b = entry("/B", server(Some("run"), None, &[], &[]));
    let c = entry("/C", server(Some("other"), None, &[], &[]));
    assert!(configs_differ(&[a.clone(), b.clone(), c.clone()]));
    assert!(configs_differ(&[c, a.clone(), b.clone()]));
    assert!(!configs_differ(&[a, b]));
}

#[test]
fn differs_ignores_the_server_type() {
    let mut a = entry("/A", server(Some("run"), None, &[], &[]));
    let b = entry("/B", server(Some("run"), None, &[], &[]));
    a.server.server_type = Some("stdio".to_string());
    assert!(!configs_differ(&[a, b]));
}
