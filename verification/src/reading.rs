//! Reading the sources: what a JSON document declares as projects and
//! servers. A document is read whole or not at all: one server that is not
//! written as a server makes the document unreadable.

use crate::document::{
    as_items, as_text, is_null, is_object, member, member_names, opt_tree, parsed_tree, tree,
    trees, JsonValue, JsonDocument, RegistryError,
};
use crate::model::{
    env_map, env_names, lemma_env_map_domain, lemma_env_map_last_wins, opt_text, texts, EnvVar,
    McpServer, McpServerView,
};
use crate::mutator::{projects_key, servers_key};
use crate::project::{lemma_overlay_domain, overlay};
use crate::registry::{
    project_path_list, server_names, well_formed_servers, well_formed_sources, ClaudeJson,
    NamedServer, ProjectConfig,
};
use crate::strmap::StrMap;
use crate::text::{distinct_texts, lex_lt};
use vstd::prelude::*;

verus! {

/// An optional text as it is read: missing or null is no text; anything but
/// a text is not readable.
pub open spec fn decoded_opt(v: Option<JsonValue>) -> Option<Option<Seq<char>>> {
    match v {
        None => Some(None),
        Some(JsonValue::Null) => Some(None),
        Some(JsonValue::Text(s)) => Some(Some(s)),
        _ => None,
    }
}

/// Every item is a text.
pub open spec fn all_text(items: Seq<JsonValue>) -> bool {
    forall|i: int| 0 <= i < items.len() ==> #[trigger] items[i] is Text
}

/// A list of arguments as it is read: missing is no arguments; anything but
/// an array of texts is not readable.
pub open spec fn decoded_args(v: Option<JsonValue>) -> Option<Seq<Seq<char>>> {
    match v {
        None => Some(Seq::empty()),
        Some(JsonValue::Array(items)) => if all_text(items) {
            Some(Seq::new(items.len(), |i: int| items[i]->Text_0))
        } else {
            None
        },
        _ => None,
    }
}

/// Every member is a text.
pub open spec fn all_text_members(m: Map<Seq<char>, JsonValue>) -> bool {
    forall|k: Seq<char>| #[trigger] m.contains_key(k) ==> m[k] is Text
}

/// An environment as it is read: missing is no variables; anything but an
/// object of texts is not readable.
pub open spec fn decoded_env(v: Option<JsonValue>) -> Option<Map<Seq<char>, Seq<char>>> {
    match v {
        None => Some(Map::empty()),
        Some(JsonValue::Object(m)) => if all_text_members(m) {
            Some(Map::new(|k: Seq<char>| m.contains_key(k), |k: Seq<char>| m[k]->Text_0))
        } else {
            None
        },
        _ => None,
    }
}

/// A server definition as it is read from an object with the members `type`,
/// `command`, `url`, `args` and `env`, each of which may be missing. Other
/// members are passed over.
pub open spec fn decoded_server(v: JsonValue) -> Option<McpServerView> {
    if !(v is Object) {
        None
    } else if decoded_opt(v.get("type"@)) is Some && decoded_opt(v.get("command"@)) is Some
        && decoded_opt(v.get("url"@)) is Some && decoded_args(v.get("args"@)) is Some
        && decoded_env(v.get("env"@)) is Some {
        Some(
            McpServerView {
                server_type: decoded_opt(v.get("type"@))->0,
                command: decoded_opt(v.get("command"@))->0,
                url: decoded_opt(v.get("url"@))->0,
                args: decoded_args(v.get("args"@))->0,
                env: decoded_env(v.get("env"@))->0,
            },
        )
    } else {
        None
    }
}

/// Every member is a readable server.
pub open spec fn all_servers(m: Map<Seq<char>, JsonValue>) -> bool {
    forall|k: Seq<char>| #[trigger] m.contains_key(k) ==> decoded_server(m[k]) is Some
}

/// A list of servers as it is read: missing is no servers; anything but an
/// object of readable servers is not readable.
pub open spec fn decoded_servers(v: Option<JsonValue>) -> Option<Map<Seq<char>, McpServerView>> {
    match v {
        None => Some(Map::empty()),
        Some(JsonValue::Object(m)) => if all_servers(m) {
            Some(Map::new(|k: Seq<char>| m.contains_key(k), |k: Seq<char>| decoded_server(m[k])->0))
        } else {
            None
        },
        _ => None,
    }
}

/// What an object declares under its member `mcpServers`: the reading of a
/// project's entry in the global registry, and of an override file.
pub open spec fn decoded_project(v: JsonValue) -> Option<Map<Seq<char>, McpServerView>> {
    if v is Object {
        decoded_servers(v.get(servers_key()))
    } else {
        None
    }
}

/// Every member is a readable project.
pub open spec fn all_projects(m: Map<Seq<char>, JsonValue>) -> bool {
    forall|k: Seq<char>| #[trigger] m.contains_key(k) ==> decoded_project(m[k]) is Some
}

/// What the global registry declares, project by project, under its member
/// `projects`; missing is no projects.
pub open spec fn decoded_registry(root: JsonValue) -> Option<
    Map<Seq<char>, Map<Seq<char>, McpServerView>>,
> {
    if !(root is Object) {
        None
    } else {
        match root.get(projects_key()) {
            None => Some(Map::empty()),
            Some(JsonValue::Object(m)) => if all_projects(m) {
                Some(
                    Map::new(
                        |k: Seq<char>| m.contains_key(k),
                        |k: Seq<char>| decoded_project(m[k])->0,
                    ),
                )
            } else {
                None
            },
            _ => None,
        }
    }
}

/// The servers of a list by name.
pub open spec fn named_map(servers: Seq<NamedServer>) -> Map<Seq<char>, McpServerView> {
    overlay(Map::empty(), servers)
}

/// The names of the servers of the list ascend strictly, so that no two
/// servers have one name.
pub open spec fn ascending_names(servers: Seq<NamedServer>) -> bool {
    forall|i: int, j: int|
        0 <= i < j < servers.len() ==> lex_lt(
            #[trigger] servers[i].name@,
            #[trigger] servers[j].name@,
        )
}

/// The projects of a list by path: a later entry of a path replaces an
/// earlier one.
pub open spec fn project_map(projects: Seq<ProjectConfig>) -> Map<
    Seq<char>,
    Map<Seq<char>, McpServerView>,
>
    decreases projects.len(),
{
    if projects.len() == 0 {
        Map::empty()
    } else {
        project_map(projects.drop_last()).insert(
            projects.last().path@,
            named_map(projects.last().mcp_servers@),
        )
    }
}

/// The paths of the projects of the list ascend strictly, so that no two
/// projects have one path.
pub open spec fn ascending_paths(projects: Seq<ProjectConfig>) -> bool {
    forall|i: int, j: int|
        0 <= i < j < projects.len() ==> lex_lt(
            #[trigger] projects[i].path@,
            #[trigger] projects[j].path@,
        )
}

/// The list of servers declares exactly `m`, as a map from name to
/// definition and in ascending order of the names.
pub open spec fn reads_as_servers(servers: Seq<NamedServer>, m: Map<Seq<char>, McpServerView>) -> bool {
    &&& named_map(servers) == m
    &&& ascending_names(servers)
    &&& well_formed_servers(servers)
}

/// The registry `c` declares exactly `m`, as a map from project path to
/// servers, with its projects in ascending order of their paths and the
/// servers of each project in ascending order of their names.
pub open spec fn reads_as(c: ClaudeJson, m: Map<Seq<char>, Map<Seq<char>, McpServerView>>) -> bool {
    &&& project_map(c.projects@) == m
    &&& ascending_paths(c.projects@)
    &&& forall|i: int|
        0 <= i < c.projects@.len() ==> ascending_names((#[trigger] c.projects@[i]).mcp_servers@)
    &&& c.well_formed()
}

/// The last server of a name is the one that the name stands for.
pub proof fn lemma_named_map_last_wins(servers: Seq<NamedServer>, at: int)
    requires
        0 <= at < servers.len(),
        forall|j: int| at < j < servers.len() ==> #[trigger] servers[j].name@ != servers[at].name@,
    ensures
        named_map(servers).contains_key(servers[at].name@),
        named_map(servers)[servers[at].name@] == servers[at].server@,
    decreases servers.len(),
{
    if at < servers.len() - 1 {
        let front = servers.drop_last();
        assert(servers[servers.len() - 1].name@ != servers[at].name@);
        assert forall|j: int| at < j < front.len() implies #[trigger] front[j].name@
            != front[at].name@ by {
            assert(servers[j].name@ != servers[at].name@);
        }
        lemma_named_map_last_wins(front, at);
    }
}

/// A name that a list of servers binds is the name of one of them, which
/// holds what the name stands for.
pub proof fn lemma_named_map_witness(servers: Seq<NamedServer>, name: Seq<char>) -> (at: int)
    requires
        named_map(servers).contains_key(name),
    ensures
        0 <= at < servers.len(),
        servers[at].name@ == name,
        servers[at].server@ == named_map(servers)[name],
    decreases servers.len(),
{
    if servers.last().name@ == name {
        servers.len() - 1
    } else {
        let at = lemma_named_map_witness(servers.drop_last(), name);
        assert(servers[at] == servers.drop_last()[at]);
        at
    }
}

/// The last project of a path is the one that the path stands for.
pub proof fn lemma_project_map_last_wins(projects: Seq<ProjectConfig>, at: int)
    requires
        0 <= at < projects.len(),
        forall|j: int| at < j < projects.len() ==> #[trigger] projects[j].path@ != projects[at].path@,
    ensures
        project_map(projects).contains_key(projects[at].path@),
        project_map(projects)[projects[at].path@] == named_map(projects[at].mcp_servers@),
    decreases projects.len(),
{
    if at < projects.len() - 1 {
        let front = projects.drop_last();
        assert(projects[projects.len() - 1].path@ != projects[at].path@);
        assert forall|j: int| at < j < front.len() implies #[trigger] front[j].path@
            != front[at].path@ by {
            assert(projects[j].path@ != projects[at].path@);
        }
        lemma_project_map_last_wins(front, at);
    }
}

/// A path that a list of projects binds is the path of one of them, whose
/// servers are what the path stands for.
pub proof fn lemma_project_map_witness(projects: Seq<ProjectConfig>, path: Seq<char>) -> (at: int)
    requires
        project_map(projects).contains_key(path),
    ensures
        0 <= at < projects.len(),
        projects[at].path@ == path,
        named_map(projects[at].mcp_servers@) == project_map(projects)[path],
    decreases projects.len(),
{
    if projects.last().path@ == path {
        projects.len() - 1
    } else {
        let at = lemma_project_map_witness(projects.drop_last(), path);
        assert(projects[at] == projects.drop_last()[at]);
        at
    }
}

/// The names of the members of an object in ascending order; no names for a
/// value that is no object.
fn ordered_names(v: &serde_json::Value) -> (names: Vec<String>)
    ensures
        forall|i: int, j: int|
            0 <= i < j < names.len() ==> lex_lt(#[trigger] names[i]@, #[trigger] names[j]@),
        forall|i: int| 0 <= i < names.len() ==> tree(*v).get(#[trigger] names[i]@) is Some,
        forall|k: Seq<char>|
            tree(*v).get(k) is Some ==> exists|i: int|
                0 <= i < names.len() && #[trigger] names[i]@ == k,
{
    let found = member_names(v);
    let mut order: StrMap<bool> = StrMap::new();
    let mut i: usize = 0;
    while i < found.len()
        invariant
            i <= found.len(),
            order.well_formed(),
            forall|k: Seq<char>|
                order@.contains_key(k) <==> exists|j: int| 0 <= j < i && #[trigger] found[j]@ == k,
        decreases found.len() - i,
    {
        order.insert(found[i].clone(), true);
        i = i + 1;
    }
    let count = order.len();
    let mut names: Vec<String> = Vec::new();
    let mut n: usize = 0;
    while n < count
        invariant
            n <= count,
            count == order.keys().len(),
            names.len() == n,
            forall|j: int| 0 <= j < n ==> (#[trigger] names[j])@ == order.keys()[j],
        decreases count - n,
    {
        names.push(order.key_at(n).to_owned());
        n = n + 1;
    }
    proof {
        order.lemma_keys();
        assert forall|i: int| 0 <= i < names.len() implies tree(*v).get(#[trigger] names[i]@)
            is Some by {
            assert(order@.contains_key(order.keys()[i]));
        }
        assert forall|k: Seq<char>| tree(*v).get(k) is Some implies exists|i: int|
            0 <= i < names.len() && #[trigger] names[i]@ == k by {
            let j = choose|j: int| 0 <= j < found.len() && #[trigger] found[j]@ == k;
            assert(order@.contains_key(k));
            assert(order.keys().contains(k));
            let i = choose|i: int| 0 <= i < order.keys().len() && order.keys()[i] == k;
            assert(names[i]@ == k);
        }
    }
    names
}

fn read_opt(v: Option<&serde_json::Value>) -> (read: Option<Option<String>>)
    ensures
        match decoded_opt(opt_tree(v)) {
            Some(o) => read matches Some(x) && opt_text(x) == o,
            None => read is None,
        },
{
    match v {
        None => Some(None),
        Some(x) => {
            if is_null(x) {
                Some(None)
            } else {
                match as_text(x) {
                    Some(s) => Some(Some(s.to_owned())),
                    None => None,
                }
            }
        },
    }
}

fn read_args(v: Option<&serde_json::Value>) -> (read: Option<Vec<String>>)
    ensures
        match decoded_args(opt_tree(v)) {
            Some(a) => read matches Some(x) && texts(x@) == a,
            None => read is None,
        },
{
    let x = match v {
        None => {
            let none: Vec<String> = Vec::new();
            assert(texts(none@) =~= Seq::<Seq<char>>::empty());
            return Some(none);
        },
        Some(x) => x,
    };
    let items = match as_items(x) {
        Some(items) => items,
        None => {
            return None;
        },
    };
    let mut args: Vec<String> = Vec::new();
    let mut i: usize = 0;
    while i < items.len()
        invariant
            i <= items.len(),
            args.len() == i,
            v == Some(x),
            tree(*x) == JsonValue::Array(trees(items@)),
            forall|j: int| 0 <= j < i ==> trees(items@)[j] == JsonValue::Text((#[trigger] args[j])@),
        decreases items.len() - i,
    {
        match as_text(&items[i]) {
            Some(s) => {
                args.push(s.to_owned());
            },
            None => {
                assert(!(trees(items@)[i as int] is Text));
                return None;
            },
        }
        i = i + 1;
    }
    proof {
        assert forall|j: int| 0 <= j < items.len() implies #[trigger] trees(items@)[j] is Text by {
            assert(trees(items@)[j] == JsonValue::Text(args[j]@));
        }
        assert(texts(args@) =~= decoded_args(opt_tree(v))->0);
    }
    Some(args)
}

fn read_env(v: Option<&serde_json::Value>) -> (read: Option<Vec<EnvVar>>)
    ensures
        match decoded_env(opt_tree(v)) {
            Some(e) => read matches Some(x) && env_map(x@) == e && distinct_texts(env_names(x@)),
            None => read is None,
        },
{
    let x = match v {
        None => {
            return Some(Vec::new());
        },
        Some(x) => x,
    };
    if !is_object(x) {
        return None;
    }
    let names = ordered_names(x);
    let ghost m = tree(*x)->Object_0;
    let mut vars: Vec<EnvVar> = Vec::new();
    let mut i: usize = 0;
    while i < names.len()
        invariant
            i <= names.len(),
            vars.len() == i,
            v == Some(x),
            tree(*x) == JsonValue::Object(m),
            forall|j: int| 0 <= j < names.len() ==> tree(*x).get(#[trigger] names[j]@) is Some,
            forall|j: int|
                0 <= j < i ==> (#[trigger] vars[j]).name@ == names[j]@ && m[names[j]@]
                    == JsonValue::Text(vars[j].value@),
        decreases names.len() - i,
    {
        let item = member(x, names[i].as_str());
        assert(tree(*x).get(names[i as int]@) is Some);
        let text = match item {
            Some(item) => as_text(item),
            None => None,
        };
        match text {
            Some(s) => {
                vars.push(EnvVar { name: names[i].clone(), value: s.to_owned() });
            },
            None => {
                assert(m.contains_key(names[i as int]@));
                return None;
            },
        }
        i = i + 1;
    }
    proof {
        assert forall|k: Seq<char>| #[trigger] m.contains_key(k) implies m[k] is Text by {
            assert(tree(*x).get(k) is Some);
            let j = choose|j: int| 0 <= j < names.len() && #[trigger] names[j]@ == k;
            assert(vars[j].name@ == k);
        }
        let want = decoded_env(opt_tree(v))->0;
        assert forall|k: Seq<char>| env_map(vars@).contains_key(k) implies #[trigger] want.contains_key(
            k,
        ) by {
            lemma_env_map_domain(vars@, k);
            let j = choose|j: int| 0 <= j < vars.len() && #[trigger] vars[j].name@ == k;
            assert(tree(*x).get(names[j]@) is Some);
        }
        assert forall|k: Seq<char>| #[trigger] want.contains_key(k) implies env_map(
            vars@,
        ).contains_key(k) && env_map(vars@)[k] == want[k] by {
            assert(tree(*x).get(k) is Some);
            let j = choose|j: int| 0 <= j < names.len() && #[trigger] names[j]@ == k;
            assert(vars[j].name@ == k);
            assert forall|l: int| j < l < vars.len() implies #[trigger] vars[l].name@
                != vars[j].name@ by {
                assert(lex_lt(names[j]@, names[l]@));
            }
            lemma_env_map_last_wins(vars@, j);
        }
        assert(env_map(vars@) =~= want);
        assert forall|i: int, j: int| 0 <= i < j < vars.len() implies #[trigger] env_names(
            vars@,
        )[i] != #[trigger] env_names(vars@)[j] by {
            assert(lex_lt(names[i]@, names[j]@));
        }
    }
    Some(vars)
}

/// Reads one server definition.
fn read_server(v: &serde_json::Value) -> (read: Option<McpServer>)
    ensures
        match decoded_server(tree(*v)) {
            Some(s) => read matches Some(x) && x@ == s && x.well_formed(),
            None => read is None,
        },
{
    if !is_object(v) {
        return None;
    }
    let server_type = read_opt(member(v, "type"));
    let command = read_opt(member(v, "command"));
    let url = read_opt(member(v, "url"));
    let args = read_args(member(v, "args"));
    let env = read_env(member(v, "env"));
    match (server_type, command, url, args, env) {
        (Some(server_type), Some(command), Some(url), Some(args), Some(env)) => Some(
            McpServer { server_type, command, url, args, env },
        ),
        _ => None,
    }
}

/// Reads the servers that an object declares under `mcpServers`.
fn read_project(v: &serde_json::Value) -> (read: Option<Vec<NamedServer>>)
    ensures
        match decoded_project(tree(*v)) {
            Some(m) => read matches Some(x) && reads_as_servers(x@, m),
            None => read is None,
        },
{
    if !is_object(v) {
        return None;
    }
    let x = match member(v, "mcpServers") {
        None => {
            return Some(Vec::new());
        },
        Some(x) => x,
    };
    if !is_object(x) {
        return None;
    }
    let names = ordered_names(x);
    let ghost m = tree(*x)->Object_0;
    let mut servers: Vec<NamedServer> = Vec::new();
    let mut i: usize = 0;
    while i < names.len()
        invariant
            i <= names.len(),
            servers.len() == i,
            tree(*v) is Object,
            tree(*v).get(servers_key()) == Some(tree(*x)),
            tree(*x) == JsonValue::Object(m),
            forall|j: int| 0 <= j < names.len() ==> tree(*x).get(#[trigger] names[j]@) is Some,
            forall|j: int|
                0 <= j < i ==> (#[trigger] servers[j]).name@ == names[j]@ && decoded_server(
                    m[names[j]@],
                ) == Some(servers[j].server@) && servers[j].server.well_formed(),
        decreases names.len() - i,
    {
        let item = member(x, names[i].as_str());
        assert(tree(*x).get(names[i as int]@) is Some);
        let server = match item {
            Some(item) => read_server(item),
            None => None,
        };
        match server {
            Some(server) => {
                servers.push(NamedServer { name: names[i].clone(), server });
            },
            None => {
                assert(m.contains_key(names[i as int]@));
                return None;
            },
        }
        i = i + 1;
    }
    proof {
        assert forall|k: Seq<char>| #[trigger] m.contains_key(k) implies decoded_server(m[k])
            is Some by {
            assert(tree(*x).get(k) is Some);
            let j = choose|j: int| 0 <= j < names.len() && #[trigger] names[j]@ == k;
            assert(servers[j].name@ == k);
        }
        let want = decoded_project(tree(*v))->0;
        assert forall|i: int, j: int| 0 <= i < j < servers.len() implies lex_lt(
            #[trigger] servers[i].name@,
            #[trigger] servers[j].name@,
        ) by {
            assert(lex_lt(names[i]@, names[j]@));
        }
        assert forall|k: Seq<char>| named_map(servers@).contains_key(k) implies #[trigger] want.contains_key(
            k,
        ) by {
            lemma_overlay_domain(Map::empty(), servers@, k);
            let j = choose|j: int| 0 <= j < servers.len() && #[trigger] servers[j].name@ == k;
            assert(tree(*x).get(names[j]@) is Some);
        }
        assert forall|k: Seq<char>| #[trigger] want.contains_key(k) implies named_map(
            servers@,
        ).contains_key(k) && named_map(servers@)[k] == want[k] by {
            assert(tree(*x).get(k) is Some);
            let j = choose|j: int| 0 <= j < names.len() && #[trigger] names[j]@ == k;
            assert(servers[j].name@ == k);
            lemma_named_map_last_wins(servers@, j);
        }
        assert(all_servers(m));
        assert(want == Map::new(
            |k: Seq<char>| m.contains_key(k),
            |k: Seq<char>| decoded_server(m[k])->0,
        ));
        assert(named_map(servers@) =~= want);
        assert forall|i: int, j: int| 0 <= i < j < servers.len() implies #[trigger] server_names(
            servers@,
        )[i] != #[trigger] server_names(servers@)[j] by {
            assert(lex_lt(names[i]@, names[j]@));
        }
    }
    Some(servers)
}

impl JsonDocument {
    /// Reads what the document declares as the global registry: the servers
    /// of every project under `projects`. Fails where the document is not
    /// written as a registry.
    pub fn claude_json(&self) -> (read: Result<ClaudeJson, RegistryError>)
        ensures
            match decoded_registry(self@) {
                Some(m) => read matches Ok(c) && reads_as(c, m),
                None => read matches Err(e) && e == RegistryError::Unreadable,
            },
    {
        proof {
            self.lemma_view();
        }
        let v = &self.root;
        if !is_object(v) {
            return Err(RegistryError::Unreadable);
        }
        let x = match member(v, "projects") {
            None => {
                return Ok(ClaudeJson { projects: Vec::new() });
            },
            Some(x) => x,
        };
        if !is_object(x) {
            return Err(RegistryError::Unreadable);
        }
        let names = ordered_names(x);
        let ghost m = tree(*x)->Object_0;
        let mut projects: Vec<ProjectConfig> = Vec::new();
        let mut i: usize = 0;
        while i < names.len()
            invariant
                i <= names.len(),
                projects.len() == i,
                self@ == tree(self.root),
                self@ is Object,
                self@.get(projects_key()) == Some(tree(*x)),
                tree(*x) == JsonValue::Object(m),
                forall|j: int| 0 <= j < names.len() ==> tree(*x).get(#[trigger] names[j]@) is Some,
                forall|j: int|
                    0 <= j < i ==> (#[trigger] projects[j]).path@ == names[j]@ && decoded_project(
                        m[names[j]@],
                    ) == Some(named_map(projects[j].mcp_servers@)) && ascending_names(
                        projects[j].mcp_servers@,
                    ) && projects[j].well_formed(),
            decreases names.len() - i,
        {
            let item = member(x, names[i].as_str());
            assert(tree(*x).get(names[i as int]@) is Some);
            let servers = match item {
                Some(item) => read_project(item),
                None => None,
            };
            match servers {
                Some(mcp_servers) => {
                    projects.push(ProjectConfig { path: names[i].clone(), mcp_servers });
                },
                None => {
                    assert(m.contains_key(names[i as int]@));
                    return Err(RegistryError::Unreadable);
                },
            }
            i = i + 1;
        }
        proof {
            assert forall|k: Seq<char>| #[trigger] m.contains_key(k) implies decoded_project(m[k])
                is Some by {
                assert(tree(*x).get(k) is Some);
                let j = choose|j: int| 0 <= j < names.len() && #[trigger] names[j]@ == k;
                assert(projects[j].path@ == k);
            }
            let want = decoded_registry(self@)->0;
            assert forall|i: int, j: int| 0 <= i < j < projects.len() implies lex_lt(
                #[trigger] projects[i].path@,
                #[trigger] projects[j].path@,
            ) by {
                assert(lex_lt(names[i]@, names[j]@));
            }
            assert forall|k: Seq<char>| project_map(projects@).contains_key(k) implies #[trigger] want.contains_key(
                k,
            ) by {
                let j = lemma_project_map_witness(projects@, k);
                assert(tree(*x).get(names[j]@) is Some);
            }
            assert forall|k: Seq<char>| #[trigger] want.contains_key(k) implies project_map(
                projects@,
            ).contains_key(k) && project_map(projects@)[k] == want[k] by {
                assert(tree(*x).get(k) is Some);
                let j = choose|j: int| 0 <= j < names.len() && #[trigger] names[j]@ == k;
                assert(projects[j].path@ == k);
                lemma_project_map_last_wins(projects@, j);
            }
            assert(all_projects(m));
            assert(want == Map::new(
                |k: Seq<char>| m.contains_key(k),
                |k: Seq<char>| decoded_project(m[k])->0,
            ));
            assert(project_map(projects@) =~= want);
            assert forall|i: int, j: int| 0 <= i < j < projects.len() implies #[trigger] project_path_list(
                projects@,
            )[i] != #[trigger] project_path_list(projects@)[j] by {
                assert(lex_lt(names[i]@, names[j]@));
            }
        }
        Ok(ClaudeJson { projects })
    }

    /// Reads what the document declares as a project's override file: the
    /// servers under `mcpServers`. Nothing where the document is not written
    /// as an override file.
    pub fn mcp_json(&self) -> (read: Option<Vec<NamedServer>>)
        ensures
            match decoded_project(self@) {
                Some(m) => read matches Some(x) && reads_as_servers(x@, m),
                None => read is None,
            },
    {
        proof {
            self.lemma_view();
        }
        read_project(&self.root)
    }
}

/// What a text declares as the global registry; nothing where it is no JSON
/// document or is not written as a registry.
pub open spec fn registry_reading(content: Seq<char>) -> Option<
    Map<Seq<char>, Map<Seq<char>, McpServerView>>,
> {
    match parsed_tree(content) {
        Some(t) => decoded_registry(t),
        None => None,
    }
}

/// What a text declares as an override file; nothing where it is no JSON
/// document or is not written as an override file.
pub open spec fn override_reading(content: Seq<char>) -> Option<Map<Seq<char>, McpServerView>> {
    match parsed_tree(content) {
        Some(t) => decoded_project(t),
        None => None,
    }
}

/// Reads the global registry from its text. An unreadable registry is an
/// error: nothing can be done without it.
pub fn load_claude_json(content: &str) -> (read: Result<ClaudeJson, RegistryError>)
    ensures
        match registry_reading(content@) {
            Some(m) => read matches Ok(c) && reads_as(c, m),
            None => read matches Err(e) && e == RegistryError::Unreadable,
        },
{
    match JsonDocument::parse(content) {
        Ok(document) => document.claude_json(),
        Err(e) => Err(e),
    }
}

/// Reads the servers of an override file from its text; nothing where the
/// text is unreadable.
pub fn load_mcp_json(content: &str) -> (read: Option<Vec<NamedServer>>)
    ensures
        match override_reading(content@) {
            Some(m) => read matches Some(x) && reads_as_servers(x@, m),
            None => read is None,
        },
{
    match JsonDocument::parse(content) {
        Ok(document) => document.mcp_json(),
        Err(_) => None,
    }
}

/// The text of the override file of one project.
#[derive(Debug, PartialEq, Eq)]
pub struct OverrideFile {
    pub project: String,
    pub content: String,
}

/// One override file as a source: its project with the servers it declares.
pub struct OverrideView {
    pub project: Seq<char>,
    pub servers: Map<Seq<char>, McpServerView>,
}

/// The readable files among the first `upto`, in order, each with what it
/// declares.
pub open spec fn readable_overrides(files: Seq<OverrideFile>, upto: int) -> Seq<OverrideView>
    decreases upto,
{
    if upto <= 0 || upto > files.len() {
        Seq::empty()
    } else {
        match override_reading(files[upto - 1].content@) {
            Some(m) => readable_overrides(files, upto - 1).push(
                OverrideView { project: files[upto - 1].project@, servers: m },
            ),
            None => readable_overrides(files, upto - 1),
        }
    }
}

/// What each source of a list declares, by name.
pub open spec fn source_views(sources: Seq<ProjectConfig>) -> Seq<OverrideView> {
    Seq::new(
        sources.len(),
        |i: int|
            OverrideView {
                project: sources[i].path@,
                servers: named_map(sources[i].mcp_servers@),
            },
    )
}

/// Reads the override files of the projects. A file that cannot be read
/// contributes nothing and does not keep the others from being read. The
/// servers of each file are listed in ascending order of their names.
pub fn load_overrides(files: &Vec<OverrideFile>) -> (sources: Vec<ProjectConfig>)
    ensures
        source_views(sources@) == readable_overrides(files@, files@.len() as int),
        forall|i: int|
            0 <= i < sources@.len() ==> ascending_names((#[trigger] sources@[i]).mcp_servers@),
        well_formed_sources(sources@),
{
    let mut sources: Vec<ProjectConfig> = Vec::new();
    let mut i: usize = 0;
    assert(source_views(sources@) =~= readable_overrides(files@, 0));
    while i < files.len()
        invariant
            i <= files.len(),
            source_views(sources@) == readable_overrides(files@, i as int),
            forall|j: int|
                0 <= j < sources@.len() ==> ascending_names((#[trigger] sources@[j]).mcp_servers@),
            well_formed_sources(sources@),
        decreases files.len() - i,
    {
        let ghost before = source_views(sources@);
        match load_mcp_json(files[i].content.as_str()) {
            Some(mcp_servers) => {
                sources.push(ProjectConfig { path: files[i].project.clone(), mcp_servers });
                proof {
                    assert(source_views(sources@) =~= before.push(
                        OverrideView {
                            project: files[i as int].project@,
                            servers: override_reading(files[i as int].content@)->0,
                        },
                    ));
                }
            },
            None => {},
        }
        i = i + 1;
    }
    sources
}

} // verus!
