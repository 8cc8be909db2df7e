//! The view of one project: which servers are in effect in it, where its
//! override files are looked for, and how its path is shown.

use crate::model::{McpServer, McpServerView};
use crate::registry::{well_formed_servers, ClaudeJson, NamedServer, ProjectConfig};
use crate::strmap::StrMap;
use crate::text::{matches_at, opt_chars, str_eq, str_starts_with};
use vstd::prelude::*;
use vstd::string::StringExecFns;

verus! {

/// `base` with the servers of a list laid over it: a later server of a name
/// replaces an earlier one.
pub open spec fn overlay(base: Map<Seq<char>, McpServerView>, servers: Seq<NamedServer>) -> Map<
    Seq<char>,
    McpServerView,
>
    decreases servers.len(),
{
    if servers.len() == 0 {
        base
    } else {
        overlay(base, servers.drop_last()).insert(servers.last().name@, servers.last().server@)
    }
}

/// What the global registry declares for the project at `cwd`.
pub open spec fn declared_for(projects: Seq<ProjectConfig>, cwd: Seq<char>) -> Map<
    Seq<char>,
    McpServerView,
>
    decreases projects.len(),
{
    if projects.len() == 0 {
        Map::empty()
    } else if projects.last().path@ == cwd {
        overlay(declared_for(projects.drop_last(), cwd), projects.last().mcp_servers@)
    } else {
        declared_for(projects.drop_last(), cwd)
    }
}

/// The servers of a list that may be missing.
pub open spec fn opt_servers(local: Option<&Vec<NamedServer>>) -> Option<Seq<NamedServer>> {
    match local {
        Some(list) => Some(list@),
        None => None,
    }
}

/// The servers in effect in the project at `cwd`: what the global registry
/// declares for it, with the project's override file laid over that.
pub open spec fn effective(
    claude_json: ClaudeJson,
    cwd: Seq<char>,
    local: Option<Seq<NamedServer>>,
) -> Map<Seq<char>, McpServerView> {
    match local {
        Some(list) => overlay(declared_for(claude_json.projects@, cwd), list),
        None => declared_for(claude_json.projects@, cwd),
    }
}

/// Some server of the list has the name.
pub open spec fn names_server(servers: Seq<NamedServer>, name: Seq<char>) -> bool {
    exists|i: int| 0 <= i < servers.len() && #[trigger] servers[i].name@ == name
}

/// A name is in an overlay exactly when the base or the list has it.
pub proof fn lemma_overlay_domain(
    base: Map<Seq<char>, McpServerView>,
    servers: Seq<NamedServer>,
    name: Seq<char>,
)
    ensures
        overlay(base, servers).contains_key(name) <==> base.contains_key(name) || names_server(
            servers,
            name,
        ),
    decreases servers.len(),
{
    if servers.len() > 0 {
        let front = servers.drop_last();
        lemma_overlay_domain(base, front, name);
        if names_server(front, name) {
            let i = choose|i: int| 0 <= i < front.len() && #[trigger] front[i].name@ == name;
            assert(servers[i].name@ == name);
        }
        if names_server(servers, name) {
            let i = choose|i: int| 0 <= i < servers.len() && #[trigger] servers[i].name@ == name;
            if i < front.len() {
                assert(front[i].name@ == name);
            }
        }
        if servers.last().name@ == name {
            assert(servers[servers.len() - 1].name@ == name);
        }
    }
}

/// The servers in effect in the current project.
pub struct ActiveProjectView {
    servers: StrMap<McpServer>,
}

impl View for ActiveProjectView {
    type V = Map<Seq<char>, McpServerView>;

    closed spec fn view(&self) -> Map<Seq<char>, McpServerView> {
        Map::new(|n: Seq<char>| self.servers@.contains_key(n), |n: Seq<char>| self.servers@[n]@)
    }
}

impl ActiveProjectView {
    /// The names in effect, in ascending order.
    pub closed spec fn names(&self) -> Seq<Seq<char>> {
        self.servers.keys()
    }

    /// The names in effect are exactly the names that the view binds, each
    /// once.
    pub proof fn lemma_names(&self)
        requires
            self.well_formed(),
        ensures
            forall|i: int, j: int|
                0 <= i < j < self.names().len() ==> self.names()[i] != self.names()[j],
            forall|i: int|
                0 <= i < self.names().len() ==> self@.contains_key(#[trigger] self.names()[i]),
            forall|n: Seq<char>| #[trigger] self@.contains_key(n) ==> self.names().contains(n),
    {
        self.servers.lemma_keys();
    }

    /// No name occurs twice.
    pub closed spec fn well_formed(&self) -> bool {
        self.servers.well_formed()
    }

    fn new() -> (view: Self)
        ensures
            view@ == Map::<Seq<char>, McpServerView>::empty(),
            view.well_formed(),
    {
        let view = ActiveProjectView { servers: StrMap::new() };
        proof {
            assert(view@ =~= Map::<Seq<char>, McpServerView>::empty());
        }
        view
    }

    fn lay_over(&mut self, servers: &Vec<NamedServer>)
        requires
            old(self).well_formed(),
        ensures
            final(self)@ == overlay(old(self)@, servers@),
            final(self).well_formed(),
    {
        let ghost base = self@;
        let mut i: usize = 0;
        proof {
            assert(servers@.take(0) =~= Seq::<NamedServer>::empty());
        }
        while i < servers.len()
            invariant
                i <= servers.len(),
                self@ == overlay(base, servers@.take(i as int)),
                self.well_formed(),
            decreases servers.len() - i,
        {
            let ghost before = self@;
            self.servers.insert(servers[i].name.clone(), servers[i].server.clone());
            proof {
                assert(servers@.take(i + 1).drop_last() =~= servers@.take(i as int));
                assert(self@ =~= before.insert(servers[i as int].name@, servers[i as int].server@));
            }
            i = i + 1;
        }
        proof {
            assert(servers@.take(i as int) =~= servers@);
        }
    }

    /// Whether the server `name` is in effect.
    pub fn contains_key(&self, name: &str) -> (present: bool)
        ensures
            present == self@.contains_key(name@),
    {
        self.servers.contains_key(name)
    }

    /// The definition in effect for `name`, if any.
    pub fn get(&self, name: &str) -> (found: Option<&McpServer>)
        ensures
            match found {
                Some(server) => self@.contains_key(name@) && self@[name@] == server@,
                None => !self@.contains_key(name@),
            },
    {
        self.servers.get(name)
    }

    /// The number of servers in effect.
    pub fn len(&self) -> (n: usize)
        ensures
            n == self.names().len(),
    {
        self.servers.len()
    }
}

/// The servers in effect in the project at `cwd`: what the global registry
/// declares for that project, with the servers of the project's own override
/// file, where it has one, laid over them. A name that both declare is in
/// effect as the override file defines it. The registry is a map from
/// project path to servers, and the override file declares its servers as a
/// map.
pub fn get_current_project_mcp_servers(
    claude_json: &ClaudeJson,
    cwd: &str,
    local: Option<&Vec<NamedServer>>,
) -> (current: ActiveProjectView)
    requires
        claude_json.well_formed(),
        local matches Some(servers) ==> well_formed_servers(servers@),
    ensures
        current@ == effective(*claude_json, cwd@, opt_servers(local)),
        current.well_formed(),
{
    let mut current = ActiveProjectView::new();
    let projects = &claude_json.projects;
    let mut i: usize = 0;
    proof {
        assert(projects@.take(0) =~= Seq::<ProjectConfig>::empty());
    }
    while i < projects.len()
        invariant
            i <= projects.len(),
            current@ == declared_for(projects@.take(i as int), cwd@),
            current.well_formed(),
        decreases projects.len() - i,
    {
        proof {
            assert(projects@.take(i + 1).drop_last() =~= projects@.take(i as int));
        }
        if str_eq(projects[i].path.as_str(), cwd) {
            current.lay_over(&projects[i].mcp_servers);
        }
        i = i + 1;
    }
    proof {
        assert(projects@.take(i as int) =~= projects@);
    }
    match local {
        Some(list) => {
            current.lay_over(list);
        },
        None => {},
    }
    current
}

/// Whether a list of servers defines `name`.
pub fn defines_server(servers: &Vec<NamedServer>, name: &str) -> (defined: bool)
    ensures
        defined == names_server(servers@, name@),
{
    let mut i: usize = 0;
    while i < servers.len()
        invariant
            i <= servers.len(),
            forall|j: int| 0 <= j < i ==> #[trigger] servers[j].name@ != name@,
        decreases servers.len() - i,
    {
        if str_eq(servers[i].name.as_str(), name) {
            return true;
        }
        i = i + 1;
    }
    false
}

/// The project paths that the global registry knows, in its order.
pub open spec fn known_paths(claude_json: ClaudeJson) -> Seq<Seq<char>> {
    Seq::new(claude_json.projects@.len(), |i: int| claude_json.projects@[i].path@)
}

/// The project paths that the global registry knows: the places where an
/// override file is looked for.
pub fn project_paths(claude_json: &ClaudeJson) -> (paths: Vec<String>)
    ensures
        crate::model::texts(paths@) == known_paths(*claude_json),
{
    let mut paths: Vec<String> = Vec::new();
    let mut i: usize = 0;
    while i < claude_json.projects.len()
        invariant
            i <= claude_json.projects.len(),
            paths.len() == i,
            forall|j: int| 0 <= j < i ==> (#[trigger] paths[j])@ == claude_json.projects[j].path@,
        decreases claude_json.projects.len() - i,
    {
        paths.push(claude_json.projects[i].path.clone());
        i = i + 1;
    }
    assert(crate::model::texts(paths@) =~= known_paths(*claude_json));
    paths
}

/// The projects among the first `upto` for which the probe found an override
/// file, in order. A project without a probe result counts as not found.
pub open spec fn found_among(projects: Seq<Seq<char>>, present: Seq<bool>, upto: int) -> Seq<
    Seq<char>,
>
    decreases upto,
{
    if upto <= 0 {
        Seq::empty()
    } else if upto - 1 < projects.len() && upto - 1 < present.len() && present[upto - 1] {
        found_among(projects, present, upto - 1).push(projects[upto - 1])
    } else {
        found_among(projects, present, upto - 1)
    }
}

/// The projects whose override file is to be read: of the known project
/// paths, those for which the probe at the same position found a file, in
/// the order of the paths.
pub fn find_mcp_json_files(project_paths: &[String], present: &[bool]) -> (found: Vec<String>)
    ensures
        crate::model::texts(found@) == found_among(
            crate::model::texts(project_paths@),
            present@,
            project_paths@.len() as int,
        ),
{
    let mut found: Vec<String> = Vec::new();
    let mut i: usize = 0;
    let ghost paths = crate::model::texts(project_paths@);
    while i < project_paths.len()
        invariant
            i <= project_paths.len(),
            paths == crate::model::texts(project_paths@),
            crate::model::texts(found@) == found_among(paths, present@, i as int),
        decreases project_paths.len() - i,
    {
        if i < present.len() && present[i] {
            let ghost before = crate::model::texts(found@);
            found.push(project_paths[i].clone());
            proof {
                assert(crate::model::texts(found@) =~= before.push(paths[i as int]));
            }
        }
        i = i + 1;
    }
    found
}

/// A path as it is shown: with the home directory at its start, if it starts
/// with it, written as `~`.
pub open spec fn shortened(path: Seq<char>, home: Option<Seq<char>>) -> Seq<char> {
    match home {
        Some(h) => if matches_at(path, h, 0) {
            "~"@ + path.skip(h.len() as int)
        } else {
            path
        },
        None => path,
    }
}

/// Shortens a path for display: a path that starts with the home directory
/// has that start replaced by `~`; any other path, and every path where no
/// home directory is known, is shown as it is.
pub fn shorten_path(path: &str, home: Option<&str>) -> (shown: String)
    ensures
        shown@ == shortened(path@, opt_chars(home)),
{
    match home {
        Some(h) => {
            if str_starts_with(path, h) {
                let mut shown = String::from_str("~");
                let rest = path.substring_char(h.unicode_len(), path.unicode_len());
                shown.append(rest);
                proof {
                    assert(rest@ =~= path@.skip(h@.len() as int));
                }
                shown
            } else {
                path.to_owned()
            }
        },
        None => path.to_owned(),
    }
}

} // verus!
