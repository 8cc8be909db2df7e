//! The aggregator: merges what every source declares into one registry, keyed
//! by server name, with the definitions of each name ordered by the project
//! that declared them.

use crate::model::{entry_views, texts, texts_distinct, McpEntry, McpEntryView, McpServer};
use crate::strmap::StrMap;
use crate::text::{
    distinct_texts, lemma_lex_le_total, lemma_lex_le_trans, lex_le, lex_lt, str_le,
};
use vstd::prelude::*;

verus! {

/// A server definition under the name that a source gives it.
#[derive(Debug, Clone, PartialEq, Eq)]
pub struct NamedServer {
    pub name: String,
    pub server: McpServer,
}

/// What one source declares for one project: an entry of the global registry,
/// or the project's own override file. The servers are a map from name to
/// definition, kept as a list: `well_formed` says that the list has no name
/// twice.
#[derive(Debug, Clone, PartialEq, Eq)]
pub struct ProjectConfig {
    pub path: String,
    pub mcp_servers: Vec<NamedServer>,
}

/// The global registry: what it declares, project by project. The projects
/// are a map from path to servers, kept as a list: `well_formed` says that
/// the list has no path twice and that every project is well-formed.
#[derive(Debug, Clone, PartialEq, Eq)]
pub struct ClaudeJson {
    pub projects: Vec<ProjectConfig>,
}

/// The names of the servers of a list, in order.
pub open spec fn server_names(servers: Seq<NamedServer>) -> Seq<Seq<char>> {
    Seq::new(servers.len(), |i: int| servers[i].name@)
}

/// The list stands for a map from server name to definition: no name occurs
/// twice, and no definition names an environment variable twice.
pub open spec fn well_formed_servers(servers: Seq<NamedServer>) -> bool {
    &&& distinct_texts(server_names(servers))
    &&& forall|i: int| 0 <= i < servers.len() ==> (#[trigger] servers[i]).server.well_formed()
}

/// The paths of the projects of a list, in order.
pub open spec fn project_path_list(projects: Seq<ProjectConfig>) -> Seq<Seq<char>> {
    Seq::new(projects.len(), |i: int| projects[i].path@)
}

/// Every source of the list declares its servers as a map.
pub open spec fn well_formed_sources(sources: Seq<ProjectConfig>) -> bool {
    forall|i: int| 0 <= i < sources.len() ==> (#[trigger] sources[i]).well_formed()
}

impl ProjectConfig {
    /// The servers of the source are a map from name to definition.
    pub open spec fn well_formed(&self) -> bool {
        well_formed_servers(self.mcp_servers@)
    }

    /// Whether the servers of the source are a map from name to definition.
    pub fn is_well_formed(&self) -> (ok: bool)
        ensures
            ok == self.well_formed(),
    {
        servers_well_formed(&self.mcp_servers)
    }
}

impl ClaudeJson {
    /// The registry is a map from project path to the servers of the
    /// project: no path occurs twice, and the servers of every project are a
    /// map from name to definition.
    pub open spec fn well_formed(&self) -> bool {
        &&& distinct_texts(project_path_list(self.projects@))
        &&& well_formed_sources(self.projects@)
    }

    /// Whether the registry is a map from project path to servers.
    pub fn is_well_formed(&self) -> (ok: bool)
        ensures
            ok == self.well_formed(),
    {
        let mut paths: Vec<String> = Vec::new();
        let mut i: usize = 0;
        while i < self.projects.len()
            invariant
                i <= self.projects.len(),
                paths.len() == i,
                forall|j: int| 0 <= j < i ==> (#[trigger] paths[j])@ == self.projects[j].path@,
            decreases self.projects.len() - i,
        {
            paths.push(self.projects[i].path.clone());
            i = i + 1;
        }
        assert(texts(paths@) =~= project_path_list(self.projects@));
        texts_distinct(&paths) && sources_well_formed(&self.projects)
    }
}

/// Whether a list of servers is a map from name to definition.
pub fn servers_well_formed(servers: &Vec<NamedServer>) -> (ok: bool)
    ensures
        ok == well_formed_servers(servers@),
{
    let mut names: Vec<String> = Vec::new();
    let mut i: usize = 0;
    while i < servers.len()
        invariant
            i <= servers.len(),
            names.len() == i,
            forall|j: int| 0 <= j < i ==> (#[trigger] names[j])@ == servers[j].name@,
            forall|j: int| 0 <= j < i ==> (#[trigger] servers[j]).server.well_formed(),
        decreases servers.len() - i,
    {
        if !servers[i].server.is_well_formed() {
            return false;
        }
        names.push(servers[i].name.clone());
        i = i + 1;
    }
    assert(texts(names@) =~= server_names(servers@));
    texts_distinct(&names)
}

/// Whether every source of a list declares its servers as a map.
pub fn sources_well_formed(sources: &Vec<ProjectConfig>) -> (ok: bool)
    ensures
        ok == well_formed_sources(sources@),
{
    let mut i: usize = 0;
    while i < sources.len()
        invariant
            i <= sources.len(),
            forall|j: int| 0 <= j < i ==> (#[trigger] sources[j]).well_formed(),
        decreases sources.len() - i,
    {
        if !sources[i].is_well_formed() {
            return false;
        }
        i = i + 1;
    }
    true
}

/// One definition that a source contributes to a name.
pub struct Contribution {
    pub name: Seq<char>,
    pub entry: McpEntryView,
}

/// What one source contributes, in the order in which it lists its servers.
pub open spec fn project_contributions(p: ProjectConfig) -> Seq<Contribution> {
    Seq::new(
        p.mcp_servers@.len(),
        |i: int|
            Contribution {
                name: p.mcp_servers@[i].name@,
                entry: McpEntryView {
                    server: p.mcp_servers@[i].server@,
                    source_project: p.path@,
                },
            },
    )
}

/// What a list of sources contributes, source after source.
pub open spec fn contributions(sources: Seq<ProjectConfig>) -> Seq<Contribution>
    decreases sources.len(),
{
    if sources.len() == 0 {
        Seq::empty()
    } else {
        contributions(sources.drop_last()) + project_contributions(sources.last())
    }
}

/// Everything contributed: first by the global registry, then by the
/// override files.
pub open spec fn all_contributions(
    claude_json: ClaudeJson,
    overrides: Seq<ProjectConfig>,
) -> Seq<Contribution> {
    contributions(claude_json.projects@) + contributions(overrides)
}

/// The definitions contributed to one name, in the order of contribution.
pub open spec fn entries_named(c: Seq<Contribution>, name: Seq<char>) -> Seq<McpEntryView>
    decreases c.len(),
{
    if c.len() == 0 {
        Seq::empty()
    } else if c.last().name == name {
        entries_named(c.drop_last(), name).push(c.last().entry)
    } else {
        entries_named(c.drop_last(), name)
    }
}

/// Where a definition of `project` goes into a list: behind the last
/// definition whose project does not come after `project`.
pub open spec fn insert_point(s: Seq<McpEntryView>, project: Seq<char>) -> int
    decreases s.len(),
{
    if s.len() == 0 {
        0
    } else if lex_le(s.last().source_project, project) {
        s.len() as int
    } else {
        insert_point(s.drop_last(), project)
    }
}

/// `s` with `e` put in at its insert point.
pub open spec fn insert_by_project(s: Seq<McpEntryView>, e: McpEntryView) -> Seq<McpEntryView> {
    s.insert(insert_point(s, e.source_project), e)
}

/// `s` ordered by project path; definitions of one project keep the order in
/// which they were contributed.
pub open spec fn sort_by_project(s: Seq<McpEntryView>) -> Seq<McpEntryView>
    decreases s.len(),
{
    if s.len() == 0 {
        Seq::empty()
    } else {
        insert_by_project(sort_by_project(s.drop_last()), s.last())
    }
}

/// The merged registry: every name that has a contribution, with its
/// definitions ordered by project path.
pub open spec fn aggregate(c: Seq<Contribution>) -> Map<Seq<char>, Seq<McpEntryView>> {
    Map::new(
        |n: Seq<char>| entries_named(c, n).len() > 0,
        |n: Seq<char>| sort_by_project(entries_named(c, n)),
    )
}

/// The project paths of a list never step down.
pub open spec fn ordered_by_project(s: Seq<McpEntryView>) -> bool {
    forall|i: int, j: int|
        0 <= i <= j < s.len() ==> lex_le(
            #[trigger] s[i].source_project,
            #[trigger] s[j].source_project,
        )
}

/// The insert point lies in the list, behind a definition that does not come
/// after `project` and before only definitions that do.
pub proof fn lemma_insert_point(s: Seq<McpEntryView>, project: Seq<char>)
    ensures
        0 <= insert_point(s, project) <= s.len(),
        insert_point(s, project) > 0 ==> lex_le(
            s[insert_point(s, project) - 1].source_project,
            project,
        ),
        forall|j: int|
            insert_point(s, project) <= j < s.len() ==> !lex_le(
                #[trigger] s[j].source_project,
                project,
            ),
    decreases s.len(),
{
    if s.len() > 0 && !lex_le(s.last().source_project, project) {
        let front = s.drop_last();
        lemma_insert_point(front, project);
        assert forall|j: int| insert_point(s, project) <= j < s.len() implies !lex_le(
            #[trigger] s[j].source_project,
            project,
        ) by {
            if j < front.len() {
                assert(front[j] == s[j]);
            }
        }
    }
}

/// Putting a definition into an ordered list at its insert point leaves the
/// list ordered.
pub proof fn lemma_insert_keeps_order(s: Seq<McpEntryView>, e: McpEntryView)
    requires
        ordered_by_project(s),
    ensures
        ordered_by_project(insert_by_project(s, e)),
{
    let p = insert_point(s, e.source_project);
    let r = insert_by_project(s, e);
    lemma_insert_point(s, e.source_project);
    assert forall|i: int, j: int| 0 <= i <= j < r.len() implies lex_le(
        #[trigger] r[i].source_project,
        #[trigger] r[j].source_project,
    ) by {
        if i == j {
            crate::text::lemma_lex_le_refl(r[i].source_project);
        } else if j == p {
            assert(r[i] == s[i]);
            assert(lex_le(s[i].source_project, s[p - 1].source_project));
            lemma_lex_le_trans(s[i].source_project, s[p - 1].source_project, e.source_project);
        } else if i == p {
            assert(r[j] == s[j - 1]);
            lemma_lex_le_total(s[j - 1].source_project, e.source_project);
        } else {
            let si = if i < p { i } else { i - 1 };
            let sj = if j < p { j } else { j - 1 };
            assert(r[i] == s[si]);
            assert(r[j] == s[sj]);
        }
    }
}

/// The definitions of a name in the merged registry are ordered by project
/// path, and are the contributed definitions, each as often as contributed.
pub proof fn lemma_sort_by_project(s: Seq<McpEntryView>)
    ensures
        ordered_by_project(sort_by_project(s)),
        sort_by_project(s).to_multiset() == s.to_multiset(),
        sort_by_project(s).len() == s.len(),
    decreases s.len(),
{
    if s.len() > 0 {
        let front = s.drop_last();
        lemma_sort_by_project(front);
        let sorted = sort_by_project(front);
        lemma_insert_keeps_order(sorted, s.last());
        lemma_insert_point(sorted, s.last().source_project);
        vstd::seq_lib::to_multiset_insert(
            sorted,
            insert_point(sorted, s.last().source_project),
            s.last(),
        );
        vstd::seq_lib::to_multiset_build(front, s.last());
        assert(front.push(s.last()) =~= s);
    } else {
        assert(sort_by_project(s) =~= s);
    }
}

/// One more contribution changes the merged registry at its name only, where
/// the definition is put into the ordered list.
pub proof fn lemma_aggregate_push(c: Seq<Contribution>, x: Contribution)
    ensures
        aggregate(c.push(x)) == aggregate(c).insert(
            x.name,
            insert_by_project(
                if aggregate(c).contains_key(x.name) {
                    aggregate(c)[x.name]
                } else {
                    Seq::empty()
                },
                x.entry,
            ),
        ),
{
    let next = c.push(x);
    assert(next.drop_last() =~= c);
    let grown = entries_named(c, x.name).push(x.entry);
    assert(grown.drop_last() =~= entries_named(c, x.name));
    lemma_insert_point(sort_by_project(entries_named(c, x.name)), x.entry.source_project);
    assert forall|n: Seq<char>| n != x.name implies entries_named(next, n) == entries_named(
        c,
        n,
    ) by {}
    assert(aggregate(next) =~= aggregate(c).insert(
        x.name,
        insert_by_project(
            if aggregate(c).contains_key(x.name) {
                aggregate(c)[x.name]
            } else {
                Seq::empty()
            },
            x.entry,
        ),
    ));
}

/// Puts `entry` into `entries` at its insert point.
pub fn insert_sorted(entries: &mut Vec<McpEntry>, entry: McpEntry)
    ensures
        entry_views(final(entries)@) == insert_by_project(entry_views(old(entries)@), entry@),
        final(entries).len() == old(entries).len() + 1,
{
    let ghost before = entry_views(entries@);
    let mut i: usize = entries.len();
    proof {
        assert(before.take(i as int) =~= before);
    }
    while i > 0 && !str_le(entries[i - 1].source_project.as_str(), entry.source_project.as_str())
        invariant
            i <= entries.len(),
            before == entry_views(entries@),
            insert_point(before, entry.source_project@) == insert_point(
                before.take(i as int),
                entry.source_project@,
            ),
        decreases i,
    {
        proof {
            assert(before.take(i as int).drop_last() =~= before.take(i - 1));
        }
        i = i - 1;
    }
    entries.insert(i, entry);
    proof {
        assert(entry_views(entries@) =~= before.insert(i as int, entry@));
    }
}

/// The merged registry: for every server name, the definitions found for it.
pub struct Registry {
    servers: StrMap<Vec<McpEntry>>,
}

impl View for Registry {
    type V = Map<Seq<char>, Seq<McpEntryView>>;

    closed spec fn view(&self) -> Map<Seq<char>, Seq<McpEntryView>> {
        Map::new(
            |n: Seq<char>| self.servers@.contains_key(n),
            |n: Seq<char>| entry_views(self.servers@[n]@),
        )
    }
}

impl Registry {
    /// Every name has at least one definition, and its definitions are
    /// ordered by project path.
    #[verifier::type_invariant]
    pub closed spec fn well_formed(&self) -> bool {
        &&& self.servers.well_formed()
        &&& forall|n: Seq<char>| #[trigger]
            self.servers@.contains_key(n) ==> self.servers@[n].len() > 0 && ordered_by_project(
                entry_views(self.servers@[n]@),
            )
    }

    /// The names in the order in which they are walked.
    pub closed spec fn names(&self) -> Seq<Seq<char>> {
        self.servers.keys()
    }

    /// The walked names ascend strictly, are exactly the names that have
    /// definitions, and each has at least one.
    pub proof fn lemma_names(&self)
        requires
            self.well_formed(),
        ensures
            forall|i: int, j: int|
                0 <= i < j < self.names().len() ==> lex_lt(
                    #[trigger] self.names()[i],
                    #[trigger] self.names()[j],
                ),
            forall|i: int|
                0 <= i < self.names().len() ==> self@.contains_key(#[trigger] self.names()[i]),
            forall|n: Seq<char>| #[trigger] self@.contains_key(n) ==> self.names().contains(n),
            forall|n: Seq<char>| #[trigger]
                self@.contains_key(n) ==> self@[n].len() > 0 && ordered_by_project(self@[n]),
    {
        self.servers.lemma_keys();
        assert forall|n: Seq<char>| #[trigger] self@.contains_key(n) implies self@[n].len() > 0
            && ordered_by_project(self@[n]) by {
            assert(self.servers@.contains_key(n));
        }
    }

    /// A registry without names.
    pub fn new() -> (registry: Self)
        ensures
            registry@ == Map::<Seq<char>, Seq<McpEntryView>>::empty(),
            registry.names() == Seq::<Seq<char>>::empty(),
    {
        let registry = Registry { servers: StrMap::new() };
        proof {
            assert(registry@ =~= Map::<Seq<char>, Seq<McpEntryView>>::empty());
        }
        registry
    }

    /// The number of names.
    pub fn len(&self) -> (n: usize)
        ensures
            n == self.names().len(),
    {
        self.servers.len()
    }

    /// Whether the registry holds no name.
    pub fn is_empty(&self) -> (empty: bool)
        ensures
            empty == (self.names().len() == 0),
    {
        self.servers.len() == 0
    }

    /// The name at a position of the walk.
    pub fn name_at(&self, i: usize) -> (name: &str)
        requires
            i < self.names().len(),
        ensures
            name@ == self.names()[i as int],
            self@.contains_key(name@),
    {
        self.servers.key_at(i)
    }

    /// The definitions of the name at a position of the walk.
    pub fn entries_at(&self, i: usize) -> (entries: &Vec<McpEntry>)
        requires
            i < self.names().len(),
        ensures
            self@.contains_key(self.names()[i as int]),
            entry_views(entries@) == self@[self.names()[i as int]],
            entries.len() > 0,
            ordered_by_project(entry_views(entries@)),
    {
        proof {
            use_type_invariant(self);
        }
        let entries = self.servers.value_at(i);
        assert(self.servers@.contains_key(self.names()[i as int]));
        entries
    }

    /// The definitions found for `name`, if any.
    pub fn get(&self, name: &str) -> (found: Option<&Vec<McpEntry>>)
        ensures
            match found {
                Some(entries) => {
                    &&& self@.contains_key(name@)
                    &&& entry_views(entries@) == self@[name@]
                    &&& entries.len() > 0
                    &&& ordered_by_project(entry_views(entries@))
                },
                None => !self@.contains_key(name@),
            },
    {
        proof {
            use_type_invariant(self);
        }
        let found = self.servers.get(name);
        proof {
            if found is Some {
                assert(self.servers@.contains_key(name@));
            }
        }
        found
    }

    /// Adds one definition of `name`, at its insert point among the
    /// definitions that the name already has.
    pub fn add(&mut self, name: &str, entry: McpEntry)
        ensures
            final(self)@ == old(self)@.insert(
                name@,
                insert_by_project(
                    if old(self)@.contains_key(name@) {
                        old(self)@[name@]
                    } else {
                        Seq::empty()
                    },
                    entry@,
                ),
            ),
    {
        proof {
            use_type_invariant(&*self);
        }
        let ghost before = self@;
        let mut servers: StrMap<Vec<McpEntry>> = StrMap::new();
        std::mem::swap(&mut servers, &mut self.servers);
        let ghost held = servers@;
        let taken = servers.remove(name);
        let mut entries = match taken {
            Some(entries) => entries,
            None => Vec::new(),
        };
        proof {
            if !held.contains_key(name@) {
                assert(entry_views(entries@) =~= Seq::<McpEntryView>::empty());
            }
            lemma_insert_keeps_order(entry_views(entries@), entry@);
        }
        insert_sorted(&mut entries, entry);
        servers.insert(name.to_owned(), entries);
        proof {
            assert forall|n: Seq<char>| #[trigger] servers@.contains_key(n) implies servers@[n].len()
                > 0 && ordered_by_project(entry_views(servers@[n]@)) by {
                if n != name@ {
                    assert(held.contains_key(n));
                }
            }
        }
        self.servers = servers;
        proof {
            assert(self@ =~= before.insert(
                name@,
                insert_by_project(
                    if before.contains_key(name@) {
                        before[name@]
                    } else {
                        Seq::empty()
                    },
                    entry@,
                ),
            ));
        }
    }
}

/// Adds to `registry` what `sources` contribute, source after source.
fn add_sources(registry: &mut Registry, sources: &Vec<ProjectConfig>, Ghost(prior): Ghost<Seq<Contribution>>)
    requires
        old(registry)@ == aggregate(prior),
    ensures
        final(registry)@ == aggregate(prior + contributions(sources@)),
{
    let mut i: usize = 0;
    proof {
        assert(sources@.take(0) =~= Seq::<ProjectConfig>::empty());
        assert(prior + contributions(sources@.take(0)) =~= prior);
    }
    while i < sources.len()
        invariant
            i <= sources.len(),
            registry@ == aggregate(prior + contributions(sources@.take(i as int))),
        decreases sources.len() - i,
    {
        let source = &sources[i];
        let ghost done = prior + contributions(sources@.take(i as int));
        let mut k: usize = 0;
        proof {
            assert(done + project_contributions(*source).take(0) =~= done);
        }
        while k < source.mcp_servers.len()
            invariant
                k <= source.mcp_servers.len(),
                registry@ == aggregate(done + project_contributions(*source).take(k as int)),
            decreases source.mcp_servers.len() - k,
        {
            let named = &source.mcp_servers[k];
            let entry = McpEntry { server: named.server.clone(), source_project: source.path.clone() };
            proof {
                let sofar = done + project_contributions(*source).take(k as int);
                let x = project_contributions(*source)[k as int];
                assert(x.name == named.name@);
                assert(x.entry == entry@);
                lemma_aggregate_push(sofar, x);
                assert(sofar.push(x) =~= done + project_contributions(*source).take(k + 1));
            }
            registry.add(named.name.as_str(), entry);
            k = k + 1;
        }
        proof {
            let all = project_contributions(*source);
            assert(all.take(k as int) =~= all);
            assert(sources@.take(i + 1).drop_last() =~= sources@.take(i as int));
            assert(sources@.take(i + 1).last() == *source);
            assert(done + all =~= prior + contributions(sources@.take(i + 1)));
        }
        i = i + 1;
    }
    proof {
        assert(sources@.take(i as int) =~= sources@);
    }
}

/// Merges what the global registry and the override files declare: every
/// definition of every source is kept under its name, with the project that
/// declared it, and the definitions of each name are ordered by project path.
/// The registry is a map from project path to servers, and every source
/// declares its servers as a map.
pub fn collect_all_mcp_servers(claude_json: &ClaudeJson, overrides: &Vec<ProjectConfig>) -> (registry:
    Registry)
    requires
        claude_json.well_formed(),
        well_formed_sources(overrides@),
    ensures
        registry@ == aggregate(all_contributions(*claude_json, overrides@)),
{
    let mut registry = Registry::new();
    proof {
        assert(aggregate(Seq::<Contribution>::empty()) =~= Map::<
            Seq<char>,
            Seq<McpEntryView>,
        >::empty());
    }
    add_sources(&mut registry, &claude_json.projects, Ghost(Seq::empty()));
    proof {
        assert(Seq::<Contribution>::empty() + contributions(claude_json.projects@)
            =~= contributions(claude_json.projects@));
    }
    add_sources(&mut registry, overrides, Ghost(contributions(claude_json.projects@)));
    registry
}

} // verus!
