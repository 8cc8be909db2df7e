//! What each command decides and reports: the listing of all servers, the
//! report on one server, and the steps of adding a server to the current
//! project and of removing one from it. Printing the reports, and reading and
//! writing the files, is left to the caller.

use crate::codec::encoded;
use crate::differ::{configs_differ, differs, normalize_args, own_normalized};
use crate::document::{JsonDocument, RegistryError};
use crate::model::{
    clone_env, entry_views, env_equal, env_map, lemma_env_map_empty, opt_text_eq, texts,
    texts_eq, EnvVar, McpEntry, McpEntryView, McpServer, McpServerView,
};
use crate::mutator::{installed, uninstalled};
use crate::project::{defines_server, names_server, opt_servers, ActiveProjectView};
use crate::registry::{NamedServer, Registry};
use crate::resolver::{
    adapted, projects_of, resolution, resolve_source, Resolution, ResolveError,
};
use crate::text::{opt_chars, str_eq};
use vstd::prelude::*;

verus! {

/// One project that uses a server.
#[derive(Debug, PartialEq, Eq)]
pub struct ProjectUse {
    pub project: String,
    pub is_current: bool,
}

/// One line of the listing: a server with the projects that use it.
#[derive(Debug, PartialEq, Eq)]
pub struct ServerSummary {
    pub name: String,
    /// The server is in effect in the current project.
    pub enabled: bool,
    /// The definitions of the server differ.
    pub has_diff: bool,
    /// The display target of the first definition.
    pub target: String,
    /// The first definition has a URL, so the target is labelled as one.
    pub target_is_url: bool,
    pub used_in: Vec<ProjectUse>,
}

/// What a project use says.
pub struct ProjectUseView {
    pub project: Seq<char>,
    pub is_current: bool,
}

/// What a listing line says.
pub struct ServerSummaryView {
    pub name: Seq<char>,
    pub enabled: bool,
    pub has_diff: bool,
    pub target: Seq<char>,
    pub target_is_url: bool,
    pub used_in: Seq<ProjectUseView>,
}

impl View for ProjectUse {
    type V = ProjectUseView;

    open spec fn view(&self) -> ProjectUseView {
        ProjectUseView { project: self.project@, is_current: self.is_current }
    }
}

impl View for ServerSummary {
    type V = ServerSummaryView;

    open spec fn view(&self) -> ServerSummaryView {
        ServerSummaryView {
            name: self.name@,
            enabled: self.enabled,
            has_diff: self.has_diff,
            target: self.target@,
            target_is_url: self.target_is_url,
            used_in: Seq::new(self.used_in@.len(), |i: int| self.used_in@[i]@),
        }
    }
}

/// The projects that use a server, each marked if it is the current one.
pub open spec fn uses(entries: Seq<McpEntryView>, cwd: Seq<char>) -> Seq<ProjectUseView> {
    Seq::new(
        entries.len(),
        |i: int|
            ProjectUseView {
                project: entries[i].source_project,
                is_current: entries[i].source_project == cwd,
            },
    )
}

/// The listing line of one server.
pub open spec fn summary(
    name: Seq<char>,
    entries: Seq<McpEntryView>,
    current: Map<Seq<char>, McpServerView>,
    cwd: Seq<char>,
) -> ServerSummaryView {
    ServerSummaryView {
        name,
        enabled: current.contains_key(name),
        has_diff: differs(entries),
        target: entries[0].server.display_target(),
        target_is_url: entries[0].server.url is Some,
        used_in: uses(entries, cwd),
    }
}

/// The listing: one line for every name of the registry, in the order of the
/// names.
pub open spec fn listing(
    registry: Registry,
    current: Map<Seq<char>, McpServerView>,
    cwd: Seq<char>,
) -> Seq<ServerSummaryView> {
    Seq::new(
        registry.names().len(),
        |i: int| summary(registry.names()[i], registry@[registry.names()[i]], current, cwd),
    )
}

/// What each line of a listing says.
pub open spec fn summary_views(lines: Seq<ServerSummary>) -> Seq<ServerSummaryView> {
    Seq::new(lines.len(), |i: int| lines[i]@)
}

fn project_uses(entries: &Vec<McpEntry>, cwd: &str) -> (used_in: Vec<ProjectUse>)
    ensures
        Seq::new(used_in@.len(), |i: int| used_in@[i]@) == uses(entry_views(entries@), cwd@),
{
    let mut used_in: Vec<ProjectUse> = Vec::new();
    let mut i: usize = 0;
    while i < entries.len()
        invariant
            i <= entries.len(),
            used_in.len() == i,
            forall|j: int|
                0 <= j < i ==> (#[trigger] used_in[j])@ == uses(entry_views(entries@), cwd@)[j],
        decreases entries.len() - i,
    {
        used_in.push(
            ProjectUse {
                project: entries[i].source_project.clone(),
                is_current: str_eq(entries[i].source_project.as_str(), cwd),
            },
        );
        i = i + 1;
    }
    assert(Seq::new(used_in@.len(), |i: int| used_in@[i]@) =~= uses(entry_views(entries@), cwd@));
    used_in
}

/// Lists every server of the registry in the order of the names: whether it
/// is in effect in the current project, whether its definitions differ, the
/// target of its first definition, and the projects that use it, in the
/// order of their paths, with the current project marked.
pub fn list_mcp_servers(registry: &Registry, current: &ActiveProjectView, cwd: &str) -> (lines: Vec<
    ServerSummary,
>)
    ensures
        summary_views(lines@) == listing(*registry, current@, cwd@),
{
    let mut lines: Vec<ServerSummary> = Vec::new();
    let count = registry.len();
    let mut i: usize = 0;
    while i < count
        invariant
            i <= count,
            count == registry.names().len(),
            lines.len() == i,
            forall|j: int|
                0 <= j < i ==> (#[trigger] lines[j])@ == listing(*registry, current@, cwd@)[j],
        decreases count - i,
    {
        let name = registry.name_at(i);
        let entries = registry.entries_at(i);
        let first = &entries[0];
        let line = ServerSummary {
            name: name.to_owned(),
            enabled: current.contains_key(name),
            has_diff: configs_differ(entries.as_slice()),
            target: first.server.display_target().to_owned(),
            target_is_url: first.server.url.is_some(),
            used_in: project_uses(entries, cwd),
        };
        proof {
            assert(entry_views(entries@)[0] == first@);
        }
        lines.push(line);
        i = i + 1;
    }
    assert(summary_views(lines@) =~= listing(*registry, current@, cwd@));
    lines
}

/// The command or URL line of one definition in a report.
#[derive(Debug, PartialEq, Eq)]
pub struct TargetLine {
    pub is_url: bool,
    pub text: String,
    /// The value is not that of the first definition.
    pub highlighted: bool,
}

/// One argument of one definition in a report.
#[derive(Debug, PartialEq, Eq)]
pub struct ArgDisplay {
    pub text: String,
    /// The argument, normalized, is not the argument that the first
    /// definition has at this position.
    pub highlighted: bool,
}

/// The environment of one definition in a report.
#[derive(Debug, PartialEq, Eq)]
pub enum EnvDisplay {
    /// Nothing is shown.
    Hidden,
    /// The variables are shown, highlighted where they are not those of the
    /// first definition.
    Shown { vars: Vec<EnvVar>, highlighted: bool },
    /// The definition has no variables where the first has some.
    Missing,
}

/// One definition in a report.
#[derive(Debug, PartialEq, Eq)]
pub struct ConfigReport {
    pub source_project: String,
    pub target: Option<TargetLine>,
    /// The arguments; none where the definition has none.
    pub args: Vec<ArgDisplay>,
    /// The normalized arguments are not those of the first definition.
    pub args_differ: bool,
    pub env: EnvDisplay,
}

/// The report on one server.
#[derive(Debug, PartialEq, Eq)]
pub struct ServerReport {
    pub name: String,
    pub enabled: bool,
    pub configurations: Vec<ConfigReport>,
}

/// What a target line says.
pub struct TargetLineView {
    pub is_url: bool,
    pub text: Seq<char>,
    pub highlighted: bool,
}

/// What a shown argument says.
pub struct ArgDisplayView {
    pub text: Seq<char>,
    pub highlighted: bool,
}

/// What a shown environment says: its variables as a map.
pub enum EnvDisplayView {
    Hidden,
    Shown { vars: Map<Seq<char>, Seq<char>>, highlighted: bool },
    Missing,
}

/// What the report on one definition says.
pub struct ConfigReportView {
    pub source_project: Seq<char>,
    pub target: Option<TargetLineView>,
    pub args: Seq<ArgDisplayView>,
    pub args_differ: bool,
    pub env: EnvDisplayView,
}

/// What the report on one server says.
pub struct ServerReportView {
    pub name: Seq<char>,
    pub enabled: bool,
    pub configurations: Seq<ConfigReportView>,
}

impl View for TargetLine {
    type V = TargetLineView;

    open spec fn view(&self) -> TargetLineView {
        TargetLineView { is_url: self.is_url, text: self.text@, highlighted: self.highlighted }
    }
}

impl View for ArgDisplay {
    type V = ArgDisplayView;

    open spec fn view(&self) -> ArgDisplayView {
        ArgDisplayView { text: self.text@, highlighted: self.highlighted }
    }
}

impl View for EnvDisplay {
    type V = EnvDisplayView;

    open spec fn view(&self) -> EnvDisplayView {
        match self {
            EnvDisplay::Hidden => EnvDisplayView::Hidden,
            EnvDisplay::Shown { vars, highlighted } => EnvDisplayView::Shown {
                vars: env_map(vars@),
                highlighted: *highlighted,
            },
            EnvDisplay::Missing => EnvDisplayView::Missing,
        }
    }
}

/// What an optional target line says.
pub open spec fn opt_target(t: Option<TargetLine>) -> Option<TargetLineView> {
    match t {
        Some(line) => Some(line@),
        None => None,
    }
}

impl View for ConfigReport {
    type V = ConfigReportView;

    open spec fn view(&self) -> ConfigReportView {
        ConfigReportView {
            source_project: self.source_project@,
            target: opt_target(self.target),
            args: Seq::new(self.args@.len(), |i: int| self.args@[i]@),
            args_differ: self.args_differ,
            env: self.env@,
        }
    }
}

impl View for ServerReport {
    type V = ServerReportView;

    open spec fn view(&self) -> ServerReportView {
        ServerReportView {
            name: self.name@,
            enabled: self.enabled,
            configurations: Seq::new(
                self.configurations@.len(),
                |i: int| self.configurations@[i]@,
            ),
        }
    }
}

/// The command line of a definition, or its URL line where it has no
/// command; highlighted in a later definition whose value is not that of the
/// first.
pub open spec fn target_line(e: McpEntryView, base: McpEntryView, later: bool) -> Option<
    TargetLineView,
> {
    match e.server.command {
        Some(c) => Some(
            TargetLineView {
                is_url: false,
                text: c,
                highlighted: later && e.server.command != base.server.command,
            },
        ),
        None => match e.server.url {
            Some(u) => Some(
                TargetLineView {
                    is_url: true,
                    text: u,
                    highlighted: later && e.server.url != base.server.url,
                },
            ),
            None => None,
        },
    }
}

/// A later definition has arguments that, normalized, are not those of the
/// first.
pub open spec fn args_differ(e: McpEntryView, base: McpEntryView, later: bool) -> bool {
    e.server.args.len() > 0 && later && own_normalized(e) != own_normalized(base)
}

/// The arguments of a definition; where they differ from the first
/// definition's, each is highlighted that the first does not have, normalized,
/// at the same position.
pub open spec fn arg_lines(e: McpEntryView, base: McpEntryView, later: bool) -> Seq<
    ArgDisplayView,
> {
    Seq::new(
        e.server.args.len(),
        |j: int|
            ArgDisplayView {
                text: e.server.args[j],
                highlighted: args_differ(e, base, later) && !(j < own_normalized(base).len()
                    && own_normalized(base)[j] == own_normalized(e)[j]),
            },
    )
}

/// A definition binds some variable.
pub open spec fn has_env(e: McpEntryView) -> bool {
    e.server.env != Map::<Seq<char>, Seq<char>>::empty()
}

/// The environment of a definition: shown where it has variables,
/// highlighted in a later definition whose variables are not those of the
/// first; marked as missing in a later definition that has none where the
/// first has some.
pub open spec fn env_display(e: McpEntryView, base: McpEntryView, later: bool) -> EnvDisplayView {
    if has_env(e) {
        EnvDisplayView::Shown {
            vars: e.server.env,
            highlighted: later && e.server.env != base.server.env,
        }
    } else if later && has_env(base) {
        EnvDisplayView::Missing
    } else {
        EnvDisplayView::Hidden
    }
}

/// The report on the definition at position `i`, compared with the first.
pub open spec fn config_report(entries: Seq<McpEntryView>, i: int) -> ConfigReportView {
    ConfigReportView {
        source_project: entries[i].source_project,
        target: target_line(entries[i], entries[0], i > 0),
        args: arg_lines(entries[i], entries[0], i > 0),
        args_differ: args_differ(entries[i], entries[0], i > 0),
        env: env_display(entries[i], entries[0], i > 0),
    }
}

/// The report on a server: every definition in order, compared with the
/// first.
pub open spec fn report(
    name: Seq<char>,
    entries: Seq<McpEntryView>,
    current: Map<Seq<char>, McpServerView>,
) -> ServerReportView {
    ServerReportView {
        name,
        enabled: current.contains_key(name),
        configurations: Seq::new(entries.len(), |i: int| config_report(entries, i)),
    }
}

/// Why a command did nothing.
#[derive(Debug, PartialEq, Eq)]
pub enum CommandError {
    /// No source defines a server of that name.
    NameNotFound,
    /// The server is not in effect in the current project.
    NotEnabled,
    /// No definition could be picked to copy from.
    Resolve(ResolveError),
    /// The global registry could not take the change.
    Registry(RegistryError),
}

fn report_target(e: &McpEntry, base: &McpEntry, later: bool) -> (line: Option<TargetLine>)
    ensures
        opt_target(line) == target_line(e@, base@, later),
{
    match &e.server.command {
        Some(cmd) => Some(
            TargetLine {
                is_url: false,
                text: cmd.clone(),
                highlighted: later && !opt_text_eq(&e.server.command, &base.server.command),
            },
        ),
        None => match &e.server.url {
            Some(url) => Some(
                TargetLine {
                    is_url: true,
                    text: url.clone(),
                    highlighted: later && !opt_text_eq(&e.server.url, &base.server.url),
                },
            ),
            None => None,
        },
    }
}

fn report_args(e: &McpEntry, base: &McpEntry, later: bool) -> (shown: (Vec<ArgDisplay>, bool))
    ensures
        Seq::new(shown.0@.len(), |i: int| shown.0@[i]@) == arg_lines(e@, base@, later),
        shown.1 == args_differ(e@, base@, later),
{
    let normalized = normalize_args(e.server.args.as_slice(), e.source_project.as_str());
    let base_args = normalize_args(base.server.args.as_slice(), base.source_project.as_str());
    let differ = e.server.args.len() > 0 && later && !texts_eq(&normalized, &base_args);
    let mut lines: Vec<ArgDisplay> = Vec::new();
    let mut j: usize = 0;
    assert(normalized.len() == texts(normalized@).len());
    assert(base_args.len() == texts(base_args@).len());
    while j < e.server.args.len()
        invariant
            j <= e.server.args.len(),
            lines.len() == j,
            differ == args_differ(e@, base@, later),
            texts(normalized@) == own_normalized(e@),
            texts(base_args@) == own_normalized(base@),
            normalized.len() == e.server.args.len(),
            base_args.len() == own_normalized(base@).len(),
            forall|k: int| 0 <= k < j ==> (#[trigger] lines[k])@ == arg_lines(e@, base@, later)[k],
        decreases e.server.args.len() - j,
    {
        let same = j < base_args.len() && str_eq(base_args[j].as_str(), normalized[j].as_str());
        proof {
            if j < base_args.len() {
                assert(texts(base_args@)[j as int] == base_args[j as int]@);
            }
            assert(texts(normalized@)[j as int] == normalized[j as int]@);
        }
        lines.push(ArgDisplay { text: e.server.args[j].clone(), highlighted: differ && !same });
        j = j + 1;
    }
    assert(Seq::new(lines@.len(), |i: int| lines@[i]@) =~= arg_lines(e@, base@, later));
    (lines, differ)
}

fn report_env(e: &McpEntry, base: &McpEntry, later: bool) -> (shown: EnvDisplay)
    ensures
        shown@ == env_display(e@, base@, later),
{
    proof {
        lemma_env_map_empty(e.server.env@);
        lemma_env_map_empty(base.server.env@);
    }
    if e.server.env.len() > 0 {
        EnvDisplay::Shown {
            vars: clone_env(&e.server.env),
            highlighted: later && !env_equal(&e.server.env, &base.server.env),
        }
    } else if later && base.server.env.len() > 0 {
        EnvDisplay::Missing
    } else {
        EnvDisplay::Hidden
    }
}

/// Reports on the server `name`: whether it is in effect in the current
/// project, and every definition of it in the order of the registry, with
/// what sets a later definition apart from the first. Fails where no source
/// defines the name.
pub fn show_mcp_server(name: &str, registry: &Registry, current: &ActiveProjectView) -> (shown:
    Result<ServerReport, CommandError>)
    ensures
        match shown {
            Ok(r) => registry@.contains_key(name@) && r@ == report(
                name@,
                registry@[name@],
                current@,
            ),
            Err(e) => !registry@.contains_key(name@) && e == CommandError::NameNotFound,
        },
{
    let entries = match registry.get(name) {
        Some(entries) => entries,
        None => {
            return Err(CommandError::NameNotFound);
        },
    };
    let ghost views = entry_views(entries@);
    let base = &entries[0];
    let mut configurations: Vec<ConfigReport> = Vec::new();
    let mut i: usize = 0;
    while i < entries.len()
        invariant
            i <= entries.len(),
            entries.len() > 0,
            base == entries[0],
            views == entry_views(entries@),
            configurations.len() == i,
            forall|k: int|
                0 <= k < i ==> (#[trigger] configurations[k])@ == config_report(views, k),
        decreases entries.len() - i,
    {
        let e = &entries[i];
        let later = i > 0;
        let (args, args_differ) = report_args(e, base, later);
        let config = ConfigReport {
            source_project: e.source_project.clone(),
            target: report_target(e, base, later),
            args,
            args_differ,
            env: report_env(e, base, later),
        };
        proof {
            assert(views[i as int] == e@);
            assert(views[0] == base@);
        }
        configurations.push(config);
        i = i + 1;
    }
    let shown = ServerReport {
        name: name.to_owned(),
        enabled: current.contains_key(name),
        configurations,
    };
    proof {
        assert(shown@.configurations =~= report(name@, views, current@).configurations);
    }
    Ok(shown)
}

/// How adding a server ended.
#[derive(Debug, PartialEq, Eq)]
pub enum AddOutcome {
    /// The definition, adapted to the project, was written into the
    /// registry document.
    Added(McpServer),
    /// The server was in effect already; nothing was done.
    AlreadyEnabled,
}

/// Adds the server `name` to the project at `cwd`. Nothing is done where the
/// server is in effect there already. Else the definition to copy is picked
/// from those of the registry, by the hint `from` where one is given,
/// adapted to the project, and written into the registry document. Where the
/// command fails the document is left as it was.
pub fn add_mcp_server(
    name: &str,
    from: Option<&str>,
    registry: &Registry,
    current: &ActiveProjectView,
    cwd: &str,
    document: &mut JsonDocument,
) -> (done: Result<AddOutcome, CommandError>)
    ensures
        current@.contains_key(name@) ==> done == Ok::<AddOutcome, CommandError>(
            AddOutcome::AlreadyEnabled,
        ) && final(document)@ == old(document)@,
        !current@.contains_key(name@) && !registry@.contains_key(name@) ==> done == Err::<
            AddOutcome,
            CommandError,
        >(CommandError::NameNotFound) && final(document)@ == old(document)@,
        !current@.contains_key(name@) && registry@.contains_key(name@) ==> match resolution(
            registry@[name@],
            opt_chars(from),
        ) {
            Resolution::Chosen(i) => match installed(
                old(document)@,
                cwd@,
                name@,
                encoded(adapted(registry@[name@][i], cwd@)),
            ) {
                Some(t) => {
                    &&& done matches Ok(AddOutcome::Added(server))
                    &&& server@ == adapted(registry@[name@][i], cwd@)
                    &&& final(document)@ == t
                },
                None => {
                    &&& done == Err::<AddOutcome, CommandError>(
                        CommandError::Registry(RegistryError::Unwritable),
                    )
                    &&& final(document)@ == old(document)@
                },
            },
            Resolution::NoMatchingSource => {
                &&& done matches Err(
                    CommandError::Resolve(ResolveError::NoMatchingSource { name: n, hint, available }),
                )
                &&& n@ == name@
                &&& Some(hint@) == opt_chars(from)
                &&& texts(available@) == projects_of(registry@[name@])
                &&& final(document)@ == old(document)@
            },
            Resolution::AmbiguousSource => {
                &&& done matches Err(
                    CommandError::Resolve(ResolveError::AmbiguousSource { name: n, candidates }),
                )
                &&& n@ == name@
                &&& texts(candidates@) == projects_of(registry@[name@])
                &&& final(document)@ == old(document)@
            },
        },
{
    if current.contains_key(name) {
        return Ok(AddOutcome::AlreadyEnabled);
    }
    let entries = match registry.get(name) {
        Some(entries) => entries,
        None => {
            return Err(CommandError::NameNotFound);
        },
    };
    let entry = match resolve_source(name, entries.as_slice(), from) {
        Ok(entry) => entry,
        Err(e) => {
            return Err(CommandError::Resolve(e));
        },
    };
    match document.install(name, entry, cwd) {
        Ok(server) => Ok(AddOutcome::Added(server)),
        Err(e) => Err(CommandError::Registry(e)),
    }
}

/// How removing a server ended.
#[derive(Debug, Clone, Copy, PartialEq, Eq, Structural)]
pub enum RemoveOutcome {
    /// The server was taken out of the project's entry in the registry
    /// document.
    Removed,
    /// The project's own override file defines the server; it has to be
    /// taken out of that file by hand, and nothing was done.
    OverrideNotRemovable,
}

/// Removes the server `name` from the project at `cwd`. Fails where the
/// server is not in effect there. Does nothing where the project's override
/// file, `local`, defines it. Else takes it out of the project's entry in
/// the registry document.
pub fn remove_mcp_server(
    name: &str,
    current: &ActiveProjectView,
    local: Option<&Vec<NamedServer>>,
    cwd: &str,
    document: &mut JsonDocument,
) -> (done: Result<RemoveOutcome, CommandError>)
    ensures
        !current@.contains_key(name@) ==> done == Err::<RemoveOutcome, CommandError>(
            CommandError::NotEnabled,
        ) && final(document)@ == old(document)@,
        current@.contains_key(name@) && overridden(opt_servers(local), name@) ==> done == Ok::<
            RemoveOutcome,
            CommandError,
        >(RemoveOutcome::OverrideNotRemovable) && final(document)@ == old(document)@,
        current@.contains_key(name@) && !overridden(opt_servers(local), name@) ==> done == Ok::<
            RemoveOutcome,
            CommandError,
        >(RemoveOutcome::Removed) && final(document)@ == uninstalled(
            old(document)@,
            cwd@,
            name@,
        ),
{
    if !current.contains_key(name) {
        return Err(CommandError::NotEnabled);
    }
    let in_override = match local {
        Some(servers) => defines_server(servers, name),
        None => false,
    };
    if in_override {
        return Ok(RemoveOutcome::OverrideNotRemovable);
    }
    document.uninstall(name, cwd);
    Ok(RemoveOutcome::Removed)
}

/// The project's override file defines the server.
pub open spec fn overridden(local: Option<Seq<NamedServer>>, name: Seq<char>) -> bool {
    match local {
        Some(servers) => names_server(servers, name),
        None => false,
    }
}

} // verus!
