//! The resolver: picks the one definition to copy from when a server is added
//! to a project, and adapts it to the project it is copied into.

use crate::differ::{configs_differ, differs};
use crate::model::{entry_views, texts, McpEntry, McpEntryView, McpServer, McpServerView};
use crate::registry::{aggregate, lemma_sort_by_project, Contribution, entries_named, sort_by_project};
use crate::text::{
    lemma_replace_absent, lex_le, occurs_in, opt_chars, replace_all, str_contains, str_replace,
};
use vstd::prelude::*;

verus! {

/// Why no definition was picked. Both failures list the project of every
/// definition that was on offer, in the order of the definitions.
#[derive(Debug, PartialEq, Eq)]
pub enum ResolveError {
    /// A hint was given and no project path holds it.
    NoMatchingSource { name: String, hint: String, available: Vec<String> },
    /// No hint was given, and the definitions differ.
    AmbiguousSource { name: String, candidates: Vec<String> },
}

/// What the resolver decides.
pub enum Resolution {
    /// The definition at this position is picked.
    Chosen(int),
    NoMatchingSource,
    AmbiguousSource,
}

/// The definition at `i` is the first whose project path holds `hint`.
pub open spec fn is_first_match(entries: Seq<McpEntryView>, hint: Seq<char>, i: int) -> bool {
    &&& 0 <= i < entries.len()
    &&& occurs_in(hint, entries[i].source_project)
    &&& forall|j: int| 0 <= j < i ==> !occurs_in(hint, #[trigger] entries[j].source_project)
}

/// Some project path holds `hint`.
pub open spec fn has_match(entries: Seq<McpEntryView>, hint: Seq<char>) -> bool {
    exists|i: int| is_first_match(entries, hint, i)
}

/// The position of the first definition whose project path holds `hint`.
pub open spec fn first_match(entries: Seq<McpEntryView>, hint: Seq<char>) -> int {
    choose|i: int| is_first_match(entries, hint, i)
}

/// The decision: with a hint, the first definition whose project path holds
/// it, or no match; without one, the first definition unless the definitions
/// differ.
pub open spec fn resolution(entries: Seq<McpEntryView>, hint: Option<Seq<char>>) -> Resolution {
    match hint {
        Some(h) => if has_match(entries, h) {
            Resolution::Chosen(first_match(entries, h))
        } else {
            Resolution::NoMatchingSource
        },
        None => if differs(entries) {
            Resolution::AmbiguousSource
        } else {
            Resolution::Chosen(0)
        },
    }
}

/// The project path of every definition, in order.
pub open spec fn projects_of(entries: Seq<McpEntryView>) -> Seq<Seq<char>> {
    Seq::new(entries.len(), |i: int| entries[i].source_project)
}

/// At most one position is the first match.
pub proof fn lemma_first_match_unique(entries: Seq<McpEntryView>, hint: Seq<char>, i: int, j: int)
    requires
        is_first_match(entries, hint, i),
        is_first_match(entries, hint, j),
    ensures
        i == j,
{
}

/// A hint that exactly one project path holds picks that definition, however
/// many others there are.
pub proof fn lemma_hint_matching_one_source(entries: Seq<McpEntryView>, hint: Seq<char>, i: int)
    requires
        0 <= i < entries.len(),
        occurs_in(hint, entries[i].source_project),
        forall|j: int|
            0 <= j < entries.len() && j != i ==> !occurs_in(
                hint,
                #[trigger] entries[j].source_project,
            ),
    ensures
        resolution(entries, Some(hint)) == Resolution::Chosen(i),
{
    assert(is_first_match(entries, hint, i));
    lemma_first_match_unique(entries, hint, i, first_match(entries, hint));
}

/// Without a hint, where the definitions that the merged registry holds for a
/// name do not differ, the first is picked, and no definition of the name
/// comes from a project whose path comes before its project's path.
pub proof fn lemma_unhinted_choice_is_first_project(c: Seq<Contribution>, name: Seq<char>)
    requires
        aggregate(c).contains_key(name),
        !differs(aggregate(c)[name]),
    ensures
        resolution(aggregate(c)[name], None) == Resolution::Chosen(0),
        forall|j: int|
            0 <= j < aggregate(c)[name].len() ==> lex_le(
                aggregate(c)[name][0].source_project,
                #[trigger] aggregate(c)[name][j].source_project,
            ),
{
    lemma_sort_by_project(entries_named(c, name));
    assert(aggregate(c)[name] == sort_by_project(entries_named(c, name)));
}

fn project_list(entries: &[McpEntry]) -> (projects: Vec<String>)
    ensures
        texts(projects@) == projects_of(entry_views(entries@)),
{
    let mut projects: Vec<String> = Vec::new();
    let mut i: usize = 0;
    while i < entries.len()
        invariant
            i <= entries.len(),
            projects.len() == i,
            forall|j: int| 0 <= j < i ==> (#[trigger] projects[j])@ == entries[j].source_project@,
        decreases entries.len() - i,
    {
        projects.push(entries[i].source_project.clone());
        i = i + 1;
    }
    assert(texts(projects@) =~= projects_of(entry_views(entries@)));
    projects
}

/// Picks the definition of `name` to act on. With a hint, the first
/// definition whose project path holds the hint; without one, the first
/// definition, unless there are several and they differ.
pub fn resolve_source<'a>(name: &str, entries: &'a [McpEntry], hint: Option<&str>) -> (picked:
    Result<&'a McpEntry, ResolveError>)
    requires
        entries.len() > 0,
    ensures
        match resolution(entry_views(entries@), opt_chars(hint)) {
            Resolution::Chosen(i) => picked == Ok::<&McpEntry, ResolveError>(&entries[i]),
            Resolution::NoMatchingSource => {
                &&& picked matches Err(ResolveError::NoMatchingSource { name: n, hint: h, available })
                &&& n@ == name@
                &&& Some(h@) == opt_chars(hint)
                &&& texts(available@) == projects_of(entry_views(entries@))
            },
            Resolution::AmbiguousSource => {
                &&& picked matches Err(ResolveError::AmbiguousSource { name: n, candidates })
                &&& n@ == name@
                &&& texts(candidates@) == projects_of(entry_views(entries@))
            },
        },
{
    let ghost views = entry_views(entries@);
    match hint {
        Some(pattern) => {
            let mut i: usize = 0;
            while i < entries.len()
                invariant
                    i <= entries.len(),
                    hint == Some(pattern),
                    views == entry_views(entries@),
                    forall|j: int|
                        0 <= j < i ==> !occurs_in(pattern@, #[trigger] views[j].source_project),
                decreases entries.len() - i,
            {
                if str_contains(entries[i].source_project.as_str(), pattern) {
                    proof {
                        assert(is_first_match(views, pattern@, i as int));
                        lemma_first_match_unique(
                            views,
                            pattern@,
                            i as int,
                            first_match(views, pattern@),
                        );
                    }
                    return Ok(&entries[i]);
                }
                i = i + 1;
            }
            Err(
                ResolveError::NoMatchingSource {
                    name: name.to_owned(),
                    hint: pattern.to_owned(),
                    available: project_list(entries),
                },
            )
        },
        None => {
            if entries.len() > 1 && configs_differ(entries) {
                Err(
                    ResolveError::AmbiguousSource {
                        name: name.to_owned(),
                        candidates: project_list(entries),
                    },
                )
            } else {
                Ok(&entries[0])
            }
        },
    }
}

/// The arguments of `e` with the project path of `e` replaced by
/// `destination` in every argument that holds it.
pub open spec fn adapted_args(e: McpEntryView, destination: Seq<char>) -> Seq<Seq<char>> {
    Seq::new(
        e.server.args.len(),
        |i: int|
            if occurs_in(e.source_project, e.server.args[i]) {
                replace_all(e.server.args[i], e.source_project, destination)
            } else {
                e.server.args[i]
            },
    )
}

/// The definition of `e` as it is copied into the project `destination`:
/// only the arguments change.
pub open spec fn adapted(e: McpEntryView, destination: Seq<char>) -> McpServerView {
    McpServerView {
        server_type: e.server.server_type,
        command: e.server.command,
        url: e.server.url,
        args: adapted_args(e, destination),
        env: e.server.env,
    }
}

/// Every adapted argument is the argument it was made from with each
/// occurrence of the source project's path replaced by the destination.
pub proof fn lemma_adapted_args_replace(e: McpEntryView, destination: Seq<char>)
    ensures
        adapted_args(e, destination).len() == e.server.args.len(),
        forall|i: int|
            0 <= i < e.server.args.len() ==> #[trigger] adapted_args(e, destination)[i]
                == replace_all(e.server.args[i], e.source_project, destination),
{
    assert forall|i: int| 0 <= i < e.server.args.len() implies #[trigger] adapted_args(
        e,
        destination,
    )[i] == replace_all(e.server.args[i], e.source_project, destination) by {
        if !occurs_in(e.source_project, e.server.args[i]) {
            lemma_replace_absent(e.server.args[i], e.source_project, destination);
        }
    }
}

/// The definition of `entry` adapted to the project `destination`: in every
/// argument that holds the path of the project that declared it, that path is
/// replaced by `destination`.
pub fn adapt_to_project(entry: &McpEntry, destination: &str) -> (server: McpServer)
    ensures
        server@ == adapted(entry@, destination@),
{
    let mut server = entry.server.clone();
    let mut args: Vec<String> = Vec::new();
    let mut i: usize = 0;
    while i < entry.server.args.len()
        invariant
            i <= entry.server.args.len(),
            args.len() == i,
            forall|j: int|
                0 <= j < i ==> (#[trigger] args[j])@ == adapted_args(entry@, destination@)[j],
        decreases entry.server.args.len() - i,
    {
        let arg = entry.server.args[i].as_str();
        if str_contains(arg, entry.source_project.as_str()) {
            args.push(str_replace(arg, entry.source_project.as_str(), destination));
        } else {
            args.push(arg.to_owned());
        }
        i = i + 1;
    }
    server.args = args;
    proof {
        assert(texts(server.args@) =~= adapted_args(entry@, destination@));
    }
    server
}

} // verus!
