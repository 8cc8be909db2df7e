//! The equivalence check: whether the definitions found for one name are the
//! same configuration once each project's own path is factored out.

use crate::model::{entry_views, env_equal, opt_text_eq, texts, texts_eq, McpEntry, McpEntryView};
use crate::text::{lemma_replace_whole, replace_all, str_replace};
use vstd::prelude::*;

verus! {

/// The token that stands for a project's own path in normalized arguments.
pub open spec fn placeholder() -> Seq<char> {
    "<PROJECT>"@
}

/// `args` with every occurrence of `project_path` in every argument replaced
/// by the placeholder.
pub open spec fn normalized(args: Seq<Seq<char>>, project_path: Seq<char>) -> Seq<Seq<char>> {
    Seq::new(args.len(), |i: int| replace_all(args[i], project_path, placeholder()))
}

/// The arguments of an entry, normalized by the entry's own project path.
pub open spec fn own_normalized(e: McpEntryView) -> Seq<Seq<char>> {
    normalized(e.server.args, e.source_project)
}

/// Two entries are the same configuration: command, URL and environment
/// agree, and so do the arguments once each is normalized by its own project
/// path.
pub open spec fn same_configuration(a: McpEntryView, b: McpEntryView) -> bool {
    &&& a.server.command == b.server.command
    &&& a.server.url == b.server.url
    &&& own_normalized(a) == own_normalized(b)
    &&& a.server.env == b.server.env
}

/// Some entry after the first is not the same configuration as the first.
/// No entries, or one, never differ.
pub open spec fn differs(entries: Seq<McpEntryView>) -> bool {
    exists|i: int| 1 <= i < entries.len() && !same_configuration(#[trigger] entries[i], entries[0])
}

/// A single definition never differs.
pub proof fn lemma_single_never_differs(entries: Seq<McpEntryView>)
    requires
        entries.len() <= 1,
    ensures
        !differs(entries),
{
}

/// Two definitions that agree in command, URL and environment, and whose
/// arguments pairwise either are each exactly the entry's own project path or
/// normalize to the same text, are the same configuration: listed together
/// they do not differ.
pub proof fn lemma_own_path_arguments_agree(a: McpEntryView, b: McpEntryView)
    requires
        a.server.command == b.server.command,
        a.server.url == b.server.url,
        a.server.env == b.server.env,
        a.server.args.len() == b.server.args.len(),
        forall|i: int|
            0 <= i < a.server.args.len() ==> {
                ||| (#[trigger] a.server.args[i] == a.source_project && b.server.args[i]
                    == b.source_project)
                ||| replace_all(a.server.args[i], a.source_project, placeholder())
                    == replace_all(b.server.args[i], b.source_project, placeholder())
            },
    ensures
        same_configuration(a, b),
        !differs(seq![a, b]),
        !differs(seq![b, a]),
{
    assert forall|i: int| 0 <= i < a.server.args.len() implies own_normalized(a)[i]
        == own_normalized(b)[i] by {
        if a.server.args[i] == a.source_project && b.server.args[i] == b.source_project {
            lemma_replace_whole(a.source_project, placeholder());
            lemma_replace_whole(b.source_project, placeholder());
        }
    }
    assert(own_normalized(a) =~= own_normalized(b));
}

/// Replaces every occurrence of `project_path` in every argument by the
/// placeholder `<PROJECT>`.
pub fn normalize_args(args: &[String], project_path: &str) -> (out: Vec<String>)
    ensures
        texts(out@) == normalized(texts(args@), project_path@),
{
    let mut out: Vec<String> = Vec::new();
    let mut i: usize = 0;
    while i < args.len()
        invariant
            i <= args.len(),
            out.len() == i,
            forall|j: int|
                0 <= j < i ==> (#[trigger] out[j])@ == replace_all(
                    args[j]@,
                    project_path@,
                    placeholder(),
                ),
        decreases args.len() - i,
    {
        out.push(str_replace(args[i].as_str(), project_path, "<PROJECT>"));
        i = i + 1;
    }
    assert(texts(out@) =~= normalized(texts(args@), project_path@));
    out
}

/// Whether the definitions found for one name differ: false for none or one;
/// else true exactly when some later definition is not the same configuration
/// as the first.
pub fn configs_differ(entries: &[McpEntry]) -> (differ: bool)
    ensures
        differ == differs(entry_views(entries@)),
{
    if entries.len() <= 1 {
        return false;
    }
    let first = &entries[0];
    let first_args = normalize_args(first.server.args.as_slice(), first.source_project.as_str());
    let mut i: usize = 1;
    while i < entries.len()
        invariant
            1 <= i <= entries.len(),
            first == entries[0],
            texts(first_args@) == own_normalized(first@),
            forall|j: int|
                1 <= j < i ==> same_configuration(#[trigger] entry_views(entries@)[j], first@),
        decreases entries.len() - i,
    {
        let e = &entries[i];
        let args = normalize_args(e.server.args.as_slice(), e.source_project.as_str());
        let same = opt_text_eq(&e.server.command, &first.server.command) && opt_text_eq(
            &e.server.url,
            &first.server.url,
        ) && texts_eq(&args, &first_args) && env_equal(&e.server.env, &first.server.env);
        if !same {
            assert(!same_configuration(entry_views(entries@)[i as int], entry_views(entries@)[0]));
            return true;
        }
        i = i + 1;
    }
    false
}

} // verus!
