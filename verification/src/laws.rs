//! What holds of an install followed by a fresh reading and merging of the
//! sources, and of merging the same contributions in another order.

use crate::codec::{encoded, text_items, text_members};
use crate::document::JsonValue;
use crate::model::{McpEntryView, McpServerView};
use crate::mutator::{holder, installed, projects_key, servers_key};
use crate::reading::{
    all_projects, all_servers, decoded_args, decoded_env, decoded_project,
    decoded_registry, decoded_server, lemma_named_map_witness, lemma_project_map_witness, project_map,
};
use crate::registry::{
    aggregate, all_contributions, contributions, entries_named, lemma_sort_by_project,
    project_contributions, project_path_list, server_names, sort_by_project,
    well_formed_sources, ClaudeJson, Contribution, ProjectConfig,
};
use crate::resolver::{adapted, lemma_adapted_args_replace};
use crate::text::{distinct_texts, lex_le, lex_lt, replace_all};
use vstd::prelude::*;

verus! {

/// The five member names of a server object are five different names.
pub proof fn lemma_member_names_differ()
    ensures
        "type"@ != "command"@,
        "type"@ != "url"@,
        "type"@ != "args"@,
        "type"@ != "env"@,
        "command"@ != "url"@,
        "command"@ != "args"@,
        "command"@ != "env"@,
        "url"@ != "args"@,
        "url"@ != "env"@,
        "args"@ != "env"@,
{
    reveal_strlit("type");
    reveal_strlit("command");
    reveal_strlit("url");
    reveal_strlit("args");
    reveal_strlit("env");
    assert("type"@.len() == 4 && "command"@.len() == 7 && "url"@.len() == 3 && "args"@.len() == 4
        && "env"@.len() == 3);
    assert("type"@[0] == 't' && "args"@[0] == 'a' && "url"@[0] == 'u' && "env"@[0] == 'e');
}

/// A server definition that was written into a document is read back as it
/// was.
pub proof fn lemma_written_server_is_read_back(s: McpServerView)
    ensures
        decoded_server(encoded(s)) == Some(s),
{
    lemma_member_names_differ();
    let v = encoded(s);
    assert(v.get("type"@) == Some(crate::codec::opt_json(s.server_type)));
    assert(v.get("command"@) == Some(crate::codec::opt_json(s.command)));
    assert(v.get("url"@) == Some(crate::codec::opt_json(s.url)));
    assert(v.get("args"@) == Some(JsonValue::Array(text_items(s.args))));
    assert(v.get("env"@) == Some(JsonValue::Object(text_members(s.env))));
    assert(decoded_args(v.get("args"@)) == Some(s.args)) by {
        let items = text_items(s.args);
        assert(Seq::new(items.len(), |i: int| items[i]->Text_0) =~= s.args);
    }
    assert(decoded_env(v.get("env"@)) == Some(s.env)) by {
        let m = text_members(s.env);
        assert(Map::new(|k: Seq<char>| m.contains_key(k), |k: Seq<char>| m[k]->Text_0) =~= s.env);
    }
    let d = decoded_server(v)->0;
    assert(d.server_type == s.server_type);
    assert(d.command == s.command);
    assert(d.url == s.url);
}

/// What the servers of project `dest` are after a server is installed
/// there: what they were, with the server under its name.
pub open spec fn servers_after_install(
    before: Map<Seq<char>, Map<Seq<char>, McpServerView>>,
    dest: Seq<char>,
    name: Seq<char>,
    s: McpServerView,
) -> Map<Seq<char>, McpServerView> {
    if before.contains_key(dest) {
        before[dest].insert(name, s)
    } else {
        Map::<Seq<char>, McpServerView>::empty().insert(name, s)
    }
}

/// A registry that could be read before an install can be read after it,
/// and declares what it declared before, with the installed server under its
/// name in the destination project.
pub proof fn lemma_install_then_read(
    root: JsonValue,
    dest: Seq<char>,
    name: Seq<char>,
    s: McpServerView,
)
    requires
        installed(root, dest, name, encoded(s)) is Some,
        decoded_registry(root) is Some,
    ensures
        decoded_registry(installed(root, dest, name, encoded(s))->0) == Some(
            decoded_registry(root)->0.insert(
                dest,
                servers_after_install(decoded_registry(root)->0, dest, name, s),
            ),
        ),
{
    lemma_written_server_is_read_back(s);
    let before = decoded_registry(root)->0;
    let t = installed(root, dest, name, encoded(s))->0;
    let r = holder(Some(root))->0;
    let ps = holder(r.get(projects_key()))->0;
    let p = holder(ps.get(dest))->0;
    let ss = holder(p.get(servers_key()))->0;
    let ss2 = ss.put(name, encoded(s));
    let p2 = p.put(servers_key(), ss2);
    let ps2 = ps.put(dest, p2);
    assert(r == root);
    let psm = ps->Object_0;
    let ps2m = ps2->Object_0;
    let ssm = ss->Object_0;
    let ss2m = ss2->Object_0;
    // the servers of the destination project
    assert(all_servers(ss2m)) by {
        assert forall|k: Seq<char>| #[trigger] ss2m.contains_key(k) implies decoded_server(ss2m[k])
            is Some by {
            if k != name {
                assert(ssm.contains_key(k));
                if ps.get(dest) is Some && ps.get(dest)->0 is Object {
                    assert(psm.contains_key(dest));
                    assert(decoded_project(psm[dest]) is Some);
                }
            }
        }
    }
    let after_dest = servers_after_install(before, dest, name, s);
    assert(decoded_project(p2) == Some(after_dest)) by {
        assert(p2.get(servers_key()) == Some(ss2));
        let got = Map::new(
            |k: Seq<char>| ss2m.contains_key(k),
            |k: Seq<char>| decoded_server(ss2m[k])->0,
        );
        if root.get(projects_key()) is Some && psm.contains_key(dest) {
            assert(decoded_project(psm[dest]) is Some);
        }
        assert(got =~= after_dest);
    }
    assert(all_projects(ps2m)) by {
        assert forall|k: Seq<char>| #[trigger] ps2m.contains_key(k) implies decoded_project(ps2m[k])
            is Some by {
            if k != dest {
                assert(psm.contains_key(k));
            }
        }
    }
    let got = Map::new(
        |k: Seq<char>| ps2m.contains_key(k),
        |k: Seq<char>| decoded_project(ps2m[k])->0,
    );
    assert(t.get(projects_key()) == Some(ps2));
    assert(got =~= before.insert(dest, after_dest)) by {
        assert forall|k: Seq<char>| got.contains_key(k) implies #[trigger] before.insert(
            dest,
            after_dest,
        ).contains_key(k) by {
            if k != dest {
                assert(psm.contains_key(k));
            }
        }
    }
}

/// Every server that a list of sources declares is among its contributions.
pub proof fn lemma_contribution_listed(sources: Seq<ProjectConfig>, i: int, k: int)
    requires
        0 <= i < sources.len(),
        0 <= k < sources[i].mcp_servers@.len(),
    ensures
        contributions(sources).contains(project_contributions(sources[i])[k]),
    decreases sources.len(),
{
    let c = contributions(sources);
    let front = contributions(sources.drop_last());
    let last = project_contributions(sources.last());
    if i == sources.len() - 1 {
        assert(c[front.len() + k] == last[k]);
    } else {
        lemma_contribution_listed(sources.drop_last(), i, k);
        let at = choose|at: int|
            0 <= at < front.len() && front[at] == project_contributions(sources[i])[k];
        assert(c[at] == front[at]);
    }
}

/// Every contribution is among the definitions of its name.
pub proof fn lemma_named_entry_listed(c: Seq<Contribution>, x: Contribution)
    requires
        c.contains(x),
    ensures
        entries_named(c, x.name).contains(x.entry),
    decreases c.len(),
{
    let front = c.drop_last();
    if c.last() == x {
        let e = entries_named(c, x.name);
        assert(e[e.len() - 1] == x.entry);
    } else {
        let at = choose|at: int| 0 <= at < c.len() && c[at] == x;
        assert(front[at] == x);
        lemma_named_entry_listed(front, x);
        let inner = entries_named(front, x.name);
        let j = choose|j: int| 0 <= j < inner.len() && inner[j] == x.entry;
        assert(entries_named(c, x.name)[j] == x.entry);
    }
}

/// A server that the global registry declares for a project is, in the
/// merged registry, among the definitions of its name, with that project as
/// its source.
pub proof fn lemma_read_then_aggregate(
    claude_json: ClaudeJson,
    overrides: Seq<ProjectConfig>,
    project: Seq<char>,
    name: Seq<char>,
)
    requires
        project_map(claude_json.projects@).contains_key(project),
        project_map(claude_json.projects@)[project].contains_key(name),
    ensures
        aggregate(all_contributions(claude_json, overrides)).contains_key(name),
        aggregate(all_contributions(claude_json, overrides))[name].contains(
            McpEntryView {
                server: project_map(claude_json.projects@)[project][name],
                source_project: project,
            },
        ),
{
    let projects = claude_json.projects@;
    let i = lemma_project_map_witness(projects, project);
    let k = lemma_named_map_witness(projects[i].mcp_servers@, name);
    let x = project_contributions(projects[i])[k];
    lemma_contribution_listed(projects, i, k);
    let global = contributions(projects);
    let all = all_contributions(claude_json, overrides);
    let at = choose|at: int| 0 <= at < global.len() && global[at] == x;
    assert(all[at] == x);
    lemma_named_entry_listed(all, x);
    let named = entries_named(all, name);
    lemma_sort_by_project(named);
    vstd::seq_lib::to_multiset_contains(named, x.entry);
    vstd::seq_lib::to_multiset_contains(sort_by_project(named), x.entry);
}

/// After a definition is installed into a project, a fresh reading of the
/// registry followed by a fresh merge has the definition among those of its
/// name, with the destination project as its source, and each of its
/// arguments is the argument it was copied from with every occurrence of the
/// source project's path replaced by the destination.
pub proof fn lemma_install_then_aggregate(
    root: JsonValue,
    entry: McpEntryView,
    dest: Seq<char>,
    name: Seq<char>,
    claude_json: ClaudeJson,
    overrides: Seq<ProjectConfig>,
)
    requires
        installed(root, dest, name, encoded(adapted(entry, dest))) is Some,
        decoded_registry(root) is Some,
        decoded_registry(installed(root, dest, name, encoded(adapted(entry, dest)))->0) == Some(
            project_map(claude_json.projects@),
        ),
    ensures
        aggregate(all_contributions(claude_json, overrides)).contains_key(name),
        aggregate(all_contributions(claude_json, overrides))[name].contains(
            McpEntryView { server: adapted(entry, dest), source_project: dest },
        ),
        adapted(entry, dest).args.len() == entry.server.args.len(),
        forall|i: int|
            0 <= i < entry.server.args.len() ==> #[trigger] adapted(entry, dest).args[i]
                == replace_all(entry.server.args[i], entry.source_project, dest),
{
    lemma_install_then_read(root, dest, name, adapted(entry, dest));
    lemma_read_then_aggregate(claude_json, overrides, dest, name);
    lemma_adapted_args_replace(entry, dest);
}

/// No two definitions of the list come from one project.
pub open spec fn distinct_projects(s: Seq<McpEntryView>) -> bool {
    forall|i: int, j: int|
        0 <= i < j < s.len() ==> #[trigger] s[i].source_project != #[trigger] s[j].source_project
}

/// The project paths of the list step up everywhere.
pub open spec fn strictly_ordered(s: Seq<McpEntryView>) -> bool {
    forall|i: int, j: int|
        0 <= i < j < s.len() ==> lex_lt(
            #[trigger] s[i].source_project,
            #[trigger] s[j].source_project,
        )
}

/// A definition is among those of a name as often as it was contributed to
/// the name.
pub proof fn lemma_named_count(c: Seq<Contribution>, name: Seq<char>, e: McpEntryView)
    ensures
        entries_named(c, name).to_multiset().count(e) == c.to_multiset().count(
            Contribution { name, entry: e },
        ),
    decreases c.len(),
{
    if c.len() == 0 {
        vstd::seq_lib::to_multiset_len(c);
        vstd::seq_lib::to_multiset_len(entries_named(c, name));
        assert(c.to_multiset().count(Contribution { name, entry: e }) == 0) by {
            vstd::seq_lib::to_multiset_contains(c, Contribution { name, entry: e });
        }
        assert(entries_named(c, name).to_multiset().count(e) == 0) by {
            vstd::seq_lib::to_multiset_contains(entries_named(c, name), e);
        }
    } else {
        let front = c.drop_last();
        let x = c.last();
        lemma_named_count(front, name, e);
        vstd::seq_lib::to_multiset_build(front, x);
        assert(front.push(x) =~= c);
        if x.name == name {
            vstd::seq_lib::to_multiset_build(entries_named(front, name), x.entry);
        }
    }
}

/// Ordering definitions that come from different projects gives a list whose
/// project paths step up everywhere.
pub proof fn lemma_sort_of_distinct_projects(s: Seq<McpEntryView>)
    requires
        distinct_projects(s),
    ensures
        strictly_ordered(sort_by_project(s)),
    decreases s.len(),
{
    lemma_sort_by_project(s);
    let t = sort_by_project(s);
    if s.len() > 0 {
        let front = s.drop_last();
        let e = s.last();
        assert(distinct_projects(front)) by {
            assert forall|i: int, j: int| 0 <= i < j < front.len() implies #[trigger] front[i].source_project
                != #[trigger] front[j].source_project by {
                assert(s[i].source_project != s[j].source_project);
            }
        }
        lemma_sort_of_distinct_projects(front);
        lemma_sort_by_project(front);
        let sorted = sort_by_project(front);
        let p = crate::registry::insert_point(sorted, e.source_project);
        crate::registry::lemma_insert_point(sorted, e.source_project);
        assert forall|k: int| 0 <= k < sorted.len() implies #[trigger] sorted[k].source_project
            != e.source_project by {
            vstd::seq_lib::to_multiset_contains(sorted, sorted[k]);
            vstd::seq_lib::to_multiset_contains(front, sorted[k]);
            assert(sorted.contains(sorted[k]));
            let i = choose|i: int| 0 <= i < front.len() && front[i] == sorted[k];
            assert(s[i].source_project != s[s.len() - 1].source_project);
        }
        assert forall|i: int, j: int| 0 <= i < j < t.len() implies lex_lt(
            #[trigger] t[i].source_project,
            #[trigger] t[j].source_project,
        ) by {
            assert(crate::registry::ordered_by_project(t));
            assert(lex_le(t[i].source_project, t[j].source_project));
            let si = if i < p { i } else { i - 1 };
            let sj = if j < p { j } else { j - 1 };
            if i == p {
                assert(t[j] == sorted[sj]);
            } else if j == p {
                assert(t[i] == sorted[si]);
            } else {
                assert(t[i] == sorted[si]);
                assert(t[j] == sorted[sj]);
                assert(lex_lt(sorted[si].source_project, sorted[sj].source_project));
            }
        }
    }
}

/// Two lists whose project paths step up everywhere and that hold the same
/// definitions are the same list.
pub proof fn lemma_strictly_ordered_is_unique(a: Seq<McpEntryView>, b: Seq<McpEntryView>)
    requires
        strictly_ordered(a),
        strictly_ordered(b),
        a.to_multiset() == b.to_multiset(),
    ensures
        a == b,
    decreases a.len(),
{
    vstd::seq_lib::to_multiset_len(a);
    vstd::seq_lib::to_multiset_len(b);
    if a.len() == 0 {
        assert(a =~= b);
    } else {
        let x = a.last();
        let y = b.last();
        let n = a.len() - 1;
        assert(x == y) by {
            vstd::seq_lib::to_multiset_contains(a, x);
            vstd::seq_lib::to_multiset_contains(b, x);
            vstd::seq_lib::to_multiset_contains(a, y);
            vstd::seq_lib::to_multiset_contains(b, y);
            assert(a[n] == x);
            assert(b[n] == y);
            assert(a.contains(x));
            assert(b.contains(y));
            let j = choose|j: int| 0 <= j < b.len() && b[j] == x;
            let k = choose|k: int| 0 <= k < a.len() && a[k] == y;
            if j < n && k < n {
                assert(lex_lt(b[j].source_project, b[n].source_project));
                assert(lex_lt(a[k].source_project, a[n].source_project));
                crate::text::lemma_lex_le_antisym(x.source_project, y.source_project);
            } else if j < n {
                assert(lex_lt(b[j].source_project, b[n].source_project));
            } else if k < n {
                assert(lex_lt(a[k].source_project, a[n].source_project));
            }
        }
        let fa = a.drop_last();
        let fb = b.drop_last();
        vstd::seq_lib::to_multiset_build(fa, x);
        vstd::seq_lib::to_multiset_build(fb, y);
        assert(fa.push(x) =~= a);
        assert(fb.push(y) =~= b);
        assert(fa.to_multiset() =~= fb.to_multiset()) by {
            assert forall|v: McpEntryView| fa.to_multiset().count(v) == fb.to_multiset().count(
                v,
            ) by {
                assert(fa.to_multiset().insert(x).count(v) == fb.to_multiset().insert(y).count(v));
            }
        }
        assert(strictly_ordered(fa)) by {
            assert forall|i: int, j: int| 0 <= i < j < fa.len() implies lex_lt(
                #[trigger] fa[i].source_project,
                #[trigger] fa[j].source_project,
            ) by {
                assert(lex_lt(a[i].source_project, a[j].source_project));
            }
        }
        assert(strictly_ordered(fb)) by {
            assert forall|i: int, j: int| 0 <= i < j < fb.len() implies lex_lt(
                #[trigger] fb[i].source_project,
                #[trigger] fb[j].source_project,
            ) by {
                assert(lex_lt(b[i].source_project, b[j].source_project));
            }
        }
        lemma_strictly_ordered_is_unique(fa, fb);
        assert(a =~= b);
    }
}

/// No project contributes two definitions of one name.
pub open spec fn one_definition_per_project(c: Seq<Contribution>) -> bool {
    forall|i: int, j: int|
        0 <= i < j < c.len() ==> !((#[trigger] c[i]).name == (#[trigger] c[j]).name
            && c[i].entry.source_project == c[j].entry.source_project)
}

/// Every definition of a name was contributed to that name.
pub proof fn lemma_named_entry_source(c: Seq<Contribution>, name: Seq<char>, k: int) -> (at: int)
    requires
        0 <= k < entries_named(c, name).len(),
    ensures
        0 <= at < c.len(),
        c[at].name == name,
        c[at].entry == entries_named(c, name)[k],
    decreases c.len(),
{
    let front = c.drop_last();
    if c.last().name == name && k == entries_named(front, name).len() {
        c.len() - 1
    } else {
        let at = lemma_named_entry_source(front, name, k);
        assert(c[at] == front[at]);
        at
    }
}

/// Where no project contributes two definitions of one name, the
/// definitions of every name come from different projects.
pub proof fn lemma_named_distinct_projects(c: Seq<Contribution>, name: Seq<char>)
    requires
        one_definition_per_project(c),
    ensures
        distinct_projects(entries_named(c, name)),
    decreases c.len(),
{
    if c.len() > 0 {
        let front = c.drop_last();
        assert(one_definition_per_project(front)) by {
            assert forall|i: int, j: int| 0 <= i < j < front.len() implies !((#[trigger] front[i]).name
                == (#[trigger] front[j]).name && front[i].entry.source_project
                == front[j].entry.source_project) by {
                assert(c[i] == front[i]);
                assert(c[j] == front[j]);
            }
        }
        lemma_named_distinct_projects(front, name);
        let inner = entries_named(front, name);
        let all = entries_named(c, name);
        if c.last().name == name {
            assert forall|i: int, j: int| 0 <= i < j < all.len() implies #[trigger] all[i].source_project
                != #[trigger] all[j].source_project by {
                if j == inner.len() {
                    let at = lemma_named_entry_source(front, name, i);
                    assert(c[at] == front[at]);
                    assert(c[c.len() - 1] == c.last());
                } else {
                    assert(inner[i].source_project != inner[j].source_project);
                }
            }
        }
    }
}

/// Every contribution of a list of sources comes from one of the sources.
pub proof fn lemma_contribution_project(sources: Seq<ProjectConfig>, i: int) -> (k: int)
    requires
        0 <= i < contributions(sources).len(),
    ensures
        0 <= k < sources.len(),
        contributions(sources)[i].entry.source_project == sources[k].path@,
    decreases sources.len(),
{
    let front = contributions(sources.drop_last());
    if i < front.len() {
        let k = lemma_contribution_project(sources.drop_last(), i);
        assert(sources[k] == sources.drop_last()[k]);
        k
    } else {
        sources.len() - 1
    }
}

/// Sources that are maps and have different paths contribute at most one
/// definition of a name for a project.
pub proof fn lemma_maps_contribute_once(sources: Seq<ProjectConfig>)
    requires
        distinct_texts(project_path_list(sources)),
        well_formed_sources(sources),
    ensures
        one_definition_per_project(contributions(sources)),
    decreases sources.len(),
{
    if sources.len() > 0 {
        let rest = sources.drop_last();
        let last = sources.last();
        assert(distinct_texts(project_path_list(rest))) by {
            assert forall|i: int, j: int| 0 <= i < j < rest.len() implies #[trigger] project_path_list(
                rest,
            )[i] != #[trigger] project_path_list(rest)[j] by {
                assert(project_path_list(sources)[i] != project_path_list(sources)[j]);
            }
        }
        assert(well_formed_sources(rest)) by {
            assert forall|i: int| 0 <= i < rest.len() implies (#[trigger] rest[i]).well_formed() by {
                assert(sources[i].well_formed());
            }
        }
        lemma_maps_contribute_once(rest);
        let front = contributions(rest);
        let tail = project_contributions(last);
        let c = contributions(sources);
        assert(last.well_formed());
        assert forall|i: int, j: int| 0 <= i < j < c.len() implies !((#[trigger] c[i]).name == (
        #[trigger] c[j]).name && c[i].entry.source_project == c[j].entry.source_project) by {
            if j < front.len() {
                assert(c[i] == front[i]);
                assert(c[j] == front[j]);
            } else if i < front.len() {
                let k = lemma_contribution_project(rest, i);
                assert(c[i] == front[i]);
                assert(c[j] == tail[j - front.len()]);
                assert(project_path_list(sources)[k] != project_path_list(sources)[sources.len()
                    - 1]);
            } else {
                let a = i - front.len();
                let b = j - front.len();
                assert(c[i] == tail[a]);
                assert(c[j] == tail[b]);
                assert(server_names(last.mcp_servers@)[a] != server_names(last.mcp_servers@)[b]);
            }
        }
    }
}

/// The merged registry of a global registry that is a map does not depend
/// on the order in which its projects and their servers are listed: another
/// listing of the same contributions gives the same merged registry.
pub proof fn lemma_registry_order_is_immaterial(a: ClaudeJson, b: ClaudeJson)
    requires
        a.well_formed(),
        b.well_formed(),
        contributions(a.projects@).to_multiset() == contributions(b.projects@).to_multiset(),
    ensures
        aggregate(all_contributions(a, Seq::empty())) == aggregate(
            all_contributions(b, Seq::empty()),
        ),
{
    lemma_maps_contribute_once(a.projects@);
    lemma_maps_contribute_once(b.projects@);
    let none = Seq::<ProjectConfig>::empty();
    assert(contributions(none) =~= Seq::<Contribution>::empty());
    assert(all_contributions(a, none) =~= contributions(a.projects@));
    assert(all_contributions(b, none) =~= contributions(b.projects@));
    lemma_aggregate_ignores_order(contributions(a.projects@), contributions(b.projects@));
}

/// Where no project contributes two definitions of one name, the merged
/// registry does not depend on the order in which the sources are walked: the
/// same contributions in another order give the same registry.
pub proof fn lemma_aggregate_ignores_order(c1: Seq<Contribution>, c2: Seq<Contribution>)
    requires
        c1.to_multiset() == c2.to_multiset(),
        one_definition_per_project(c1),
        one_definition_per_project(c2),
    ensures
        aggregate(c1) == aggregate(c2),
{
    assert forall|n: Seq<char>|
        entries_named(c1, n).len() == entries_named(c2, n).len() && #[trigger] sort_by_project(
            entries_named(c1, n),
        ) == sort_by_project(entries_named(c2, n)) by {
        let s1 = entries_named(c1, n);
        let s2 = entries_named(c2, n);
        assert(s1.to_multiset() =~= s2.to_multiset()) by {
            assert forall|e: McpEntryView| s1.to_multiset().count(e) == s2.to_multiset().count(
                e,
            ) by {
                lemma_named_count(c1, n, e);
                lemma_named_count(c2, n, e);
            }
        }
        vstd::seq_lib::to_multiset_len(s1);
        vstd::seq_lib::to_multiset_len(s2);
        lemma_named_distinct_projects(c1, n);
        lemma_named_distinct_projects(c2, n);
        lemma_sort_of_distinct_projects(s1);
        lemma_sort_of_distinct_projects(s2);
        lemma_sort_by_project(s1);
        lemma_sort_by_project(s2);
        lemma_strictly_ordered_is_unique(sort_by_project(s1), sort_by_project(s2));
    }
    assert(aggregate(c1) =~= aggregate(c2)) by {
        assert forall|n: Seq<char>| aggregate(c1).contains_key(n) == aggregate(c2).contains_key(
            n,
        ) by {
            assert(sort_by_project(entries_named(c1, n)) == sort_by_project(entries_named(c2, n)));
        }
        assert forall|n: Seq<char>| #[trigger] aggregate(c1).contains_key(n) implies aggregate(
            c1,
        )[n] == aggregate(c2)[n] by {
            assert(sort_by_project(entries_named(c1, n)) == sort_by_project(entries_named(c2, n)));
        }
    }
}

} // verus!
