//! The registry mutator: puts a server definition into the global registry
//! document under a project, or takes one out, and leaves everything else in
//! the document as it was.

use crate::codec::{encode_server, encoded};
use crate::document::{
    empty_object, is_null, is_object, member, new_object, opt_tree, put_member, take_member, tree,
    JsonValue, JsonDocument, RegistryError,
};
use crate::model::{McpEntry, McpServer};
use crate::resolver::{adapt_to_project, adapted};
use vstd::prelude::*;

verus! {

/// The member of the document that holds the projects.
pub open spec fn projects_key() -> Seq<char> {
    "projects"@
}

/// The member of a project that holds its servers.
pub open spec fn servers_key() -> Seq<char> {
    "mcpServers"@
}

/// The object that a member can be put into at a place of the document: the
/// object that is there, or an empty one where nothing or null is there.
/// Nothing for any other value.
pub open spec fn holder(v: Option<JsonValue>) -> Option<JsonValue> {
    match v {
        None => Some(empty_object()),
        Some(JsonValue::Null) => Some(empty_object()),
        Some(JsonValue::Object(m)) => Some(JsonValue::Object(m)),
        _ => None,
    }
}

/// The document with `record` as the server `name` of project `dest`, the
/// objects on the way made where they are missing. Nothing where a value on
/// the way is neither an object nor null.
pub open spec fn installed(
    root: JsonValue,
    dest: Seq<char>,
    name: Seq<char>,
    record: JsonValue,
) -> Option<JsonValue> {
    match holder(Some(root)) {
        None => None,
        Some(r) => match holder(r.get(projects_key())) {
            None => None,
            Some(ps) => match holder(ps.get(dest)) {
                None => None,
                Some(p) => match holder(p.get(servers_key())) {
                    None => None,
                    Some(ss) => Some(
                        r.put(
                            projects_key(),
                            ps.put(dest, p.put(servers_key(), ss.put(name, record))),
                        ),
                    ),
                },
            },
        },
    }
}

/// The document without the server `name` of project `dest`. A document that
/// has no such project, or no servers under it, is left as it is.
pub open spec fn uninstalled(root: JsonValue, dest: Seq<char>, name: Seq<char>) -> JsonValue {
    match root.get(projects_key()) {
        None => root,
        Some(ps) => root.put(
            projects_key(),
            match ps.get(dest) {
                None => ps,
                Some(p) => ps.put(
                    dest,
                    match p.get(servers_key()) {
                        None => p,
                        Some(ss) => p.put(servers_key(), ss.without(name)),
                    },
                ),
            },
        ),
    }
}

/// What the document holds as the server `name` of project `project`.
pub open spec fn server_at(root: JsonValue, project: Seq<char>, name: Seq<char>) -> Option<
    JsonValue,
> {
    match root.get(projects_key()) {
        None => None,
        Some(ps) => match ps.get(project) {
            None => None,
            Some(p) => match p.get(servers_key()) {
                None => None,
                Some(ss) => ss.get(name),
            },
        },
    }
}

/// What the document holds as the member `field` of project `project`.
pub open spec fn project_field(root: JsonValue, project: Seq<char>, field: Seq<char>) -> Option<
    JsonValue,
> {
    match root.get(projects_key()) {
        None => None,
        Some(ps) => match ps.get(project) {
            None => None,
            Some(p) => p.get(field),
        },
    }
}

/// What the document holds as the project `project`.
pub open spec fn project_at(root: JsonValue, project: Seq<char>) -> Option<JsonValue> {
    match root.get(projects_key()) {
        None => None,
        Some(ps) => ps.get(project),
    }
}

/// Setting a member after taking it out is setting it.
pub proof fn lemma_put_after_without(v: JsonValue, key: Seq<char>, item: JsonValue)
    ensures
        v.without(key).put(key, item) == v.put(key, item),
{
    if let JsonValue::Object(m) = v {
        assert(m.remove(key).insert(key, item) =~= m.insert(key, item));
    }
}

/// Taking out a member that is not there changes nothing, and setting a
/// member to what it is changes nothing.
pub proof fn lemma_member_unchanged(v: JsonValue, key: Seq<char>)
    ensures
        v.get(key) is None ==> v.without(key) == v,
        v.get(key) matches Some(item) ==> v.put(key, item) == v,
{
    if let JsonValue::Object(m) = v {
        if m.contains_key(key) {
            assert(m.insert(key, m[key]) =~= m);
        } else {
            assert(m.remove(key) =~= m);
        }
    }
}

/// After an install the document holds the record as the server `name` of
/// project `dest`. Every other server of every project, every other member of
/// every project, and every other member of the document is as it was, but
/// that nothing or null on the way to the record has become an object.
pub proof fn lemma_install_sets_one_server(
    root: JsonValue,
    dest: Seq<char>,
    name: Seq<char>,
    record: JsonValue,
)
    requires
        installed(root, dest, name, record) is Some,
    ensures
        server_at(installed(root, dest, name, record)->0, dest, name) == Some(record),
        forall|q: Seq<char>, n: Seq<char>|
            q != dest || n != name ==> #[trigger] server_at(
                installed(root, dest, name, record)->0,
                q,
                n,
            ) == server_at(root, q, n),
        forall|q: Seq<char>, f: Seq<char>|
            q != dest || f != servers_key() ==> #[trigger] project_field(
                installed(root, dest, name, record)->0,
                q,
                f,
            ) == project_field(root, q, f),
        forall|q: Seq<char>|
            q != dest ==> #[trigger] project_at(installed(root, dest, name, record)->0, q)
                == project_at(root, q),
        forall|k: Seq<char>|
            k != projects_key() ==> #[trigger] installed(root, dest, name, record)->0.get(k)
                == root.get(k),
{
}

/// Installing the same record twice is installing it once.
pub proof fn lemma_install_twice(
    root: JsonValue,
    dest: Seq<char>,
    name: Seq<char>,
    record: JsonValue,
)
    requires
        installed(root, dest, name, record) is Some,
    ensures
        installed(installed(root, dest, name, record)->0, dest, name, record) == installed(
            root,
            dest,
            name,
            record,
        ),
{
    let r = holder(Some(root))->0;
    let ps = holder(r.get(projects_key()))->0;
    let p = holder(ps.get(dest))->0;
    let ss = holder(p.get(servers_key()))->0;
    let ss2 = ss.put(name, record);
    let p2 = p.put(servers_key(), ss2);
    let ps2 = ps.put(dest, p2);
    let r2 = r.put(projects_key(), ps2);
    assert(ss2.put(name, record) == ss2) by {
        lemma_member_unchanged(ss2, name);
    }
    assert(p2.put(servers_key(), ss2) == p2) by {
        lemma_member_unchanged(p2, servers_key());
    }
    assert(ps2.put(dest, p2) == ps2) by {
        lemma_member_unchanged(ps2, dest);
    }
    assert(r2.put(projects_key(), ps2) == r2) by {
        lemma_member_unchanged(r2, projects_key());
    }
}

/// After an uninstall the document no longer holds the server `name` of
/// project `dest`. Every other server of every project, every other member of
/// every project, every other project and every other member of the document
/// is as it was.
pub proof fn lemma_uninstall_removes_one_server(root: JsonValue, dest: Seq<char>, name: Seq<char>)
    ensures
        server_at(uninstalled(root, dest, name), dest, name) is None,
        forall|q: Seq<char>, n: Seq<char>|
            q != dest || n != name ==> #[trigger] server_at(uninstalled(root, dest, name), q, n)
                == server_at(root, q, n),
        forall|q: Seq<char>, f: Seq<char>|
            q != dest || f != servers_key() ==> #[trigger] project_field(
                uninstalled(root, dest, name),
                q,
                f,
            ) == project_field(root, q, f),
        forall|q: Seq<char>|
            q != dest ==> #[trigger] project_at(uninstalled(root, dest, name), q) == project_at(
                root,
                q,
            ),
        forall|k: Seq<char>|
            k != projects_key() ==> #[trigger] uninstalled(root, dest, name).get(k) == root.get(k),
        server_at(root, dest, name) is None ==> uninstalled(root, dest, name) == root,
{
    if server_at(root, dest, name) is None {
        lemma_uninstall_absent(root, dest, name);
    }
}

/// Uninstalling a server that the document does not hold changes nothing.
pub proof fn lemma_uninstall_absent(root: JsonValue, dest: Seq<char>, name: Seq<char>)
    requires
        server_at(root, dest, name) is None,
    ensures
        uninstalled(root, dest, name) == root,
{
    if let Some(ps) = root.get(projects_key()) {
        if let Some(p) = ps.get(dest) {
            if let Some(ss) = p.get(servers_key()) {
                lemma_member_unchanged(ss, name);
                lemma_member_unchanged(p, servers_key());
            }
            lemma_member_unchanged(ps, dest);
        }
        lemma_member_unchanged(root, projects_key());
    }
}

fn can_hold(v: Option<&serde_json::Value>) -> (ok: bool)
    ensures
        ok == (holder(opt_tree(v)) is Some),
{
    match v {
        None => true,
        Some(x) => is_null(x) || is_object(x),
    }
}

/// Takes the member `key` out of `parent` to put members into it: the object
/// that was there, or a new one.
fn open_member(parent: &mut serde_json::Value, key: &str) -> (child: serde_json::Value)
    ensures
        tree(*final(parent)) == tree(*old(parent)).without(key@),
        holder(tree(*old(parent)).get(key@)) is Some ==> Some(tree(child)) == holder(
            tree(*old(parent)).get(key@),
        ),
{
    match take_member(parent, key) {
        Some(found) => {
            if is_object(&found) {
                found
            } else {
                new_object()
            }
        },
        None => new_object(),
    }
}

impl JsonDocument {
    /// Copies the definition `entry` into project `destination` under `name`:
    /// the definition is adapted to the project, and written into the document
    /// in place of a server of that name if the project has one. The project
    /// and its server list are made where the document lacks them. Fails, and
    /// leaves the document alone, where the document, its projects, the
    /// project or its servers is something other than an object or null.
    pub fn install(&mut self, name: &str, entry: &McpEntry, destination: &str) -> (done: Result<
        McpServer,
        RegistryError,
    >)
        ensures
            match installed(
                old(self)@,
                destination@,
                name@,
                encoded(adapted(entry@, destination@)),
            ) {
                Some(t) => {
                    &&& done matches Ok(server)
                    &&& server@ == adapted(entry@, destination@)
                    &&& final(self)@ == t
                },
                None => {
                    &&& done matches Err(e)
                    &&& e == RegistryError::Unwritable
                    &&& final(self)@ == old(self)@
                },
            },
    {
        proof {
            self.lemma_view();
        }
        let projects = member(&self.root, "projects");
        let project = match projects {
            Some(ps) => member(ps, destination),
            None => None,
        };
        let servers = match project {
            Some(p) => member(p, "mcpServers"),
            None => None,
        };
        if !(can_hold(Some(&self.root)) && can_hold(projects) && can_hold(project) && can_hold(
            servers,
        )) {
            return Err(RegistryError::Unwritable);
        }
        let server = adapt_to_project(entry, destination);
        if is_null(&self.root) {
            self.root = new_object();
        }
        let ghost r = tree(self.root);
        let mut projects = open_member(&mut self.root, "projects");
        let ghost ps = tree(projects);
        let mut project = open_member(&mut projects, destination);
        let ghost p = tree(project);
        let mut servers = open_member(&mut project, "mcpServers");
        let ghost ss = tree(servers);
        put_member(&mut servers, name, encode_server(&server));
        put_member(&mut project, "mcpServers", servers);
        put_member(&mut projects, destination, project);
        put_member(&mut self.root, "projects", projects);
        proof {
            let record = encoded(adapted(entry@, destination@));
            lemma_put_after_without(p, servers_key(), ss.put(name@, record));
            lemma_put_after_without(ps, destination@, p.put(servers_key(), ss.put(name@, record)));
            lemma_put_after_without(
                r,
                projects_key(),
                ps.put(destination@, p.put(servers_key(), ss.put(name@, record))),
            );
            self.lemma_view();
        }
        Ok(server)
    }

    /// Takes the server `name` out of project `destination`. A document that
    /// does not hold it is left as it is.
    pub fn uninstall(&mut self, name: &str, destination: &str)
        ensures
            final(self)@ == uninstalled(old(self)@, destination@, name@),
    {
        proof {
            self.lemma_view();
        }
        let ghost root = tree(self.root);
        let taken = take_member(&mut self.root, "projects");
        if let Some(mut projects) = taken {
            let ghost ps = tree(projects);
            let taken = take_member(&mut projects, destination);
            if let Some(mut project) = taken {
                let ghost p = tree(project);
                let taken = take_member(&mut project, "mcpServers");
                if let Some(mut servers) = taken {
                    let ghost ss = tree(servers);
                    let _ = take_member(&mut servers, name);
                    put_member(&mut project, "mcpServers", servers);
                    proof {
                        lemma_put_after_without(p, servers_key(), ss.without(name@));
                    }
                } else {
                    proof {
                        lemma_member_unchanged(p, servers_key());
                    }
                }
                let ghost p2 = tree(project);
                put_member(&mut projects, destination, project);
                proof {
                    lemma_put_after_without(ps, destination@, p2);
                }
            } else {
                proof {
                    lemma_member_unchanged(ps, destination@);
                }
            }
            let ghost ps2 = tree(projects);
            put_member(&mut self.root, "projects", projects);
            proof {
                lemma_put_after_without(root, projects_key(), ps2);
            }
        } else {
            proof {
                lemma_member_unchanged(root, projects_key());
            }
        }
        proof {
            self.lemma_view();
        }
    }
}

} // verus!
