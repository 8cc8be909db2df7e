//! The record model: one server definition, and a definition together with
//! the project that declared it.

use crate::text::{distinct_texts, str_eq};
use vstd::prelude::*;

verus! {

/// One environment variable of a server definition.
#[derive(Debug, Clone, PartialEq, Eq)]
pub struct EnvVar {
    pub name: String,
    pub value: String,
}

/// One server definition: what to launch or where to connect, with its
/// arguments and environment. The environment is a map from variable name to
/// value, kept as a list: `well_formed` says that the list names no variable
/// twice. Of a list that does, the later entry counts.
#[derive(Debug, PartialEq, Eq)]
pub struct McpServer {
    pub server_type: Option<String>,
    pub command: Option<String>,
    pub url: Option<String>,
    pub args: Vec<String>,
    pub env: Vec<EnvVar>,
}

/// A server definition together with the project directory that declared it.
#[derive(Debug, PartialEq, Eq)]
pub struct McpEntry {
    pub server: McpServer,
    pub source_project: String,
}

/// What a server definition says: texts as character sequences, the
/// environment as a map from variable name to value.
pub struct McpServerView {
    pub server_type: Option<Seq<char>>,
    pub command: Option<Seq<char>>,
    pub url: Option<Seq<char>>,
    pub args: Seq<Seq<char>>,
    pub env: Map<Seq<char>, Seq<char>>,
}

/// What a definition with its provenance says.
pub struct McpEntryView {
    pub server: McpServerView,
    pub source_project: Seq<char>,
}

/// The characters of an optional text.
pub open spec fn opt_text(o: Option<String>) -> Option<Seq<char>> {
    match o {
        Some(s) => Some(s@),
        None => None,
    }
}

/// The characters of each text of a list.
pub open spec fn texts(v: Seq<String>) -> Seq<Seq<char>> {
    Seq::new(v.len(), |i: int| v[i]@)
}

/// The map that a list of environment variables stands for: a later entry
/// overrides an earlier one of the same name.
pub open spec fn env_map(vars: Seq<EnvVar>) -> Map<Seq<char>, Seq<char>>
    decreases vars.len(),
{
    if vars.len() == 0 {
        Map::empty()
    } else {
        env_map(vars.drop_last()).insert(vars.last().name@, vars.last().value@)
    }
}

/// The names of the variables of a list, in order.
pub open spec fn env_names(vars: Seq<EnvVar>) -> Seq<Seq<char>> {
    Seq::new(vars.len(), |i: int| vars[i].name@)
}

/// What each entry of a list says.
pub open spec fn entry_views(entries: Seq<McpEntry>) -> Seq<McpEntryView> {
    Seq::new(entries.len(), |i: int| entries[i]@)
}

/// The text shown where neither a command nor a URL is given.
pub open spec fn unknown_target() -> Seq<char> {
    "unknown"@
}

impl McpServerView {
    /// The command where there is one, else the URL, else the text for an
    /// unknown target.
    pub open spec fn display_target(self) -> Seq<char> {
        match self.command {
            Some(c) => c,
            None => match self.url {
                Some(u) => u,
                None => unknown_target(),
            },
        }
    }
}

impl View for McpServer {
    type V = McpServerView;

    open spec fn view(&self) -> McpServerView {
        McpServerView {
            server_type: opt_text(self.server_type),
            command: opt_text(self.command),
            url: opt_text(self.url),
            args: texts(self.args@),
            env: env_map(self.env@),
        }
    }
}

impl View for McpEntry {
    type V = McpEntryView;

    open spec fn view(&self) -> McpEntryView {
        McpEntryView { server: self.server@, source_project: self.source_project@ }
    }
}

/// A name is bound by a list of variables exactly when some entry carries it.
pub proof fn lemma_env_map_domain(vars: Seq<EnvVar>, name: Seq<char>)
    ensures
        env_map(vars).contains_key(name) <==> exists|i: int|
            0 <= i < vars.len() && #[trigger] vars[i].name@ == name,
    decreases vars.len(),
{
    if vars.len() > 0 {
        let front = vars.drop_last();
        lemma_env_map_domain(front, name);
        if env_map(vars).contains_key(name) {
            if vars.last().name@ == name {
                assert(vars[vars.len() - 1].name@ == name);
            } else {
                let i = choose|i: int| 0 <= i < front.len() && #[trigger] front[i].name@ == name;
                assert(vars[i].name@ == name);
            }
        }
        if exists|i: int| 0 <= i < vars.len() && #[trigger] vars[i].name@ == name {
            let i = choose|i: int| 0 <= i < vars.len() && #[trigger] vars[i].name@ == name;
            if i < vars.len() - 1 {
                assert(front[i].name@ == name);
            }
        }
    }
}

/// A list of variables binds nothing exactly when it is empty.
pub proof fn lemma_env_map_empty(vars: Seq<EnvVar>)
    ensures
        (env_map(vars) == Map::<Seq<char>, Seq<char>>::empty()) <==> vars.len() == 0,
{
    if vars.len() > 0 {
        assert(env_map(vars).contains_key(vars.last().name@));
    }
}

/// The last entry that carries a name gives the value bound to it.
pub proof fn lemma_env_map_last_wins(vars: Seq<EnvVar>, at: int)
    requires
        0 <= at < vars.len(),
        forall|j: int| at < j < vars.len() ==> #[trigger] vars[j].name@ != vars[at].name@,
    ensures
        env_map(vars).contains_key(vars[at].name@),
        env_map(vars)[vars[at].name@] == vars[at].value@,
    decreases vars.len(),
{
    if at < vars.len() - 1 {
        let front = vars.drop_last();
        assert(vars[vars.len() - 1].name@ != vars[at].name@);
        assert forall|j: int| at < j < front.len() implies #[trigger] front[j].name@
            != front[at].name@ by {
            assert(vars[j].name@ != vars[at].name@);
        }
        lemma_env_map_last_wins(front, at);
    }
}

fn clone_opt_text(o: &Option<String>) -> (copy: Option<String>)
    ensures
        copy == *o,
{
    match o {
        Some(s) => Some(s.clone()),
        None => None,
    }
}

fn clone_texts(v: &Vec<String>) -> (copy: Vec<String>)
    ensures
        copy@ == v@,
{
    let mut copy: Vec<String> = Vec::new();
    let mut i: usize = 0;
    while i < v.len()
        invariant
            i <= v.len(),
            copy@ == v@.subrange(0, i as int),
        decreases v.len() - i,
    {
        copy.push(v[i].clone());
        assert(copy@ =~= v@.subrange(0, i + 1));
        i = i + 1;
    }
    assert(v@.subrange(0, v.len() as int) =~= v@);
    copy
}

pub(crate) fn clone_env(v: &Vec<EnvVar>) -> (copy: Vec<EnvVar>)
    ensures
        copy@ == v@,
{
    let mut copy: Vec<EnvVar> = Vec::new();
    let mut i: usize = 0;
    while i < v.len()
        invariant
            i <= v.len(),
            copy@ == v@.subrange(0, i as int),
        decreases v.len() - i,
    {
        copy.push(EnvVar { name: v[i].name.clone(), value: v[i].value.clone() });
        assert(copy@ =~= v@.subrange(0, i + 1));
        i = i + 1;
    }
    assert(v@.subrange(0, v.len() as int) =~= v@);
    copy
}

impl Clone for McpServer {
    fn clone(&self) -> (copy: Self)
        ensures
            copy@ == self@,
    {
        McpServer {
            server_type: clone_opt_text(&self.server_type),
            command: clone_opt_text(&self.command),
            url: clone_opt_text(&self.url),
            args: clone_texts(&self.args),
            env: clone_env(&self.env),
        }
    }
}

impl Clone for McpEntry {
    fn clone(&self) -> (copy: Self)
        ensures
            copy@ == self@,
    {
        McpEntry { server: self.server.clone(), source_project: self.source_project.clone() }
    }
}

/// Whether no text occurs twice in a list.
pub fn texts_distinct(list: &Vec<String>) -> (distinct: bool)
    ensures
        distinct == distinct_texts(texts(list@)),
{
    let mut j: usize = 0;
    while j < list.len()
        invariant
            j <= list.len(),
            forall|a: int, b: int| 0 <= a < b < j ==> list[a]@ != list[b]@,
        decreases list.len() - j,
    {
        let mut i: usize = 0;
        while i < j
            invariant
                i <= j < list.len(),
                forall|a: int| 0 <= a < i ==> list[a]@ != list[j as int]@,
            decreases j - i,
        {
            if str_eq(list[i].as_str(), list[j].as_str()) {
                assert(texts(list@)[i as int] == texts(list@)[j as int]);
                return false;
            }
            i = i + 1;
        }
        j = j + 1;
    }
    true
}

impl McpServer {
    /// The environment names no variable twice: it is a map from name to
    /// value.
    pub open spec fn well_formed(&self) -> bool {
        distinct_texts(env_names(self.env@))
    }

    /// Whether the environment names no variable twice.
    pub fn is_well_formed(&self) -> (ok: bool)
        ensures
            ok == self.well_formed(),
    {
        let mut names: Vec<String> = Vec::new();
        let mut i: usize = 0;
        while i < self.env.len()
            invariant
                i <= self.env.len(),
                names.len() == i,
                forall|j: int| 0 <= j < i ==> (#[trigger] names[j])@ == self.env[j].name@,
            decreases self.env.len() - i,
        {
            names.push(self.env[i].name.clone());
            i = i + 1;
        }
        assert(texts(names@) =~= env_names(self.env@));
        texts_distinct(&names)
    }

    /// The text that stands for this server in a listing: its command where
    /// it has one, else its URL, else `unknown`.
    pub fn display_target(&self) -> (target: &str)
        ensures
            target@ == self@.display_target(),
    {
        match &self.command {
            Some(cmd) => cmd.as_str(),
            None => match &self.url {
                Some(url) => url.as_str(),
                None => "unknown",
            },
        }
    }
}

/// The value that a list of environment variables binds to `name`.
pub fn env_lookup<'a>(vars: &'a Vec<EnvVar>, name: &str) -> (found: Option<&'a String>)
    ensures
        match found {
            Some(value) => env_map(vars@).contains_key(name@) && env_map(vars@)[name@] == value@,
            None => !env_map(vars@).contains_key(name@),
        },
{
    let mut i: usize = vars.len();
    while i > 0
        invariant
            i <= vars.len(),
            forall|j: int| i <= j < vars.len() ==> #[trigger] vars[j].name@ != name@,
        decreases i,
    {
        i = i - 1;
        if str_eq(vars[i].name.as_str(), name) {
            proof {
                lemma_env_map_last_wins(vars@, i as int);
            }
            return Some(&vars[i].value);
        }
    }
    proof {
        lemma_env_map_domain(vars@, name@);
    }
    None
}

/// Every binding of `a` is a binding of `b`.
pub open spec fn env_within(a: Map<Seq<char>, Seq<char>>, b: Map<Seq<char>, Seq<char>>) -> bool {
    forall|k: Seq<char>| #[trigger] a.contains_key(k) ==> b.contains_key(k) && b[k] == a[k]
}

fn env_covered(a: &Vec<EnvVar>, b: &Vec<EnvVar>) -> (covered: bool)
    ensures
        covered == env_within(env_map(a@), env_map(b@)),
{
    let mut i: usize = 0;
    while i < a.len()
        invariant
            i <= a.len(),
            forall|j: int|
                0 <= j < i ==> env_map(b@).contains_key(#[trigger] a[j].name@) && env_map(
                    b@,
                )[a[j].name@] == env_map(a@)[a[j].name@],
        decreases a.len() - i,
    {
        let name = a[i].name.as_str();
        proof {
            lemma_env_map_domain(a@, name@);
        }
        let mine = env_lookup(a, name);
        let theirs = env_lookup(b, name);
        match (mine, theirs) {
            (Some(x), Some(y)) => {
                if !str_eq(x.as_str(), y.as_str()) {
                    return false;
                }
            },
            _ => {
                return false;
            },
        }
        i = i + 1;
    }
    proof {
        assert forall|k: Seq<char>| #[trigger] env_map(a@).contains_key(k) implies env_map(
            b@,
        ).contains_key(k) && env_map(b@)[k] == env_map(a@)[k] by {
            lemma_env_map_domain(a@, k);
            let j = choose|j: int| 0 <= j < a.len() && #[trigger] a[j].name@ == k;
            assert(env_map(b@).contains_key(a[j].name@));
        }
    }
    true
}

/// Whether two lists of environment variables stand for the same map.
pub fn env_equal(a: &Vec<EnvVar>, b: &Vec<EnvVar>) -> (same: bool)
    ensures
        same == (env_map(a@) == env_map(b@)),
{
    let same = env_covered(a, b) && env_covered(b, a);
    proof {
        if same {
            assert(env_map(a@) =~= env_map(b@));
        }
    }
    same
}

/// Whether two optional texts are both absent or hold the same characters.
pub fn opt_text_eq(a: &Option<String>, b: &Option<String>) -> (same: bool)
    ensures
        same == (opt_text(*a) == opt_text(*b)),
{
    match (a, b) {
        (Some(x), Some(y)) => str_eq(x.as_str(), y.as_str()),
        (None, None) => true,
        _ => false,
    }
}

/// Whether two lists hold the same texts in the same order.
pub fn texts_eq(a: &Vec<String>, b: &Vec<String>) -> (same: bool)
    ensures
        same == (texts(a@) == texts(b@)),
{
    if a.len() != b.len() {
        assert(texts(a@).len() != texts(b@).len());
        return false;
    }
    let mut i: usize = 0;
    while i < a.len()
        invariant
            i <= a.len(),
            a.len() == b.len(),
            forall|j: int| 0 <= j < i ==> a[j]@ == b[j]@,
        decreases a.len() - i,
    {
        if !str_eq(a[i].as_str(), b[i].as_str()) {
            assert(texts(a@)[i as int] != texts(b@)[i as int]);
            return false;
        }
        i = i + 1;
    }
    assert(texts(a@) =~= texts(b@));
    true
}

} // verus!
