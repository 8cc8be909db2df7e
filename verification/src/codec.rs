//! How a server definition is written in a JSON document: an object with the
//! members `type`, `command`, `url`, `args` and `env`.

use crate::document::{
    array_value, empty_object, new_object, null_value, put_member, text_value, tree, trees,
    JsonValue,
};
use crate::model::{env_map, texts, EnvVar, McpServer, McpServerView};
use vstd::prelude::*;

verus! {

/// An optional text as a JSON value: the text, or null.
pub open spec fn opt_json(o: Option<Seq<char>>) -> JsonValue {
    match o {
        Some(s) => JsonValue::Text(s),
        None => JsonValue::Null,
    }
}

/// A list of texts as the items of a JSON array.
pub open spec fn text_items(args: Seq<Seq<char>>) -> Seq<JsonValue> {
    Seq::new(args.len(), |i: int| JsonValue::Text(args[i]))
}

/// A map of texts as the members of a JSON object.
pub open spec fn text_members(env: Map<Seq<char>, Seq<char>>) -> Map<Seq<char>, JsonValue> {
    Map::new(|k: Seq<char>| env.contains_key(k), |k: Seq<char>| JsonValue::Text(env[k]))
}

/// A server definition as a JSON object. Every member is written; a missing
/// type, command or URL is written as null.
pub open spec fn encoded(s: McpServerView) -> JsonValue {
    empty_object().put("type"@, opt_json(s.server_type)).put("command"@, opt_json(s.command)).put(
        "url"@,
        opt_json(s.url),
    ).put("args"@, JsonValue::Array(text_items(s.args))).put(
        "env"@,
        JsonValue::Object(text_members(s.env)),
    )
}

fn encode_opt(o: &Option<String>) -> (v: serde_json::Value)
    ensures
        tree(v) == opt_json(crate::model::opt_text(*o)),
{
    match o {
        Some(s) => text_value(s.as_str()),
        None => null_value(),
    }
}

fn encode_args(args: &Vec<String>) -> (v: serde_json::Value)
    ensures
        tree(v) == JsonValue::Array(text_items(texts(args@))),
{
    let mut items: Vec<serde_json::Value> = Vec::new();
    let mut i: usize = 0;
    while i < args.len()
        invariant
            i <= args.len(),
            items.len() == i,
            forall|j: int| 0 <= j < i ==> tree(#[trigger] items[j]) == JsonValue::Text(args[j]@),
        decreases args.len() - i,
    {
        items.push(text_value(args[i].as_str()));
        i = i + 1;
    }
    proof {
        assert(trees(items@) =~= text_items(texts(args@)));
    }
    array_value(items)
}

fn encode_env(env: &Vec<EnvVar>) -> (v: serde_json::Value)
    ensures
        tree(v) == JsonValue::Object(text_members(env_map(env@))),
{
    let mut v = new_object();
    let mut i: usize = 0;
    proof {
        assert(env@.take(0) =~= Seq::<EnvVar>::empty());
        assert(text_members(env_map(env@.take(0))) =~= Map::<Seq<char>, JsonValue>::empty());
    }
    while i < env.len()
        invariant
            i <= env.len(),
            tree(v) == JsonValue::Object(text_members(env_map(env@.take(i as int)))),
        decreases env.len() - i,
    {
        proof {
            let next = env@.take(i + 1);
            assert(next.drop_last() =~= env@.take(i as int));
            assert(next.last() == env[i as int]);
            assert(text_members(env_map(next)) =~= text_members(env_map(env@.take(i as int))).insert(
                env[i as int].name@,
                JsonValue::Text(env[i as int].value@),
            ));
        }
        put_member(&mut v, env[i].name.as_str(), text_value(env[i].value.as_str()));
        i = i + 1;
    }
    proof {
        assert(env@.take(i as int) =~= env@);
    }
    v
}

/// Writes a server definition as a JSON object.
pub(crate) fn encode_server(server: &McpServer) -> (v: serde_json::Value)
    ensures
        tree(v) == encoded(server@),
{
    let mut v = new_object();
    put_member(&mut v, "type", encode_opt(&server.server_type));
    put_member(&mut v, "command", encode_opt(&server.command));
    put_member(&mut v, "url", encode_opt(&server.url));
    put_member(&mut v, "args", encode_args(&server.args));
    put_member(&mut v, "env", encode_env(&server.env));
    v
}

} // verus!
