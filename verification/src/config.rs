//! The config store: the sidecar file `.mcp.json` as a document, and the
//! rules by which its text becomes a configuration and back.
//!
//! The file holds one object with the member `mcpServers`, an object that
//! maps each server's name to `{command, args, env, disabled}`. `command` is
//! a string and must be there; `args`, a list of strings, `env`, an object of
//! strings, and `disabled`, a boolean, may be missing and are then empty or
//! `false`. Other members are ignored. A name that occurs twice is refused.

use crate::json::{
    json_wf, lemma_array_view, lemma_object_view, member, parse_json, parse_outcome, pretty_text,
    render_json_pretty, Json, JsonValue,
};
use crate::model::{
    config_wf, distinct_keys, key_index, keys_distinct, EntryView, MCPProjectConfig,
    MCPServerConfig,
};
use crate::text::{concat_text, is_outcome};
use vstd::prelude::*;

verus! {

/// The strings that the list `items` holds; `None` where an item is no
/// string.
pub open spec fn texts_of(items: Seq<JsonValue>) -> Option<Seq<Seq<char>>> {
    if forall|i: int| 0 <= i < items.len() ==> (#[trigger] items[i]) is Str {
        Some(Seq::new(items.len(), |i: int| items[i]->Str_0))
    } else {
        None
    }
}

/// The names and strings that the object's `members` hold; `None` where a
/// value is no string or a name occurs twice.
pub open spec fn text_pairs_of(members: Seq<(Seq<char>, JsonValue)>) -> Option<
    Seq<(Seq<char>, Seq<char>)>,
> {
    if keys_distinct(members) && forall|i: int|
        0 <= i < members.len() ==> (#[trigger] members[i]).1 is Str {
        Some(Seq::new(members.len(), |i: int| (members[i].0, members[i].1->Str_0)))
    } else {
        None
    }
}

/// The arguments that the entry `v` gives: those of its member `args`, none
/// where it has no such member; `None` where the member is no list of
/// strings.
pub open spec fn decoded_args(v: JsonValue) -> Option<Seq<Seq<char>>> {
    match member(v, "args"@) {
        None => Some(Seq::empty()),
        Some(JsonValue::Array(items)) => texts_of(items),
        Some(_) => None,
    }
}

/// The environment that the entry `v` gives: that of its member `env`, empty
/// where it has no such member; `None` where the member is no object of
/// strings.
pub open spec fn decoded_env(v: JsonValue) -> Option<Seq<(Seq<char>, Seq<char>)>> {
    match member(v, "env"@) {
        None => Some(Seq::empty()),
        Some(JsonValue::Object(members)) => text_pairs_of(members),
        Some(_) => None,
    }
}

/// The disabled flag that the entry `v` gives: its member `disabled`,
/// `false` where it has no such member; `None` where the member is no
/// boolean.
pub open spec fn decoded_disabled(v: JsonValue) -> Option<bool> {
    match member(v, "disabled"@) {
        None => Some(false),
        Some(JsonValue::Bool(b)) => Some(b),
        Some(_) => None,
    }
}

/// The entry that the document `v` describes, if it describes one.
pub open spec fn decoded_entry(v: JsonValue) -> Option<EntryView> {
    match (member(v, "command"@), decoded_args(v), decoded_env(v), decoded_disabled(v)) {
        (Some(JsonValue::Str(command)), Some(args), Some(env), Some(disabled)) => Some(
            EntryView { command, args, env, disabled },
        ),
        _ => None,
    }
}

/// The entries that the `members` of `mcpServers` describe, in their order;
/// `None` where one describes no entry or a name occurs twice.
pub open spec fn decoded_entries(members: Seq<(Seq<char>, JsonValue)>) -> Option<
    Seq<(Seq<char>, EntryView)>,
> {
    if keys_distinct(members) && forall|i: int|
        0 <= i < members.len() ==> decoded_entry((#[trigger] members[i]).1) is Some {
        Some(
            Seq::new(members.len(), |i: int| (members[i].0, decoded_entry(members[i].1)->Some_0)),
        )
    } else {
        None
    }
}

/// The configuration that the document `v` describes, if it describes one.
pub open spec fn decoded_config(v: JsonValue) -> Option<Seq<(Seq<char>, EntryView)>> {
    match member(v, "mcpServers"@) {
        Some(JsonValue::Object(members)) => decoded_entries(members),
        _ => None,
    }
}

/// The list of strings `items` as a document.
pub open spec fn encoded_texts(items: Seq<Seq<char>>) -> JsonValue {
    JsonValue::Array(Seq::new(items.len(), |i: int| JsonValue::Str(items[i])))
}

/// The pairs of strings `pairs` as a document: an object of strings.
pub open spec fn encoded_pairs(pairs: Seq<(Seq<char>, Seq<char>)>) -> JsonValue {
    JsonValue::Object(Seq::new(pairs.len(), |i: int| (pairs[i].0, JsonValue::Str(pairs[i].1))))
}

/// The entry `e` as a document.
pub open spec fn encoded_entry(e: EntryView) -> JsonValue {
    JsonValue::Object(
        seq![
            ("command"@, JsonValue::Str(e.command)),
            ("args"@, encoded_texts(e.args)),
            ("env"@, encoded_pairs(e.env)),
            ("disabled"@, JsonValue::Bool(e.disabled)),
        ],
    )
}

/// The entries `c` as the object `mcpServers`.
pub open spec fn encoded_entries(c: Seq<(Seq<char>, EntryView)>) -> JsonValue {
    JsonValue::Object(Seq::new(c.len(), |i: int| (c[i].0, encoded_entry(c[i].1))))
}

/// The configuration `c` as a document.
pub open spec fn encoded_config(c: Seq<(Seq<char>, EntryView)>) -> JsonValue {
    JsonValue::Object(seq![("mcpServers"@, encoded_entries(c))])
}

/// The message for a sidecar file that cannot be read as a configuration.
pub open spec fn parse_failure(detail: Seq<char>) -> Seq<char> {
    "Failed to parse .mcp.json: "@ + detail
}

/// What is said of a document that is JSON but describes no configuration.
pub open spec fn shape_detail() -> Seq<char> {
    "the document does not describe MCP servers"@
}

/// The strings of a list of strings.
fn decode_texts(items: &Vec<Json>) -> (r: Option<Vec<String>>)
    ensures
        r.deep_view() == texts_of(items.deep_view()),
{
    let ghost all = items.deep_view();
    let mut out: Vec<String> = Vec::new();
    let mut i: usize = 0;
    while i < items.len()
        invariant
            i <= items.len(),
            all == items.deep_view(),
            out.len() == i,
            forall|k: int| 0 <= k < i ==> all[k] == JsonValue::Str(#[trigger] out[k]@),
        decreases items.len() - i,
    {
        assert(all[i as int] == items[i as int]@);
        match &items[i] {
            Json::Str(s) => {
                out.push(s.clone());
            },
            _ => {
                assert(!(all[i as int] is Str));
                return None;
            },
        }
        i += 1;
    }
    proof {
        assert forall|k: int| 0 <= k < all.len() implies (#[trigger] all[k]) is Str by {
            assert(all[k] == JsonValue::Str(out[k]@));
        }
        let expected = texts_of(all)->Some_0;
        assert forall|k: int| 0 <= k < all.len() implies out.deep_view()[k] == expected[k] by {
            assert(all[k] == JsonValue::Str(out[k]@));
        }
        assert(out.deep_view() =~= expected);
    }
    Some(out)
}

/// The names and strings of an object of strings.
fn decode_text_pairs(members: &Vec<(String, Json)>) -> (r: Option<Vec<(String, String)>>)
    ensures
        r.deep_view() == text_pairs_of(members.deep_view()),
{
    if !distinct_keys(members) {
        return None;
    }
    let ghost all = members.deep_view();
    let mut out: Vec<(String, String)> = Vec::new();
    let mut i: usize = 0;
    while i < members.len()
        invariant
            i <= members.len(),
            all == members.deep_view(),
            out.len() == i,
            forall|k: int|
                0 <= k < i ==> all[k] == (
                    (#[trigger] out[k]).0@,
                    JsonValue::Str(out[k].1@),
                ),
        decreases members.len() - i,
    {
        assert(all[i as int] == (members[i as int].0@, members[i as int].1@));
        match &members[i].1 {
            Json::Str(s) => {
                out.push((members[i].0.clone(), s.clone()));
            },
            _ => {
                assert(!(all[i as int].1 is Str));
                return None;
            },
        }
        i += 1;
    }
    proof {
        assert forall|k: int| 0 <= k < all.len() implies (#[trigger] all[k]).1 is Str by {
            assert(all[k] == (out[k].0@, JsonValue::Str(out[k].1@)));
        }
        let expected = text_pairs_of(all)->Some_0;
        assert forall|k: int| 0 <= k < all.len() implies out.deep_view()[k] == expected[k] by {
            assert(all[k] == (out[k].0@, JsonValue::Str(out[k].1@)));
        }
        assert(out.deep_view() =~= expected);
    }
    Some(out)
}

/// Reads one entry of the sidecar file from its document.
pub fn decode_entry(v: &Json) -> (r: Option<MCPServerConfig>)
    ensures
        r.deep_view() == decoded_entry(v@),
{
    let command = match v.get("command") {
        Some(Json::Str(s)) => s.clone(),
        _ => {
            return None;
        },
    };
    let args = match v.get("args") {
        None => Vec::new(),
        Some(Json::Array(items)) => {
            proof {
                lemma_array_view(*items);
            }
            match decode_texts(items) {
                Some(a) => a,
                None => {
                    return None;
                },
            }
        },
        Some(_) => {
            return None;
        },
    };
    let env = match v.get("env") {
        None => Vec::new(),
        Some(Json::Object(members)) => {
            proof {
                lemma_object_view(*members);
            }
            match decode_text_pairs(members) {
                Some(e) => e,
                None => {
                    return None;
                },
            }
        },
        Some(_) => {
            return None;
        },
    };
    let disabled = match v.get("disabled") {
        None => false,
        Some(Json::Bool(b)) => *b,
        Some(_) => {
            return None;
        },
    };
    proof {
        if member(v@, "args"@) is None {
            assert(args.deep_view() =~= Seq::<Seq<char>>::empty());
        }
        if member(v@, "env"@) is None {
            assert(env.deep_view() =~= Seq::<(Seq<char>, Seq<char>)>::empty());
        }
    }
    Some(MCPServerConfig { command, args, env, disabled })
}

/// The message for a document that describes no configuration.
fn shape_failure() -> (m: String)
    ensures
        m@ == parse_failure(shape_detail()),
{
    concat_text("Failed to parse .mcp.json: ", "the document does not describe MCP servers")
}

/// Reads the configuration from the document of the sidecar file: the
/// configuration that it describes, or the message that it describes none.
pub fn decode_project_config(json: &Json) -> (r: Result<MCPProjectConfig, String>)
    ensures
        match decoded_config(json@) {
            Some(c) => r matches Ok(config) && config@ == c && config.wf(),
            None => r matches Err(e) && e@ == parse_failure(shape_detail()),
        },
{
    let members = match json.get("mcpServers") {
        Some(Json::Object(members)) => {
            proof {
                lemma_object_view(*members);
            }
            members
        },
        _ => {
            return Err(shape_failure());
        },
    };
    if !distinct_keys(members) {
        return Err(shape_failure());
    }
    let ghost all = members.deep_view();
    let mut out: Vec<(String, MCPServerConfig)> = Vec::new();
    let mut i: usize = 0;
    while i < members.len()
        invariant
            i <= members.len(),
            all == members.deep_view(),
            member(json@, "mcpServers"@) == Some(JsonValue::Object(all)),
            keys_distinct(all),
            out.len() == i,
            forall|k: int|
                0 <= k < i ==> decoded_entry(all[k].1) == Some((#[trigger] out[k]).1@)
                    && all[k].0 == out[k].0@,
        decreases members.len() - i,
    {
        assert(all[i as int] == (members[i as int].0@, members[i as int].1@));
        match decode_entry(&members[i].1) {
            Some(entry) => {
                assert(decoded_entry(all[i as int].1) == Some(entry@));
                out.push((members[i].0.clone(), entry));
            },
            None => {
                assert(decoded_entry(all[i as int].1) is None);
                return Err(shape_failure());
            },
        }
        i += 1;
    }
    let config = MCPProjectConfig { mcp_servers: out };
    proof {
        assert forall|k: int| 0 <= k < all.len() implies decoded_entry(
            (#[trigger] all[k]).1,
        ) is Some by {
            assert(decoded_entry(all[k].1) == Some(out[k].1@));
        }
        let c = decoded_entries(all)->Some_0;
        assert forall|k: int| 0 <= k < all.len() implies config@[k] == c[k] by {
            assert(decoded_entry(all[k].1) == Some(out[k].1@));
            assert(config@[k] == (out[k].0@, out[k].1@));
        }
        assert(config@ =~= c);
        assert(keys_distinct(config@));
        assert forall|k: int| 0 <= k < config@.len() implies keys_distinct(
            #[trigger] config@[k].1.env,
        ) by {
            let e = decoded_entry(all[k].1);
            assert(e is Some);
            let dv = decoded_env(all[k].1);
            assert(dv is Some);
            assert(config@[k].1.env == dv->Some_0);
            match member(all[k].1, "env"@) {
                Some(JsonValue::Object(ms)) => {
                    assert(keys_distinct(ms));
                },
                _ => {},
            }
        }
    }
    Ok(config)
}

/// The list of strings `items` as a document.
fn encode_texts(items: &Vec<String>) -> (j: Json)
    ensures
        j@ == encoded_texts(items.deep_view()),
{
    let mut out: Vec<Json> = Vec::new();
    let mut i: usize = 0;
    while i < items.len()
        invariant
            i <= items.len(),
            out.len() == i,
            forall|k: int| 0 <= k < i ==> (#[trigger] out[k])@ == JsonValue::Str(items[k]@),
        decreases items.len() - i,
    {
        out.push(Json::Str(items[i].clone()));
        i += 1;
    }
    proof {
        let expected = encoded_texts(items.deep_view())->Array_0;
        assert forall|k: int| 0 <= k < out.len() implies out.deep_view()[k] == expected[k] by {
            assert(out[k]@ == JsonValue::Str(items[k]@));
        }
        assert(out.deep_view() =~= expected);
    }
    Json::array(out)
}

/// The pairs of strings `pairs` as a document.
fn encode_pairs(pairs: &Vec<(String, String)>) -> (j: Json)
    ensures
        j@ == encoded_pairs(pairs.deep_view()),
{
    let mut out: Vec<(String, Json)> = Vec::new();
    let mut i: usize = 0;
    while i < pairs.len()
        invariant
            i <= pairs.len(),
            out.len() == i,
            forall|k: int|
                0 <= k < i ==> (#[trigger] out[k]).0@ == pairs[k].0@ && out[k].1@
                    == JsonValue::Str(pairs[k].1@),
        decreases pairs.len() - i,
    {
        out.push((pairs[i].0.clone(), Json::Str(pairs[i].1.clone())));
        i += 1;
    }
    proof {
        let expected = encoded_pairs(pairs.deep_view())->Object_0;
        assert forall|k: int| 0 <= k < out.len() implies out.deep_view()[k] == expected[k] by {
            assert(out[k].0@ == pairs[k].0@);
        }
        assert(out.deep_view() =~= expected);
    }
    Json::object(out)
}

/// Writes one entry of the sidecar file as a document.
pub fn encode_entry(entry: &MCPServerConfig) -> (j: Json)
    ensures
        j@ == encoded_entry(entry@),
{
    let mut out: Vec<(String, Json)> = Vec::new();
    out.push(("command".to_string(), Json::Str(entry.command.clone())));
    out.push(("args".to_string(), encode_texts(&entry.args)));
    out.push(("env".to_string(), encode_pairs(&entry.env)));
    out.push(("disabled".to_string(), Json::Bool(entry.disabled)));
    assert(out.deep_view() =~= encoded_entry(entry@)->Object_0);
    Json::object(out)
}

/// Writes the configuration as the document of the sidecar file.
pub fn encode_project_config(config: &MCPProjectConfig) -> (j: Json)
    ensures
        j@ == encoded_config(config@),
{
    let mut entries: Vec<(String, Json)> = Vec::new();
    let mut i: usize = 0;
    while i < config.mcp_servers.len()
        invariant
            i <= config.mcp_servers.len(),
            entries.len() == i,
            forall|k: int|
                0 <= k < i ==> (#[trigger] entries[k]).0@ == config.mcp_servers[k].0@
                    && entries[k].1@ == encoded_entry(config.mcp_servers[k].1@),
        decreases config.mcp_servers.len() - i,
    {
        let pair = &config.mcp_servers[i];
        entries.push((pair.0.clone(), encode_entry(&pair.1)));
        i += 1;
    }
    proof {
        let expected = encoded_entries(config@)->Object_0;
        assert forall|k: int| 0 <= k < entries.len() implies entries.deep_view()[k]
            == expected[k] by {
            assert(entries[k].0@ == config.mcp_servers[k].0@);
            assert(config@[k] == (config.mcp_servers[k].0@, config.mcp_servers[k].1@));
        }
        assert(entries.deep_view() =~= expected);
    }
    let mut root: Vec<(String, Json)> = Vec::new();
    root.push(("mcpServers".to_string(), Json::object(entries)));
    assert(root.deep_view() =~= encoded_config(config@)->Object_0);
    Json::object(root)
}

/// The configuration that a sidecar file gives, or the message with which
/// it is refused. A file that is not there (`None`) gives the empty
/// configuration.
pub open spec fn loaded_config(content: Option<Seq<char>>) -> Result<
    Seq<(Seq<char>, EntryView)>,
    Seq<char>,
> {
    match content {
        None => Ok(Seq::empty()),
        Some(text) => match parse_outcome(text) {
            Err(m) => Err(parse_failure(m)),
            Ok(v) => match decoded_config(v) {
                Some(c) => Ok(c),
                None => Err(parse_failure(shape_detail())),
            },
        },
    }
}

/// Reads the configuration from the content of the sidecar file; `None`
/// stands for a file that is not there.
pub fn load_project_config(content: Option<&str>) -> (r: Result<MCPProjectConfig, String>)
    ensures
        match loaded_config(content.deep_view()) {
            Ok(c) => r matches Ok(config) && config@ == c && config.wf(),
            Err(m) => r matches Err(e) && e@ == m,
        },
{
    match content {
        None => Ok(MCPProjectConfig::empty()),
        Some(text) => match parse_json(text) {
            Err(m) => Err(concat_text("Failed to parse .mcp.json: ", m.as_str())),
            Ok(json) => decode_project_config(&json),
        },
    }
}

/// The message for a configuration that cannot be written as text.
pub open spec fn serialize_failure(detail: Seq<char>) -> Seq<char> {
    "Failed to serialize config: "@ + detail
}

/// The content of the sidecar file for a configuration, or the message with
/// which writing it fails.
pub open spec fn saved_text(config: Seq<(Seq<char>, EntryView)>) -> Result<Seq<char>, Seq<char>> {
    match pretty_text(encoded_config(config)) {
        Ok(text) => Ok(text),
        Err(m) => Err(serialize_failure(m)),
    }
}

/// Writes a configuration as the content of the sidecar file.
pub fn project_config_text(config: &MCPProjectConfig) -> (r: Result<String, String>)
    ensures
        is_outcome(r, saved_text(config@)),
{
    let json = encode_project_config(config);
    match render_json_pretty(&json) {
        Ok(text) => Ok(text),
        Err(m) => Err(concat_text("Failed to serialize config: ", m.as_str())),
    }
}

/// The four member names of an entry differ from each other.
proof fn lemma_entry_keys()
    ensures
        "command"@ != "args"@,
        "command"@ != "env"@,
        "command"@ != "disabled"@,
        "args"@ != "env"@,
        "args"@ != "disabled"@,
        "env"@ != "disabled"@,
{
    reveal_strlit("command");
    reveal_strlit("args");
    reveal_strlit("env");
    reveal_strlit("disabled");
    assert("command"@.len() == 7);
    assert("args"@.len() == 4);
    assert("env"@.len() == 3);
    assert("disabled"@.len() == 8);
}

/// The members that the document of an entry holds.
proof fn lemma_entry_members(e: EntryView)
    ensures
        member(encoded_entry(e), "command"@) == Some(JsonValue::Str(e.command)),
        member(encoded_entry(e), "args"@) == Some(encoded_texts(e.args)),
        member(encoded_entry(e), "env"@) == Some(encoded_pairs(e.env)),
        member(encoded_entry(e), "disabled"@) == Some(JsonValue::Bool(e.disabled)),
        keys_distinct(encoded_entry(e)->Object_0),
{
    lemma_entry_keys();
    reveal_with_fuel(key_index, 5);
    let ms = encoded_entry(e)->Object_0;
    assert(ms.len() == 4);
    assert(ms[0].0 == "command"@);
    assert(ms[1].0 == "args"@);
    assert(ms[2].0 == "env"@);
    assert(ms[3].0 == "disabled"@);
    assert(ms.drop_first()[0] == ms[1]);
    assert(ms.drop_first().drop_first()[0] == ms[2]);
    assert(ms.drop_first().drop_first().drop_first()[0] == ms[3]);
    assert(key_index(ms, "command"@) == 0);
    assert(key_index(ms, "args"@) == 1);
    assert(key_index(ms, "env"@) == 2);
    assert(key_index(ms, "disabled"@) == 3);
}

/// The document of an entry describes that entry.
pub proof fn lemma_entry_round_trip(e: EntryView)
    requires
        keys_distinct(e.env),
    ensures
        decoded_entry(encoded_entry(e)) == Some(e),
        json_wf(encoded_entry(e)),
{
    lemma_entry_members(e);
    let args = encoded_texts(e.args)->Array_0;
    assert(texts_of(args) is Some);
    assert(texts_of(args)->Some_0 =~= e.args);
    let env = encoded_pairs(e.env)->Object_0;
    assert(keys_distinct(env));
    assert(text_pairs_of(env) is Some);
    assert(text_pairs_of(env)->Some_0 =~= e.env);
    assert(decoded_args(encoded_entry(e)) == Some(e.args));
    assert(decoded_env(encoded_entry(e)) == Some(e.env));
    assert(decoded_disabled(encoded_entry(e)) == Some(e.disabled));
    let ms = encoded_entry(e)->Object_0;
    assert forall|i: int| 0 <= i < args.len() implies json_wf(#[trigger] args[i]) by {
        assert(args[i] is Str);
    }
    assert(json_wf(encoded_texts(e.args)));
    assert forall|i: int| 0 <= i < env.len() implies json_wf((#[trigger] env[i]).1) by {
        assert(env[i].1 is Str);
    }
    assert(json_wf(encoded_pairs(e.env)));
    assert forall|i: int| 0 <= i < ms.len() implies json_wf((#[trigger] ms[i]).1) by {}
}

/// The document of a well-formed configuration is well-formed.
pub proof fn lemma_encoded_wf(c: Seq<(Seq<char>, EntryView)>)
    requires
        config_wf(c),
    ensures
        json_wf(encoded_config(c)),
{
    let entries = encoded_entries(c)->Object_0;
    assert forall|i: int| 0 <= i < entries.len() implies json_wf((#[trigger] entries[i]).1) by {
        lemma_entry_round_trip(c[i].1);
    }
    assert(keys_distinct(entries));
    assert(json_wf(encoded_entries(c)));
    let root = encoded_config(c)->Object_0;
    assert(root.len() == 1);
    assert forall|i: int| 0 <= i < root.len() implies json_wf((#[trigger] root[i]).1) by {}
}

/// Writing a configuration and reading it back gives the same entries: the
/// document of a well-formed configuration describes that configuration.
pub proof fn lemma_config_round_trip(c: Seq<(Seq<char>, EntryView)>)
    requires
        config_wf(c),
    ensures
        decoded_config(encoded_config(c)) == Some(c),
{
    let root = encoded_config(c)->Object_0;
    assert(root[0].0 == "mcpServers"@);
    assert(key_index(root, "mcpServers"@) == 0);
    assert(member(encoded_config(c), "mcpServers"@) == Some(encoded_entries(c)));
    let entries = encoded_entries(c)->Object_0;
    assert(keys_distinct(entries));
    assert forall|i: int| 0 <= i < entries.len() implies decoded_entry(
        (#[trigger] entries[i]).1,
    ) is Some by {
        lemma_entry_round_trip(c[i].1);
    }
    let d = decoded_entries(entries)->Some_0;
    assert forall|i: int| 0 <= i < c.len() implies d[i] == c[i] by {
        lemma_entry_round_trip(c[i].1);
    }
    assert(d =~= c);
}

/// Writing a configuration and reading the text back gives the same entries,
/// as far as the JSON text does: where the text written for a well-formed
/// configuration is read as the document that was written, the configuration
/// read from it is the one written.
pub proof fn lemma_saved_config_loads_back(c: Seq<(Seq<char>, EntryView)>, text: Seq<char>)
    requires
        config_wf(c),
        saved_text(c) == Ok::<Seq<char>, Seq<char>>(text),
        parse_outcome(text) == Ok::<JsonValue, Seq<char>>(encoded_config(c)),
    ensures
        loaded_config(Some(text)) == Ok::<Seq<(Seq<char>, EntryView)>, Seq<char>>(c),
{
    lemma_config_round_trip(c);
}

} // verus!
