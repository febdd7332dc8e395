//! The import adapter: from the configuration of a desktop application,
//! `{mcpServers: {name: {command, args?, env?}}}`, to one add request for
//! each server, and from the outcomes of those requests to the outcome of
//! the import.
//!
//! Every imported server uses the `stdio` transport. A server without a
//! `command` string fails alone; `args` and `env` that are missing, or of
//! another kind, count as empty.

use crate::json::{
    compact_text, json_wf, lemma_object_view, member, parse_json, parse_outcome, render_json,
    Json, JsonValue,
};
use crate::model::{
    has_key, key_index, keys_distinct, lemma_key_index, AddServerResult, AddView, ImportResult,
    ImportServerResult, ImportView, OutcomeView,
};
use crate::text::concat_text;
use vstd::prelude::*;

verus! {

/// The message for a configuration of the application `source` that is no
/// JSON text: `Failed to parse <source> config: <detail>`.
pub open spec fn foreign_parse_failure(source: Seq<char>, detail: Seq<char>) -> Seq<char> {
    "Failed to parse "@ + source + " config: "@ + detail
}

/// The message for a configuration of the application `source` without an
/// object `mcpServers`: `No MCP servers found in <source> config`.
pub open spec fn no_servers_failure(source: Seq<char>) -> Seq<char> {
    "No MCP servers found in "@ + source + " config"@
}

/// The servers that the foreign document `v` names, in its order: the
/// members of its object `mcpServers`.
pub open spec fn named_servers(v: JsonValue) -> Option<Seq<(Seq<char>, JsonValue)>> {
    match member(v, "mcpServers"@) {
        Some(JsonValue::Object(members)) => Some(members),
        _ => None,
    }
}

/// The servers that the text of the configuration of the application
/// `source` names, or the message with which it is refused.
pub open spec fn foreign_servers_of(source: Seq<char>, content: Seq<char>) -> Result<
    Seq<(Seq<char>, JsonValue)>,
    Seq<char>,
> {
    match parse_outcome(content) {
        Err(m) => Err(foreign_parse_failure(source, m)),
        Ok(v) => match named_servers(v) {
            Some(members) => Ok(members),
            None => Err(no_servers_failure(source)),
        },
    }
}

/// The list that an add request holds for `args`: the server's list, the
/// empty list where it has none.
pub open spec fn request_args(server: JsonValue) -> JsonValue {
    match member(server, "args"@) {
        Some(JsonValue::Array(items)) => JsonValue::Array(items),
        _ => JsonValue::Array(Seq::empty()),
    }
}

/// The object that an add request holds for `env`: the server's object, the
/// empty object where it has none.
pub open spec fn request_env(server: JsonValue) -> JsonValue {
    match member(server, "env"@) {
        Some(JsonValue::Object(members)) => JsonValue::Object(members),
        _ => JsonValue::Object(Seq::empty()),
    }
}

/// The add request for a foreign server; `None` where the server has no
/// `command` string.
pub open spec fn add_request(server: JsonValue) -> Option<JsonValue> {
    match member(server, "command"@) {
        Some(JsonValue::Str(command)) => Some(
            JsonValue::Object(
                seq![
                    ("type"@, JsonValue::Str("stdio"@)),
                    ("command"@, JsonValue::Str(command)),
                    ("args"@, request_args(server)),
                    ("env"@, request_env(server)),
                ],
            ),
        ),
        _ => None,
    }
}

/// The message for an add request that cannot be written as text.
pub open spec fn request_failure(name: Seq<char>, detail: Seq<char>) -> Seq<char> {
    "Failed to serialize config for "@ + name + ": "@ + detail
}

/// What is recorded for a server without a `command` string.
pub open spec fn missing_command(name: Seq<char>) -> OutcomeView {
    OutcomeView { name, success: false, error: Some("Missing command field"@) }
}

/// What is recorded for a server after its add request: success, or the
/// failure with the message of the request's result.
pub open spec fn outcome_of(name: Seq<char>, success: bool, message: Seq<char>) -> OutcomeView {
    if success {
        OutcomeView { name, success: true, error: None }
    } else {
        OutcomeView { name, success: false, error: Some(message) }
    }
}

/// The number of successes among `outcomes`.
pub open spec fn successes(outcomes: Seq<OutcomeView>) -> nat
    decreases outcomes.len(),
{
    if outcomes.len() == 0 {
        0
    } else {
        successes(outcomes.drop_last()) + if outcomes.last().success {
            1nat
        } else {
            0nat
        }
    }
}

/// The outcome of an import with the given outcomes of its servers.
pub open spec fn import_summary(outcomes: Seq<OutcomeView>) -> ImportView {
    ImportView {
        imported_count: successes(outcomes),
        failed_count: (outcomes.len() - successes(outcomes)) as nat,
        servers: outcomes,
    }
}

/// The servers that the document of the application `source` names, in its
/// order.
pub fn servers_in(source: &str, json: &Json) -> (r: Result<Vec<(String, Json)>, String>)
    ensures
        match named_servers(json@) {
            Some(members) => r matches Ok(servers) && servers.deep_view() == members,
            None => r matches Err(e) && e@ == no_servers_failure(source@),
        },
        json_wf(json@) ==> (r matches Ok(servers) ==> forall|i: int|
            0 <= i < servers.len() ==> json_wf((#[trigger] servers[i]).1@)),
{
    match json.get("mcpServers") {
        Some(Json::Object(members)) => {
            proof {
                lemma_object_view(*members);
            }
            let ghost all = members.deep_view();
            let mut out: Vec<(String, Json)> = Vec::new();
            let mut i: usize = 0;
            while i < members.len()
                invariant
                    i <= members.len(),
                    all == members.deep_view(),
                    out.len() == i,
                    forall|k: int|
                        0 <= k < i ==> (#[trigger] out[k]).0@ == all[k].0 && out[k].1@
                            == all[k].1,
                decreases members.len() - i,
            {
                assert(all[i as int] == (members[i as int].0@, members[i as int].1@));
                out.push((members[i].0.clone(), members[i].1.clone()));
                i += 1;
            }
            proof {
                assert forall|k: int| 0 <= k < out.len() implies out.deep_view()[k]
                    == all[k] by {
                    assert(out[k].0@ == all[k].0);
                }
                assert(out.deep_view() =~= all);
                if json_wf(json@) {
                    lemma_member_wf(json@, "mcpServers"@);
                    assert forall|k: int| 0 <= k < out.len() implies json_wf(
                        (#[trigger] out[k]).1@,
                    ) by {
                        assert(out[k].1@ == all[k].1);
                    }
                }
            }
            Ok(out)
        },
        _ => {
            let head = concat_text("No MCP servers found in ", source);
            Err(concat_text(head.as_str(), " config"))
        },
    }
}

/// A member of a well-formed object is well-formed.
pub proof fn lemma_member_wf(v: JsonValue, key: Seq<char>)
    requires
        json_wf(v),
    ensures
        member(v, key) matches Some(m) ==> json_wf(m),
{
    match v {
        JsonValue::Object(members) => {
            if has_key(members, key) {
                lemma_key_index(members, key);
                let i = key_index(members, key) as int;
                assert(json_wf(members[i].1));
            }
        },
        _ => {},
    }
}

/// Reads the text of the configuration of the application `source`: the
/// servers that it names, in its order, or the message with which it is
/// refused.
pub fn foreign_servers(source: &str, content: &str) -> (r: Result<Vec<(String, Json)>, String>)
    ensures
        match foreign_servers_of(source@, content@) {
            Ok(members) => r matches Ok(servers) && servers.deep_view() == members && forall|
                i: int,
            |
                0 <= i < servers.len() ==> json_wf((#[trigger] servers[i]).1@),
            Err(m) => r matches Err(e) && e@ == m,
        },
{
    match parse_json(content) {
        Err(m) => {
            let head = concat_text("Failed to parse ", source);
            let middle = concat_text(head.as_str(), " config: ");
            let ghost detail = m@;
            let message = concat_text(middle.as_str(), m.as_str());
            assert(message@ =~= foreign_parse_failure(source@, detail));
            Err(message)
        },
        Ok(json) => servers_in(source, &json),
    }
}

/// The add request for a foreign server; `None` where the server has no
/// `command` string.
pub fn import_request(server: &Json) -> (r: Option<Json>)
    ensures
        r.deep_view() == add_request(server@),
        json_wf(server@) ==> (r matches Some(request) ==> json_wf(request@)),
{
    let command = match server.get("command") {
        Some(Json::Str(s)) => s.clone(),
        _ => {
            return None;
        },
    };
    let args = match server.get("args") {
        Some(list) => match list {
            Json::Array(_) => list.clone(),
            _ => Json::empty_array(),
        },
        None => Json::empty_array(),
    };
    let env = match server.get("env") {
        Some(object) => match object {
            Json::Object(_) => object.clone(),
            _ => Json::empty_object(),
        },
        None => Json::empty_object(),
    };
    proof {
        assert(args@ == request_args(server@));
        assert(env@ == request_env(server@));
    }
    let mut out: Vec<(String, Json)> = Vec::new();
    out.push(("type".to_string(), Json::text("stdio")));
    out.push(("command".to_string(), Json::Str(command)));
    out.push(("args".to_string(), args));
    out.push(("env".to_string(), env));
    let request = Json::object(out);
    proof {
        let expected = add_request(server@)->Some_0;
        assert(out.deep_view() =~= expected->Object_0);
        if json_wf(server@) {
            lemma_member_wf(server@, "args"@);
            lemma_member_wf(server@, "env"@);
            lemma_request_keys();
            let ms = request@->Object_0;
            assert(json_wf(ms[0].1));
            assert(json_wf(ms[1].1));
            assert(json_wf(ms[2].1));
            assert(json_wf(ms[3].1));
            assert forall|i: int| 0 <= i < ms.len() implies json_wf((#[trigger] ms[i]).1) by {}
            assert(keys_distinct(ms));
        }
    }
    Some(request)
}

/// The four member names of an add request differ from each other.
proof fn lemma_request_keys()
    ensures
        "type"@ != "command"@,
        "type"@ != "args"@,
        "type"@ != "env"@,
        "command"@ != "args"@,
        "command"@ != "env"@,
        "args"@ != "env"@,
{
    reveal_strlit("type");
    reveal_strlit("command");
    reveal_strlit("args");
    reveal_strlit("env");
    assert("type"@[0] == 't');
    assert("args"@[0] == 'a');
    assert("command"@.len() == 7);
    assert("args"@.len() == 4);
    assert("env"@.len() == 3);
    assert("type"@.len() == 4);
}

/// The text of the add request for the server `name`, or the message with
/// which writing it fails.
pub fn request_text(name: &str, request: &Json) -> (r: Result<String, String>)
    ensures
        match compact_text(request@) {
            Ok(text) => r matches Ok(t) && t@ == text,
            Err(m) => r matches Err(e) && e@ == request_failure(name@, m),
        },
{
    match render_json(request) {
        Ok(text) => Ok(text),
        Err(m) => {
            let head = concat_text("Failed to serialize config for ", name);
            let middle = concat_text(head.as_str(), ": ");
            let ghost detail = m@;
            let message = concat_text(middle.as_str(), m.as_str());
            assert(message@ =~= request_failure(name@, detail));
            Err(message)
        },
    }
}

/// What is recorded for a server without a `command` string.
pub fn missing_command_outcome(name: &str) -> (r: ImportServerResult)
    ensures
        r@ == missing_command(name@),
{
    ImportServerResult {
        name: name.to_string(),
        success: false,
        error: Some("Missing command field".to_string()),
    }
}

/// What is recorded for a server after its add request.
pub fn add_outcome(name: &str, result: &AddServerResult) -> (r: ImportServerResult)
    ensures
        r@ == outcome_of(name@, result.success, result.message@),
{
    if result.success {
        ImportServerResult { name: name.to_string(), success: true, error: None }
    } else {
        ImportServerResult {
            name: name.to_string(),
            success: false,
            error: Some(result.message.clone()),
        }
    }
}

/// The outcome of an import, from the outcomes of its servers in the order
/// of the input: how many were imported, how many failed, and each outcome.
pub fn summarize_import(outcomes: Vec<ImportServerResult>) -> (r: ImportResult)
    requires
        outcomes.len() <= u32::MAX,
    ensures
        r@ == import_summary(outcomes.deep_view()),
        r.imported_count + r.failed_count == outcomes.len(),
{
    let ghost all = outcomes.deep_view();
    let mut imported: u32 = 0;
    let mut failed: u32 = 0;
    let mut i: usize = 0;
    assert(all.subrange(0, 0) =~= Seq::<OutcomeView>::empty());
    while i < outcomes.len()
        invariant
            i <= outcomes.len() <= u32::MAX,
            all == outcomes.deep_view(),
            imported == successes(all.subrange(0, i as int)),
            imported + failed == i,
        decreases outcomes.len() - i,
    {
        proof {
            let next = all.subrange(0, i + 1);
            assert(next.drop_last() =~= all.subrange(0, i as int));
            assert(next.last() == outcomes[i as int]@);
        }
        if outcomes[i].success {
            imported += 1;
        } else {
            failed += 1;
        }
        i += 1;
    }
    assert(all.subrange(0, all.len() as int) =~= all);
    ImportResult { imported_count: imported, failed_count: failed, servers: outcomes }
}

/// What is recorded for the server `name` of an import: the missing command
/// where the server has no add request, else the outcome of its request,
/// whose result is `added`.
pub open spec fn server_outcome(name: Seq<char>, server: JsonValue, added: Option<AddView>)
    -> OutcomeView {
    match add_request(server) {
        None => missing_command(name),
        Some(_) => outcome_of(name, added->Some_0.success, added->Some_0.message),
    }
}

/// Whether `added` holds one place for each of `servers`, with a result in
/// the place of each server that has an add request.
pub open spec fn results_complete(
    servers: Seq<(Seq<char>, JsonValue)>,
    added: Seq<Option<AddView>>,
) -> bool {
    &&& servers.len() == added.len()
    &&& forall|i: int|
        0 <= i < servers.len() ==> add_request((#[trigger] servers[i]).1) is Some ==> added[i]
            is Some
}

/// The outcomes of the servers of an import, in the order of the input.
pub open spec fn server_outcomes(
    servers: Seq<(Seq<char>, JsonValue)>,
    added: Seq<Option<AddView>>,
) -> Seq<OutcomeView> {
    Seq::new(servers.len(), |i: int| server_outcome(servers[i].0, servers[i].1, added[i]))
}

/// The outcome of an import of `servers`, where `added` holds the result of
/// each add request. There is none where the results are not complete or
/// the servers are more than the counters can count.
pub open spec fn import_of(servers: Seq<(Seq<char>, JsonValue)>, added: Seq<Option<AddView>>)
    -> Option<ImportView> {
    if results_complete(servers, added) && servers.len() <= u32::MAX {
        Some(import_summary(server_outcomes(servers, added)))
    } else {
        None
    }
}

/// Whether a foreign server has an add request: whether it has a `command`
/// string.
pub fn has_request(server: &Json) -> (b: bool)
    ensures
        b == add_request(server@) is Some,
{
    match server.get("command") {
        Some(Json::Str(_)) => true,
        _ => false,
    }
}

/// The outcome of an import. `servers` are the servers of the foreign
/// configuration; `added` holds, in the place of each server that has an add
/// request, the result of that request, and is not read in the other places.
/// Each server is recorded on its own, in the order of the input: one that
/// failed, or has no command, stops no other.
pub fn import_outcomes(servers: &Vec<(String, Json)>, added: &Vec<Option<AddServerResult>>) -> (r:
    Option<ImportResult>)
    ensures
        r.deep_view() == import_of(servers.deep_view(), added.deep_view()),
{
    let n = servers.len();
    if added.len() != n || n > u32::MAX as usize {
        return None;
    }
    let ghost all = servers.deep_view();
    let ghost results = added.deep_view();
    let mut outcomes: Vec<ImportServerResult> = Vec::new();
    let mut i: usize = 0;
    while i < n
        invariant
            n == servers.len(),
            n == added.len(),
            n <= u32::MAX,
            i <= n,
            all == servers.deep_view(),
            results == added.deep_view(),
            outcomes.len() == i,
            forall|k: int|
                0 <= k < i ==> add_request((#[trigger] all[k]).1) is Some ==> results[k] is Some,
            forall|k: int|
                0 <= k < i ==> (#[trigger] outcomes[k])@ == server_outcome(
                    all[k].0,
                    all[k].1,
                    results[k],
                ),
        decreases n - i,
    {
        proof {
            assert(all[i as int] == (servers[i as int].0@, servers[i as int].1@));
            assert(results[i as int] == added[i as int].deep_view());
        }
        let name = servers[i].0.as_str();
        if has_request(&servers[i].1) {
            match &added[i] {
                Some(result) => {
                    outcomes.push(add_outcome(name, result));
                },
                None => {
                    assert(!results_complete(all, results));
                    return None;
                },
            }
        } else {
            outcomes.push(missing_command_outcome(name));
        }
        i += 1;
    }
    proof {
        assert(results_complete(all, results));
        let expected = server_outcomes(all, results);
        assert forall|k: int| 0 <= k < n implies outcomes.deep_view()[k] == expected[k] by {
            assert(outcomes[k]@ == server_outcome(all[k].0, all[k].1, results[k]));
        }
        assert(outcomes.deep_view() =~= expected);
    }
    Some(summarize_import(outcomes))
}

/// An import records every server of its input, each once and in its place,
/// and counts each as imported or as failed.
pub proof fn lemma_import_records_every_server(
    servers: Seq<(Seq<char>, JsonValue)>,
    added: Seq<Option<AddView>>,
)
    requires
        import_of(servers, added) is Some,
    ensures
        ({
            let result = import_of(servers, added)->Some_0;
            &&& result.servers.len() == servers.len()
            &&& result.imported_count + result.failed_count == servers.len()
            &&& forall|i: int|
                0 <= i < servers.len() ==> (#[trigger] result.servers[i]).name == servers[i].0
            &&& forall|i: int|
                0 <= i < servers.len() && add_request(servers[i].1) is None ==> (
                #[trigger] result.servers[i]) == missing_command(servers[i].0)
        }),
{
    lemma_successes_bound(server_outcomes(servers, added));
}

/// No more outcomes are successes than there are outcomes.
pub proof fn lemma_successes_bound(outcomes: Seq<OutcomeView>)
    ensures
        successes(outcomes) <= outcomes.len(),
    decreases outcomes.len(),
{
    if outcomes.len() > 0 {
        lemma_successes_bound(outcomes.drop_last());
    }
}

} // verus!
