//! The reconciliation engine: the disabled flag lives in the sidecar file
//! alone, and toggling it touches nothing else there.
//!
//! Toggling a server that the file knows changes the flag of its entry.
//! Toggling one that it does not know adds an entry: from the tool's
//! description of the server where that could be had, else a minimal one.

use crate::detail::{default_details, read_details, read_lines};
use crate::model::{
    config_wf, has_key, key_index, keys_distinct, lemma_key_index, EntryView, MCPProjectConfig,
    MCPServerConfig,
};
use crate::text::{concat_text, lines};
use vstd::prelude::*;

verus! {

/// The entry that is made for a server that the sidecar file does not know.
/// `details` is the tool's description of the server, `None` where it had
/// none to give: the entry then has no command and no arguments.
pub open spec fn entry_from_details(details: Option<Seq<char>>, disabled: bool) -> EntryView {
    match details {
        Some(text) => {
            let d = read_lines(default_details(), lines(text));
            EntryView {
                command: match d.command {
                    Some(c) => c,
                    None => Seq::empty(),
                },
                args: d.args,
                env: Seq::empty(),
                disabled,
            }
        },
        None => EntryView {
            command: Seq::empty(),
            args: Seq::empty(),
            env: Seq::empty(),
            disabled,
        },
    }
}

/// The configuration after the disabled flag of `name` is set to
/// `disabled`. Where `config` has an entry of that name, only its flag
/// changes; else the entry made from `details` is added at the end.
pub open spec fn toggled(
    config: Seq<(Seq<char>, EntryView)>,
    name: Seq<char>,
    disabled: bool,
    details: Option<Seq<char>>,
) -> Seq<(Seq<char>, EntryView)> {
    if has_key(config, name) {
        let i = key_index(config, name) as int;
        config.update(i, (config[i].0, EntryView { disabled, ..config[i].1 }))
    } else {
        config.push((name, entry_from_details(details, disabled)))
    }
}

/// What the caller is told after a toggle.
pub open spec fn toggle_report(name: Seq<char>, disabled: bool) -> Seq<char> {
    "Server '"@ + name + "' has been "@ + if disabled {
        "disabled"@
    } else {
        "enabled"@
    }
}

/// Whether toggling `name` needs the tool's description of the server: it
/// does where the sidecar file has no entry of that name.
pub fn needs_details(config: &MCPProjectConfig, name: &str) -> (b: bool)
    ensures
        b == !has_key(config@, name@),
{
    config.position(name).is_none()
}

/// The entry for a server that the sidecar file does not know yet.
pub fn new_entry(details: Option<&str>, disabled: bool) -> (entry: MCPServerConfig)
    ensures
        entry@ == entry_from_details(details.deep_view(), disabled),
{
    match details {
        Some(text) => {
            let d = read_details(text);
            let command = match d.command {
                Some(c) => c,
                None => String::new(),
            };
            let entry = MCPServerConfig { command, args: d.args, env: Vec::new(), disabled };
            assert(entry.env.deep_view() =~= Seq::<(Seq<char>, Seq<char>)>::empty());
            entry
        },
        None => {
            let entry = MCPServerConfig {
                command: String::new(),
                args: Vec::new(),
                env: Vec::new(),
                disabled,
            };
            assert(entry.args.deep_view() =~= Seq::<Seq<char>>::empty());
            assert(entry.env.deep_view() =~= Seq::<(Seq<char>, Seq<char>)>::empty());
            entry
        },
    }
}

/// Sets the disabled flag of the server `name` in the configuration.
/// `details` is the tool's description of the server, `None` where it gave
/// none; it is read only where the configuration has no entry of that name.
pub fn toggle_disabled(
    config: &mut MCPProjectConfig,
    name: &str,
    disabled: bool,
    details: Option<&str>,
)
    ensures
        final(config)@ == toggled(old(config)@, name@, disabled, details.deep_view()),
{
    match config.position(name) {
        Some(i) => {
            let ghost before = config@;
            let mut pair = config.mcp_servers.remove(i);
            assert(pair.0@ == before[i as int].0 && pair.1@ == before[i as int].1);
            pair.1.disabled = disabled;
            config.mcp_servers.insert(i, pair);
            assert(config@ =~= toggled(before, name@, disabled, details.deep_view()));
        },
        None => {
            let ghost before = config@;
            let entry = new_entry(details, disabled);
            config.mcp_servers.push((name.to_string(), entry));
            assert(config@ =~= toggled(before, name@, disabled, details.deep_view()));
        },
    }
}

/// The message that reports the new state of the server `name`.
pub fn toggle_message(name: &str, disabled: bool) -> (m: String)
    ensures
        m@ == toggle_report(name@, disabled),
{
    let head = concat_text("Server '", name);
    let middle = concat_text(head.as_str(), "' has been ");
    if disabled {
        concat_text(middle.as_str(), "disabled")
    } else {
        concat_text(middle.as_str(), "enabled")
    }
}

/// A toggle leaves every other entry as it was, keeps the names and their
/// order, and adds at most one entry.
pub proof fn lemma_toggle_touches_one(
    config: Seq<(Seq<char>, EntryView)>,
    name: Seq<char>,
    disabled: bool,
    details: Option<Seq<char>>,
)
    ensures
        ({
            let after = toggled(config, name, disabled, details);
            &&& has_key(after, name)
            &&& key_index(after, name) == key_index(config, name)
            &&& after[key_index(after, name) as int].1.disabled == disabled
            &&& after.len() == if has_key(config, name) {
                config.len()
            } else {
                config.len() + 1
            }
            &&& forall|k: int|
                0 <= k < config.len() && k != key_index(config, name) ==> after[k] == config[k]
            &&& has_key(config, name) ==> after[key_index(config, name) as int] == (
                name,
                EntryView { disabled, ..config[key_index(config, name) as int].1 },
            )
        }),
{
    let after = toggled(config, name, disabled, details);
    lemma_key_index(config, name);
    lemma_key_index(after, name);
    let i = key_index(config, name) as int;
    assert(after[i].0 == name);
    assert forall|k: int| 0 <= k < i implies after[k].0 != name by {
        assert(after[k] == config[k]);
    }
    if key_index(after, name) < i {
        assert(after[key_index(after, name) as int].0 == name);
    }
}

/// A toggle keeps a well-formed configuration well-formed: no name comes to
/// stand twice.
pub proof fn lemma_toggle_keeps_wf(
    config: Seq<(Seq<char>, EntryView)>,
    name: Seq<char>,
    disabled: bool,
    details: Option<Seq<char>>,
)
    requires
        config_wf(config),
    ensures
        config_wf(toggled(config, name, disabled, details)),
{
    let after = toggled(config, name, disabled, details);
    lemma_key_index(config, name);
    assert forall|i: int, j: int| 0 <= i < j < after.len() implies after[i].0 != after[j].0 by {
        if has_key(config, name) {
            assert(after[i].0 == config[i].0);
            assert(after[j].0 == config[j].0);
        } else if j < config.len() {
            assert(after[i] == config[i]);
            assert(after[j] == config[j]);
        } else {
            assert(after[i] == config[i]);
            assert(config[i].0 != name);
        }
    }
    assert forall|i: int| 0 <= i < after.len() implies keys_distinct(
        #[trigger] after[i].1.env,
    ) by {
        if i < config.len() {
            assert(after[i].1.env == config[i].1.env);
        }
    }
}

/// Toggling again to the same value changes nothing more.
pub proof fn lemma_toggle_idempotent(
    config: Seq<(Seq<char>, EntryView)>,
    name: Seq<char>,
    disabled: bool,
    first: Option<Seq<char>>,
    second: Option<Seq<char>>,
)
    ensures
        toggled(toggled(config, name, disabled, first), name, disabled, second) == toggled(
            config,
            name,
            disabled,
            first,
        ),
{
    lemma_toggle_touches_one(config, name, disabled, first);
    let once = toggled(config, name, disabled, first);
    let twice = toggled(once, name, disabled, second);
    assert(twice =~= once);
}

/// Disabling and then enabling a server on a fresh configuration leaves
/// exactly one entry, that of the server, enabled; apart from the flag it is
/// the entry that the first toggle made.
pub proof fn lemma_toggle_round_trip(
    name: Seq<char>,
    first: Option<Seq<char>>,
    second: Option<Seq<char>>,
)
    ensures
        toggled(toggled(Seq::empty(), name, true, first), name, false, second) == seq![
            (name, entry_from_details(first, false)),
        ],
{
    let fresh = Seq::<(Seq<char>, EntryView)>::empty();
    let once = toggled(fresh, name, true, first);
    assert(once =~= seq![(name, entry_from_details(first, true))]);
    assert(key_index(once, name) == 0);
    let twice = toggled(once, name, false, second);
    assert(twice =~= seq![(name, entry_from_details(first, false))]);
}

} // verus!
