//! The records of the registry and their mathematical views.

use vstd::prelude::*;

verus! {

/// Advisory status of a server; never authoritative.
#[derive(Debug, Clone, PartialEq, Eq)]
pub struct ServerStatus {
    /// Whether the server is running.
    pub running: bool,
    /// The last error message, if any.
    pub error: Option<String>,
    /// When the status was last checked.
    pub last_checked: Option<u64>,
}

/// One registered MCP server, as reported to callers.
#[derive(Debug, Clone, PartialEq, Eq)]
pub struct MCPServer {
    /// The server's name, its key in the registry.
    pub name: String,
    /// The transport: `stdio` or `sse`.
    pub transport: String,
    /// The command to run (stdio).
    pub command: Option<String>,
    /// The command's arguments (stdio).
    pub args: Vec<String>,
    /// Environment variables, each name once.
    pub env: Vec<(String, String)>,
    /// The endpoint (sse).
    pub url: Option<String>,
    /// The scope: `local`, `project` or `user`.
    pub scope: String,
    /// Whether the server is currently active.
    pub is_active: bool,
    /// Whether the server is disabled in the project's sidecar file.
    pub disabled: bool,
    /// The server's status.
    pub status: ServerStatus,
}

/// One server's entry in the sidecar file.
#[derive(Debug, Clone, PartialEq, Eq)]
pub struct MCPServerConfig {
    pub command: String,
    pub args: Vec<String>,
    /// Environment variables, each name once.
    pub env: Vec<(String, String)>,
    /// Whether the server is disabled.
    pub disabled: bool,
}

/// The content of the sidecar file: the entries by server name, each name
/// once, in the order of the file.
#[derive(Debug, Clone, PartialEq, Eq)]
pub struct MCPProjectConfig {
    pub mcp_servers: Vec<(String, MCPServerConfig)>,
}

/// The outcome of adding a server.
#[derive(Debug, Clone, PartialEq, Eq)]
pub struct AddServerResult {
    pub success: bool,
    pub message: String,
    pub server_name: Option<String>,
}

/// The outcome of importing one server.
#[derive(Debug, Clone, PartialEq, Eq)]
pub struct ImportServerResult {
    pub name: String,
    pub success: bool,
    pub error: Option<String>,
}

/// The outcome of an import of several servers.
#[derive(Debug, Clone, PartialEq, Eq)]
pub struct ImportResult {
    pub imported_count: u32,
    pub failed_count: u32,
    /// One outcome per server, in the order of the input.
    pub servers: Vec<ImportServerResult>,
}

pub ghost struct StatusView {
    pub running: bool,
    pub error: Option<Seq<char>>,
    pub last_checked: Option<u64>,
}

pub ghost struct ServerView {
    pub name: Seq<char>,
    pub transport: Seq<char>,
    pub command: Option<Seq<char>>,
    pub args: Seq<Seq<char>>,
    pub env: Seq<(Seq<char>, Seq<char>)>,
    pub url: Option<Seq<char>>,
    pub scope: Seq<char>,
    pub is_active: bool,
    pub disabled: bool,
    pub status: StatusView,
}

pub ghost struct EntryView {
    pub command: Seq<char>,
    pub args: Seq<Seq<char>>,
    pub env: Seq<(Seq<char>, Seq<char>)>,
    pub disabled: bool,
}

pub ghost struct AddView {
    pub success: bool,
    pub message: Seq<char>,
    pub server_name: Option<Seq<char>>,
}

pub ghost struct OutcomeView {
    pub name: Seq<char>,
    pub success: bool,
    pub error: Option<Seq<char>>,
}

pub ghost struct ImportView {
    pub imported_count: nat,
    pub failed_count: nat,
    pub servers: Seq<OutcomeView>,
}

impl DeepView for ServerStatus {
    type V = StatusView;

    open spec fn deep_view(&self) -> StatusView {
        StatusView {
            running: self.running,
            error: self.error.deep_view(),
            last_checked: self.last_checked,
        }
    }
}

impl View for ServerStatus {
    type V = StatusView;

    open spec fn view(&self) -> StatusView {
        self.deep_view()
    }
}

impl DeepView for MCPServer {
    type V = ServerView;

    open spec fn deep_view(&self) -> ServerView {
        ServerView {
            name: self.name@,
            transport: self.transport@,
            command: self.command.deep_view(),
            args: self.args.deep_view(),
            env: self.env.deep_view(),
            url: self.url.deep_view(),
            scope: self.scope@,
            is_active: self.is_active,
            disabled: self.disabled,
            status: self.status@,
        }
    }
}

impl View for MCPServer {
    type V = ServerView;

    open spec fn view(&self) -> ServerView {
        self.deep_view()
    }
}

impl DeepView for MCPServerConfig {
    type V = EntryView;

    open spec fn deep_view(&self) -> EntryView {
        EntryView {
            command: self.command@,
            args: self.args.deep_view(),
            env: self.env.deep_view(),
            disabled: self.disabled,
        }
    }
}

impl View for MCPServerConfig {
    type V = EntryView;

    open spec fn view(&self) -> EntryView {
        self.deep_view()
    }
}

impl DeepView for MCPProjectConfig {
    type V = Seq<(Seq<char>, EntryView)>;

    open spec fn deep_view(&self) -> Seq<(Seq<char>, EntryView)> {
        self.mcp_servers.deep_view()
    }
}

impl View for MCPProjectConfig {
    type V = Seq<(Seq<char>, EntryView)>;

    open spec fn view(&self) -> Seq<(Seq<char>, EntryView)> {
        self.deep_view()
    }
}

impl DeepView for AddServerResult {
    type V = AddView;

    open spec fn deep_view(&self) -> AddView {
        AddView {
            success: self.success,
            message: self.message@,
            server_name: self.server_name.deep_view(),
        }
    }
}

impl View for AddServerResult {
    type V = AddView;

    open spec fn view(&self) -> AddView {
        self.deep_view()
    }
}

impl DeepView for ImportServerResult {
    type V = OutcomeView;

    open spec fn deep_view(&self) -> OutcomeView {
        OutcomeView { name: self.name@, success: self.success, error: self.error.deep_view() }
    }
}

impl View for ImportServerResult {
    type V = OutcomeView;

    open spec fn view(&self) -> OutcomeView {
        self.deep_view()
    }
}

impl DeepView for ImportResult {
    type V = ImportView;

    open spec fn deep_view(&self) -> ImportView {
        ImportView {
            imported_count: self.imported_count as nat,
            failed_count: self.failed_count as nat,
            servers: self.servers.deep_view(),
        }
    }
}

impl View for ImportResult {
    type V = ImportView;

    open spec fn view(&self) -> ImportView {
        self.deep_view()
    }
}

/// Whether no key occurs twice among `pairs`.
pub open spec fn keys_distinct<V>(pairs: Seq<(Seq<char>, V)>) -> bool {
    forall|i: int, j: int| 0 <= i < j < pairs.len() ==> pairs[i].0 != pairs[j].0
}

/// The index of the first pair of `pairs` with key `key`, or the length of
/// `pairs` where there is none.
pub open spec fn key_index<V>(pairs: Seq<(Seq<char>, V)>, key: Seq<char>) -> nat
    decreases pairs.len(),
{
    if pairs.len() == 0 || pairs[0].0 == key {
        0
    } else {
        1 + key_index(pairs.drop_first(), key)
    }
}

/// Whether some pair of `pairs` has key `key`.
pub open spec fn has_key<V>(pairs: Seq<(Seq<char>, V)>, key: Seq<char>) -> bool {
    key_index(pairs, key) < pairs.len()
}

/// `key_index` stays within the pairs, stops at a pair with the key, and
/// passes over none.
pub proof fn lemma_key_index<V>(pairs: Seq<(Seq<char>, V)>, key: Seq<char>)
    ensures
        key_index(pairs, key) <= pairs.len(),
        has_key(pairs, key) ==> pairs[key_index(pairs, key) as int].0 == key,
        forall|k: int| 0 <= k < key_index(pairs, key) ==> pairs[k].0 != key,
        has_key(pairs, key) <==> exists|k: int| 0 <= k < pairs.len() && pairs[k].0 == key,
    decreases pairs.len(),
{
    if pairs.len() == 0 || pairs[0].0 == key {
        if pairs.len() > 0 {
            assert(pairs[0].0 == key);
        }
    } else {
        let t = pairs.drop_first();
        lemma_key_index(t, key);
        assert forall|k: int| 0 <= k < key_index(pairs, key) implies pairs[k].0 != key by {
            if k > 0 {
                assert(pairs[k] == t[k - 1]);
            }
        }
        if has_key(t, key) {
            assert(pairs[key_index(pairs, key) as int] == t[key_index(t, key) as int]);
        }
        if exists|k: int| 0 <= k < pairs.len() && pairs[k].0 == key {
            let k = choose|k: int| 0 <= k < pairs.len() && pairs[k].0 == key;
            assert(t[k - 1].0 == key);
        }
    }
}

/// Whether no key occurs twice among `pairs`.
pub fn distinct_keys<T: DeepView>(pairs: &Vec<(String, T)>) -> (b: bool)
    ensures
        b == keys_distinct(pairs.deep_view()),
{
    let ghost all = pairs.deep_view();
    let n = pairs.len();
    let mut j: usize = 0;
    while j < n
        invariant
            n == pairs.len(),
            j <= n,
            all == pairs.deep_view(),
            forall|a: int, b: int| 0 <= a < b < j ==> all[a].0 != all[b].0,
        decreases n - j,
    {
        let mut i: usize = 0;
        while i < j
            invariant
                n == pairs.len(),
                i <= j < n,
                all == pairs.deep_view(),
                forall|a: int| 0 <= a < i ==> all[a].0 != all[j as int].0,
            decreases j - i,
        {
            assert(all[i as int].0 == pairs[i as int].0@);
            assert(all[j as int].0 == pairs[j as int].0@);
            if pairs[i].0 == pairs[j].0 {
                return false;
            }
            i += 1;
        }
        j += 1;
    }
    true
}

impl ServerStatus {
    /// The status of a server of which nothing is known.
    pub fn unknown() -> (s: ServerStatus)
        ensures
            s@ == (StatusView { running: false, error: None, last_checked: None }),
    {
        ServerStatus { running: false, error: None, last_checked: None }
    }
}

impl MCPProjectConfig {
    /// Whether each server name occurs once, and each entry names each
    /// environment variable once.
    pub open spec fn wf(&self) -> bool {
        config_wf(self@)
    }

    /// The configuration without entries.
    pub fn empty() -> (c: MCPProjectConfig)
        ensures
            c@ == Seq::<(Seq<char>, EntryView)>::empty(),
            c.wf(),
    {
        let c = MCPProjectConfig { mcp_servers: Vec::new() };
        assert(c@ =~= Seq::<(Seq<char>, EntryView)>::empty());
        c
    }

    /// The position of the entry of `name`, if there is one.
    pub fn position(&self, name: &str) -> (r: Option<usize>)
        ensures
            r is Some <==> has_key(self@, name@),
            r matches Some(i) ==> i == key_index(self@, name@) && i < self.mcp_servers.len(),
    {
        let target = name.to_string();
        let mut i: usize = 0;
        let n = self.mcp_servers.len();
        assert(self@.subrange(0, n as int) == self@);
        while i < n
            invariant
                n == self.mcp_servers.len(),
                i <= n,
                target@ == name@,
                key_index(self@, name@) == i + key_index(self@.subrange(i as int, n as int), name@),
            decreases n - i,
        {
            let ghost rest = self@.subrange(i as int, n as int);
            assert(rest[0] == self@[i as int]);
            assert(self@[i as int].0 == self.mcp_servers[i as int].0@);
            if self.mcp_servers[i].0 == target {
                return Some(i);
            }
            assert(rest.drop_first() == self@.subrange(i + 1, n as int));
            i += 1;
        }
        None
    }

    /// Whether the sidecar file marks `name` as disabled: the flag of its
    /// entry, `false` where it has none.
    pub fn is_disabled(&self, name: &str) -> (b: bool)
        ensures
            b == disabled_in(self@, name@),
    {
        match self.position(name) {
            Some(i) => {
                assert(self@[i as int].1 == self.mcp_servers[i as int].1@);
                self.mcp_servers[i].1.disabled
            },
            None => false,
        }
    }
}

/// Whether each server name occurs once in `config`, and each entry names
/// each environment variable once.
pub open spec fn config_wf(config: Seq<(Seq<char>, EntryView)>) -> bool {
    &&& keys_distinct(config)
    &&& forall|i: int| 0 <= i < config.len() ==> keys_distinct(#[trigger] config[i].1.env)
}

/// The disabled flag that `config` holds for `name`; `false` where it holds
/// no entry of that name.
pub open spec fn disabled_in(config: Seq<(Seq<char>, EntryView)>, name: Seq<char>) -> bool {
    has_key(config, name) && config[key_index(config, name) as int].1.disabled
}

} // verus!
