//! The detail-output parser: from the tool's description of one server, a
//! block of `Key: value` lines, to a full server record.

use crate::model::{
    disabled_in, EntryView, MCPProjectConfig, MCPServer, ServerStatus, ServerView, StatusView,
};
use crate::text::{
    chars_of, contains, contains_text, copy_range, lines, lowercase, split_lines,
    split_words_range, starts_with, string_of_range, to_lowercase, trim, trim_range, words,
};
use vstd::prelude::*;

verus! {

/// What the lines read so far say of a server.
pub ghost struct Details {
    pub scope: Seq<char>,
    pub transport: Seq<char>,
    pub command: Option<Seq<char>>,
    pub args: Seq<Seq<char>>,
    pub url: Option<Seq<char>>,
}

/// What is assumed of a server before any line is read: scope `local`,
/// transport `stdio`, nothing else.
pub open spec fn default_details() -> Details {
    Details {
        scope: "local"@,
        transport: "stdio"@,
        command: None,
        args: Seq::empty(),
        url: None,
    }
}

/// The scope that a `Scope:` value names, given in lowercase: `local`,
/// `project` or `user` (also for `global`), by the first of these words that
/// it holds, in this order; `current` where it holds none.
pub open spec fn scope_named(lowered: Seq<char>, current: Seq<char>) -> Seq<char> {
    if contains_text(lowered, "local"@) {
        "local"@
    } else if contains_text(lowered, "project"@) {
        "project"@
    } else if contains_text(lowered, "user"@) || contains_text(lowered, "global"@) {
        "user"@
    } else {
        current
    }
}

/// The value of a line that begins with `prefix`: what follows the prefix,
/// trimmed.
pub open spec fn field_value(line: Seq<char>, prefix: Seq<char>) -> Seq<char> {
    trim(line.subrange(prefix.len() as int, line.len() as int))
}

/// The details after one more line. The line is trimmed first; it counts
/// where it begins with `Scope:`, `Type:`, `Command:`, `Args:` or `URL:`,
/// and is ignored otherwise.
pub open spec fn read_line(d: Details, raw: Seq<char>) -> Details {
    let line = trim(raw);
    if "Scope:"@.is_prefix_of(line) {
        Details { scope: scope_named(lowercase(field_value(line, "Scope:"@)), d.scope), ..d }
    } else if "Type:"@.is_prefix_of(line) {
        Details { transport: field_value(line, "Type:"@), ..d }
    } else if "Command:"@.is_prefix_of(line) {
        Details { command: Some(field_value(line, "Command:"@)), ..d }
    } else if "Args:"@.is_prefix_of(line) {
        if field_value(line, "Args:"@).len() > 0 {
            Details { args: words(field_value(line, "Args:"@)), ..d }
        } else {
            d
        }
    } else if "URL:"@.is_prefix_of(line) {
        Details { url: Some(field_value(line, "URL:"@)), ..d }
    } else {
        d
    }
}

/// The details after the lines `rows`, read in order.
pub open spec fn read_lines(d: Details, rows: Seq<Seq<char>>) -> Details
    decreases rows.len(),
{
    if rows.len() == 0 {
        d
    } else {
        read_lines(read_line(d, rows[0]), rows.drop_first())
    }
}

/// The record of the server `name` that the description `output` gives,
/// against the sidecar configuration `config`.
pub open spec fn described_server(
    name: Seq<char>,
    output: Seq<char>,
    config: Seq<(Seq<char>, EntryView)>,
) -> ServerView {
    let d = read_lines(default_details(), lines(output));
    ServerView {
        name,
        transport: d.transport,
        command: d.command,
        args: d.args,
        env: Seq::empty(),
        url: d.url,
        scope: d.scope,
        is_active: false,
        disabled: disabled_in(config, name),
        status: StatusView { running: false, error: None, last_checked: None },
    }
}

/// The scope that a `Scope:` value names. `lowered` is the value in
/// lowercase; `current` is kept where the value names no scope.
pub fn scope_for(lowered: &str, current: String) -> (scope: String)
    ensures
        scope@ == scope_named(lowered@, current@),
{
    let text = chars_of(lowered);
    if contains(&text, &chars_of("local")) {
        "local".to_string()
    } else if contains(&text, &chars_of("project")) {
        "project".to_string()
    } else if contains(&text, &chars_of("user")) || contains(&text, &chars_of("global")) {
        "user".to_string()
    } else {
        current
    }
}

/// What the tool's description of a server says of it.
pub struct ServerDetails {
    pub scope: String,
    pub transport: String,
    pub command: Option<String>,
    pub args: Vec<String>,
    pub url: Option<String>,
}

impl View for ServerDetails {
    type V = Details;

    open spec fn view(&self) -> Details {
        Details {
            scope: self.scope@,
            transport: self.transport@,
            command: self.command.deep_view(),
            args: self.args.deep_view(),
            url: self.url.deep_view(),
        }
    }
}

/// The value of the trimmed line `row[from..to]`, which begins with a prefix
/// of `prefix_len` characters.
fn value_range(row: &Vec<char>, from: usize, to: usize, prefix_len: usize) -> (r: (usize, usize))
    requires
        from <= to <= row.len(),
        prefix_len <= to - from,
    ensures
        from <= r.0 <= r.1 <= to,
        row@.subrange(r.0 as int, r.1 as int) == trim(
            row@.subrange(from as int, to as int).subrange(prefix_len as int, to - from),
        ),
{
    assert(row@.subrange(from as int, to as int).subrange(prefix_len as int, to - from)
        == row@.subrange(from + prefix_len, to as int));
    trim_range(row, from + prefix_len, to)
}

/// Reads one line of the description into `details`.
fn read_row(details: ServerDetails, row: &Vec<char>) -> (r: ServerDetails)
    ensures
        r@ == read_line(details@, row@),
{
    let (from, to) = trim_range(row, 0, row.len());
    assert(row@.subrange(0, row@.len() as int) == row@);
    let line = copy_range(row, from, to);
    let n = line.len();
    let ghost whole = line@;
    assert(whole.subrange(0, n as int) == whole);
    let mut details = details;
    if starts_with(&line, &chars_of("Scope:")) {
        let (a, b) = value_range(&line, 0, n, chars_of("Scope:").len());
        let value = string_of_range(&line, a, b);
        let lowered = to_lowercase(value.as_str());
        details.scope = scope_for(lowered.as_str(), details.scope);
    } else if starts_with(&line, &chars_of("Type:")) {
        let (a, b) = value_range(&line, 0, n, chars_of("Type:").len());
        details.transport = string_of_range(&line, a, b);
    } else if starts_with(&line, &chars_of("Command:")) {
        let (a, b) = value_range(&line, 0, n, chars_of("Command:").len());
        details.command = Some(string_of_range(&line, a, b));
    } else if starts_with(&line, &chars_of("Args:")) {
        let (a, b) = value_range(&line, 0, n, chars_of("Args:").len());
        if a < b {
            details.args = split_words_range(&line, a, b);
        }
    } else if starts_with(&line, &chars_of("URL:")) {
        let (a, b) = value_range(&line, 0, n, chars_of("URL:").len());
        details.url = Some(string_of_range(&line, a, b));
    }
    details
}

/// Reads the tool's description of a server.
pub fn read_details(output: &str) -> (details: ServerDetails)
    ensures
        details@ == read_lines(default_details(), lines(output@)),
{
    let rows = split_lines(&chars_of(output));
    let ghost all = rows.deep_view();
    let mut details = ServerDetails {
        scope: "local".to_string(),
        transport: "stdio".to_string(),
        command: None,
        args: Vec::new(),
        url: None,
    };
    assert(details.args.deep_view() =~= Seq::<Seq<char>>::empty());
    let n = rows.len();
    let mut i: usize = 0;
    assert(all.subrange(0, n as int) == all);
    while i < n
        invariant
            n == rows.len(),
            i <= n,
            all == rows.deep_view(),
            all.len() == n,
            read_lines(default_details(), all) == read_lines(
                details@,
                all.subrange(i as int, n as int),
            ),
        decreases n - i,
    {
        let ghost rest = all.subrange(i as int, n as int);
        assert(rest[0] == rows[i as int]@);
        assert(rest.drop_first() == all.subrange(i + 1, n as int));
        details = read_row(details, &rows[i]);
        i += 1;
    }
    details
}

/// Parses the tool's description of the server `name` into its record,
/// reading the disabled flag from `config`.
pub fn parse_server_details(name: String, output: &str, config: &MCPProjectConfig) -> (server:
    MCPServer)
    ensures
        server@ == described_server(name@, output@, config@),
{
    let details = read_details(output);
    let disabled = config.is_disabled(name.as_str());
    let server = MCPServer {
        name,
        transport: details.transport,
        command: details.command,
        args: details.args,
        env: Vec::new(),
        url: details.url,
        scope: details.scope,
        is_active: false,
        disabled,
        status: ServerStatus::unknown(),
    };
    assert(server.env.deep_view() =~= Seq::<(Seq<char>, Seq<char>)>::empty());
    server
}

} // verus!
