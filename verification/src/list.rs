//! The list-output parser: from the tool's free-text listing to server
//! stubs.
//!
//! A line starts a record when it holds a colon and the text before its
//! first colon, trimmed, is not empty and holds neither `/` nor `\`. The text
//! after that colon, trimmed, begins the record's command; each following
//! line that starts no record is appended to it after a single space. Lines
//! before the first record are noise.

use crate::model::{
    disabled_in, EntryView, MCPProjectConfig, MCPServer, ServerStatus, ServerView, StatusView,
};
use crate::text::{
    append_chars, chars_of, contains, contains_text, copy_range, find_char, first_index, join,
    lemma_first_index, lines, range_contains, split_lines, string_of, string_of_range, trim,
    trim_range, trimmed,
};
use vstd::prelude::*;

verus! {

/// The name that `line` gives, if it starts a record: the text before its
/// first colon, trimmed.
pub open spec fn record_name(line: Seq<char>) -> Seq<char> {
    trim(line.subrange(0, first_index(line, ':') as int))
}

/// Whether `line` starts a record.
pub open spec fn is_record_start(line: Seq<char>) -> bool {
    &&& line.contains(':')
    &&& record_name(line).len() > 0
    &&& !record_name(line).contains('/')
    &&& !record_name(line).contains('\\')
}

/// The first fragment of the command of the record that `line` starts: the
/// text after its first colon, trimmed.
pub open spec fn first_fragment(line: Seq<char>) -> Seq<char> {
    trim(line.subrange(first_index(line, ':') as int + 1, line.len() as int))
}

/// The number of lines at the start of `lines` that start no record.
pub open spec fn continuation_len(lines: Seq<Seq<char>>) -> nat
    decreases lines.len(),
{
    if lines.len() > 0 && !is_record_start(lines[0]) {
        1 + continuation_len(lines.drop_first())
    } else {
        0
    }
}

/// The continuation lines are those up to the next line that starts a
/// record.
pub proof fn lemma_continuation_len(lines: Seq<Seq<char>>)
    ensures
        continuation_len(lines) <= lines.len(),
        forall|k: int| 0 <= k < continuation_len(lines) ==> !is_record_start(lines[k]),
        continuation_len(lines) < lines.len() ==> is_record_start(
            lines[continuation_len(lines) as int],
        ),
    decreases lines.len(),
{
    if lines.len() > 0 && !is_record_start(lines[0]) {
        let t = lines.drop_first();
        lemma_continuation_len(t);
        assert forall|k: int| 0 <= k < continuation_len(lines) implies !is_record_start(
            lines[k],
        ) by {
            if k > 0 {
                assert(lines[k] == t[k - 1]);
            }
        }
        if continuation_len(lines) < lines.len() {
            assert(lines[continuation_len(lines) as int] == t[continuation_len(t) as int]);
        }
    }
}

/// A record of the listing: a server's name and its folded command.
pub ghost struct Record {
    pub name: Seq<char>,
    pub command: Seq<char>,
}

/// The command of the record that `start` begins and `more` continues: the
/// fragments joined by single spaces, in their order.
pub open spec fn folded_command(start: Seq<char>, more: Seq<Seq<char>>) -> Seq<char> {
    join(seq![first_fragment(start)] + more, seq![' '])
}

/// The records of a listing, given by its lines.
pub open spec fn records(lines: Seq<Seq<char>>) -> Seq<Record>
    decreases lines.len(),
{
    if lines.len() == 0 {
        Seq::empty()
    } else if !is_record_start(lines[0]) {
        records(lines.drop_first())
    } else {
        let n = continuation_len(lines.drop_first()) as int;
        proof {
            lemma_continuation_len(lines.drop_first());
        }
        seq![
            Record {
                name: record_name(lines[0]),
                command: folded_command(lines[0], lines.subrange(1, 1 + n)),
            },
        ] + records(lines.subrange(1 + n, lines.len() as int))
    }
}

/// The phrase by which the tool says that it knows no server.
pub open spec fn no_servers_phrase() -> Seq<char> {
    "No MCP servers configured"@
}

/// The stub that a listing gives for a server: transport `stdio`, scope
/// `local`, the folded command, nothing else known.
pub open spec fn server_stub(name: Seq<char>, command: Seq<char>, disabled: bool) -> ServerView {
    ServerView {
        name,
        transport: "stdio"@,
        command: Some(command),
        args: Seq::empty(),
        env: Seq::empty(),
        url: None,
        scope: "local"@,
        is_active: false,
        disabled,
        status: StatusView { running: false, error: None, last_checked: None },
    }
}

/// The stubs of `records`, each with the disabled flag that `config` holds
/// for its name.
pub open spec fn stubs(records: Seq<Record>, config: Seq<(Seq<char>, EntryView)>) -> Seq<
    ServerView,
> {
    Seq::new(
        records.len(),
        |i: int|
            server_stub(
                records[i].name,
                records[i].command,
                disabled_in(config, records[i].name),
            ),
    )
}

/// The servers that the listing `output` reports, against the sidecar
/// configuration `config`: none where the trimmed text is empty or holds the
/// phrase for "no servers", else one stub for each record, in order.
pub open spec fn listed_servers(output: Seq<char>, config: Seq<(Seq<char>, EntryView)>) -> Seq<
    ServerView,
> {
    let t = trim(output);
    if t.len() == 0 || contains_text(t, no_servers_phrase()) {
        Seq::empty()
    } else {
        stubs(records(lines(t)), config)
    }
}

/// Where the record that `line` starts has its colon and its name, if it
/// starts one: `(colon, name_from, name_to)`.
fn record_start(line: &Vec<char>) -> (r: Option<(usize, usize, usize)>)
    ensures
        r is Some <==> is_record_start(line@),
        r matches Some((colon, a, b)) ==> {
            &&& colon == first_index(line@, ':')
            &&& a <= b <= colon < line.len()
            &&& line@.subrange(a as int, b as int) == record_name(line@)
        },
{
    let n = line.len();
    let colon = find_char(line, 0, n, ':');
    proof {
        assert(line@.subrange(0, n as int) == line@);
        lemma_first_index(line@, ':');
    }
    if colon >= n {
        return None;
    }
    let (a, b) = trim_range(line, 0, colon);
    if a >= b {
        return None;
    }
    if range_contains(line, a, b, '/') || range_contains(line, a, b, '\\') {
        return None;
    }
    Some((colon, a, b))
}

/// Parses the text of the tool's listing into server stubs, reading each
/// server's disabled flag from `config`.
pub fn parse_server_list(output: &str, config: &MCPProjectConfig) -> (servers: Vec<MCPServer>)
    ensures
        servers.deep_view() == listed_servers(output@, config@),
{
    let raw = chars_of(output);
    let text = trimmed(&raw);
    let phrase = chars_of("No MCP servers configured");
    if text.len() == 0 || contains(&text, &phrase) {
        return Vec::new();
    }
    let rows = split_lines(&text);
    let ghost all = rows.deep_view();
    let mut servers: Vec<MCPServer> = Vec::new();
    let mut i: usize = 0;
    let n = rows.len();
    assert(all.subrange(0, n as int) == all);
    while i < n
        invariant
            n == rows.len(),
            i <= n,
            all == rows.deep_view(),
            all.len() == n,
            stubs(records(all), config@) == servers.deep_view() + stubs(
                records(all.subrange(i as int, n as int)),
                config@,
            ),
        decreases n - i,
    {
        let ghost rest = all.subrange(i as int, n as int);
        let ghost before = servers.deep_view();
        assert(rest[0] == rows[i as int]@);
        match record_start(&rows[i]) {
            None => {
                assert(rest.drop_first() == all.subrange(i + 1, n as int));
                i += 1;
            },
            Some((colon, a, b)) => {
                let line = &rows[i];
                let name = string_of_range(line, a, b);
                let (fa, fb) = trim_range(line, colon + 1, line.len());
                let mut command = copy_range(line, fa, fb);
                let ghost start = line@;
                let ghost first = i as int;
                i += 1;
                proof {
                    lemma_continuation_len(rest.drop_first());
                    assert(rest.drop_first() == all.subrange(i as int, n as int));
                    assert(seq![first_fragment(start)] + all.subrange(first + 1, i as int)
                        =~= seq![first_fragment(start)]);
                }
                while i < n && record_start(&rows[i]).is_none()
                    invariant
                        n == rows.len(),
                        0 <= first < i <= n,
                        all == rows.deep_view(),
                        all.len() == n,
                        rest == all.subrange(first, n as int),
                        continuation_len(rest.drop_first()) == (i - first - 1) + continuation_len(
                            all.subrange(i as int, n as int),
                        ),
                        command@ == folded_command(start, all.subrange(first + 1, i as int)),
                    decreases n - i,
                {
                    let ghost tail = all.subrange(i as int, n as int);
                    let ghost parts = seq![first_fragment(start)] + all.subrange(
                        first + 1,
                        i as int,
                    );
                    assert(tail[0] == rows[i as int]@);
                    assert(tail.drop_first() == all.subrange(i + 1, n as int));
                    command.push(' ');
                    append_chars(&mut command, &rows[i]);
                    i += 1;
                    proof {
                        let grown = seq![first_fragment(start)] + all.subrange(
                            first + 1,
                            i as int,
                        );
                        assert(grown.drop_last() =~= parts);
                        assert(grown.last() == rows[i - 1]@);
                        assert(command@ =~= join(parts, seq![' ']) + seq![' '] + rows[i - 1]@);
                    }
                }
                proof {
                    let tail = all.subrange(i as int, n as int);
                    if i < n {
                        assert(tail[0] == rows[i as int]@);
                    }
                    assert(continuation_len(tail) == 0);
                    let k = continuation_len(rest.drop_first()) as int;
                    assert(k == i - first - 1);
                    assert(rest.subrange(1, 1 + k) == all.subrange(first + 1, i as int));
                    assert(rest.subrange(1 + k, rest.len() as int) == tail);
                }
                let disabled = config.is_disabled(name.as_str());
                let server = MCPServer {
                    name,
                    transport: "stdio".to_string(),
                    command: Some(string_of(&command)),
                    args: Vec::new(),
                    env: Vec::new(),
                    url: None,
                    scope: "local".to_string(),
                    is_active: false,
                    disabled,
                    status: ServerStatus::unknown(),
                };
                proof {
                    let rec = Record {
                        name: record_name(start),
                        command: folded_command(start, all.subrange(first + 1, i as int)),
                    };
                    assert(server.args.deep_view() =~= Seq::<Seq<char>>::empty());
                    assert(server.env.deep_view() =~= Seq::<(Seq<char>, Seq<char>)>::empty());
                    assert(server@ == server_stub(
                        rec.name,
                        rec.command,
                        disabled_in(config@, rec.name),
                    ));
                    let later = records(all.subrange(i as int, n as int));
                    assert(records(rest) == seq![rec] + later);
                    assert(stubs(records(rest), config@) =~= seq![server@] + stubs(
                        later,
                        config@,
                    ));
                }
                servers.push(server);
                assert(servers.deep_view() =~= before + seq![server@]);
            },
        }
    }
    proof {
        assert(all.subrange(n as int, n as int) =~= Seq::<Seq<char>>::empty());
        assert(stubs(records(Seq::<Seq<char>>::empty()), config@) =~= Seq::<ServerView>::empty());
    }
    servers
}

/// Folding a command across its continuation lines yields one record whose
/// command is its fragments joined by single spaces, in their order: where
/// the first of `lines` starts a record and no other does, the listing has
/// exactly that record, and its command is the first line's fragment
/// followed by the other lines.
pub proof fn lemma_folding_joins_fragments(lines: Seq<Seq<char>>)
    requires
        lines.len() > 0,
        is_record_start(lines[0]),
        forall|k: int| 1 <= k < lines.len() ==> !is_record_start(lines[k]),
    ensures
        records(lines) == seq![
            Record {
                name: record_name(lines[0]),
                command: join(
                    seq![first_fragment(lines[0])] + lines.subrange(1, lines.len() as int),
                    seq![' '],
                ),
            },
        ],
{
    let rest = lines.drop_first();
    lemma_continuation_len(rest);
    let n = continuation_len(rest) as int;
    if n < rest.len() {
        assert(rest[n] == lines[n + 1]);
    }
    assert(n == rest.len());
    assert(lines.subrange(1 + n, lines.len() as int) =~= Seq::<Seq<char>>::empty());
    assert(records(lines.subrange(1 + n, lines.len() as int)) =~= Seq::<Record>::empty());
}

/// A listing of one server: where the trimmed text is neither empty nor the
/// phrase for "no servers", its first line starts a record and no other line
/// does, the listing reports exactly that server, with the fragments of its
/// command joined by single spaces in their order.
pub proof fn lemma_listing_of_one_server(output: Seq<char>, config: Seq<(Seq<char>, EntryView)>)
    requires
        trim(output).len() > 0,
        !contains_text(trim(output), no_servers_phrase()),
        lines(trim(output)).len() > 0,
        is_record_start(lines(trim(output))[0]),
        forall|k: int|
            1 <= k < lines(trim(output)).len() ==> !is_record_start(lines(trim(output))[k]),
    ensures
        ({
            let rows = lines(trim(output));
            let name = record_name(rows[0]);
            listed_servers(output, config) == seq![
                server_stub(
                    name,
                    join(
                        seq![first_fragment(rows[0])] + rows.subrange(1, rows.len() as int),
                        seq![' '],
                    ),
                    disabled_in(config, name),
                ),
            ]
        }),
{
    let rows = lines(trim(output));
    lemma_folding_joins_fragments(rows);
    let name = record_name(rows[0]);
    let expected = seq![
        server_stub(
            name,
            join(seq![first_fragment(rows[0])] + rows.subrange(1, rows.len() as int), seq![' ']),
            disabled_in(config, name),
        ),
    ];
    assert(stubs(records(rows), config) =~= expected);
}

} // verus!
