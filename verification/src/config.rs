//! The configuration: Jira, Slack, embedding and observability settings, the
//! decisions of the interactive setup, and the MCP servers that follow from it.
use vstd::prelude::*;

use crate::text::{append_chars, join, join_chars, views, owned, chars_of, slice_chars, string_of, trim, trim_chars, trim_end_by,
    trim_end_chars_by, trim_start_by, trim_start_chars_by, Separator};
use crate::unicode::{to_uppercase, uppercase};

verus! {

/// Where traces go when only an API key is configured.
pub const LANGSMITH_ENDPOINT: &'static str = "https://api.smith.langchain.com";

/// The model used for release-build writes when the configuration names none.
pub const DEFAULT_MODEL: &'static str = "sonnet";

/// The whole configuration, stored as JSON in the user's home directory.
pub struct MuellerConfig {
    pub jira: Option<JiraConfig>,
    pub slack: Option<SlackConfig>,
    pub embedding: Option<EmbeddingConfig>,
    pub observability: Option<ObservabilityConfig>,
    pub model: Option<String>,
}

impl Default for MuellerConfig {
    fn default() -> (c: Self)
        ensures
            c.jira is None && c.slack is None && c.embedding is None,
            c.observability is None && c.model is None,
    {
        MuellerConfig { jira: None, slack: None, embedding: None, observability: None, model: None }
    }
}

#[derive(Debug, Clone, Copy, PartialEq, Eq, Structural)]
pub enum EmbeddingProvider {
    Anthropic,
    OpenAI,
    OpenRouter,
}

pub struct EmbeddingConfig {
    pub provider: EmbeddingProvider,
    pub api_key: String,
}

/// The user either wants channel posts or direct messages.
#[derive(Debug, Clone, Copy, PartialEq, Eq, Structural)]
pub enum DeliveryMode {
    Channel,
    DirectMessage,
}

pub struct SlackConfig {
    pub bot_token: String,
    pub team_id: String,
    /// A channel name (e.g. "pm-updates") in Channel mode, or a Slack member
    /// ID (e.g. "U01234ABC") in DirectMessage mode.
    pub destination: String,
    pub delivery_mode: DeliveryMode,
}

pub struct JiraConfig {
    pub url: String,
    pub email: String,
    pub api_token: String,
    pub project_key: String,
}

/// A LangSmith-compatible trace backend.
pub struct ObservabilityConfig {
    pub endpoint: String,
    pub api_key: Option<String>,
    pub project: String,
}

// ── the setup answers ────────────────────────────────────────────────────────

/// The Jira settings from the setup answers: the base URL without trailing
/// slashes, the project key in upper case.
pub fn jira_config(url: &str, email: String, api_token: String, project_key: &str) -> (c: JiraConfig)
    ensures
        c.url@ == trim_end_by(url@, Separator::Char('/')),
        c.email@ == email@,
        c.api_token@ == api_token@,
        c.project_key@ == uppercase(project_key@),
{
    let u = trim_end_chars_by(&chars_of(url), Separator::Char('/'));
    JiraConfig {
        url: string_of(&u),
        email,
        api_token,
        project_key: to_uppercase(project_key),
    }
}

/// The Slack settings from the setup answers: the first delivery option posts
/// to the channel named in the answer (a leading `#` removed); any other
/// sends direct messages to the member ID in the answer.
pub fn slack_config(bot_token: String, team_id: String, delivery_choice: usize, answer: &str) -> (c:
    SlackConfig)
    ensures
        c.bot_token@ == bot_token@,
        c.team_id@ == team_id@,
        delivery_choice == 0 ==> c.delivery_mode == DeliveryMode::Channel && c.destination@
            == trim_start_by(answer@, Separator::Char('#')),
        delivery_choice != 0 ==> c.delivery_mode == DeliveryMode::DirectMessage && c.destination@
            == answer@,
{
    let (destination, delivery_mode) = if delivery_choice == 0 {
        let d = trim_start_chars_by(&chars_of(answer), Separator::Char('#'));
        (string_of(&d), DeliveryMode::Channel)
    } else {
        (string_of(&chars_of(answer)), DeliveryMode::DirectMessage)
    };
    SlackConfig { bot_token, team_id, destination, delivery_mode }
}

/// The embedding provider of a menu choice: Anthropic, OpenAI, OpenRouter,
/// or none for the fourth option (skip).
pub fn embedding_choice(choice: usize) -> (r: Option<EmbeddingProvider>)
    ensures
        choice == 3 ==> r is None,
        choice == 0 ==> r == Some(EmbeddingProvider::Anthropic),
        choice == 1 ==> r == Some(EmbeddingProvider::OpenAI),
        choice != 0 && choice != 1 && choice != 3 ==> r == Some(EmbeddingProvider::OpenRouter),
{
    if choice == 3 {
        return None;
    }
    match choice {
        0 => Some(EmbeddingProvider::Anthropic),
        1 => Some(EmbeddingProvider::OpenAI),
        _ => Some(EmbeddingProvider::OpenRouter),
    }
}

pub open spec fn spec_key_hint(p: EmbeddingProvider) -> Seq<char> {
    match p {
        EmbeddingProvider::Anthropic => "sk-ant-api03-..."@,
        EmbeddingProvider::OpenAI => "sk-..."@,
        EmbeddingProvider::OpenRouter => "sk-or-..."@,
    }
}

/// The shape of an API key of each provider, shown when asking for one.
pub fn key_hint(p: EmbeddingProvider) -> (r: &'static str)
    ensures
        r@ == spec_key_hint(p),
{
    match p {
        EmbeddingProvider::Anthropic => "sk-ant-api03-...",
        EmbeddingProvider::OpenAI => "sk-...",
        EmbeddingProvider::OpenRouter => "sk-or-...",
    }
}

/// Whether the interaction mode chosen in setup relays output to Slack (the
/// second option).
pub fn wants_slack(mode: usize) -> (r: bool)
    ensures
        r == (mode == 1),
{
    mode == 1
}

/// Where the local trace dashboard (`mueller dashboard`) listens.
pub const LOCAL_DASHBOARD_ENDPOINT: &'static str = "http://127.0.0.1:6007";

/// The trace project that setup records.
pub const DEFAULT_PROJECT: &'static str = "mueller";

/// Whether the observability option chosen in setup needs an API key: the
/// second option, LangSmith cloud direct.
pub fn observability_needs_key(choice: usize) -> (r: bool)
    ensures
        r == (choice == 1),
{
    choice == 1
}

/// The trace backend of the observability menu of setup: the first option
/// is the local dashboard, with no key; the second is LangSmith cloud direct,
/// with the key given; any other turns tracing off. Both backends record the
/// project `mueller`.
pub fn observability_choice(choice: usize, api_key: Option<String>) -> (r: Option<ObservabilityConfig>)
    ensures
        choice == 0 ==> (r matches Some(o) && o.endpoint@ == LOCAL_DASHBOARD_ENDPOINT@
            && o.api_key is None && o.project@ == DEFAULT_PROJECT@),
        choice == 1 ==> (r matches Some(o) && o.endpoint@ == LANGSMITH_ENDPOINT@ && o.api_key
            == api_key && o.project@ == DEFAULT_PROJECT@),
        choice != 0 && choice != 1 ==> r is None,
{
    if choice == 0 {
        Some(
            ObservabilityConfig {
                endpoint: owned(LOCAL_DASHBOARD_ENDPOINT),
                api_key: None,
                project: owned(DEFAULT_PROJECT),
            },
        )
    } else if choice == 1 {
        Some(
            ObservabilityConfig {
                endpoint: owned(LANGSMITH_ENDPOINT),
                api_key,
                project: owned(DEFAULT_PROJECT),
            },
        )
    } else {
        None
    }
}

/// The configuration that setup assembles: the Jira settings, the Slack
/// settings only when the mode relays to Slack, the embedding settings and
/// the observability backend.
pub fn run_setup(
    mode: usize,
    jira: JiraConfig,
    slack: Option<SlackConfig>,
    embedding: Option<EmbeddingConfig>,
    observability: Option<ObservabilityConfig>,
) -> (c: MuellerConfig)
    ensures
        c.jira == Some(jira),
        c.slack == (if mode == 1 {
            slack
        } else {
            None
        }),
        c.embedding == embedding,
        c.observability == observability,
        c.model is None,
{
    let slack = if wants_slack(mode) {
        slack
    } else {
        None
    };
    MuellerConfig { jira: Some(jira), slack, embedding, observability, model: None }
}

// ── menu answers ─────────────────────────────────────────────────────────────

pub open spec fn is_digit(c: char) -> bool {
    '0' <= c && c <= '9'
}

/// The number that a string of decimal digits denotes.
pub open spec fn digits_value(s: Seq<char>) -> nat
    decreases s.len(),
{
    if s.len() == 0 {
        0
    } else {
        digits_value(s.drop_last()) * 10 + ((s.last() as int - '0' as int) as nat)
    }
}

/// The text after an optional leading `+`.
pub open spec fn unsigned_part(s: Seq<char>) -> Seq<char> {
    if s.len() > 0 && s[0] == '+' {
        s.skip(1)
    } else {
        s
    }
}

pub open spec fn all_digits(d: Seq<char>) -> bool {
    forall|i: int| 0 <= i < d.len() ==> is_digit(#[trigger] d[i])
}

/// What `str::parse::<usize>` accepts: an optional `+`, then one or more
/// decimal digits denoting a value that fits in a `usize`.
pub open spec fn parsed_usize(s: Seq<char>) -> Option<usize> {
    let d = unsigned_part(s);
    if d.len() > 0 && all_digits(d) && digits_value(d) <= usize::MAX {
        Some(digits_value(d) as usize)
    } else {
        None
    }
}

/// The zero-based index of a menu answer: the trimmed answer as a number
/// between 1 and the number of options.
pub open spec fn menu_index(input: Seq<char>, options: usize) -> Option<usize> {
    match parsed_usize(trim(input)) {
        Some(k) => if 1 <= k && k <= options {
            Some((k - 1) as usize)
        } else {
            None
        },
        None => None,
    }
}

proof fn lemma_digits_monotone(s: Seq<char>, i: int, j: int)
    requires
        0 <= i <= j <= s.len(),
        forall|k: int| 0 <= k < s.len() ==> is_digit(#[trigger] s[k]),
    ensures
        digits_value(s.take(i)) <= digits_value(s.take(j)),
    decreases j - i,
{
    if i < j {
        lemma_digits_monotone(s, i, j - 1);
        assert(s.take(j).drop_last() =~= s.take(j - 1));
        assert(s.take(j).last() == s[j - 1]);
        assert(is_digit(s[j - 1]));
    }
}

/// `s` parsed as `str::parse::<usize>` parses it.
pub fn parse_usize(s: &Vec<char>) -> (r: Option<usize>)
    ensures
        r == parsed_usize(s@),
{
    let start: usize = if s.len() > 0 && s[0] == '+' {
        1
    } else {
        0
    };
    let d = slice_chars(s, start, s.len());
    assert(d@ =~= unsigned_part(s@));
    if d.len() == 0 {
        return None;
    }
    let mut acc: usize = 0;
    let mut i: usize = 0;
    while i < d.len()
        invariant
            i <= d.len(),
            d@ == unsigned_part(s@),
            forall|k: int| 0 <= k < i ==> is_digit(#[trigger] d@[k]),
            acc as nat == digits_value(d@.take(i as int)),
        decreases d.len() - i,
    {
        let c = d[i];
        if !('0' <= c && c <= '9') {
            assert(!is_digit(d@[i as int]));
            assert(!all_digits(d@));
            return None;
        }
        assert(is_digit(d@[i as int]));
        assert(d@.take(i + 1).drop_last() =~= d@.take(i as int));
        assert(d@.take(i + 1).last() == c);
        let digit = (c as u32 - '0' as u32) as usize;
        match acc.checked_mul(10) {
            Some(m) => match m.checked_add(digit) {
                Some(v) => {
                    acc = v;
                },
                None => {
                    assert(digits_value(d@.take(i + 1)) > usize::MAX);
                    proof {
                        lemma_overflow_stays(d@, i as int);
                    }
                    return None;
                },
            },
            None => {
                assert(digits_value(d@.take(i + 1)) > usize::MAX);
                proof {
                    lemma_overflow_stays(d@, i as int);
                }
                return None;
            },
        }
        i += 1;
    }
    assert(d@.take(d.len() as int) =~= d@);
    Some(acc)
}

/// Once the digits read so far exceed `usize::MAX`, the whole number does, or
/// a later character is no digit.
proof fn lemma_overflow_stays(d: Seq<char>, i: int)
    requires
        0 <= i < d.len(),
        forall|k: int| 0 <= k <= i ==> is_digit(#[trigger] d[k]),
        digits_value(d.take(i + 1)) > usize::MAX,
    ensures
        !(all_digits(d) && digits_value(d) <= usize::MAX),
{
    if all_digits(d) {
        lemma_digits_monotone(d, i + 1, d.len() as int);
        assert(d.take(d.len() as int) =~= d);
    }
}

/// The zero-based index of a menu answer, when the trimmed answer is a
/// number between 1 and `options`.
pub fn parse_choice(input: &str, options: usize) -> (r: Option<usize>)
    ensures
        r == menu_index(input@, options),
        r matches Some(k) ==> k < options,
{
    let t = trim_chars(&chars_of(input));
    match parse_usize(&t) {
        Some(k) => if 1 <= k && k <= options {
            Some(k - 1)
        } else {
            None
        },
        None => None,
    }
}

} // verus!

verus! {

// ── MCP servers ──────────────────────────────────────────────────────────────

/// An MCP server for the agent: the program to start, its arguments and its
/// environment.
pub struct McpServer {
    pub name: String,
    pub command: String,
    pub args: Vec<String>,
    pub env: Vec<(String, String)>,
}

/// The model of an MCP server entry.
#[verifier::ext_equal]
pub struct ServerView {
    pub name: Seq<char>,
    pub command: Seq<char>,
    pub args: Seq<Seq<char>>,
    pub env: Seq<(Seq<char>, Seq<char>)>,
}

pub open spec fn server_view(s: McpServer) -> ServerView {
    ServerView {
        name: s.name@,
        command: s.command@,
        args: s.args@.map_values(|a: String| a@),
        env: s.env@.map_values(|e: (String, String)| (e.0@, e.1@)),
    }
}

/// The Jira server: mcp-atlassian with the Jira credentials, and the
/// read-only switch when Jira must not be written.
pub open spec fn jira_server(j: JiraConfig, read_only: bool) -> ServerView {
    let env = seq![
        ("JIRA_API_TOKEN"@, j.api_token@),
        ("JIRA_URL"@, j.url@),
        ("JIRA_USERNAME"@, j.email@),
    ];
    ServerView {
        name: "jira"@,
        command: "uvx"@,
        args: seq!["mcp-atlassian"@],
        env: if read_only {
            env.push(("READ_ONLY_MODE"@, "true"@))
        } else {
            env
        },
    }
}

/// The Slack server with the bot token and workspace ID.
pub open spec fn slack_server(s: SlackConfig) -> ServerView {
    ServerView {
        name: "slack"@,
        command: "npx"@,
        args: seq!["-y"@, "@modelcontextprotocol/server-slack"@],
        env: seq![("SLACK_BOT_TOKEN"@, s.bot_token@), ("SLACK_TEAM_ID"@, s.team_id@)],
    }
}

/// The servers that a configuration calls for: Jira when it is configured,
/// then Slack when it is configured.
pub open spec fn configured_servers(cfg: MuellerConfig, read_only: bool) -> Seq<ServerView> {
    let j = match cfg.jira {
        Some(j) => seq![jira_server(j, read_only)],
        None => Seq::<ServerView>::empty(),
    };
    let s = match cfg.slack {
        Some(s) => seq![slack_server(s)],
        None => Seq::<ServerView>::empty(),
    };
    j + s
}

fn pair(k: &str, v: &str) -> (r: (String, String))
    ensures
        r.0@ == k@ && r.1@ == v@,
{
    (owned(k), owned(v))
}

/// The MCP servers of a configuration; with none, the agent runs without MCP.
pub fn mcp_servers(cfg: &MuellerConfig, read_only: bool) -> (r: Vec<McpServer>)
    ensures
        r@.map_values(|s: McpServer| server_view(s)) == configured_servers(*cfg, read_only),
{
    let mut servers: Vec<McpServer> = Vec::new();
    if let Some(jira) = &cfg.jira {
        let mut env = vec![
            pair("JIRA_API_TOKEN", jira.api_token.as_str()),
            pair("JIRA_URL", jira.url.as_str()),
            pair("JIRA_USERNAME", jira.email.as_str()),
        ];
        if read_only {
            env.push(pair("READ_ONLY_MODE", "true"));
        }
        let server = McpServer {
            name: owned("jira"),
            command: owned("uvx"),
            args: vec![owned("mcp-atlassian")],
            env,
        };
        assert(server_view(server) =~~= jira_server(*jira, read_only));
        servers.push(server);
    }
    if let Some(slack) = &cfg.slack {
        let server = McpServer {
            name: owned("slack"),
            command: owned("npx"),
            args: vec![owned("-y"), owned("@modelcontextprotocol/server-slack")],
            env: vec![
                pair("SLACK_BOT_TOKEN", slack.bot_token.as_str()),
                pair("SLACK_TEAM_ID", slack.team_id.as_str()),
            ],
        };
        assert(server_view(server) =~~= slack_server(*slack));
        servers.push(server);
    }
    assert(servers@.map_values(|s: McpServer| server_view(s)) =~~= configured_servers(
        *cfg,
        read_only,
    ));
    servers
}

} // verus!

verus! {

// ── the MCP configuration file ───────────────────────────────────────────────

/// The lowercase hexadecimal digits.
pub open spec fn hex_digits() -> Seq<char> {
    seq!['0', '1', '2', '3', '4', '5', '6', '7', '8', '9', 'a', 'b', 'c', 'd', 'e', 'f']
}

/// A character inside a JSON string: `"` and `\\` escaped with a backslash,
/// the control characters below U+0020 by their short escape (`\\b`, `\\t`,
/// `\\n`, `\\f`, `\\r`) or as `\\u00` and two lowercase hex digits, every
/// other character as it is.
pub open spec fn escaped_char(c: char) -> Seq<char> {
    if c == '"' {
        seq!['\\', '"']
    } else if c == '\\' {
        seq!['\\', '\\']
    } else if c == '\u{8}' {
        seq!['\\', 'b']
    } else if c == '\t' {
        seq!['\\', 't']
    } else if c == '\n' {
        seq!['\\', 'n']
    } else if c == '\u{c}' {
        seq!['\\', 'f']
    } else if c == '\r' {
        seq!['\\', 'r']
    } else if (c as int) < 0x20 {
        seq!['\\', 'u', '0', '0', hex_digits()[(c as int) / 16], hex_digits()[(c as int) % 16]]
    } else {
        seq![c]
    }
}

/// The characters of `s` escaped for a JSON string.
pub open spec fn escaped(s: Seq<char>) -> Seq<char>
    decreases s.len(),
{
    if s.len() == 0 {
        Seq::<char>::empty()
    } else {
        escaped(s.drop_last()) + escaped_char(s.last())
    }
}

/// `s` as a JSON string.
pub open spec fn json_string(s: Seq<char>) -> Seq<char> {
    seq!['"'] + escaped(s) + seq!['"']
}

/// A member of a JSON object as serde_json's pretty printer writes it: the
/// key as a string, a colon and a space, the value.
pub open spec fn json_member(key: Seq<char>, value: Seq<char>) -> Seq<char> {
    json_string(key) + seq![':', ' '] + value
}

/// The indentation of nesting depth `depth`: two spaces a level.
pub open spec fn indent(depth: nat) -> Seq<char>
    decreases depth,
{
    if depth == 0 {
        Seq::<char>::empty()
    } else {
        indent((depth - 1) as nat) + seq![' ', ' ']
    }
}

/// A JSON object or array at nesting depth `depth`, as serde_json's pretty
/// printer writes it: the brackets alone when it is empty; otherwise each
/// item on a line of its own, indented one level deeper and followed by a
/// comma but the last, and the closing bracket on a line at `depth`.
pub open spec fn json_braced(open: char, items: Seq<Seq<char>>, close: char, depth: nat) -> Seq<char> {
    if items.len() == 0 {
        seq![open, close]
    } else {
        seq![open, '\n'] + join(
            items.map_values(|it: Seq<char>| indent(depth + 1) + it),
            seq![',', '\n'],
        ) + seq!['\n'] + indent(depth) + seq![close]
    }
}

/// The arguments of a server as a JSON array of strings.
pub open spec fn args_json(args: Seq<Seq<char>>, depth: nat) -> Seq<char> {
    json_braced('[', args.map_values(|a: Seq<char>| json_string(a)), ']', depth)
}

/// The environment of a server as a JSON object of strings, in its order.
pub open spec fn env_json(env: Seq<(Seq<char>, Seq<char>)>, depth: nat) -> Seq<char> {
    json_braced(
        '{',
        env.map_values(|e: (Seq<char>, Seq<char>)| json_member(e.0, json_string(e.1))),
        '}',
        depth,
    )
}

/// A server as a member of `mcpServers`: its name, then an object with its
/// arguments, command and environment, keys in sorted order.
pub open spec fn server_json(s: ServerView) -> Seq<char> {
    json_member(
        s.name,
        json_braced(
            '{',
            seq![
                json_member("args"@, args_json(s.args, 3)),
                json_member("command"@, json_string(s.command)),
                json_member("env"@, env_json(s.env, 3)),
            ],
            '}',
            2,
        ),
    )
}

/// The MCP configuration file: a JSON object whose `mcpServers` member holds
/// each server, in order, pretty-printed.
pub open spec fn mcp_config_json(servers: Seq<ServerView>) -> Seq<char> {
    json_braced(
        '{',
        seq![
            json_member(
                "mcpServers"@,
                json_braced('{', servers.map_values(|s: ServerView| server_json(s)), '}', 1),
            ),
        ],
        '}',
        0,
    )
}

/// Whether the keys of an object come in strictly ascending order, the order
/// in which serde_json's default map prints them.
pub open spec fn keys_sorted(keys: Seq<Seq<char>>) -> bool {
    forall|i: int, j: int| 0 <= i < j < keys.len() ==> seq_less(#[trigger] keys[i], #[trigger] keys[j])
}

/// `a` comes before `b` in the order of strings: at the first position where
/// they differ `a` holds the smaller character, or `a` is a proper prefix of `b`.
pub open spec fn seq_less(a: Seq<char>, b: Seq<char>) -> bool {
    exists|k: int|
        0 <= k <= a.len() && k <= b.len() && a.take(k) == b.take(k) && ((k == a.len() && k
            < b.len()) || (k < a.len() && k < b.len() && (a[k] as int) < (b[k] as int)))
}

fn escape_char(c: char) -> (r: Vec<char>)
    ensures
        r@ == escaped_char(c),
{
    let r = if c == '"' {
        vec!['\\', '"']
    } else if c == '\\' {
        vec!['\\', '\\']
    } else if c == '\u{8}' {
        vec!['\\', 'b']
    } else if c == '\t' {
        vec!['\\', 't']
    } else if c == '\n' {
        vec!['\\', 'n']
    } else if c == '\u{c}' {
        vec!['\\', 'f']
    } else if c == '\r' {
        vec!['\\', 'r']
    } else if '\u{20}' > c {
        let table = vec!['0', '1', '2', '3', '4', '5', '6', '7', '8', '9', 'a', 'b', 'c', 'd', 'e', 'f'];
        assert(table@ =~= hex_digits());
        let code = c as u32;
        assert(code as int == c as int);
        vec!['\\', 'u', '0', '0', table[(code / 16) as usize], table[(code % 16) as usize]]
    } else {
        vec![c]
    };
    assert(r@ =~= escaped_char(c));
    r
}

/// `s` as a JSON string (see `json_string`).
fn json_string_chars(s: &str) -> (r: Vec<char>)
    ensures
        r@ == json_string(s@),
{
    let v = chars_of(s);
    let mut out: Vec<char> = vec!['"'];
    let mut i: usize = 0;
    while i < v.len()
        invariant
            i <= v.len(),
            v@ == s@,
            out@ == seq!['"'] + escaped(v@.take(i as int)),
        decreases v.len() - i,
    {
        let e = escape_char(v[i]);
        append_chars(&mut out, &e);
        assert(v@.take(i + 1).drop_last() =~= v@.take(i as int));
        assert(v@.take(i + 1).last() == v@[i as int]);
        i += 1;
    }
    assert(v@.take(v.len() as int) =~= v@);
    out.push('"');
    out
}

/// A member of a JSON object (see `json_member`).
fn member_chars(key: &str, value: &Vec<char>) -> (r: Vec<char>)
    ensures
        r@ == json_member(key@, value@),
{
    let mut out = json_string_chars(key);
    out.push(':');
    out.push(' ');
    append_chars(&mut out, value);
    assert(out@ =~= json_member(key@, value@));
    out
}

fn indent_chars(depth: usize) -> (r: Vec<char>)
    ensures
        r@ == indent(depth as nat),
{
    let mut v: Vec<char> = Vec::new();
    let mut i: usize = 0;
    while i < depth
        invariant
            i <= depth,
            v@ == indent(i as nat),
        decreases depth - i,
    {
        v.push(' ');
        v.push(' ');
        assert(v@ =~= indent((i + 1) as nat));
        i += 1;
    }
    v
}

/// A JSON object or array at depth `depth` (see `json_braced`).
fn braced_chars(open: char, items: &Vec<Vec<char>>, close: char, depth: usize) -> (r: Vec<char>)
    requires
        depth < 100,
    ensures
        r@ == json_braced(open, views(items@), close, depth as nat),
{
    if items.len() == 0 {
        let r = vec![open, close];
        assert(r@ =~= json_braced(open, views(items@), close, depth as nat));
        return r;
    }
    let ghost iv = views(items@);
    let inner = indent_chars(depth + 1);
    let mut lines: Vec<Vec<char>> = Vec::new();
    let mut i: usize = 0;
    while i < items.len()
        invariant
            i <= items.len(),
            iv == views(items@),
            inner@ == indent((depth + 1) as nat),
            views(lines@) == iv.take(i as int).map_values(
                |it: Seq<char>| indent((depth + 1) as nat) + it,
            ),
        decreases items.len() - i,
    {
        let mut line = slice_chars(&inner, 0, inner.len());
        append_chars(&mut line, &items[i]);
        let ghost before = views(lines@);
        assert(line@ =~= indent((depth + 1) as nat) + iv[i as int]);
        lines.push(line);
        assert(views(lines@) =~= before.push(line@));
        assert(iv.take(i + 1).map_values(|it: Seq<char>| indent((depth + 1) as nat) + it) =~= iv.take(
            i as int,
        ).map_values(|it: Seq<char>| indent((depth + 1) as nat) + it).push(
            indent((depth + 1) as nat) + iv[i as int],
        ));
        i += 1;
    }
    assert(iv.take(items.len() as int) =~= iv);
    let sep = vec![',', '\n'];
    assert(sep@ =~= seq![',', '\n']);
    let body = join_chars(&lines, &sep);
    let mut out: Vec<char> = vec![open, '\n'];
    append_chars(&mut out, &body);
    out.push('\n');
    append_chars(&mut out, &indent_chars(depth));
    out.push(close);
    assert(out@ =~= json_braced(open, views(items@), close, depth as nat));
    out
}

fn args_chars(args: &Vec<String>) -> (r: Vec<char>)
    ensures
        r@ == args_json(args@.map_values(|a: String| a@), 3),
{
    let ghost a = args@.map_values(|a: String| a@);
    let mut items: Vec<Vec<char>> = Vec::new();
    let mut i: usize = 0;
    while i < args.len()
        invariant
            i <= args.len(),
            a == args@.map_values(|a: String| a@),
            views(items@) == a.take(i as int).map_values(|x: Seq<char>| json_string(x)),
        decreases args.len() - i,
    {
        let piece = json_string_chars(args[i].as_str());
        let ghost before = views(items@);
        items.push(piece);
        assert(views(items@) =~= before.push(piece@));
        assert(a[i as int] == args@[i as int]@);
        assert(a.take(i + 1).map_values(|x: Seq<char>| json_string(x)) =~= a.take(i as int).map_values(
            |x: Seq<char>| json_string(x),
        ).push(json_string(a[i as int])));
        i += 1;
    }
    assert(a.take(args.len() as int) =~= a);
    braced_chars('[', &items, ']', 3)
}

fn env_chars(env: &Vec<(String, String)>) -> (r: Vec<char>)
    ensures
        r@ == env_json(env@.map_values(|e: (String, String)| (e.0@, e.1@)), 3),
{
    let ghost en = env@.map_values(|e: (String, String)| (e.0@, e.1@));
    let mut items: Vec<Vec<char>> = Vec::new();
    let mut i: usize = 0;
    while i < env.len()
        invariant
            i <= env.len(),
            en == env@.map_values(|e: (String, String)| (e.0@, e.1@)),
            views(items@) == en.take(i as int).map_values(
                |e: (Seq<char>, Seq<char>)| json_member(e.0, json_string(e.1)),
            ),
        decreases env.len() - i,
    {
        let (k, v) = &env[i];
        let piece = member_chars(k.as_str(), &json_string_chars(v.as_str()));
        let ghost before = views(items@);
        items.push(piece);
        assert(views(items@) =~= before.push(piece@));
        assert(en[i as int] == (k@, v@));
        assert(en.take(i + 1).map_values(|e: (Seq<char>, Seq<char>)| json_member(e.0, json_string(e.1)))
            =~= en.take(i as int).map_values(
            |e: (Seq<char>, Seq<char>)| json_member(e.0, json_string(e.1)),
        ).push(json_member(k@, json_string(v@))));
        i += 1;
    }
    assert(en.take(env.len() as int) =~= en);
    braced_chars('{', &items, '}', 3)
}

fn server_chars(s: &McpServer) -> (r: Vec<char>)
    ensures
        r@ == server_json(server_view(*s)),
{
    let items = vec![
        member_chars("args", &args_chars(&s.args)),
        member_chars("command", &json_string_chars(s.command.as_str())),
        member_chars("env", &env_chars(&s.env)),
    ];
    let body = braced_chars('{', &items, '}', 2);
    assert(views(items@) =~= seq![
        json_member("args"@, args_json(server_view(*s).args, 3)),
        json_member("command"@, json_string(s.command@)),
        json_member("env"@, env_json(server_view(*s).env, 3)),
    ]);
    member_chars(s.name.as_str(), &body)
}

/// The text of the MCP configuration file for the given servers (see
/// `mcp_config_json`): what serde_json's pretty printer writes for them.
pub fn mcp_config_text(servers: &Vec<McpServer>) -> (r: String)
    ensures
        r@ == mcp_config_json(servers@.map_values(|s: McpServer| server_view(s))),
{
    let ghost sv = servers@.map_values(|s: McpServer| server_view(s));
    let mut items: Vec<Vec<char>> = Vec::new();
    let mut i: usize = 0;
    while i < servers.len()
        invariant
            i <= servers.len(),
            sv == servers@.map_values(|s: McpServer| server_view(s)),
            views(items@) == sv.take(i as int).map_values(|s: ServerView| server_json(s)),
        decreases servers.len() - i,
    {
        let piece = server_chars(&servers[i]);
        let ghost before = views(items@);
        items.push(piece);
        assert(views(items@) =~= before.push(piece@));
        assert(sv[i as int] == server_view(servers@[i as int]));
        assert(sv.take(i + 1).map_values(|s: ServerView| server_json(s)) =~= sv.take(i as int).map_values(
            |s: ServerView| server_json(s),
        ).push(server_json(sv[i as int])));
        i += 1;
    }
    assert(sv.take(servers.len() as int) =~= sv);
    let inner = braced_chars('{', &items, '}', 1);
    let outer = vec![member_chars("mcpServers", &inner)];
    assert(views(outer@) =~= seq![json_member("mcpServers"@, json_braced('{', views(items@), '}', 1))]);
    string_of(&braced_chars('{', &outer, '}', 0))
}

/// The keys of an environment, in order.
pub open spec fn env_keys(env: Seq<(Seq<char>, Seq<char>)>) -> Seq<Seq<char>> {
    env.map_values(|e: (Seq<char>, Seq<char>)| e.0)
}

proof fn lemma_less_at(a: Seq<char>, b: Seq<char>, k: int)
    requires
        0 <= k < a.len(),
        k < b.len(),
        a.take(k) == b.take(k),
        (a[k] as int) < (b[k] as int),
    ensures
        seq_less(a, b),
{
}

/// The MCP servers come in the order in which serde_json's default (sorted)
/// map prints them: the servers by name, and each environment by key. So the
/// file that `mcp_config_text` writes is the one that printing the servers as
/// a JSON map would give.
pub proof fn mcp_servers_sorted(cfg: MuellerConfig, read_only: bool)
    ensures
        keys_sorted(configured_servers(cfg, read_only).map_values(|s: ServerView| s.name)),
        forall|i: int|
            0 <= i < configured_servers(cfg, read_only).len() ==> keys_sorted(
                #[trigger] env_keys(configured_servers(cfg, read_only)[i].env),
            ),
{
    reveal_strlit("jira");
    reveal_strlit("slack");
    reveal_strlit("JIRA_API_TOKEN");
    reveal_strlit("JIRA_URL");
    reveal_strlit("JIRA_USERNAME");
    reveal_strlit("READ_ONLY_MODE");
    reveal_strlit("SLACK_BOT_TOKEN");
    reveal_strlit("SLACK_TEAM_ID");
    let cs = configured_servers(cfg, read_only);
    let names = cs.map_values(|s: ServerView| s.name);
    assert("jira"@.take(0) =~= "slack"@.take(0));
    lemma_less_at("jira"@, "slack"@, 0);
    assert forall|i: int, j: int| 0 <= i < j < names.len() implies seq_less(
        #[trigger] names[i],
        #[trigger] names[j],
    ) by {
        assert(names[i] == "jira"@ && names[j] == "slack"@);
    }
    let t = "JIRA_API_TOKEN"@;
    let u = "JIRA_URL"@;
    let n = "JIRA_USERNAME"@;
    let r = "READ_ONLY_MODE"@;
    assert(t.take(5) =~= u.take(5));
    lemma_less_at(t, u, 5);
    assert(t.take(5) =~= n.take(5));
    lemma_less_at(t, n, 5);
    assert(u.take(6) =~= n.take(6));
    lemma_less_at(u, n, 6);
    assert(t.take(0) =~= r.take(0));
    lemma_less_at(t, r, 0);
    assert(u.take(0) =~= r.take(0));
    lemma_less_at(u, r, 0);
    assert(n.take(0) =~= r.take(0));
    lemma_less_at(n, r, 0);
    let sb = "SLACK_BOT_TOKEN"@;
    let st = "SLACK_TEAM_ID"@;
    assert(sb.take(6) =~= st.take(6));
    lemma_less_at(sb, st, 6);
    assert forall|i: int| 0 <= i < cs.len() implies keys_sorted(#[trigger] env_keys(cs[i].env)) by {
        let ks = env_keys(cs[i].env);
        assert forall|a: int, b: int| 0 <= a < b < ks.len() implies seq_less(
            #[trigger] ks[a],
            #[trigger] ks[b],
        ) by {
            if cs[i].name == "jira"@ {
                assert(ks.len() <= 4);
                assert(ks[0] == t && ks[1] == u && ks[2] == n);
                if ks.len() == 4 {
                    assert(ks[3] == r);
                }
            } else {
                assert(ks.len() == 2 && ks[0] == sb && ks[1] == st);
            }
        }
    }
}

} // verus!
