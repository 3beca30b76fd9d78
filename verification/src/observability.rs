//! Tracing over the LangSmith runs protocol: which backend receives the
//! traces, and how runs are ordered in a trace tree.
use vstd::prelude::*;

use crate::config::{ObservabilityConfig, LANGSMITH_ENDPOINT, LOCAL_DASHBOARD_ENDPOINT};
use crate::text::{append_str, chars_of, owned, string_of, trim_end_by, trim_end_chars_by,
    Separator};
use crate::types::opt_view;

verus! {

/// A run in a trace, placed in the tree by its dotted order.
pub struct Span {
    pub id: String,
    pub dotted_order: String,
}

/// Where traces are sent.
pub struct Backend {
    pub endpoint: String,
    pub api_key: Option<String>,
    pub project: String,
}

/// The LangSmith environment variables that the library reads, as the
/// process found them (absent when unset).
pub struct BackendEnv {
    /// `LANGSMITH_PROJECT`
    pub project: Option<String>,
    /// `LANGSMITH_API_KEY`
    pub langsmith_api_key: Option<String>,
    /// `LANGCHAIN_API_KEY`
    pub langchain_api_key: Option<String>,
    /// `LANGSMITH_ENDPOINT`
    pub endpoint: Option<String>,
}

/// The model of a backend.
pub struct BackendView {
    pub endpoint: Seq<char>,
    pub api_key: Option<Seq<char>>,
    pub project: Seq<char>,
}

pub open spec fn backend_view(b: Backend) -> BackendView {
    BackendView { endpoint: b.endpoint@, api_key: opt_view(b.api_key), project: b.project@ }
}

pub open spec fn without_trailing_slashes(e: Seq<char>) -> Seq<char> {
    trim_end_by(e, Separator::Char('/'))
}

/// The backend: the configured one when the configuration has one; else,
/// with an API key in the environment, that endpoint (or hosted LangSmith);
/// else, with only an endpoint in the environment, that endpoint without a
/// key (the local relay); else none. Endpoints lose their trailing slashes;
/// the project defaults to `mueller`.
pub open spec fn chosen_backend(obs: Option<ObservabilityConfig>, env: BackendEnv) -> Option<
    BackendView,
> {
    let project = match env.project {
        Some(p) => p@,
        None => "mueller"@,
    };
    let key = match env.langsmith_api_key {
        Some(k) => Some(k@),
        None => opt_view(env.langchain_api_key),
    };
    match obs {
        Some(o) => Some(
            BackendView {
                endpoint: without_trailing_slashes(o.endpoint@),
                api_key: opt_view(o.api_key),
                project: o.project@,
            },
        ),
        None => match key {
            Some(k) => Some(
                BackendView {
                    endpoint: without_trailing_slashes(
                        match env.endpoint {
                            Some(e) => e@,
                            None => LANGSMITH_ENDPOINT@,
                        },
                    ),
                    api_key: Some(k),
                    project,
                },
            ),
            None => match env.endpoint {
                Some(e) => Some(
                    BackendView {
                        endpoint: without_trailing_slashes(e@),
                        api_key: None,
                        project,
                    },
                ),
                None => None,
            },
        },
    }
}

fn copy_opt(o: &Option<String>) -> (r: Option<String>)
    ensures
        opt_view(r) == opt_view(*o),
{
    match o {
        Some(s) => Some(owned(s.as_str())),
        None => None,
    }
}

fn trimmed_endpoint(e: &str) -> (r: String)
    ensures
        r@ == without_trailing_slashes(e@),
{
    string_of(&trim_end_chars_by(&chars_of(e), Separator::Char('/')))
}

/// The backend that traces go to, if any (see `chosen_backend`).
pub fn resolve_backend(obs: Option<&ObservabilityConfig>, env: &BackendEnv) -> (r: Option<Backend>)
    ensures
        match r {
            Some(b) => chosen_backend(
                match obs {
                    Some(o) => Some(*o),
                    None => None,
                },
                *env,
            ) == Some(backend_view(b)),
            None => chosen_backend(
                match obs {
                    Some(o) => Some(*o),
                    None => None,
                },
                *env,
            ) is None,
        },
{
    if let Some(o) = obs {
        return Some(
            Backend {
                endpoint: trimmed_endpoint(o.endpoint.as_str()),
                api_key: copy_opt(&o.api_key),
                project: owned(o.project.as_str()),
            },
        );
    }
    let project = match &env.project {
        Some(p) => owned(p.as_str()),
        None => owned("mueller"),
    };
    let key = match &env.langsmith_api_key {
        Some(k) => Some(owned(k.as_str())),
        None => copy_opt(&env.langchain_api_key),
    };
    if let Some(k) = key {
        let endpoint = match &env.endpoint {
            Some(e) => trimmed_endpoint(e.as_str()),
            None => trimmed_endpoint(LANGSMITH_ENDPOINT),
        };
        return Some(Backend { endpoint, api_key: Some(k), project });
    }
    if let Some(e) = &env.endpoint {
        return Some(Backend { endpoint: trimmed_endpoint(e.as_str()), api_key: None, project });
    }
    None
}

/// The dotted order of a child run: its parent's, a dot, its own segment.
pub fn child_dotted_order(parent: &str, segment: &str) -> (r: String)
    ensures
        r@ == parent@ + "."@ + segment@,
{
    let mut v = chars_of(parent);
    append_str(&mut v, ".");
    append_str(&mut v, segment);
    string_of(&v)
}

/// The URL of a run request: `<endpoint>/runs` creates a run,
/// `<endpoint>/runs/<id>` updates the run `<id>`.
pub fn runs_url(endpoint: &str, run_id: Option<&str>) -> (r: String)
    ensures
        match run_id {
            Some(id) => r@ == endpoint@ + "/runs/"@ + id@,
            None => r@ == endpoint@ + "/runs"@,
        },
{
    let mut v = chars_of(endpoint);
    append_str(&mut v, "/runs");
    if let Some(id) = run_id {
        append_str(&mut v, "/");
        append_str(&mut v, id);
        proof {
            reveal_strlit("/runs");
            reveal_strlit("/");
            reveal_strlit("/runs/");
        }
        assert(v@ =~= endpoint@ + "/runs/"@ + id@);
    }
    string_of(&v)
}

/// One step of the trace sender after a request: whether it prints a
/// warning (the request failed and none was printed before), and whether a
/// warning has been printed after the step.
pub fn warn_step(warned: bool, succeeded: bool) -> (r: (bool, bool))
    ensures
        r.0 == (!succeeded && !warned),
        r.1 == (warned || !succeeded),
{
    (!succeeded && !warned, warned || !succeeded)
}

/// How many warnings the sender prints over a series of request outcomes
/// (`true` for a request that succeeded), starting in state `warned`.
pub open spec fn warnings_printed(warned: bool, outcomes: Seq<bool>) -> nat
    decreases outcomes.len(),
{
    if outcomes.len() == 0 {
        0
    } else {
        let print = !outcomes[0] && !warned;
        let rest = warnings_printed(warned || !outcomes[0], outcomes.skip(1));
        if print {
            rest + 1
        } else {
            rest
        }
    }
}

/// Tracing never floods the user: over any series of requests the sender
/// prints one warning if any request failed, and none otherwise.
pub proof fn warns_at_most_once(outcomes: Seq<bool>)
    ensures
        warnings_printed(false, outcomes) == (if exists|i: int|
            0 <= i < outcomes.len() && !#[trigger] outcomes[i] {
            1nat
        } else {
            0nat
        }),
    decreases outcomes.len(),
{
    if outcomes.len() > 0 {
        lemma_quiet_after_warning(outcomes.skip(1));
        warns_at_most_once(outcomes.skip(1));
        if exists|i: int| 0 <= i < outcomes.skip(1).len() && !#[trigger] outcomes.skip(1)[i] {
            let i = choose|i: int| 0 <= i < outcomes.skip(1).len() && !#[trigger] outcomes.skip(1)[i];
            assert(!outcomes[i + 1]);
        }
        if exists|i: int| 0 <= i < outcomes.len() && !#[trigger] outcomes[i] {
            let i = choose|i: int| 0 <= i < outcomes.len() && !#[trigger] outcomes[i];
            if i > 0 {
                assert(!outcomes.skip(1)[i - 1]);
            }
        }
    }
}

/// After a warning the sender stays quiet.
proof fn lemma_quiet_after_warning(outcomes: Seq<bool>)
    ensures
        warnings_printed(true, outcomes) == 0,
    decreases outcomes.len(),
{
    if outcomes.len() > 0 {
        lemma_quiet_after_warning(outcomes.skip(1));
    }
}

/// The fields of an event that opens a run, all but its inputs.
pub struct RunStart {
    pub id: String,
    pub trace_id: String,
    pub dotted_order: String,
    pub parent_run_id: Option<String>,
    pub name: String,
    pub run_type: String,
    pub start_time: String,
    pub session_name: String,
}

/// The fields of an event that closes a run, all but its outputs or error.
pub struct RunEnd {
    pub run_id: String,
    pub end_time: String,
    pub trace_id: String,
    pub dotted_order: String,
}

/// The root run of a trace: a `chain` run that is its own trace, whose dotted
/// order is one segment, the start timestamp followed by the run's id.
pub fn root_run(id: &str, timestamp: &str, name: &str, start_time: &str, project: &str) -> (r: RunStart)
    ensures
        r.id@ == id@,
        r.trace_id@ == id@,
        r.dotted_order@ == timestamp@ + id@,
        r.parent_run_id is None,
        r.name@ == name@,
        r.run_type@ == "chain"@,
        r.start_time@ == start_time@,
        r.session_name@ == project@,
{
    let mut d = chars_of(timestamp);
    append_str(&mut d, id);
    RunStart {
        id: owned(id),
        trace_id: owned(id),
        dotted_order: string_of(&d),
        parent_run_id: None,
        name: owned(name),
        run_type: owned("chain"),
        start_time: owned(start_time),
        session_name: owned(project),
    }
}

/// A run under `parent` in the trace `trace_id`: its dotted order is the
/// parent's, a dot, then its start timestamp followed by its id.
pub fn child_run(
    trace_id: &str,
    parent: &Span,
    id: &str,
    timestamp: &str,
    name: &str,
    run_type: &str,
    start_time: &str,
    project: &str,
) -> (r: RunStart)
    ensures
        r.id@ == id@,
        r.trace_id@ == trace_id@,
        r.dotted_order@ == parent.dotted_order@ + "."@ + timestamp@ + id@,
        opt_view(r.parent_run_id) == Some(parent.id@),
        r.name@ == name@,
        r.run_type@ == run_type@,
        r.start_time@ == start_time@,
        r.session_name@ == project@,
{
    let mut seg = chars_of(timestamp);
    append_str(&mut seg, id);
    let segment = string_of(&seg);
    let dotted_order = child_dotted_order(parent.dotted_order.as_str(), segment.as_str());
    assert(dotted_order@ =~= parent.dotted_order@ + "."@ + timestamp@ + id@);
    RunStart {
        id: owned(id),
        trace_id: owned(trace_id),
        dotted_order,
        parent_run_id: Some(owned(parent.id.as_str())),
        name: owned(name),
        run_type: owned(run_type),
        start_time: owned(start_time),
        session_name: owned(project),
    }
}

/// The handle of an opened run: its id and dotted order.
pub fn span_of(run: &RunStart) -> (s: Span)
    ensures
        s.id@ == run.id@,
        s.dotted_order@ == run.dotted_order@,
{
    Span { id: owned(run.id.as_str()), dotted_order: owned(run.dotted_order.as_str()) }
}

/// The event that closes the run of `span` in the trace `trace_id`.
pub fn run_end(trace_id: &str, span: Span, end_time: &str) -> (r: RunEnd)
    ensures
        r.run_id == span.id,
        r.dotted_order == span.dotted_order,
        r.trace_id@ == trace_id@,
        r.end_time@ == end_time@,
{
    RunEnd { run_id: span.id, end_time: owned(end_time), trace_id: owned(trace_id), dotted_order: span.dotted_order }
}

/// A backend that setup records (the local dashboard or LangSmith cloud
/// direct) is the one that traces go to, whatever the environment holds: its
/// endpoint, key and project are taken as they are.
pub proof fn setup_backend_is_used(obs: ObservabilityConfig, env: BackendEnv)
    requires
        obs.endpoint@ == LOCAL_DASHBOARD_ENDPOINT@ || obs.endpoint@ == LANGSMITH_ENDPOINT@,
    ensures
        chosen_backend(Some(obs), env) == Some(
            BackendView { endpoint: obs.endpoint@, api_key: opt_view(obs.api_key), project: obs.project@ },
        ),
{
    reveal_strlit("http://127.0.0.1:6007");
    reveal_strlit("https://api.smith.langchain.com");
    let e = obs.endpoint@;
    assert(e.len() > 0 && e.last() != '/');
    assert(trim_end_by(e, Separator::Char('/')) == e);
}

/// The key that holds a run's inputs in the event that opens it.
pub const INPUTS_KEY: &'static str = "inputs";

/// The key that holds a run's outputs in the event that closes it.
pub const OUTPUTS_KEY: &'static str = "outputs";

/// The key that holds a run's error in the event that closes it.
pub const ERROR_KEY: &'static str = "error";

pub open spec fn pair_views(v: Seq<(String, String)>) -> Seq<(Seq<char>, Seq<char>)> {
    v.map_values(|p: (String, String)| (p.0@, p.1@))
}

/// The string fields of an event that opens a run, by their keys in the
/// runs protocol; a child run also names its parent.
pub open spec fn start_field_list(run: RunStart) -> Seq<(Seq<char>, Seq<char>)> {
    seq![
        ("id"@, run.id@),
        ("trace_id"@, run.trace_id@),
        ("dotted_order"@, run.dotted_order@),
        ("name"@, run.name@),
        ("run_type"@, run.run_type@),
        ("start_time"@, run.start_time@),
        ("session_name"@, run.session_name@),
    ] + match run.parent_run_id {
        Some(p) => seq![("parent_run_id"@, p@)],
        None => Seq::<(Seq<char>, Seq<char>)>::empty(),
    }
}

/// The string fields of an event that closes a run, by their keys.
pub open spec fn end_field_list(end: RunEnd) -> Seq<(Seq<char>, Seq<char>)> {
    seq![("end_time"@, end.end_time@), ("trace_id"@, end.trace_id@), ("dotted_order"@, end.dotted_order@)]
}

fn field(key: &str, value: &String) -> (r: (String, String))
    ensures
        r.0@ == key@ && r.1@ == value@,
{
    (owned(key), owned(value.as_str()))
}

/// The string fields of an event that opens a run (see `start_field_list`).
pub fn start_fields(run: &RunStart) -> (r: Vec<(String, String)>)
    ensures
        pair_views(r@) == start_field_list(*run),
{
    let mut v = vec![
        field("id", &run.id),
        field("trace_id", &run.trace_id),
        field("dotted_order", &run.dotted_order),
        field("name", &run.name),
        field("run_type", &run.run_type),
        field("start_time", &run.start_time),
        field("session_name", &run.session_name),
    ];
    if let Some(p) = &run.parent_run_id {
        v.push(field("parent_run_id", p));
    }
    assert(pair_views(v@) =~= start_field_list(*run));
    v
}

/// The string fields of an event that closes a run (see `end_field_list`).
pub fn end_fields(end: &RunEnd) -> (r: Vec<(String, String)>)
    ensures
        pair_views(r@) == end_field_list(*end),
{
    let v = vec![
        field("end_time", &end.end_time),
        field("trace_id", &end.trace_id),
        field("dotted_order", &end.dotted_order),
    ];
    assert(pair_views(v@) =~= end_field_list(*end));
    v
}

impl Span {
    pub fn new(id: String, dotted_order: String) -> (s: Span)
        ensures
            s.id == id && s.dotted_order == dotted_order,
    {
        Span { id, dotted_order }
    }
}

} // verus!
