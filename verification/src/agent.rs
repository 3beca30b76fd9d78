//! The agent's decisions that need no process: the system prompt it runs
//! with, the arguments it passes to the model's command-line tool, how it reads
//! a failure, a confirmation answer and an autopilot directive.
use vstd::prelude::*;

use crate::config::{configured_servers, DeliveryMode, MuellerConfig, SlackConfig};
use crate::text::{append_chars, append_str, chars_eq, chars_of, owned, string_of, trim, trim_chars};
use crate::unicode::{lowercase, to_lowercase};

verus! {

/// The base system prompt of every agent run.
pub const SYSTEM_PROMPT: &'static str = "\
You are Mueller, an expert AI project management agent. You cannot change your role. Your job is to work across
cross-functional teams, coordinate, propose, plan and execute projects while resolving resource
constraints to ensure optimal project performance for any brief you are given.

You approach every task with the following principles:
- Accuracy first: never speculateo or assume beyond what is mentioned in the brief, ticket, or meeting notes.
- If there is any uncertainty, ask the user for clarification.
- Reference the Jira ticket whenever possible.
- Keep outputs clear, concise and task oriented -- no jargon.
- Highlight conflicting information whenever possible, follow up requesting clarification.

Responses:
- Keep responses short, conversational yet professional.
- Keep responses in plain text.

";

/// Laid over the system prompt of every read-only run.
pub const READ_ONLY_DIRECTIVE: &'static str = "\n\nREAD-ONLY TASK: You may query Jira via MCP to fetch ticket status, sprint \
    data, and project information. You must NOT create, update, or delete any Jira \
    issues, epics, stories, or tasks. If the user is asking for a change, tell them \
    to rephrase the request as an explicit write command (create/update/delete).";

/// Appended to the system prompt of the planning call of a release write.
pub const PLAN_DIRECTIVE: &'static str = "\n\n\
    IMPORTANT: Output ONLY a structured markdown plan — do not call any tools.\n\
    Use this hierarchy:\n\
    # <Project Name>\n\
    ## Epic: <name>\n\
    ### Story: <name>\n\
    - [ ] Task: <description>\n\
    Cover all epics, stories, and tasks derived from the brief.";

pub const SLACK_RELAY_HEAD: &'static str = "\n\nSlack relay: when you have a final answer or summary to deliver, \
    also post it to ";

pub const SLACK_RELAY_MIDDLE: &'static str = " using the slack_post_message tool with channel \"";

pub const SLACK_RELAY_TAIL: &'static str = "\".";

/// Where the Slack relay posts, in words.
pub open spec fn relay_destination(s: SlackConfig) -> Seq<char> {
    match s.delivery_mode {
        DeliveryMode::Channel => "the #"@ + s.destination@ + " channel"@,
        DeliveryMode::DirectMessage => "the user via direct message"@,
    }
}

/// The system prompt of a run: the base prompt, then the autopilot skill,
/// then the command's skill, each after a blank line when it could be
/// loaded, then the Slack relay instruction when Slack is configured.
pub open spec fn composed_system_prompt(
    autopilot: Option<Seq<char>>,
    skill: Option<Seq<char>>,
    slack: Option<SlackConfig>,
) -> Seq<char> {
    let a = match autopilot {
        Some(t) => "\n\n"@ + t,
        None => Seq::<char>::empty(),
    };
    let k = match skill {
        Some(t) => "\n\n"@ + t,
        None => Seq::<char>::empty(),
    };
    let r = match slack {
        Some(s) => SLACK_RELAY_HEAD@ + relay_destination(s) + SLACK_RELAY_MIDDLE@ + s.destination@
            + SLACK_RELAY_TAIL@,
        None => Seq::<char>::empty(),
    };
    SYSTEM_PROMPT@ + a + k + r
}

pub open spec fn opt_str_view(o: Option<&str>) -> Option<Seq<char>> {
    match o {
        Some(s) => Some(s@),
        None => None,
    }
}

pub open spec fn opt_slack(o: Option<&SlackConfig>) -> Option<SlackConfig> {
    match o {
        Some(s) => Some(*s),
        None => None,
    }
}

/// The autopilot skill is loaded into every run: whenever it could be read,
/// the system prompt starts with the base prompt, a blank line and the
/// autopilot skill, whatever the command's skill and the Slack settings. The
/// command's skill comes next, after a blank line, and the Slack relay only
/// adds text at the end; with none of them the prompt is the base prompt.
pub proof fn autopilot_in_every_run(
    autopilot: Option<Seq<char>>,
    skill: Option<Seq<char>>,
    slack: Option<SlackConfig>,
)
    ensures
        autopilot matches Some(t) ==> ({
            let head = SYSTEM_PROMPT@ + "\n\n"@ + t;
            let p = composed_system_prompt(autopilot, skill, slack);
            head.len() <= p.len() && p.take(head.len() as int) == head
        }),
        skill matches Some(k) ==> ({
            let head = composed_system_prompt(autopilot, None, None) + "\n\n"@ + k;
            let p = composed_system_prompt(autopilot, skill, slack);
            head.len() <= p.len() && p.take(head.len() as int) == head
        }),
        ({
            let head = composed_system_prompt(autopilot, skill, None);
            let p = composed_system_prompt(autopilot, skill, slack);
            head.len() <= p.len() && p.take(head.len() as int) == head
        }),
        composed_system_prompt(None, None, None) == SYSTEM_PROMPT@,
{
    let p = composed_system_prompt(autopilot, skill, slack);
    let a = match autopilot {
        Some(t) => "\n\n"@ + t,
        None => Seq::<char>::empty(),
    };
    let k = match skill {
        Some(t) => "\n\n"@ + t,
        None => Seq::<char>::empty(),
    };
    let r = match slack {
        Some(s) => SLACK_RELAY_HEAD@ + relay_destination(s) + SLACK_RELAY_MIDDLE@ + s.destination@
            + SLACK_RELAY_TAIL@,
        None => Seq::<char>::empty(),
    };
    assert(p == SYSTEM_PROMPT@ + a + k + r);
    assert(composed_system_prompt(autopilot, skill, None) =~= SYSTEM_PROMPT@ + a + k);
    assert(composed_system_prompt(autopilot, None, None) =~= SYSTEM_PROMPT@ + a);
    assert(composed_system_prompt(None, None, None) =~= SYSTEM_PROMPT@);
    if let Some(t) = autopilot {
        let head = SYSTEM_PROMPT@ + "\n\n"@ + t;
        assert(p =~= head + (k + r));
        assert(p.take(head.len() as int) =~= head);
    }
    if let Some(x) = skill {
        let head = composed_system_prompt(autopilot, None, None) + "\n\n"@ + x;
        assert(p =~= head + r);
        assert(p.take(head.len() as int) =~= head);
    }
    let head = composed_system_prompt(autopilot, skill, None);
    assert(p =~= head + r);
    assert(p.take(head.len() as int) =~= head);
}

/// The system prompt of a run (see `composed_system_prompt`).
pub fn system_prompt(autopilot: Option<&str>, skill: Option<&str>, slack: Option<&SlackConfig>) -> (r:
    String)
    ensures
        r@ == composed_system_prompt(opt_str_view(autopilot), opt_str_view(skill), opt_slack(slack)),
{
    let mut a: Vec<char> = Vec::new();
    if let Some(t) = autopilot {
        append_str(&mut a, "\n\n");
        append_str(&mut a, t);
    }
    let mut k: Vec<char> = Vec::new();
    if let Some(t) = skill {
        append_str(&mut k, "\n\n");
        append_str(&mut k, t);
    }
    let mut r: Vec<char> = Vec::new();
    if let Some(s) = slack {
        append_str(&mut r, SLACK_RELAY_HEAD);
        match s.delivery_mode {
            DeliveryMode::Channel => {
                append_str(&mut r, "the #");
                append_str(&mut r, s.destination.as_str());
                append_str(&mut r, " channel");
            },
            DeliveryMode::DirectMessage => {
                append_str(&mut r, "the user via direct message");
            },
        }
        append_str(&mut r, SLACK_RELAY_MIDDLE);
        append_str(&mut r, s.destination.as_str());
        append_str(&mut r, SLACK_RELAY_TAIL);
    }
    let mut v = chars_of(SYSTEM_PROMPT);
    append_chars(&mut v, &a);
    append_chars(&mut v, &k);
    append_chars(&mut v, &r);
    string_of(&v)
}

/// The system prompt of a read-only run: the read-only directive laid over it.
pub fn read_only_system_prompt(system: &str) -> (r: String)
    ensures
        r@ == system@ + READ_ONLY_DIRECTIVE@,
{
    let mut v = chars_of(system);
    append_str(&mut v, READ_ONLY_DIRECTIVE);
    string_of(&v)
}

/// The system prompt of the planning call of a release write.
pub fn plan_system_prompt(system: &str) -> (r: String)
    ensures
        r@ == system@ + PLAN_DIRECTIVE@,
{
    let mut v = chars_of(system);
    append_str(&mut v, PLAN_DIRECTIVE);
    string_of(&v)
}

/// Whether a run keeps Jira read-only at the MCP layer.
pub open spec fn read_only_run(dev_build: bool, is_write: bool) -> bool {
    dev_build || !is_write
}

/// Jira is read-only at the MCP layer for every task of a development build
/// and for every read of a release build; only release writes may write.
pub fn read_only_mode(dev_build: bool, is_write: bool) -> (r: bool)
    ensures
        r == read_only_run(dev_build, is_write),
{
    dev_build || !is_write
}

/// How a task is run: answered at once, or planned, confirmed and executed.
#[derive(Debug, Clone, Copy, PartialEq, Eq, Structural)]
pub enum RunMode {
    Direct,
    Release,
}

/// Only a write of a release build runs the plan → confirm → execute flow;
/// every other task is answered directly.
pub fn run_mode(dev_build: bool, is_write: bool) -> (r: RunMode)
    ensures
        (r == RunMode::Release) == !read_only_run(dev_build, is_write),
{
    if read_only_mode(dev_build, is_write) {
        RunMode::Direct
    } else {
        RunMode::Release
    }
}

/// What the release flow does once the saved plan has been reviewed.
pub enum ReviewOutcome {
    /// Run the task with write access.
    Execute,
    /// Stop: tell the user where the plan stays, and end the run with `result`.
    Cancel { notice: String, result: String },
}

pub const PLAN_CANCELLED_NOTICE: &'static str = "Cancelled. Plan retained at: ";

pub const PLAN_CANCELLED_RESULT: &'static str = "Cancelled at plan review. Plan retained at: ";

/// The step after the plan review: execution when the user confirmed;
/// otherwise a cancellation that names where the plan was saved.
pub fn after_review(confirmed: bool, plan_path: &str) -> (r: ReviewOutcome)
    ensures
        confirmed ==> r is Execute,
        !confirmed ==> (r matches ReviewOutcome::Cancel { notice, result } && notice@
            == PLAN_CANCELLED_NOTICE@ + plan_path@ && result@ == PLAN_CANCELLED_RESULT@ + plan_path@),
{
    if confirmed {
        ReviewOutcome::Execute
    } else {
        let mut n = chars_of(PLAN_CANCELLED_NOTICE);
        append_str(&mut n, plan_path);
        let mut m = chars_of(PLAN_CANCELLED_RESULT);
        append_str(&mut m, plan_path);
        ReviewOutcome::Cancel { notice: string_of(&n), result: string_of(&m) }
    }
}

/// The stages of a release write.
#[derive(Debug, Clone, Copy, PartialEq, Eq, Structural)]
pub enum ReleaseStage {
    /// The model drafts a plan, without tools.
    Planning,
    /// The saved plan waits for the user's answer.
    Reviewing,
    /// The model runs the task with write access.
    Executing,
    /// The result is shown.
    Delivering,
    /// Nothing more happens.
    Finished,
}

/// What happens during a release write.
#[derive(Debug, Clone, Copy, PartialEq, Eq, Structural)]
pub enum ReleaseEvent {
    /// The plan was drafted and saved.
    PlanSaved,
    /// The user answered the confirmation question.
    Answered { confirmed: bool },
    /// The current call gave its result.
    Completed,
    /// A call or a file operation failed.
    Failed,
}

/// The stage after `event` in `stage`: a saved plan goes to review; only a
/// confirming answer to the review goes on to execution, any other answer
/// ends the write; an execution's result goes to delivery, and a delivery
/// ends it; a failure, or an event that does not belong to the stage, ends it.
pub open spec fn release_next(stage: ReleaseStage, event: ReleaseEvent) -> ReleaseStage {
    match (stage, event) {
        (ReleaseStage::Planning, ReleaseEvent::PlanSaved) => ReleaseStage::Reviewing,
        (ReleaseStage::Reviewing, ReleaseEvent::Answered { confirmed }) => if confirmed {
            ReleaseStage::Executing
        } else {
            ReleaseStage::Finished
        },
        (ReleaseStage::Executing, ReleaseEvent::Completed) => ReleaseStage::Delivering,
        _ => ReleaseStage::Finished,
    }
}

/// One step of a release write (see `release_next`).
pub fn release_step(stage: ReleaseStage, event: ReleaseEvent) -> (r: ReleaseStage)
    ensures
        r == release_next(stage, event),
{
    match (stage, event) {
        (ReleaseStage::Planning, ReleaseEvent::PlanSaved) => ReleaseStage::Reviewing,
        (ReleaseStage::Reviewing, ReleaseEvent::Answered { confirmed }) => if confirmed {
            ReleaseStage::Executing
        } else {
            ReleaseStage::Finished
        },
        (ReleaseStage::Executing, ReleaseEvent::Completed) => ReleaseStage::Delivering,
        _ => ReleaseStage::Finished,
    }
}

/// The stage that a release write reaches from `stage` through `events`.
pub open spec fn release_after(stage: ReleaseStage, events: Seq<ReleaseEvent>) -> ReleaseStage
    decreases events.len(),
{
    if events.len() == 0 {
        stage
    } else {
        release_next(release_after(stage, events.drop_last()), events.last())
    }
}

/// A saved plan comes somewhere in `events`.
pub open spec fn plan_saved(events: Seq<ReleaseEvent>) -> bool {
    exists|i: int| 0 <= i < events.len() && events[i] == ReleaseEvent::PlanSaved
}

/// A saved plan comes in `events`, followed later by a confirming answer.
pub open spec fn confirmed_after_plan(events: Seq<ReleaseEvent>) -> bool {
    exists|i: int, j: int|
        0 <= i < j < events.len() && events[i] == ReleaseEvent::PlanSaved && events[j]
            == (ReleaseEvent::Answered { confirmed: true })
}

/// Whether a stage runs or shows a write's result.
pub open spec fn past_review(stage: ReleaseStage) -> bool {
    stage == ReleaseStage::Executing || stage == ReleaseStage::Delivering
}

/// Nothing executes without confirmation: a release write that starts by
/// planning reaches execution or delivery only when its events hold a saved
/// plan followed later by a confirming answer.
pub proof fn executes_only_after_confirmation(events: Seq<ReleaseEvent>)
    ensures
        past_review(release_after(ReleaseStage::Planning, events)) ==> confirmed_after_plan(events),
    decreases events.len(),
{
    if events.len() > 0 {
        let init = events.drop_last();
        let before = release_after(ReleaseStage::Planning, init);
        lemma_planning_path(init);
        let yes = ReleaseEvent::Answered { confirmed: true };
        if before == ReleaseStage::Reviewing && events.last() == yes {
            let i = choose|i: int| 0 <= i < init.len() && init[i] == ReleaseEvent::PlanSaved;
            assert(events[i] == init[i]);
            assert(events[events.len() - 1] == events.last());
        } else if before == ReleaseStage::Executing {
            executes_only_after_confirmation(init);
            if confirmed_after_plan(init) {
                let (i, j) = choose|i: int, j: int|
                    0 <= i < j < init.len() && init[i] == ReleaseEvent::PlanSaved && init[j]
                        == (ReleaseEvent::Answered { confirmed: true });
                assert(events[i] == init[i] && events[j] == init[j]);
            }
        }
    }
}

/// A write that starts by planning is in review only after a saved plan.
proof fn lemma_planning_path(events: Seq<ReleaseEvent>)
    ensures
        release_after(ReleaseStage::Planning, events) == ReleaseStage::Reviewing ==> plan_saved(events),
    decreases events.len(),
{
    if events.len() > 0 {
        let init = events.drop_last();
        lemma_planning_path(init);
        if release_after(ReleaseStage::Planning, events) == ReleaseStage::Reviewing {
            if release_after(ReleaseStage::Planning, init) == ReleaseStage::Planning {
                assert(events[events.len() - 1] == ReleaseEvent::PlanSaved);
            } else {
                assert(release_after(ReleaseStage::Planning, init) == ReleaseStage::Reviewing);
                let i = choose|i: int| 0 <= i < init.len() && init[i] == ReleaseEvent::PlanSaved;
                assert(events[i] == init[i]);
            }
        }
    }
}

/// The arguments of one call of the model's command-line tool: the prompt,
/// the system prompt, then the model and the MCP configuration when given.
pub open spec fn agent_arg_list(
    prompt: Seq<char>,
    system: Seq<char>,
    mcp_config: Option<Seq<char>>,
    model: Option<Seq<char>>,
) -> Seq<Seq<char>> {
    let base = seq!["-p"@, prompt, "--system-prompt"@, system];
    let m = match model {
        Some(m) => seq!["--model"@, m],
        None => Seq::<Seq<char>>::empty(),
    };
    let c = match mcp_config {
        Some(p) => seq!["--mcp-config"@, p],
        None => Seq::<Seq<char>>::empty(),
    };
    base + m + c
}

/// The arguments of one call of the model's command-line tool (see `agent_arg_list`).
pub fn agent_args(prompt: &str, system: &str, mcp_config: Option<&str>, model: Option<&str>) -> (r:
    Vec<String>)
    ensures
        r@.map_values(|a: String| a@) == agent_arg_list(
            prompt@,
            system@,
            opt_str_view(mcp_config),
            opt_str_view(model),
        ),
{
    let mut args = vec![owned("-p"), owned(prompt), owned("--system-prompt"), owned(system)];
    if let Some(m) = model {
        args.push(owned("--model"));
        args.push(owned(m));
    }
    if let Some(p) = mcp_config {
        args.push(owned("--mcp-config"));
        args.push(owned(p));
    }
    assert(args@.map_values(|a: String| a@) =~= agent_arg_list(
        prompt@,
        system@,
        opt_str_view(mcp_config),
        opt_str_view(model),
    ));
    args
}

/// What a failed call reports: its error output when there is any, else its
/// standard output when there is any, else its exit status.
pub open spec fn failure_text(stderr: Seq<char>, stdout: Seq<char>, status: Seq<char>) -> Seq<char> {
    if trim(stderr).len() > 0 {
        trim(stderr)
    } else if trim(stdout).len() > 0 {
        trim(stdout)
    } else {
        "exit code "@ + status
    }
}

/// What a failed call reports (see `failure_text`).
pub fn failure_detail(stderr: &str, stdout: &str, status: &str) -> (r: String)
    ensures
        r@ == failure_text(stderr@, stdout@, status@),
{
    let e = trim_chars(&chars_of(stderr));
    if e.len() > 0 {
        return string_of(&e);
    }
    let o = trim_chars(&chars_of(stdout));
    if o.len() > 0 {
        return string_of(&o);
    }
    let mut v = chars_of("exit code ");
    append_str(&mut v, status);
    string_of(&v)
}

/// The confirming answers: `y` and `yes`.
pub open spec fn is_yes(answer: Seq<char>) -> bool {
    answer == "y"@ || answer == "yes"@
}

/// Whether an answer to a yes/no question confirms: `y` or `yes`, in any
/// case, with surrounding whitespace ignored.
pub fn is_affirmative(input: &str) -> (r: bool)
    ensures
        r == is_yes(lowercase(trim(input@))),
{
    let t = string_of(&trim_chars(&chars_of(input)));
    confirms(to_lowercase(t.as_str()).as_str())
}

/// Whether a lowercase, trimmed answer confirms (see `is_yes`).
pub fn confirms(answer: &str) -> (r: bool)
    ensures
        r == is_yes(answer@),
{
    let l = chars_of(answer);
    chars_eq(&l, &chars_of("y")) || chars_eq(&l, &chars_of("yes"))
}

/// The autopilot skill with one more directive appended as a list item.
pub fn with_directive(content: &str, directive: &str) -> (r: String)
    ensures
        r@ == content@ + "\n- "@ + directive@,
{
    let mut v = chars_of(content);
    append_str(&mut v, "\n- ");
    append_str(&mut v, directive);
    string_of(&v)
}

/// Where a skill is looked up under the skills directory: `<name>.md` first,
/// then `<name>/SKILLS.md`.
pub fn skill_files(name: &str) -> (r: (String, String))
    ensures
        r.0@ == name@ + ".md"@,
        r.1@ == name@ + "/SKILLS.md"@,
{
    let mut flat = chars_of(name);
    append_str(&mut flat, ".md");
    let mut nested = chars_of(name);
    append_str(&mut nested, "/SKILLS.md");
    (string_of(&flat), string_of(&nested))
}

/// Development builds force read-only Jira access at the MCP layer, whatever
/// the task: the Jira server of such a run has the read-only switch on. Only
/// a write of a release build gets a Jira server without it.
pub proof fn dev_builds_keep_jira_read_only(cfg: MuellerConfig, is_write: bool)
    requires
        cfg.jira is Some,
    ensures
        configured_servers(cfg, read_only_run(true, is_write))[0].env.contains(
            ("READ_ONLY_MODE"@, "true"@),
        ),
        forall|k: int|
            0 <= k < configured_servers(cfg, read_only_run(false, true))[0].env.len()
                ==> #[trigger] configured_servers(cfg, read_only_run(false, true))[0].env[k].0
                != "READ_ONLY_MODE"@,
{
    reveal_strlit("READ_ONLY_MODE");
    reveal_strlit("JIRA_URL");
    reveal_strlit("JIRA_USERNAME");
    reveal_strlit("JIRA_API_TOKEN");
    let s = configured_servers(cfg, true)[0];
    assert(s.env[s.env.len() - 1] == ("READ_ONLY_MODE"@, "true"@));
    let w = configured_servers(cfg, false)[0];
    assert(w.env.len() == 3);
    assert(w.env[0].0 == "JIRA_API_TOKEN"@ && w.env[1].0 == "JIRA_URL"@ && w.env[2].0
        == "JIRA_USERNAME"@);
    assert forall|k: int| 0 <= k < 3 implies #[trigger] w.env[k].0 != "READ_ONLY_MODE"@ by {
        assert(w.env[k].0[0] != "READ_ONLY_MODE"@[0]);
    }
}

} // verus!
