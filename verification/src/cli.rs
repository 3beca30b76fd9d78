//! The command-line surface: the parsed arguments and the subcommands.
use vstd::prelude::*;

use crate::types::opt_view;

verus! {

/// The parsed command line.
pub struct Cli {
    /// The subcommand, when one was given.
    pub command: Option<Command>,
    /// Ask a quick question directly (free text, no subcommand).
    pub query: Option<String>,
    /// Re-embed changed methodology files into ChromaDB (incremental by default).
    pub refresh_embeddings: bool,
    /// Print the constructed payload as JSON and exit without running the agent.
    pub dump_payload: bool,
}

/// The subcommands.
pub enum Command {
    /// Log in to the language-model backend, then run setup
    Login,
    /// Configure Jira credentials and project settings
    Setup,
    /// Serve the local LangSmith-compatible trace dashboard
    Dashboard,
    /// Ask a question about current tickets or project status
    Ask { query: String },
    /// Start a new project from a brief
    Init { brief: String },
    /// Update a ticket: status, meeting notes, scope changes, reassignment
    Update { ticket: String },
    /// Trigger the daily standup relay
    Standup,
    /// Run a mid-sprint health check — returns on-track / at-risk / off-rails per ticket
    Health,
    /// Transcribe a meeting, extract action items, and push tasks to Jira
    Log { file: Option<String> },
    /// Generate a pre-meeting brief for the next calendar event
    Brief,
    /// Scan for drift, stale tickets, and slippage patterns across the sprint
    Scan,
    /// Generate a plain-English project summary for any audience
    Summarize,
    /// Generate an onboarding brief for a new team member joining mid-project
    Onboard { member: String },
    /// Close the project: schedule retro, archive board, trigger knowledge transfer
    Close,
    /// Manage autopilot behavioral directives
    Autopilot { command: AutopilotCommand },
}

/// The `autopilot` sub-subcommands.
pub enum AutopilotCommand {
    /// Add a new behavior on top of existing defaults
    Add { behavior: String },
    /// Replace a default behavior with an alternative
    Override { behavior: String },
    /// Remove or suppress a default behavior
    Less { behavior: String },
}

/// The model of an autopilot subcommand.
pub enum AutopilotView {
    Add { behavior: Seq<char> },
    Override { behavior: Seq<char> },
    Less { behavior: Seq<char> },
}

/// The model of a subcommand: its strings as character sequences.
pub enum CommandView {
    Login,
    Setup,
    Dashboard,
    Ask { query: Seq<char> },
    Init { brief: Seq<char> },
    Update { ticket: Seq<char> },
    Standup,
    Health,
    Log { file: Option<Seq<char>> },
    Brief,
    Scan,
    Summarize,
    Onboard { member: Seq<char> },
    Close,
    Autopilot { command: AutopilotView },
}

impl View for AutopilotCommand {
    type V = AutopilotView;

    open spec fn view(&self) -> AutopilotView {
        match self {
            AutopilotCommand::Add { behavior } => AutopilotView::Add { behavior: behavior@ },
            AutopilotCommand::Override { behavior } => AutopilotView::Override {
                behavior: behavior@,
            },
            AutopilotCommand::Less { behavior } => AutopilotView::Less { behavior: behavior@ },
        }
    }
}

impl View for Command {
    type V = CommandView;

    open spec fn view(&self) -> CommandView {
        match self {
            Command::Login => CommandView::Login,
            Command::Setup => CommandView::Setup,
            Command::Dashboard => CommandView::Dashboard,
            Command::Ask { query } => CommandView::Ask { query: query@ },
            Command::Init { brief } => CommandView::Init { brief: brief@ },
            Command::Update { ticket } => CommandView::Update { ticket: ticket@ },
            Command::Standup => CommandView::Standup,
            Command::Health => CommandView::Health,
            Command::Log { file } => CommandView::Log { file: opt_view(*file) },
            Command::Brief => CommandView::Brief,
            Command::Scan => CommandView::Scan,
            Command::Summarize => CommandView::Summarize,
            Command::Onboard { member } => CommandView::Onboard { member: member@ },
            Command::Close => CommandView::Close,
            Command::Autopilot { command } => CommandView::Autopilot { command: command@ },
        }
    }
}

} // verus!
