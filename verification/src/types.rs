//! The prompt payload that every inbound surface produces, and its parts.
use vstd::prelude::*;

verus! {

/// CRUD classification of a request, used to enforce the write guards.
#[derive(Debug, Clone, Copy, PartialEq, Eq, Structural)]
pub enum TaskType {
    Get,
    Insert,
    Update,
    Delete,
}

/// The lowercase name of each task type.
pub open spec fn task_type_name(t: TaskType) -> Seq<char> {
    match t {
        TaskType::Get => "get"@,
        TaskType::Insert => "insert"@,
        TaskType::Update => "update"@,
        TaskType::Delete => "delete"@,
    }
}

impl TaskType {
    /// Every task type but `Get` writes.
    pub fn is_write(&self) -> (r: bool)
        ensures
            r == !(*self is Get),
    {
        !matches!(self, TaskType::Get)
    }

    pub fn as_str(&self) -> (r: &'static str)
        ensures
            r@ == task_type_name(*self),
    {
        match self {
            TaskType::Get => "get",
            TaskType::Insert => "insert",
            TaskType::Update => "update",
            TaskType::Delete => "delete",
        }
    }
}

/// Surface that produced a payload.
#[derive(Debug, Clone)]
pub enum InterfaceSource {
    Cli,
    Slack { user_id: String, channel_id: String },
}

/// Why a free-text prompt was refused.
#[derive(Debug, Clone, PartialEq, Eq)]
pub enum PromptError {
    /// Nothing is left of the prompt after normalisation.
    Empty,
    /// The normalised prompt has `len` characters, more than `max`.
    TooLong { len: usize, max: usize },
}

/// Structured prompt package passed from the interface layer to the orchestration layer.
#[derive(Debug, Clone)]
pub struct PromptPayload {
    /// Unique request identifier, used for tracing.
    pub id: String,
    /// Surface that produced this payload.
    pub source: InterfaceSource,
    /// Unmodified text exactly as received from the user.
    pub raw_input: String,
    /// Cleaned, whitespace-normalised prompt ready for the LLM.
    pub normalized_prompt: String,
    /// One-sentence statement of what the user wants to achieve.
    pub goal: String,
    /// Optional background (e.g. Slack channel, PM style, prior session data).
    pub context: Option<String>,
    /// CRUD classification used to enforce dev/release write guards.
    pub task_type: TaskType,
    /// Skills/methodology file to inject into the system prompt.
    pub skill: Option<String>,
}

/// The model of a payload's surface.
pub enum SourceView {
    Cli,
    Slack { user_id: Seq<char>, channel_id: Seq<char> },
}

/// The model of a payload: every field but the random identifier.
pub struct PayloadView {
    pub source: SourceView,
    pub raw_input: Seq<char>,
    pub normalized_prompt: Seq<char>,
    pub goal: Seq<char>,
    pub context: Option<Seq<char>>,
    pub task_type: TaskType,
    pub skill: Option<Seq<char>>,
}

pub open spec fn opt_view(o: Option<String>) -> Option<Seq<char>> {
    match o {
        Some(s) => Some(s@),
        None => None,
    }
}

impl View for InterfaceSource {
    type V = SourceView;

    open spec fn view(&self) -> SourceView {
        match self {
            InterfaceSource::Cli => SourceView::Cli,
            InterfaceSource::Slack { user_id, channel_id } => SourceView::Slack {
                user_id: user_id@,
                channel_id: channel_id@,
            },
        }
    }
}

impl View for PromptPayload {
    type V = PayloadView;

    open spec fn view(&self) -> PayloadView {
        PayloadView {
            source: self.source@,
            raw_input: self.raw_input@,
            normalized_prompt: self.normalized_prompt@,
            goal: self.goal@,
            context: opt_view(self.context),
            task_type: self.task_type,
            skill: opt_view(self.skill),
        }
    }
}

/// A lowercase hexadecimal digit.
pub open spec fn is_hex_digit(c: char) -> bool {
    ('0' <= c && c <= '9') || ('a' <= c && c <= 'f')
}

/// A random (version 4) UUID in hyphenated form: 32 lowercase hex digits in
/// groups of 8-4-4-4-12, the version digit `4`, the variant digit one of
/// `8`, `9`, `a`, `b`.
pub open spec fn is_v4_id(id: Seq<char>) -> bool {
    &&& id.len() == 36
    &&& id[8] == '-' && id[13] == '-' && id[18] == '-' && id[23] == '-'
    &&& forall|i: int|
        0 <= i < 36 && i != 8 && i != 13 && i != 18 && i != 23 ==> is_hex_digit(#[trigger] id[i])
    &&& id[14] == '4'
    &&& id[19] == '8' || id[19] == '9' || id[19] == 'a' || id[19] == 'b'
}

/// A fresh random identifier: `Uuid::new_v4().to_string()` of the uuid crate.
/// The crate formats a UUID in its hyphenated form: 32 lowercase hex digits
/// in groups of 8-4-4-4-12; `new_v4` sets the version digit to `4` and the
/// two top bits of the variant digit to `10`. The contract states that shape;
/// which identifier comes is random and is not stated, so two calls may give
/// any two values of that shape.
#[verifier::external_body]
fn new_request_id() -> (id: String)
    ensures
        is_v4_id(id@),
{
    uuid::Uuid::new_v4().to_string()
}

impl PromptPayload {
    /// A payload with a fresh random identifier and the given fields.
    pub fn new(
        source: InterfaceSource,
        raw_input: String,
        normalized_prompt: String,
        goal: String,
        context: Option<String>,
        task_type: TaskType,
        skill: Option<String>,
    ) -> (p: Self)
        ensures
            p@ == (PayloadView {
                source: source@,
                raw_input: raw_input@,
                normalized_prompt: normalized_prompt@,
                goal: goal@,
                context: opt_view(context),
                task_type,
                skill: opt_view(skill),
            }),
            is_v4_id(p.id@),
    {
        PromptPayload {
            id: new_request_id(),
            source,
            raw_input,
            normalized_prompt,
            goal,
            context,
            task_type,
            skill,
        }
    }
}

} // verus!
