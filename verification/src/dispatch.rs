//! The decisions of the command-line entry point that need no process.
use vstd::prelude::*;

use crate::cli::{AutopilotCommand, AutopilotView};
use crate::config::EmbeddingProvider;
use crate::text::{append_str, chars_of, owned, string_of};
use crate::types::TaskType;

verus! {

/// The autopilot directive of a subcommand: the action word, a space, the behavior.
pub open spec fn directive_text(c: AutopilotView) -> Seq<char> {
    match c {
        AutopilotView::Add { behavior } => "add "@ + behavior,
        AutopilotView::Override { behavior } => "override "@ + behavior,
        AutopilotView::Less { behavior } => "less "@ + behavior,
    }
}

/// The autopilot directive of a subcommand (see `directive_text`).
pub fn autopilot_directive(cmd: &AutopilotCommand) -> (r: String)
    ensures
        r@ == directive_text(cmd@),
{
    let (word, behavior) = match cmd {
        AutopilotCommand::Add { behavior } => ("add ", behavior),
        AutopilotCommand::Override { behavior } => ("override ", behavior),
        AutopilotCommand::Less { behavior } => ("less ", behavior),
    };
    let mut v = chars_of(word);
    append_str(&mut v, behavior.as_str());
    string_of(&v)
}

pub const BRIEF_FILE_PROMPT: &'static str = "Read the file at this absolute path and use its contents as the \
    project brief: ";

/// The brief of `init`: when it names an existing file, an instruction to
/// read that file at its absolute path; otherwise the brief as given.
pub fn resolved_brief(brief: &str, existing_file: Option<&str>) -> (r: String)
    ensures
        match existing_file {
            Some(path) => r@ == BRIEF_FILE_PROMPT@ + path@,
            None => r@ == brief@,
        },
{
    match existing_file {
        Some(path) => {
            let mut v = chars_of(BRIEF_FILE_PROMPT);
            append_str(&mut v, path);
            string_of(&v)
        },
        None => owned(brief),
    }
}

/// Development builds refuse write commands; release builds refuse nothing.
pub fn write_blocked(dev_build: bool, task_type: TaskType) -> (r: bool)
    ensures
        r == (dev_build && !(task_type is Get)),
{
    dev_build && task_type.is_write()
}

/// Where the embedding script keeps the hashes of what it embedded.
pub fn methodology_cache_path() -> (r: &'static str)
    ensures
        r@ == "methodology/.embeddings_cache.json"@,
{
    "methodology/.embeddings_cache.json"
}

pub open spec fn spec_key_variable(p: EmbeddingProvider) -> Seq<char> {
    match p {
        EmbeddingProvider::Anthropic => "ANTHROPIC_API_KEY"@,
        EmbeddingProvider::OpenAI => "OPENAI_API_KEY"@,
        EmbeddingProvider::OpenRouter => "OPENROUTER_API_KEY"@,
    }
}

pub open spec fn spec_provider_name(p: EmbeddingProvider) -> Seq<char> {
    match p {
        EmbeddingProvider::Anthropic => "anthropic"@,
        EmbeddingProvider::OpenAI => "openai"@,
        EmbeddingProvider::OpenRouter => "openrouter"@,
    }
}

/// The environment variable that hands the embedding script its API key.
pub fn key_variable(p: EmbeddingProvider) -> (r: &'static str)
    ensures
        r@ == spec_key_variable(p),
{
    match p {
        EmbeddingProvider::Anthropic => "ANTHROPIC_API_KEY",
        EmbeddingProvider::OpenAI => "OPENAI_API_KEY",
        EmbeddingProvider::OpenRouter => "OPENROUTER_API_KEY",
    }
}

/// The provider's name as the embedding script expects it.
pub fn provider_name(p: EmbeddingProvider) -> (r: &'static str)
    ensures
        r@ == spec_provider_name(p),
{
    match p {
        EmbeddingProvider::Anthropic => "anthropic",
        EmbeddingProvider::OpenAI => "openai",
        EmbeddingProvider::OpenRouter => "openrouter",
    }
}

} // verus!
