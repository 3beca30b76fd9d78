use mueller::agent::{self, ReleaseEvent, ReleaseStage};
use mueller::auth;
use mueller::cli::{AutopilotCommand, Command};
use mueller::cli_adapter;
use mueller::config::{
    self, DeliveryMode, EmbeddingConfig, EmbeddingProvider, JiraConfig, MuellerConfig, ObservabilityConfig,
    SlackConfig,
};
use mueller::dispatch;
use mueller::normalizer;
use mueller::observability::{self, BackendEnv};
use mueller::slack_adapter::{self, SlackMessage};
use mueller::types::{InterfaceSource, PromptError, PromptPayload, TaskType};

// ── normalizer ───────────────────────────────────────────────────────────────

#[test]
fn normalize_is_idempotent_on_examples() {
    let samples = [
        "  hello \t world  \n\n\n  second   line \n",
        "\u{200B}a\u{0007}b\tc\r\nd",
        "",
        "\n\n\n",
        "one\n\ntwo\n\n\nthree",
    ];
    for s in samples {
        let once = normalizer::normalize(s);
        assert_eq!(normalizer::normalize(&once), once);
    }
}

#[test]
fn normalize_drops_carriage_returns_and_blank_edges() {
    assert_eq!(normalizer::normalize("\n\n  a  b \r\n\r\n\r\n c \n\n"), "a b\n\nc");
}

#[test]
fn normalize_removes_every_zero_width_character() {
    assert_eq!(normalizer::normalize("x\u{200B}\u{200C}\u{200D}\u{2060}\u{FEFF}y"), "xy");
}

#[test]
fn validate_accepts_exactly_the_maximum_length() {
    let s = "a".repeat(normalizer::MAX_PROMPT_CHARS);
    assert_eq!(normalizer::validate(&s), Ok(()));
}

#[test]
fn validate_reports_length_in_characters_not_bytes() {
    let s = "é".repeat(normalizer::MAX_PROMPT_CHARS + 1);
    assert_eq!(
        normalizer::validate(&s),
        Err(PromptError::TooLong { len: normalizer::MAX_PROMPT_CHARS + 1, max: normalizer::MAX_PROMPT_CHARS })
    );
}

#[test]
fn infer_is_case_insensitive() {
    assert_eq!(normalizer::infer_task_type("DELETE the old epic"), TaskType::Delete);
    assert_eq!(normalizer::infer_task_type("Please Update PROJ-7"), TaskType::Update);
}

#[test]
fn infer_splits_words_at_punctuation() {
    assert_eq!(normalizer::infer_task_type("status?create!"), TaskType::Insert);
    assert_eq!(normalizer::infer_task_type("what is the address"), TaskType::Get);
}

#[test]
fn infer_multi_word_keyword_needs_adjacent_words() {
    assert_eq!(normalizer::infer_task_type("close the project"), TaskType::Get);
    assert_eq!(normalizer::infer_task_type("please close project now"), TaskType::Delete);
    assert_eq!(normalizer::infer_task_type("close ticket 12"), TaskType::Update);
}

#[test]
fn extract_goal_ends_sentence_at_end_of_line_punctuation() {
    assert_eq!(normalizer::extract_goal("Ship it!"), "Ship it");
}

#[test]
fn extract_goal_keeps_punctuation_only_line() {
    assert_eq!(normalizer::extract_goal("?"), "?");
}

#[test]
fn extract_goal_truncates_to_exact_length_with_ellipsis() {
    let input = "word ".repeat(40);
    let goal = normalizer::extract_goal(input.trim());
    // 120 characters of "word word ...", trailing space dropped, then the ellipsis.
    let expected = format!("{}…", "word ".repeat(24).trim_end());
    assert_eq!(goal, expected);
    assert_eq!(goal.chars().count(), 120);
}

#[test]
fn extract_goal_of_exactly_the_maximum_is_not_truncated() {
    let input = "x".repeat(120);
    assert_eq!(normalizer::extract_goal(&input), input);
}

// ── command-line adapter ─────────────────────────────────────────────────────

#[test]
fn parse_command_word_lowercases_and_strips_punctuation() {
    assert!(matches!(cli_adapter::parse_command_word("HEALTH!"), Some(Command::Health)));
    assert!(matches!(cli_adapter::parse_command_word("  Scan  "), Some(Command::Scan)));
}

#[test]
fn parse_command_word_argument_verbs_need_text() {
    assert!(cli_adapter::parse_command_word("ask").is_none());
    assert!(cli_adapter::parse_command_word("onboard").is_none());
    match cli_adapter::parse_command_word("Onboard   Dana Lee ") {
        Some(Command::Onboard { member }) => assert_eq!(member, "Dana Lee"),
        _ => panic!("expected onboard"),
    }
}

#[test]
fn parse_command_word_bare_log_has_no_file() {
    assert!(matches!(cli_adapter::parse_command_word("log"), Some(Command::Log { file: None })));
    assert!(cli_adapter::parse_command_word("log the meeting").is_none());
}

#[test]
fn parse_command_word_unknown_verb_is_none() {
    assert!(cli_adapter::parse_command_word("deploy now").is_none());
    assert!(cli_adapter::parse_command_word("").is_none());
}

#[test]
fn raw_query_command_word_keeps_whole_raw_input() {
    let p = cli_adapter::from_raw_query("  update   PROJ-9 status ").unwrap();
    assert_eq!(p.raw_input, "  update   PROJ-9 status ");
    assert_eq!(p.task_type, TaskType::Update);
}

#[test]
fn raw_query_whitespace_only_is_empty_error() {
    assert_eq!(cli_adapter::from_raw_query(" \t\n \u{200B} ").unwrap_err(), PromptError::Empty);
}

#[test]
fn payload_id_has_uuid_v4_shape() {
    let p = cli_adapter::from_command(&Command::Brief);
    let id: Vec<char> = p.id.chars().collect();
    assert_eq!(id.len(), 36);
    for i in [8, 13, 18, 23] {
        assert_eq!(id[i], '-');
    }
    assert_eq!(id[14], '4');
    assert!("89ab".contains(id[19]));
    assert!(id.iter().all(|c| *c == '-' || c.is_ascii_digit() || ('a'..='f').contains(c)));
}

#[test]
fn payload_new_keeps_fields() {
    let p = PromptPayload::new(
        InterfaceSource::Cli,
        "raw".to_string(),
        "norm".to_string(),
        "goal".to_string(),
        Some("ctx".to_string()),
        TaskType::Update,
        Some("skill".to_string()),
    );
    assert_eq!(p.raw_input, "raw");
    assert_eq!(p.normalized_prompt, "norm");
    assert_eq!(p.goal, "goal");
    assert_eq!(p.context.as_deref(), Some("ctx"));
    assert_eq!(p.task_type, TaskType::Update);
    assert_eq!(p.skill.as_deref(), Some("skill"));
}

#[test]
fn housekeeping_commands_use_their_label() {
    let p = cli_adapter::from_command(&Command::Dashboard);
    assert_eq!(p.raw_input, "dashboard");
    assert_eq!(p.normalized_prompt, "dashboard");
    assert_eq!(p.goal, "dashboard");
    assert_eq!(p.task_type, TaskType::Get);
    assert!(p.skill.is_none());
}

// ── Slack adapter ────────────────────────────────────────────────────────────

fn message(text: &str) -> SlackMessage {
    SlackMessage { user_id: "U1".to_string(), channel_id: "C1".to_string(), text: text.to_string() }
}

#[test]
fn slack_plain_text_rewrites_user_mention() {
    assert_eq!(slack_adapter::plain_text("ping <@U42> please"), "ping @U42 please");
}

#[test]
fn slack_plain_text_decodes_all_entities() {
    assert_eq!(slack_adapter::plain_text("a &lt;b&gt; &amp; c"), "a <b> & c");
}

#[test]
fn slack_empty_message_is_rejected() {
    assert_eq!(slack_adapter::from_message(&message("   ")).unwrap_err(), PromptError::Empty);
}

#[test]
fn slack_over_length_message_is_rejected() {
    let text = "z".repeat(normalizer::MAX_PROMPT_CHARS + 5);
    assert_eq!(
        slack_adapter::from_message(&message(&text)).unwrap_err(),
        PromptError::TooLong { len: normalizer::MAX_PROMPT_CHARS + 5, max: normalizer::MAX_PROMPT_CHARS }
    );
}

// ── configuration ────────────────────────────────────────────────────────────

#[test]
fn jira_config_trims_slashes_and_uppercases_key() {
    let j = config::jira_config("https://acme.atlassian.net///", "a@b.c".to_string(), "tok".to_string(), "proj");
    assert_eq!(j.url, "https://acme.atlassian.net");
    assert_eq!(j.email, "a@b.c");
    assert_eq!(j.api_token, "tok");
    assert_eq!(j.project_key, "PROJ");
}

#[test]
fn slack_config_channel_drops_leading_hashes() {
    let s = config::slack_config("xoxb".to_string(), "T1".to_string(), 0, "##pm-updates");
    assert_eq!(s.destination, "pm-updates");
    assert_eq!(s.delivery_mode, DeliveryMode::Channel);
    assert_eq!(s.bot_token, "xoxb");
    assert_eq!(s.team_id, "T1");
}

#[test]
fn slack_config_direct_message_keeps_member_id() {
    let s = config::slack_config("xoxb".to_string(), "T1".to_string(), 1, "#U0123");
    assert_eq!(s.destination, "#U0123");
    assert_eq!(s.delivery_mode, DeliveryMode::DirectMessage);
}

#[test]
fn embedding_choice_maps_menu_options() {
    assert_eq!(config::embedding_choice(0), Some(EmbeddingProvider::Anthropic));
    assert_eq!(config::embedding_choice(1), Some(EmbeddingProvider::OpenAI));
    assert_eq!(config::embedding_choice(2), Some(EmbeddingProvider::OpenRouter));
    assert_eq!(config::embedding_choice(3), None);
}

#[test]
fn key_hints_per_provider() {
    assert_eq!(config::key_hint(EmbeddingProvider::Anthropic), "sk-ant-api03-...");
    assert_eq!(config::key_hint(EmbeddingProvider::OpenAI), "sk-...");
    assert_eq!(config::key_hint(EmbeddingProvider::OpenRouter), "sk-or-...");
}

fn jira() -> JiraConfig {
    JiraConfig {
        url: "https://j".to_string(),
        email: "e@x".to_string(),
        api_token: "t".to_string(),
        project_key: "P".to_string(),
    }
}

fn slack(mode: DeliveryMode, destination: &str) -> SlackConfig {
    SlackConfig {
        bot_token: "xoxb-1".to_string(),
        team_id: "T9".to_string(),
        destination: destination.to_string(),
        delivery_mode: mode,
    }
}

#[test]
fn run_setup_keeps_slack_only_in_slack_mode() {
    let cli = config::run_setup(0, jira(), Some(slack(DeliveryMode::Channel, "pm")), None, None);
    assert!(cli.slack.is_none());
    assert!(cli.jira.is_some());
    let relay = config::run_setup(
        1,
        jira(),
        Some(slack(DeliveryMode::Channel, "pm")),
        Some(EmbeddingConfig { provider: EmbeddingProvider::OpenAI, api_key: "k".to_string() }),
        config::observability_choice(0, None),
    );
    assert_eq!(relay.slack.unwrap().destination, "pm");
    assert_eq!(relay.embedding.unwrap().provider, EmbeddingProvider::OpenAI);
    assert_eq!(relay.observability.unwrap().endpoint, "http://127.0.0.1:6007");
    assert!(relay.model.is_none());
    assert!(config::wants_slack(1) && !config::wants_slack(0) && !config::wants_slack(2));
}

#[test]
fn parse_choice_accepts_trimmed_numbers_in_range() {
    assert_eq!(config::parse_choice(" 2 \n", 4), Some(1));
    assert_eq!(config::parse_choice("+3", 4), Some(2));
    assert_eq!(config::parse_choice("4", 4), Some(3));
}

#[test]
fn parse_choice_rejects_out_of_range_and_garbage() {
    assert_eq!(config::parse_choice("0", 4), None);
    assert_eq!(config::parse_choice("5", 4), None);
    assert_eq!(config::parse_choice("-1", 4), None);
    assert_eq!(config::parse_choice("two", 4), None);
    assert_eq!(config::parse_choice("", 4), None);
    assert_eq!(config::parse_choice("+", 4), None);
    assert_eq!(config::parse_choice("1 2", 4), None);
    assert_eq!(config::parse_choice("99999999999999999999999999", 4), None);
}

#[test]
fn parse_usize_reads_the_largest_value() {
    let max: Vec<char> = usize::MAX.to_string().chars().collect();
    assert_eq!(config::parse_usize(&max), Some(usize::MAX));
    let over: Vec<char> = format!("{}0", usize::MAX).chars().collect();
    assert_eq!(config::parse_usize(&over), None);
}

fn server_env(s: &config::McpServer) -> Vec<(String, String)> {
    s.env.clone()
}

#[test]
fn mcp_servers_read_only_jira_gets_switch() {
    let cfg = MuellerConfig {
        jira: Some(jira()),
        slack: Some(slack(DeliveryMode::DirectMessage, "U1")),
        embedding: None,
        observability: None,
        model: None,
    };
    let ro = config::mcp_servers(&cfg, true);
    assert_eq!(ro.len(), 2);
    assert_eq!(ro[0].name, "jira");
    assert_eq!(ro[0].command, "uvx");
    assert_eq!(ro[0].args, vec!["mcp-atlassian".to_string()]);
    assert_eq!(
        server_env(&ro[0]),
        vec![
            ("JIRA_API_TOKEN".to_string(), "t".to_string()),
            ("JIRA_URL".to_string(), "https://j".to_string()),
            ("JIRA_USERNAME".to_string(), "e@x".to_string()),
            ("READ_ONLY_MODE".to_string(), "true".to_string()),
        ]
    );
    assert_eq!(ro[1].name, "slack");
    assert_eq!(ro[1].command, "npx");
    assert_eq!(ro[1].args, vec!["-y".to_string(), "@modelcontextprotocol/server-slack".to_string()]);
    assert_eq!(
        server_env(&ro[1]),
        vec![("SLACK_BOT_TOKEN".to_string(), "xoxb-1".to_string()), ("SLACK_TEAM_ID".to_string(), "T9".to_string())]
    );
    let rw = config::mcp_servers(&cfg, false);
    assert_eq!(rw[0].env.len(), 3);
}

#[test]
fn mcp_servers_empty_without_jira_or_slack() {
    let cfg = MuellerConfig::default();
    assert!(config::mcp_servers(&cfg, true).is_empty());
}

// ── agent ────────────────────────────────────────────────────────────────────

#[test]
fn system_prompt_without_extras_is_base_prompt() {
    assert_eq!(agent::system_prompt(None, None, None), agent::SYSTEM_PROMPT);
}

#[test]
fn system_prompt_composes_skills_and_channel_relay() {
    let s = slack(DeliveryMode::Channel, "pm-updates");
    let p = agent::system_prompt(Some("AUTO"), Some("SKILL"), Some(&s));
    let expected = format!(
        "{}\n\nAUTO\n\nSKILL\n\nSlack relay: when you have a final answer or summary to deliver, \
         also post it to the #pm-updates channel using the slack_post_message tool with channel \"pm-updates\".",
        agent::SYSTEM_PROMPT
    );
    assert_eq!(p, expected);
}

#[test]
fn system_prompt_direct_message_relay() {
    let s = slack(DeliveryMode::DirectMessage, "U0123");
    let p = agent::system_prompt(None, None, Some(&s));
    assert!(p.ends_with(
        "also post it to the user via direct message using the slack_post_message tool with channel \"U0123\"."
    ));
}

#[test]
fn read_only_and_plan_prompts_extend_the_system_prompt() {
    assert_eq!(agent::read_only_system_prompt("S"), format!("S{}", agent::READ_ONLY_DIRECTIVE));
    assert_eq!(agent::plan_system_prompt("S"), format!("S{}", agent::PLAN_DIRECTIVE));
}

#[test]
fn read_only_mode_table() {
    assert!(agent::read_only_mode(true, true));
    assert!(agent::read_only_mode(true, false));
    assert!(agent::read_only_mode(false, false));
    assert!(!agent::read_only_mode(false, true));
}

#[test]
fn agent_args_in_order() {
    assert_eq!(agent::agent_args("p", "s", None, None), vec!["-p", "p", "--system-prompt", "s"]);
    assert_eq!(
        agent::agent_args("p", "s", Some("/m.json"), Some("sonnet")),
        vec!["-p", "p", "--system-prompt", "s", "--model", "sonnet", "--mcp-config", "/m.json"]
    );
}

#[test]
fn failure_detail_prefers_stderr_then_stdout_then_status() {
    assert_eq!(agent::failure_detail("  boom \n", "out", "1"), "boom");
    assert_eq!(agent::failure_detail(" \n", " out ", "1"), "out");
    assert_eq!(agent::failure_detail("", "\t", "exit status: 2"), "exit code exit status: 2");
}

#[test]
fn is_affirmative_accepts_y_and_yes_in_any_case() {
    assert!(agent::is_affirmative("y\n"));
    assert!(agent::is_affirmative("  YES "));
    assert!(agent::is_affirmative("Yes"));
    assert!(!agent::is_affirmative("yeah"));
    assert!(!agent::is_affirmative("n"));
    assert!(!agent::is_affirmative(""));
}

#[test]
fn with_directive_appends_list_item() {
    assert_eq!(agent::with_directive("# Autopilot", "add be brief"), "# Autopilot\n- add be brief");
}

#[test]
fn skill_files_flat_then_nested() {
    let (flat, nested) = agent::skill_files("active-sprint");
    assert_eq!(flat, "active-sprint.md");
    assert_eq!(nested, "active-sprint/SKILLS.md");
}

// ── credentials ──────────────────────────────────────────────────────────────

#[test]
fn find_setup_token_takes_first_matching_line_trimmed() {
    let out = "Visit the page\n  sk-ant-oat01-abc123  \nsk-ant-oat01-second\n";
    assert_eq!(auth::find_setup_token(out).as_deref(), Some("sk-ant-oat01-abc123"));
}

#[test]
fn find_setup_token_none_without_prefix() {
    assert_eq!(auth::find_setup_token("no token here\nsk-ant-api03-x"), None);
    assert_eq!(auth::find_setup_token(""), None);
}

// ── observability ────────────────────────────────────────────────────────────

fn env(project: Option<&str>, ls_key: Option<&str>, lc_key: Option<&str>, endpoint: Option<&str>) -> BackendEnv {
    BackendEnv {
        project: project.map(String::from),
        langsmith_api_key: ls_key.map(String::from),
        langchain_api_key: lc_key.map(String::from),
        endpoint: endpoint.map(String::from),
    }
}

#[test]
fn backend_from_configuration_wins() {
    let obs = ObservabilityConfig {
        endpoint: "http://localhost:6007//".to_string(),
        api_key: None,
        project: "p".to_string(),
    };
    let b = observability::resolve_backend(Some(&obs), &env(Some("q"), Some("k"), None, Some("http://e"))).unwrap();
    assert_eq!(b.endpoint, "http://localhost:6007");
    assert_eq!(b.api_key, None);
    assert_eq!(b.project, "p");
}

#[test]
fn backend_with_key_defaults_to_hosted_endpoint() {
    let b = observability::resolve_backend(None, &env(None, None, Some("lc"), None)).unwrap();
    assert_eq!(b.endpoint, config::LANGSMITH_ENDPOINT);
    assert_eq!(b.api_key.as_deref(), Some("lc"));
    assert_eq!(b.project, "mueller");
}

#[test]
fn backend_langsmith_key_preferred_over_langchain_key() {
    let b = observability::resolve_backend(None, &env(Some("proj"), Some("ls"), Some("lc"), Some("http://x/"))).unwrap();
    assert_eq!(b.api_key.as_deref(), Some("ls"));
    assert_eq!(b.endpoint, "http://x");
    assert_eq!(b.project, "proj");
}

#[test]
fn backend_endpoint_without_key_is_local_relay() {
    let b = observability::resolve_backend(None, &env(None, None, None, Some("http://127.0.0.1:6007/"))).unwrap();
    assert_eq!(b.endpoint, "http://127.0.0.1:6007");
    assert_eq!(b.api_key, None);
}

#[test]
fn no_backend_without_configuration_or_environment() {
    assert!(observability::resolve_backend(None, &env(Some("p"), None, None, None)).is_none());
}

#[test]
fn child_dotted_order_joins_with_dot() {
    assert_eq!(observability::child_dotted_order("20240101T000000000000Zroot", "seg"), "20240101T000000000000Zroot.seg");
}

#[test]
fn runs_url_for_create_and_update() {
    assert_eq!(observability::runs_url("http://h", None), "http://h/runs");
    assert_eq!(observability::runs_url("http://h", Some("abc")), "http://h/runs/abc");
}

#[test]
fn sender_warns_once_over_failures() {
    let outcomes = [true, false, false, true, false];
    let mut warned = false;
    let mut printed = 0;
    for ok in outcomes {
        let (print, now) = observability::warn_step(warned, ok);
        if print {
            printed += 1;
        }
        warned = now;
    }
    assert_eq!(printed, 1);
    let (print, now) = observability::warn_step(false, true);
    assert!(!print && !now);
}

// ── entry-point decisions ────────────────────────────────────────────────────

#[test]
fn autopilot_directives_name_their_action() {
    let add = AutopilotCommand::Add { behavior: "be brief".to_string() };
    let over = AutopilotCommand::Override { behavior: "x".to_string() };
    let less = AutopilotCommand::Less { behavior: "y".to_string() };
    assert_eq!(dispatch::autopilot_directive(&add), "add be brief");
    assert_eq!(dispatch::autopilot_directive(&over), "override x");
    assert_eq!(dispatch::autopilot_directive(&less), "less y");
}

#[test]
fn resolved_brief_reads_existing_file() {
    assert_eq!(
        dispatch::resolved_brief("brief.md", Some("/home/u/brief.md")),
        "Read the file at this absolute path and use its contents as the project brief: /home/u/brief.md"
    );
    assert_eq!(dispatch::resolved_brief("Build a CRM", None), "Build a CRM");
}

#[test]
fn write_blocked_only_for_dev_writes() {
    assert!(dispatch::write_blocked(true, TaskType::Insert));
    assert!(dispatch::write_blocked(true, TaskType::Delete));
    assert!(!dispatch::write_blocked(true, TaskType::Get));
    assert!(!dispatch::write_blocked(false, TaskType::Update));
}

#[test]
fn embedding_script_environment() {
    assert_eq!(dispatch::key_variable(EmbeddingProvider::Anthropic), "ANTHROPIC_API_KEY");
    assert_eq!(dispatch::key_variable(EmbeddingProvider::OpenAI), "OPENAI_API_KEY");
    assert_eq!(dispatch::key_variable(EmbeddingProvider::OpenRouter), "OPENROUTER_API_KEY");
    assert_eq!(dispatch::provider_name(EmbeddingProvider::Anthropic), "anthropic");
    assert_eq!(dispatch::provider_name(EmbeddingProvider::OpenAI), "openai");
    assert_eq!(dispatch::provider_name(EmbeddingProvider::OpenRouter), "openrouter");
    assert_eq!(dispatch::methodology_cache_path(), "methodology/.embeddings_cache.json");
}

#[test]
fn root_run_is_its_own_trace() {
    let r = observability::root_run("id1", "20240102T030405000006Z", "mueller.run", "2024-01-02T03:04:05.000006Z", "proj");
    assert_eq!(r.id, "id1");
    assert_eq!(r.trace_id, "id1");
    assert_eq!(r.dotted_order, "20240102T030405000006Zid1");
    assert!(r.parent_run_id.is_none());
    assert_eq!(r.name, "mueller.run");
    assert_eq!(r.run_type, "chain");
    assert_eq!(r.start_time, "2024-01-02T03:04:05.000006Z");
    assert_eq!(r.session_name, "proj");
}

#[test]
fn child_run_hangs_under_its_parent() {
    let root = observability::span_of(&observability::root_run("r", "T0", "n", "s", "p"));
    assert_eq!(root.id, "r");
    assert_eq!(root.dotted_order, "T0r");
    let c = observability::child_run("r", &root, "c", "T1", "agent_processing", "llm", "s1", "p");
    assert_eq!(c.dotted_order, "T0r.T1c");
    assert_eq!(c.parent_run_id.as_deref(), Some("r"));
    assert_eq!(c.trace_id, "r");
    assert_eq!(c.run_type, "llm");
    let end = observability::run_end("r", observability::span_of(&c), "e");
    assert_eq!(end.run_id, "c");
    assert_eq!(end.dotted_order, "T0r.T1c");
    assert_eq!(end.trace_id, "r");
    assert_eq!(end.end_time, "e");
}

fn visible(s: &str) -> String {
    let zero_width = ['\u{200B}', '\u{200C}', '\u{200D}', '\u{2060}', '\u{FEFF}'];
    s.chars().filter(|c| !c.is_whitespace() && !c.is_control() && !zero_width.contains(c)).collect()
}

#[test]
fn normalize_keeps_visible_characters_in_order() {
    let samples = [
        "  Plan\u{200B} the\tQ3   roadmap\r\n\n\n  for  PROJ-12 \u{0007}!  ",
        "a\u{00A0}b\u{2003}c\nd",
        "\n\n",
    ];
    for s in samples {
        assert_eq!(visible(&normalizer::normalize(s)), visible(s));
    }
}

#[test]
fn slack_and_command_line_agree_on_the_same_text() {
    let text = "<@UBOT> please &lt;update&gt; the sprint <#C1|general>";
    let from_slack = slack_adapter::from_message(&message(text)).unwrap();
    let from_cli = cli_adapter::from_raw_query(&slack_adapter::plain_text(text)).unwrap();
    assert_eq!(from_slack.normalized_prompt, from_cli.normalized_prompt);
    assert_eq!(from_slack.goal, from_cli.goal);
    assert_eq!(from_slack.task_type, from_cli.task_type);
    assert_eq!(from_slack.skill, from_cli.skill);
    let bare = slack_adapter::from_message(&message("<@UBOT> health")).unwrap();
    let cli = cli_adapter::from_raw_query("health").unwrap();
    assert_eq!(bare.normalized_prompt, cli.normalized_prompt);
    assert_eq!(bare.skill, cli.skill);
}

#[test]
fn command_prompts_are_already_normal() {
    let commands = vec![
        Command::Ask { query: "  what   is\n\n\nblocked ".to_string() },
        Command::Init { brief: "Build\ta CRM\n\n\nfor sales".to_string() },
        Command::Update { ticket: " PROJ-1 done ".to_string() },
        Command::Log { file: Some("notes.txt".to_string()) },
        Command::Onboard { member: "  Dana ".to_string() },
        Command::Standup,
        Command::Close,
    ];
    for c in &commands {
        let p = cli_adapter::from_command(c);
        assert_eq!(normalizer::normalize(&p.normalized_prompt), p.normalized_prompt);
    }
}

#[test]
fn dev_build_runs_keep_jira_read_only() {
    let cfg = MuellerConfig { jira: Some(jira()), slack: None, embedding: None, observability: None, model: None };
    for is_write in [true, false] {
        let servers = config::mcp_servers(&cfg, agent::read_only_mode(true, is_write));
        assert!(servers[0].env.contains(&("READ_ONLY_MODE".to_string(), "true".to_string())));
    }
    let release_write = config::mcp_servers(&cfg, agent::read_only_mode(false, true));
    assert!(release_write[0].env.iter().all(|(k, _)| k != "READ_ONLY_MODE"));
}

#[test]
fn user_text_stays_between_its_tags() {
    let brief = "  Build a CRM\n\n\n\nfor   the sales team ";
    let p = cli_adapter::from_command(&Command::Init { brief: brief.to_string() });
    assert!(p.normalized_prompt.ends_with("\n\n<brief>\nBuild a CRM\n\nfor the sales team\n</brief>"));
    let head = cli_adapter::INIT_PROMPT_HEAD;
    let instructions = &head[..head.len() - "\n\n<brief>\n".len()];
    assert_eq!(
        p.normalized_prompt,
        format!("{}\n\n<brief>\n{}\n</brief>", normalizer::normalize(instructions), normalizer::normalize(brief))
    );
    let u = cli_adapter::from_command(&Command::Update { ticket: "".to_string() });
    assert!(u.normalized_prompt.ends_with("\n\n<ticket>\n\n</ticket>"));
    let o = cli_adapter::from_command(&Command::Onboard { member: " Dana \n\n\n Lee ".to_string() });
    assert!(o.normalized_prompt.ends_with("\n\n<new_member>Dana\n\nLee</new_member>"));
}

#[test]
fn plain_slack_text_passes_through() {
    let text = "  what's blocking PROJ-4?  (ask @dana)";
    assert_eq!(slack_adapter::plain_text(text), text);
}

fn words_of(ws: &[&str]) -> Vec<Vec<char>> {
    ws.iter().map(|w| w.chars().collect()).collect()
}

#[test]
fn classify_words_checks_delete_then_update_then_insert() {
    assert_eq!(normalizer::classify_words(&words_of(&["close", "ticket", "and", "delete", "it"])), TaskType::Delete);
    assert_eq!(normalizer::classify_words(&words_of(&["close", "ticket"])), TaskType::Update);
    assert_eq!(normalizer::classify_words(&words_of(&["open", "ticket"])), TaskType::Insert);
    assert_eq!(normalizer::classify_words(&words_of(&["close", "the", "project"])), TaskType::Get);
    assert_eq!(normalizer::classify_words(&words_of(&[])), TaskType::Get);
}

#[test]
fn verb_command_matches_verbs_by_arity() {
    let none: Vec<char> = Vec::new();
    let rest: Vec<char> = "PROJ-1".chars().collect();
    let verb = |v: &str| -> Vec<char> { v.chars().collect() };
    assert!(matches!(cli_adapter::verb_command(&verb("health"), &none), Some(Command::Health)));
    assert!(cli_adapter::verb_command(&verb("health"), &rest).is_none());
    assert!(matches!(
        cli_adapter::verb_command(&verb("update"), &rest),
        Some(Command::Update { ticket }) if ticket == "PROJ-1"
    ));
    assert!(cli_adapter::verb_command(&verb("update"), &none).is_none());
    assert!(cli_adapter::verb_command(&verb("Health"), &none).is_none());
}

#[test]
fn confirms_only_lowercase_yes_words() {
    assert!(agent::confirms("y"));
    assert!(agent::confirms("yes"));
    assert!(!agent::confirms("YES"));
    assert!(!agent::confirms(" yes"));
}

#[test]
fn observability_menu_records_the_chosen_backend() {
    let local = config::observability_choice(0, Some("ignored".to_string())).unwrap();
    assert_eq!(local.endpoint, "http://127.0.0.1:6007");
    assert_eq!(local.api_key, None);
    assert_eq!(local.project, "mueller");
    let cloud = config::observability_choice(1, Some("ls-key".to_string())).unwrap();
    assert_eq!(cloud.endpoint, config::LANGSMITH_ENDPOINT);
    assert_eq!(cloud.api_key.as_deref(), Some("ls-key"));
    assert_eq!(cloud.project, "mueller");
    assert!(config::observability_choice(2, None).is_none());
    assert!(config::observability_needs_key(1) && !config::observability_needs_key(0) && !config::observability_needs_key(2));
    let b = observability::resolve_backend(Some(&cloud), &env(None, None, None, Some("http://elsewhere"))).unwrap();
    assert_eq!(b.endpoint, config::LANGSMITH_ENDPOINT);
    assert_eq!(b.api_key.as_deref(), Some("ls-key"));
}

#[test]
fn only_release_writes_take_the_release_flow() {
    assert_eq!(agent::run_mode(false, true), agent::RunMode::Release);
    assert_eq!(agent::run_mode(false, false), agent::RunMode::Direct);
    assert_eq!(agent::run_mode(true, true), agent::RunMode::Direct);
    assert_eq!(agent::run_mode(true, false), agent::RunMode::Direct);
}

#[test]
fn declined_plan_is_cancelled_with_its_path() {
    assert!(matches!(agent::after_review(true, "/p/plan-1.md"), agent::ReviewOutcome::Execute));
    match agent::after_review(false, "/p/plan-1.md") {
        agent::ReviewOutcome::Cancel { notice, result } => {
            assert_eq!(notice, "Cancelled. Plan retained at: /p/plan-1.md");
            assert_eq!(result, "Cancelled at plan review. Plan retained at: /p/plan-1.md");
        }
        agent::ReviewOutcome::Execute => panic!("expected a cancellation"),
    }
}

fn string_map(pairs: &[(&str, serde_json::Value)]) -> serde_json::Value {
    let mut m = serde_json::Map::new();
    for (k, v) in pairs {
        m.insert(k.to_string(), v.clone());
    }
    serde_json::Value::Object(m)
}

fn text_value(s: &str) -> serde_json::Value {
    serde_json::Value::String(s.to_string())
}

#[test]
fn mcp_config_text_is_serde_json_pretty_output() {
    let cfg = MuellerConfig {
        jira: Some(jira()),
        slack: Some(slack(DeliveryMode::Channel, "pm")),
        embedding: None,
        observability: None,
        model: None,
    };
    let text = config::mcp_config_text(&config::mcp_servers(&cfg, true));
    // The same servers built as serde_json values, in an order other than the
    // printed one, then pretty-printed as the original program did.
    let jira_value = string_map(&[
        (
            "env",
            string_map(&[
                ("READ_ONLY_MODE", text_value("true")),
                ("JIRA_URL", text_value("https://j")),
                ("JIRA_USERNAME", text_value("e@x")),
                ("JIRA_API_TOKEN", text_value("t")),
            ]),
        ),
        ("command", text_value("uvx")),
        ("args", serde_json::Value::Array(vec![text_value("mcp-atlassian")])),
    ]);
    let slack_value = string_map(&[
        ("command", text_value("npx")),
        (
            "args",
            serde_json::Value::Array(vec![text_value("-y"), text_value("@modelcontextprotocol/server-slack")]),
        ),
        (
            "env",
            string_map(&[("SLACK_TEAM_ID", text_value("T9")), ("SLACK_BOT_TOKEN", text_value("xoxb-1"))]),
        ),
    ]);
    let servers = string_map(&[("slack", slack_value), ("jira", jira_value)]);
    let whole = string_map(&[("mcpServers", servers)]);
    assert_eq!(text, serde_json::to_string_pretty(&whole).unwrap());
    assert!(text.starts_with("{\n  \"mcpServers\": {\n    \"jira\": {\n      \"args\": [\n        \"mcp-atlassian\"\n      ],"));
    assert_eq!(config::mcp_config_text(&Vec::new()), "{\n  \"mcpServers\": {}\n}");
}

#[test]
fn mcp_config_text_escapes_strings_as_json() {
    let tricky = "q\"b\\s/n\nt\tc\u{1}r\r\u{8}\u{c}é\u{7f}";
    let cfg = MuellerConfig {
        jira: Some(JiraConfig {
            url: tricky.to_string(),
            email: "e".to_string(),
            api_token: "t".to_string(),
            project_key: "P".to_string(),
        }),
        slack: None,
        embedding: None,
        observability: None,
        model: None,
    };
    let text = config::mcp_config_text(&config::mcp_servers(&cfg, false));
    assert!(text.contains(&serde_json::to_string(tricky).unwrap()));
    let value: serde_json::Value = serde_json::from_str(&text).unwrap();
    assert_eq!(value["mcpServers"]["jira"]["env"]["JIRA_URL"], tricky);
    assert_eq!(serde_json::to_string_pretty(&value).unwrap(), text);
}

#[test]
fn more_words_never_read_as_less_of_a_write() {
    let a = words_of(&["please", "update", "it"]);
    let b = words_of(&["then", "delete", "the", "rest"]);
    let mut ab = a.clone();
    ab.extend(b.clone());
    assert_eq!(normalizer::classify_words(&a), TaskType::Update);
    assert_eq!(normalizer::classify_words(&b), TaskType::Delete);
    assert_eq!(normalizer::classify_words(&ab), TaskType::Delete);
}

#[test]
fn trace_event_fields_use_the_protocol_keys() {
    let root = observability::root_run("r", "T0", "mueller.run", "s0", "p");
    let f = observability::start_fields(&root);
    let keys: Vec<&str> = f.iter().map(|(k, _)| k.as_str()).collect();
    assert_eq!(keys, vec!["id", "trace_id", "dotted_order", "name", "run_type", "start_time", "session_name"]);
    let span = observability::span_of(&root);
    let child = observability::child_run("r", &span, "c", "T1", "output", "chain", "s1", "p");
    let cf = observability::start_fields(&child);
    assert_eq!(cf.last().unwrap(), &("parent_run_id".to_string(), "r".to_string()));
    assert_eq!(cf[2], ("dotted_order".to_string(), "T0r.T1c".to_string()));
    let end = observability::run_end("r", span, "e0");
    assert_eq!(
        observability::end_fields(&end),
        vec![
            ("end_time".to_string(), "e0".to_string()),
            ("trace_id".to_string(), "r".to_string()),
            ("dotted_order".to_string(), "T0r".to_string()),
        ]
    );
    assert_eq!((observability::INPUTS_KEY, observability::OUTPUTS_KEY, observability::ERROR_KEY), ("inputs", "outputs", "error"));
}

#[test]
fn release_flow_executes_only_after_confirmation() {
    let reviewing = agent::release_step(ReleaseStage::Planning, ReleaseEvent::PlanSaved);
    assert_eq!(reviewing, ReleaseStage::Reviewing);
    assert_eq!(agent::release_step(reviewing, ReleaseEvent::Answered { confirmed: true }), ReleaseStage::Executing);
    assert_eq!(agent::release_step(reviewing, ReleaseEvent::Answered { confirmed: false }), ReleaseStage::Finished);
    assert_eq!(agent::release_step(ReleaseStage::Planning, ReleaseEvent::Answered { confirmed: true }), ReleaseStage::Finished);
    assert_eq!(agent::release_step(ReleaseStage::Executing, ReleaseEvent::Completed), ReleaseStage::Delivering);
    assert_eq!(agent::release_step(ReleaseStage::Delivering, ReleaseEvent::Completed), ReleaseStage::Finished);
    assert_eq!(agent::release_step(ReleaseStage::Executing, ReleaseEvent::Failed), ReleaseStage::Finished);
    assert_eq!(agent::release_step(ReleaseStage::Reviewing, ReleaseEvent::Failed), ReleaseStage::Finished);
}
