# mueller

A project-management agent for the command line. Every inbound surface
(subcommands, free-text queries, Slack messages) becomes one prompt payload,
which the agent runs through a language model's command-line tool with Jira
and Slack reached over MCP.

## Layout

- `src/` — the library, verified with Verus:
  - `text`, `unicode`: character-level text operations and the named Unicode
    tables of the standard library;
  - `types`, `normalizer`, `cli`, `cli_adapter`, `slack_adapter`: the
    interface layer (normalisation, validation, task-type inference, goal
    extraction, command templates, command-word routing, Slack cleanup);
  - `config`, `agent`, `auth`, `observability`, `dispatch`: the decisions of
    setup, agent runs, login, tracing and the entry point, as functions from
    plain values to plain values.
- `tests/` — the tests of the library.
- `app/` — the program around it: argument parsing, files, processes, the
  network and the terminal.

## Running

The program starts the model's command-line tool named by the environment
variable `MUELLER_AGENT_CLI`.
