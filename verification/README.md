# jarvis

The verified core of Jarvis, a desktop assistant for a developer who works
with a task tracker (ZenTao), a report server (FineReport), local git
repositories, chat channels (Telegram, QQ) and language models.

`src/` is a Verus library: every function carries a contract and is
proved. It holds the rules of the assistant:

- settings: the JSON tree, secrets moved to the key store and shown as a
  placeholder (`config_json`), completion from the defaults
  (`config_merge`), saved model profiles (`llm_profiles`), lists read from
  the settings files (`settings_lists`), `.env` values (`dotenv`);
- git: `git log` / `--numstat` parsing, commit filtering and ordering
  (`git_log`, `git`), linking commits to tasks (`commit_link`) and the
  model prompt for ambiguous commits (`commit_classifier`);
- the daily report: slot allocation and status flags (`daily_review`),
  grouping by business line (`review_groups`) and the report text
  (`review_text`);
- tasks: due-date alerts and reminders (`tasks`);
- chat: messages and prompts (`chat`), the agent loop (`agent`), tool
  schemas (`tool_schema`), the three model wire formats (`llm`,
  `completions`, `responses`) and streamed replies (`stream`);
- chat channels: routing rules (`router`, `channels`, `channel_flow`),
  reminders (`reminders`), QQ events (`qq_event`), redaction (`redact`);
- reports and costs: the FineReport session (`fine_report`,
  `fine_report_flow`), its HTML table (`report_table`), cost helpers
  (`cost`); deploy settings (`deploy`, `deploy_flow`); conversations,
  credentials and the helper daemon record.

`app/` is a command-line program around the library: file, network,
process and key-store access, the async loops, and the arithmetic on
hours, which is floating point. `tests/` exercises the library on
concrete values.
