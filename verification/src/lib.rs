//! Verified core of the Jarvis desktop assistant: text rules, chat-channel
//! routing, deploy configuration, git commit processing, report parsing and
//! the LLM wire-format adapters.

pub mod text;
pub mod channels;
pub mod router;
pub mod reminders;
pub mod git;
pub mod commit_link;
pub mod daily_review;
pub mod fine_report;
pub mod llm;
pub mod deploy;
pub mod agent;
pub mod tasks;
pub mod cost;
pub mod stream;
pub mod chat;
pub mod credentials;
pub mod conversations;
pub mod report_table;
pub mod responses;
pub mod completions;
pub mod tool_schema;
pub mod git_log;
pub mod config_json;
pub mod config_merge;
pub mod dotenv;
pub mod commit_classifier;
pub mod qq_event;
pub mod redact;
pub mod llm_profiles;
pub mod settings_lists;
pub mod channel_flow;
pub mod deploy_flow;
pub mod fine_report_flow;
pub mod review_groups;
pub mod review_text;
pub mod daemon;
