//! Verified core of the Syntaxis code editor: editor state, text services,
//! Git text formats and the agent protocol rules.
use vstd::prelude::*;

pub mod text;
pub mod completion;
pub mod editor_config;
pub mod language;
pub mod language_service;
pub mod git_model;
pub mod conflict;
pub mod diff;
pub mod agent;
pub mod framing;
pub mod app_contracts;
pub mod buffer;
pub mod search;
pub mod app_shell;
pub mod bytes;
pub mod git_status;
pub mod git_parsing;
pub mod git_validation;
pub mod worktrees;
pub mod json;
pub mod agent_values;
pub mod agent_state;
pub mod agent_mapping;
pub mod agent_protocol;
pub mod agent_session;
pub mod agent_export;
pub mod diff_view;
pub mod tree;
pub mod notifications;
pub mod agent_workspace;
pub mod session_store;
pub mod project_tools;
pub mod git_commands;
pub mod agent_registry;
pub mod routes;
pub mod editor_edits;
pub mod project_templates;
pub mod lsp;

verus! {
}
