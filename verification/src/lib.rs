//! Context accounting and system-prompt assembly for the goose agent:
//! text utilities, the conversation model, token counting with an LRU
//! cache, the context report, the system prompt builder and the model
//! configuration rules.

pub mod budgets;
pub mod context_report;
pub mod extras_map;
pub mod message;
pub mod model_config;
pub mod prompt_context;
pub mod prompt_manager;
pub mod report_messages;
pub mod report_tools;
pub mod text;
pub mod token_counter;
pub mod tool_groups;
