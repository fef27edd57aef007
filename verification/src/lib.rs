//! forge: a streaming-first terminal coding agent.
//!
//! The library holds the decisions and the data of the agent: the turn as a
//! state machine, the conversation's history, compaction, the three wire
//! protocols, permissions, sessions and the user interface's state. Network,
//! processes, storage and the terminal are outside.

pub mod agent_laws;
pub mod agent_loop;
pub mod answers;
pub mod anthropic;
pub mod approval;
pub mod budget;
pub mod compact;
pub mod config;
pub mod context;
pub mod error;
pub mod event;
pub mod history;
pub mod json;
pub mod message;
pub mod openai;
pub mod permissions;
pub mod protocol;
pub mod provider;
pub mod recovery;
pub mod registry;
pub mod responses;
pub mod runtime;
pub mod seqs;
pub mod session;
pub mod shell;
pub mod slots;
pub mod startup;
pub mod stream_laws;
pub mod support;
pub mod text;
pub mod traits;
pub mod tui_app;
pub mod turn_laws;
pub mod ui;
pub mod wire_laws;
