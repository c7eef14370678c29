//! Decision logic of a desktop companion that mirrors the state of local agents.

pub mod text;
pub mod text_laws;
pub mod writing_laws;
pub mod seqs;
pub mod ordmap;
pub mod event;
pub mod state;
pub mod state_laws;
pub mod mode_laws;
pub mod session_laws;
pub mod snapshot_laws;
pub mod bubble_text;
pub mod bubble_stack;
pub mod bubble_laws;
pub mod speech_laws;
pub mod card_laws;
pub mod anim;
pub mod quantize;
pub mod quantize_laws;
pub mod palette_laws;
pub mod sheet;
pub mod sheet_laws;
pub mod config;
pub mod gui;
pub mod choice_laws;
pub mod report;
pub mod report_laws;
pub mod http;
pub mod http_laws;
pub mod json;
pub mod connectors;
pub mod call_laws;
