//! The reply-assistant core: chat-app detection, configuration resolution,
//! the streaming reply parser with `<think>` filtering, distillation rules,
//! keyboard-monitor state and the text handling around screenshots and OCR.
pub mod text;
pub mod auto_trigger;
pub mod config;
pub mod input_monitor;
pub mod platform;
pub mod storage;
pub mod trigger;
pub mod llm;
pub mod distill;
