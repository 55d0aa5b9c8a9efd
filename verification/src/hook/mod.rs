//! Hooks of the coding assistant.
pub mod user_prompt_submit;
