//! The single checks.
pub mod large_files;
pub mod llm_config;
pub mod llm_provider;
pub mod symlinks;
