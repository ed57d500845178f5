//! Verified core of the Gloss reading assistant: text handling, prompt
//! templates, server-sent-event framing, retry policy, OAuth sign-in,
//! proxy normalisation, settings updates, learner-profile merging, overlay
//! geometry and selection decisions.

pub mod agent;
pub mod diagnostics;
pub mod json;
pub mod network;
pub mod oauth;
pub mod overlay;
pub mod profile;
pub mod prompts;
pub mod responses;
pub mod selection;
pub mod settings;
pub mod text;
