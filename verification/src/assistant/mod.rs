//! Editor assistant: edit proposals and their validation, their application to file contents, and
//! the event stream of a completion backend.

pub mod apply;
pub mod config;
pub mod edit_proposal;
pub mod json;
pub mod ollama;
pub mod service;

pub use config::{check_assistant_config, ConfigIssue};
pub use apply::{apply_file_replace_in_str, apply_one_to_utf8, EditApplyError};
pub use json::{merge_json_rfc7396_in_place, JsonValue};
pub use edit_proposal::{
    EditFileReplaceV2, EditOpV2, EditProposalEnvelopeV2, EditProposalValidationError, ReplaceRangeV2,
};
pub use service::{
    collect_tokens_simple, read_workspace_assistant_path_hint, try_recv_for, AssistantError, AssistantEvent, ChatMessage,
    EventReceiver,
    NoopBackend,
};
