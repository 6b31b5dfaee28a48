//! Client-side logic of the stream log: parsing and formatting of the values
//! that users type, bookkeeping of server subscriptions, and the ordering and
//! bookkeeping of event log entries and typing notifications.

pub mod client_state;
pub mod color;
pub mod connection;
pub mod subscription_type;
pub mod tab_assignment;
pub mod subscription_counts;
pub mod subscription_manager;
pub mod entry_editor;
pub mod entry_fields;
pub mod entry_numbering;
pub mod entry_parents;
pub mod error_data;
pub mod event_log;
pub mod event_state;
pub mod name_checks;
pub mod name_completion;
pub mod records;
pub mod registration;
pub mod time_field;
pub mod text;
pub mod server_errors;
pub mod shared_data;
pub mod std_parse;
pub mod duration;
pub mod typing;
pub mod typing_summary;
