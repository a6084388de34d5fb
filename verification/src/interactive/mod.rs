//! The interactive terminal view: its areas, focus and topic history.
pub mod app;
pub mod binary;
pub mod details;
pub mod footer;
pub mod info_header;
pub mod keys;
pub mod layout;
pub mod mouse;
pub mod search;
pub mod topic_tree_entry;
pub mod ui;
pub mod mqtt_history;
pub mod mqtt_thread;
