//! Topic, payload and history logic of an MQTT terminal client.
pub mod clean_retained;
pub mod cli;
pub mod decimal;
pub mod format;
pub mod interactive;
pub mod json_view;
pub mod log;
pub mod mqtt;
pub mod payload;
pub mod publish;
pub mod read_one;
pub mod text;
pub mod topic;
pub mod topic_logic;
pub mod topic_view;
