//! Client-side codec for the store's binary wire protocol: values, variable
//! width integers, opcode-framed commands, message framing and replies.

pub mod albastream;
pub mod dynamic_int;
pub mod text;
pub mod types;
pub mod wire;
pub mod logical_operators;
pub mod conditions;
pub mod container;
pub mod command_format;
pub mod commands;
pub mod db_response;
pub mod message;
pub mod handler;
pub mod truncation;

