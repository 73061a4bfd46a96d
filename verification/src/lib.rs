//! Decision logic of a vocabulary-practice bot: the answer dictionary, the
//! configuration store, the translation page reader and the handling of the
//! learning server's replies.

pub mod text;
pub mod dictionary;
pub mod config_manager;
pub mod translator_patched;
pub mod numbers;
pub mod handler;
pub mod interface;
