//! Session engine for a terminal conversation manager.
//!
//! The library is the verified core of the application: the screen state
//! machine (menu, conversation view, configuration view), the conversation
//! branch data model with its persistence codec, the settings model, and the
//! dispatch protocol that keeps the input loop responsive while a
//! text-generation request is outstanding.  Everything that touches the
//! terminal, the file system or the network lives outside the library and
//! talks to it through plain values.

pub mod ai;
pub mod ai_backend;
pub mod app;
pub mod chat_branch;
pub mod chat_structs;
pub mod chat_view;
pub mod codec;
pub mod dispatch;
pub mod main_menu;
pub mod settings;
pub mod text;
