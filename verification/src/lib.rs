//! The logic of a tunnel that is spoken over authenticated peer-to-peer connections, and of the
//! desktop app that runs it.
//!
//! The library decides and computes. Sockets, files, the keychain and the screen belong to its
//! callers: they hand it plain values, and carry out what it says.
//!
//! - Protocol: [`wire`], [`signaling`], [`transport`], [`endpoint`], [`auth`], and the laws in
//!   [`protocol_laws`].
//! - Forwards: [`forward`], [`listener`], [`forward_manager`], [`forwards`], and the laws in
//!   [`forward_laws`], [`network_laws`].
//! - Identity and quick mode: [`secret`], [`prompt`], [`ids`], and the laws in [`output_laws`].
//! - Keys and profiles: [`config`], [`roster`], [`records`], [`store`], [`portable`], [`merge`],
//!   [`naming`], [`ports`], and the laws in [`list_laws`], [`store_laws`], [`merge_laws`].
//! - Desktop app: [`forms`], [`key_form`], [`forward_form`], [`session`], [`message`], [`app`],
//!   [`app_update`]. Laws of the forms: [`form_laws`], [`edit_laws`], [`field_laws`],
//!   [`profile_field_laws`]. Laws of the app: [`app_laws`], [`app_port_laws`],
//!   [`app_error_laws`], [`failure_laws`], [`message_laws`], [`window_laws`], [`import_laws`].
//! - Ground: [`text`], [`table`], and the laws in [`text_laws`].

pub mod app;
pub mod app_error_laws;
pub mod app_laws;
pub mod app_port_laws;
pub mod app_update;
pub mod auth;
pub mod config;
pub mod edit_laws;
pub mod endpoint;
pub mod failure_laws;
pub mod field_laws;
pub mod form_laws;
pub mod forms;
pub mod forward;
pub mod forward_form;
pub mod forward_laws;
pub mod forward_manager;
pub mod forwards;
pub mod ids;
pub mod import_laws;
pub mod key_form;
pub mod list_laws;
pub mod listener;
pub mod merge;
pub mod merge_laws;
pub mod message;
pub mod message_laws;
pub mod naming;
pub mod network_laws;
pub mod output_laws;
pub mod portable;
pub mod ports;
pub mod profile_field_laws;
pub mod prompt;
pub mod protocol_laws;
pub mod records;
pub mod roster;
pub mod secret;
pub mod session;
pub mod signaling;
pub mod store;
pub mod store_laws;
pub mod table;
pub mod text;
pub mod text_laws;
pub mod transport;
pub mod window_laws;
pub mod wire;
