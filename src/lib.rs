//! A terminal chat system: grapheme-aware text editing, the shared event
//! model and the state kept by the broadcast hub.
pub mod text;
pub mod wrap;
pub mod para;
pub mod editor;
pub mod text_field;
pub mod model;
pub mod viewer;
pub mod ids;
pub mod ui;
pub mod server;
pub mod protocol;
pub mod sender;
