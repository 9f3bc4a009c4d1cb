//! A declarative-service translator: from operation declarations to one
//! validated route model, and from that model to a dispatch table, an
//! interface document and a client plan that agree with each other.
//!
//! The declarations are read from text (`lexer`, `surface`) or built as
//! values (`model`). Each operation's errors are resolved (`taxonomy`) and
//! its parameters classified (`arguments`); `model` builds one route per
//! operation and `validate` checks the whole model. `dispatch`, `document`
//! and `client` emit the three artifacts; `service` runs the whole
//! translation; `laws` states what holds across them. `bridge` holds the
//! calls into outside crates.
pub mod arguments;
pub mod bridge;
pub mod client;
pub mod dispatch;
pub mod document;
pub mod laws;
pub mod lexer;
pub mod method;
pub mod model;
pub mod responses;
pub mod serializer;
pub mod service;
pub mod surface;
pub mod taxonomy;
pub mod text;
pub mod validate;
