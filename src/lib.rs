//! A small markup-to-document compiler: a parser for a directive markup
//! language, a binding pass that expands data directives against records,
//! and renderers that turn the bound tree into HTML or plain text.

pub mod binder;
pub mod block;
pub mod clock;
pub mod config;
pub mod engine;
pub mod error;
pub mod html_renderer;
pub mod laws;
pub mod markup;
pub mod models;
pub mod number;
pub mod parser;
pub mod renderer;
pub mod storage;
pub mod strings;
pub mod text_renderer;
