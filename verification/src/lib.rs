//! Parsing of HTTP/1.x responses held in memory as one piece of text.
//!
//! [`http::HttpResponse::new`] reads a response; [`grammar::spec_parse`] says
//! what it returns for every text, and [`written`] proves that it reads back
//! what is written in the usual form.

pub mod decimal;
pub mod error;
pub mod grammar;
pub mod http;
pub mod line_breaks;
pub mod split;
pub mod text;
pub mod whitespace;
pub mod written;
