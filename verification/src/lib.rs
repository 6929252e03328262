//! A proxy between MCP (Model Context Protocol) servers that speak over stdio and clients that
//! speak over HTTP and server-sent events.
//!
//! This crate holds the decisions of the proxy: what is logged and where, which bytes and which
//! notifications pass through, how headers are completed, and what a command line asks for. The
//! program around it performs the input and output.

pub mod capture;
pub mod child;
pub mod cli;
pub mod clock;
pub mod events;
pub mod headers;
pub mod json;
pub mod logging;
pub mod notifications;
pub mod process;
pub mod sse_client;
pub mod sse_server;
pub mod status;
pub mod string_map;
pub mod text;
