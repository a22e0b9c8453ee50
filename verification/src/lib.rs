//! A WSGI server, without its sockets and without its interpreter: how requests are
//! read and become environments, how the answers of an application become responses,
//! and how connections, bodies and the interpreter lock are taken turns with.
//!
//! Whatever blocks, waits or talks to Python happens outside. The functions here take
//! what came of it and say what is to be done next.
pub mod body;
pub mod buffer;
pub mod codec;
pub mod config;
pub mod environ;
pub mod error;
pub mod gateway;
pub mod gil;
pub mod headers;
pub mod input;
pub mod io;
pub mod reader;
pub mod request;
pub mod response;
pub mod server;
pub mod service;
pub mod text;
pub mod types;
pub mod uri;
pub mod wsgi;
