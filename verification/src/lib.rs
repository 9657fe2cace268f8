//! The rules of an HTTP server that answers each request by running an mq script.
//!
//! The modules here decide: how a request is presented to a script, what a script's value
//! means as a reply, who may pass, how often, and what a script's comments say about its
//! routes. Sockets, files and clocks that have to be awaited belong to the program around it.

pub mod annotation;
pub mod auth;
pub mod body;
pub mod cli;
pub mod cors;
pub mod engine;
pub mod handler;
pub mod json;
pub mod middleware;
pub mod nesting;
pub mod number;
pub mod openapi;
pub mod rate_limit;
pub mod reply;
pub mod request;
pub mod results;
pub mod response;
pub mod route;
pub mod state;
pub mod syntax;
pub mod text;
pub mod value;
pub mod watch;
