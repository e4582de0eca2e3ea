//! The decisions of an MCP (Model Context Protocol) local router.
//!
//! The router starts a number of upstream MCP servers and offers their tools together, and
//! each server's tools by themselves. What it decides on the way is here, with contracts
//! that Verus proves: who a call goes to and what it is answered, which sessions are open,
//! how upstreams are started and shut down, and how a run goes from its configuration to
//! its exit. Processes, sockets and channels are not: the program around the library
//! performs what the library asks for and reports back what came of it.
//!
//! - [`config`]: the configured upstreams.
//! - [`startup`] and [`shutdown`]: starting the upstreams, and shutting their clients down.
//! - [`aggregator`], [`tools`] and [`proxy`]: the tools of all upstreams, and of one.
//! - [`sessions`], [`session_id`] and [`http`]: the streams of clients over HTTP.
//! - [`lifecycle`]: the course of a run.
//! - [`rpc`], [`names`] and [`text`]: what the others are made of.

pub mod aggregator;
pub mod config;
pub mod http;
pub mod lifecycle;
pub mod names;
pub mod proxy;
pub mod rpc;
pub mod session_id;
pub mod sessions;
pub mod shutdown;
pub mod startup;
pub mod text;
pub mod tools;
