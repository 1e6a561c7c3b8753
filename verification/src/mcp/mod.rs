//! Servers that speak the Model Context Protocol, exposed as ordinary tools: signing in to them,
//! talking to them over HTTP, and wrapping what they offer.

pub mod auth;
pub mod http;
pub mod login;
pub mod tool;
