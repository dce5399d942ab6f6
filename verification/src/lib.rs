//! A whitelist of client addresses that expire, and the decisions of the web service around it:
//! how requests to register and to clear are answered, and what a reverse proxy sends to a decoy
//! site and back.

#![allow(unused_imports)]

pub mod clock;
pub mod config;
pub mod handlers;
pub mod headers;
pub mod heap;
pub mod host;
pub mod html;
pub mod laws;
pub mod persist;
pub mod proxy;
pub mod registry;
pub mod reply;
pub mod table;
pub mod text;
