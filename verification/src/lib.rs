//! Conversion of proxy subscriptions and rule templates into a routing
//! configuration document.

pub mod constant;
pub mod entity;
pub mod error;
pub mod group;
pub mod link;
pub mod mapping;
pub mod pattern;
pub mod pipeline;
pub mod rule;
pub mod server;
pub mod template;
pub mod text;
pub mod tools;
pub mod unicode;
