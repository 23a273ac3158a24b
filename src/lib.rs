//! Schema-driven construction of GPU pipeline resources.
//!
//! A shader's resource declaration is extracted into a [`schema::Shader`],
//! compiled into bind-group layout descriptions and a pipeline plan, and the
//! resulting device objects are memoized so that each is constructed at most
//! once. Device work itself is done by the caller through the closures and
//! plans this crate hands out.
pub mod schema;
pub mod text;
pub mod parser;
pub mod layout;
pub mod resource;
pub mod cache;
pub mod draw;
pub mod pingpong;
