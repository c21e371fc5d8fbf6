//! What the node answers over HTTP: paths, pages, replies and forwarding.

pub mod adapter;
pub mod ingress;
pub mod internal;
pub mod path;
pub mod preview;
pub mod response;
