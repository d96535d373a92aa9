//! What is kept of a tenant.

pub mod timeline;
