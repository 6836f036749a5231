//! Local identity and credential services: parsing and querying user/group
//! databases, password hashing and verification, a bounded-retry
//! authentication engine, and computation of the security context applied to
//! a process launched under another identity.

pub mod auth;
pub mod codec;
pub mod context;
pub mod record;
pub mod store;
pub mod text;

pub use record::Group;
pub use record::Passwd;
