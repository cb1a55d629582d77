//! Authentication, authorization and seeding rules of the Lore client and server.

pub mod address;
pub mod endpoint;
pub mod error;
pub mod oidc;
pub mod repository_authorizer;
pub mod seed;
pub mod text;
pub mod tree;
