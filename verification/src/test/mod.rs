//! A sample domain: users and repositories that find them.
pub mod user;
pub mod user_repo;
