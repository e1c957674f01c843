//! The endpoint families, one module each.
pub mod account;
pub mod admin;
pub mod appservice;
pub mod backup;
pub mod edu;
pub mod health;
pub mod keys;
pub mod media;
pub mod push;
pub mod relations;
pub mod rooms;
pub mod search;
pub mod session;
pub mod spaces;
pub mod sso;
pub mod sync;
pub mod to_device;
