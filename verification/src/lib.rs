//! The rules of a Matrix homeserver's client-server surface, as verified functions.
pub mod appservice_push;
pub mod clock;
pub mod decimal;
pub mod error;
pub mod evict;
pub mod extract;
pub mod ids;
pub mod json;
pub mod merge;
pub mod order;
pub mod percent;
pub mod presence;
pub mod push_eval;
pub mod push_gateway;
pub mod ratelimit;
pub mod room_util;
pub mod routes;
pub mod text;
