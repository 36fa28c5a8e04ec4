//! Core logic of the Glint shader-catalog backend: request decisions,
//! pagination, work ordering, capture health and platform-reference parsing.

pub mod models;
pub mod adoption;
pub mod text;
pub mod capture_health;
pub mod client_ip;
pub mod device;
pub mod extraction;
pub mod featured;
pub mod listing;
pub mod logging;
pub mod middleware;
pub mod pagination;
pub mod platform;
pub mod random;
pub mod rate_limit;
pub mod session;
pub mod validation;
pub mod work_ordering;
pub mod work_ordering_laws;
