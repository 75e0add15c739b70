//! A verified core for a portfolio-content REST backend: domain entities,
//! JSON column codecs with proved round-trips, keyed in-memory tables with
//! repository semantics, request validation, bearer-token authentication,
//! a TTL cache for aggregated statistics, and the per-resource handlers.

pub mod contact_repository;
pub mod error;
pub mod github;
pub mod github_profile;
pub mod github_stats_repository;
pub mod auth;
pub mod cache;
mod clock;
pub mod columns;
pub mod experience_repository;
pub mod ids;
pub mod json;
pub mod models;
pub mod order;
pub mod post_repository;
pub mod profile_repository;
pub mod project_repository;
pub mod routes;
pub mod skill_repository;
pub mod store;
pub mod validation;
