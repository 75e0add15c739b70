//! The per-resource request handlers: each takes the store and the plain
//! values of a request and returns the response or the error the endpoint
//! maps to.

pub mod admin;
pub mod auth;
pub mod contact;
pub mod experiences;
pub mod github_stats;
pub mod health;
pub mod posts;
pub mod profile;
pub mod projects;
pub mod skills;
