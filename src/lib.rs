//! Verified core of a small car-shop REST backend: entity models and
//! validation, in-memory repositories with filtering and pagination, a
//! read-through cache with invalidation on write, and password-based login.

pub mod error;
pub mod model;
pub mod table;
pub mod validation;
pub mod cache;
pub mod password;
pub mod repositories;
pub mod services;
pub mod auth;
pub mod upload;
pub mod query;
