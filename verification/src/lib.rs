//! Core logic of a small user/file service: password credentials,
//! signed session tokens, query-criteria parsing and a filtered,
//! paginated listing engine over soft-deleted records.
pub mod account;
pub mod auth;
pub mod credential;
pub mod criteria;
pub mod json;
pub mod listing;
pub mod text;
pub mod token;
