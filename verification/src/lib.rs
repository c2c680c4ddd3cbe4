pub mod text;
pub mod paths;
pub mod media;
pub mod ip;
pub mod auth;
pub mod models;
pub mod grouping;
pub mod versions;
pub mod order;
pub mod backup;
pub mod metadata;
pub mod sync;
pub mod manifest;
pub mod mirror;
pub mod search;
pub mod http;
pub mod scan;
pub mod archive;
pub mod cache_budget;
pub mod opds;
pub mod json;
pub mod convert;
pub mod listing;
pub mod cbz;
pub mod requests;
pub mod page_cache;
pub mod cleanup;
pub mod extract;
pub mod thumbnail;
