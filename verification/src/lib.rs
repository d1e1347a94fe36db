//! A small file and paste host: the decisions behind it, verified.

pub mod config;
pub mod error;
pub mod http;
pub mod ip;
pub mod jobs;
pub mod links;
pub mod model;
pub mod number;
pub mod policy;
pub mod processing;
pub mod rate_limit;
pub mod signing;
pub mod text;
pub mod web;
