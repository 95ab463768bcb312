//! Verified core of the Douyin command-line tool.
pub mod cookie;
pub mod crawler;
pub mod json;
pub mod text;
pub mod target;
pub mod pages;
pub mod download;
pub mod insights;
pub mod stats;
pub mod comments;
pub mod web;
pub mod subtitles;
pub mod settings;
pub mod openapi;
pub mod api;
pub mod mcp;
pub mod obscura;
pub mod auth;
pub mod properties;
pub mod tally_laws;
pub mod output_laws;
