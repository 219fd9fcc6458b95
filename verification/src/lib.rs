//! Core logic of a watcher for "Who is hiring?" threads on Hacker News:
//! keyword matching, the job store, listings, timestamps and URLs.

pub mod config;
pub mod non_empty_vec;
pub mod text;
pub mod order;
pub mod decimal;
pub mod database;
pub mod hn_client;
pub mod state;
pub mod timeago;
pub mod highlighter;
pub mod scraper;
pub mod web;
pub mod state_task;
pub mod poll;
