//! A Google Calendar command-line tool's logic: events and calendars as the API gives
//! them, shared event properties, the config, dates, request URLs and bodies, and the
//! decisions of each command.

pub mod auth;
pub mod cli;
pub mod client;
pub mod commands;
pub mod config;
pub mod dates;
pub mod helpers;
pub mod models;
pub mod props;
pub mod text;
