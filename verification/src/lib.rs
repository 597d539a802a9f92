//! Decisions behind timestamped backups of a game server world.
pub mod artifact;
pub mod backup;
pub mod calendar;
pub mod cli;
pub mod cli_laws;
pub mod cron_text;
pub mod exclude;
pub mod hooks;
pub mod interval;
pub mod job;
pub mod job_laws;
pub mod order;
pub mod path;
pub mod retention;
pub mod retention_laws;
pub mod retention_meaning;
pub mod schedule;
pub mod schedule_laws;
pub mod scheduler;
pub mod server_state;
pub mod snapshot;
pub mod text;
pub mod time;
