//! Verified core of a database backup agent: artifact naming, the framed
//! AES-GCM artifact format, resumable-upload bookkeeping, the backup run state
//! machine, per-database locking, scheduling records and configuration checks.

pub mod text;
pub mod naming;
pub mod cipher;
pub mod tus;
pub mod config;
pub mod backup;
pub mod pipeline;
pub mod cron;
pub mod multipart;
pub mod restore;
pub mod edge_key;
pub mod api;
pub mod storage;
