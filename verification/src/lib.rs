//! bdemu: the verified core of a Blu-ray drive emulator.

pub mod text;
pub mod sanitize;
pub mod sg;
pub mod profile;
pub mod profile_text;
pub mod drive_toml;
pub mod profile_build;
pub mod disc_dir;
pub mod capture;
pub mod cli;
pub mod bdsm_laws;
pub mod scsi;
pub mod scsi_laws;
pub mod scsi_reply_laws;
pub mod socket_name;
pub mod control;
