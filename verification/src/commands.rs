//! The decisions of the command-line subcommands: what each one reads,
//! changes and reports, apart from the files and terminals it touches.

pub mod use_cmd;
pub mod init;
pub mod list;
pub mod add;
pub mod inspect;
pub mod describe;
pub mod remove;
pub mod verify;
pub mod update;
pub mod doctor;
pub mod util;
pub mod profile;
pub mod restore;
