//! Firmware management: the configuration model with its IDN serial and
//! text-input encodings, `config.h` patching, and the decisions of the
//! toolchain bootstrap (paths, release assets, archive entries).

pub mod config;
pub mod patch;
pub mod tools;
pub mod archive;
