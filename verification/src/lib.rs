//! Norbert: a patient SPI-NOR flasher. The verified core: flash geometry,
//! SFDP decoding, the erase planner, SPI command encoding and the text the
//! tool prints.

pub mod profile;
pub mod sfdp;
pub mod text;
pub mod catalog;
pub mod flash;
pub mod chip;
pub mod voice;
pub mod error;
pub mod ui;
pub mod cli;
pub mod commands;
pub mod diagnose;
