//! Verified core of a bootable-USB creator.

pub mod asset_laws;
pub mod assets;
pub mod bcd;
pub mod bcd_laws;
pub mod bytes;
pub mod choice_laws;
pub mod cli;
pub mod client;
pub mod client_laws;
pub mod commands;
pub mod copy;
pub mod copy_laws;
pub mod crc;
pub mod device;
pub mod device_laws;
pub mod disk_image;
pub mod disk_laws;
pub mod execute;
pub mod flash;
pub mod format;
pub mod format_laws;
pub mod helper;
pub mod helper_laws;
pub mod hive;
pub mod hive_key;
pub mod hive_laws;
pub mod hive_order;
pub mod hive_read;
pub mod hive_store;
pub mod hive_time;
pub mod image_laws;
pub mod iso;
pub mod iso_laws;
pub mod job_laws;
pub mod layout_laws;
pub mod mounts;
pub mod partition;
pub mod path_laws;
pub mod paths;
pub mod persist_laws;
pub mod plan_laws;
pub mod protocol;
pub mod sizes;
pub mod stick_laws;
pub mod store_laws;
pub mod text;
pub mod text_laws;
pub mod togo;
pub mod tree;
pub mod ui;
pub mod vhdx;
pub mod write;
