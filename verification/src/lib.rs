//! Verified core of a duplicate media finder: parsing of image metadata text,
//! frame fingerprints of videos, grouping of files by content key, and the
//! decisions about which copies of a duplicate are removed.

pub mod hashing;
pub mod text;
pub mod file_data_img;
pub mod file_data_mov;
pub mod duplicate_package;
pub mod deletion_manager;
pub mod groups;
pub mod cleanup;
pub mod choice;
pub mod digest;
pub mod png_scan;
pub mod image_hash;
