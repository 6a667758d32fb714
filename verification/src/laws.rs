//! What holds of the library as a whole.
pub mod application;
pub mod digits;
pub mod engine_file;
pub mod generated;
pub mod installing;
pub mod local;
pub mod locking;
pub mod places;
pub mod profiles;
pub mod reading;
pub mod secrecy;
pub mod sessions;
pub mod shown;
pub mod starting;
pub mod tables;
pub mod validity;
pub mod views;
pub mod words;
pub mod writing;
