//! Verified core of the TERA launcher: version comparison, update planning
//! for game files, text formatting and the launcher's session state.
pub mod text;
pub mod manifest;
pub mod table;
pub mod cache;
pub mod plan;
pub mod digest;
pub mod hashfile;
pub mod version;
pub mod numfmt;
pub mod session;
pub mod toolbox;
pub mod login;
pub mod config;
pub mod maintenance;
pub mod selfupdate;
pub mod sort;
pub mod pagemaps;
pub mod capture;
