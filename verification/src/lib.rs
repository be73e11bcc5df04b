//! Planning and naming rules of a photo library desk: what a file is, where it
//! goes, what a folder is called, and how moves, copies and undo are decided.

pub mod text;
pub mod kinds;
pub mod unicode;
pub mod organize;
pub mod naming;
pub mod offload;
pub mod p1;
pub mod order;
pub mod import;
pub mod watch;
pub mod xmp;
pub mod folder;
pub mod names;
pub mod trash;
pub mod transfer;
pub mod capture_date;
pub mod undo;
pub mod rename;
pub mod merge;
pub mod husk;
pub mod top;
pub mod manifest;
pub mod scan;
