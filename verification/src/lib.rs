//! A peer-to-peer file storage service paid in bitcoin: clients encrypt files,
//! pay storage providers, and upload to them; a coordinator tells clients
//! which providers there are.
pub mod cipher;
pub mod client;
pub mod digest;
pub mod files;
pub mod protocol;
pub mod registry;
pub mod storage;
pub mod text;
pub mod wallet;
