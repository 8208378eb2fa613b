//! Verified core of AgentFS: the metadata store and request handling of the
//! controller, the inode table and permission rules of the FUSE layer, the
//! mount table of the FUSE service, the storage path layout and the
//! decisions taken by the command-line client.
pub mod text;
pub mod error;
pub mod ids;
pub mod timestamp;
pub mod storage;
pub mod db;
pub mod db_laws;
pub mod fsconfig;
pub mod controller;
pub mod controller_config;
pub mod fuse_config;
pub mod fuse_fs;
pub mod fuse_service;
pub mod cli;
