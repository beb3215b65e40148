pub mod config;
pub mod crypto;
pub mod crypto_service;
pub mod db;
pub mod domain;
pub mod errors;
pub mod keymgr;
pub mod service;
pub mod ui;
