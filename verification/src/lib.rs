//! Verified core of the DDNet services.
pub mod assets;
pub mod certificate;
pub mod config;
pub mod fng;
pub mod hash;
pub mod legacy;
pub mod pool;
pub mod proxy;
pub mod relay;
pub mod s2n;
pub mod s2s;
pub mod server_list;
pub mod tables;
pub mod text;
pub mod transfer;
pub mod trust;
pub mod ui;
pub mod updater;
pub mod wasm;
pub mod wgpu;
