//! Serving clients of the old protocol out of a native connection.
pub mod agreement;
pub mod answers;
pub mod backend;
pub mod browser;
pub mod character;
pub mod client;
pub mod continuity;
pub mod decode;
pub mod events;
pub mod history;
pub mod input;
pub mod maps;
pub mod messages;
pub mod objects;
pub mod picture;
pub mod reports;
pub mod scene;
pub mod session;
pub mod slots;
pub mod snapshot;
pub mod unique;
pub mod votes;
pub mod world;
