//! The decisions, records and text rules of a local-network file beaming application.

pub mod clock;
pub mod commands;
pub mod contacts;
pub mod discovery;
pub mod filename;
pub mod folder;
pub mod http_server;
pub mod identity;
pub mod ids;
pub mod lists;
pub mod net;
pub mod receiving;
pub mod sending;
pub mod settings;
pub mod state;
pub mod table;
pub mod text;
pub mod transfer;
pub mod window;
pub mod wire;
