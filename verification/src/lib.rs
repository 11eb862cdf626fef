pub mod client;
pub mod delivery;
pub mod discover;
pub mod display;
pub mod error;
pub mod folder;
pub mod history;
pub mod netascii;
pub mod outside;
pub mod packet;
pub mod paths;
pub mod peer;
pub mod picker;
pub mod receive;
pub mod send;
pub mod server;
pub mod session;
pub mod sort;
pub mod text;
pub mod transfer;
pub mod wait;
pub mod window;
