pub mod assoc;
pub mod bytes;
pub mod headers;
pub mod parser;
pub mod handshake;
pub mod connection;
pub mod server;
