//! UART serial ports as tools for AI clients: the verified core.
pub mod ansi;
pub mod b64;
pub mod cli;
pub mod expect;
pub mod hex;
pub mod io;
pub mod manager;
pub mod read;
pub mod reader;
pub mod ring;
pub mod search;
pub mod send;
pub mod sendfile;
pub mod server;
pub mod text;
