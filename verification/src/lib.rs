//! Dr.COM campus-network authentication: packet construction, configuration
//! parsing and the client's protocol decisions, with their contracts.

pub mod bytes;
pub mod cabi;
pub mod cli;
pub mod config;
pub mod netif;
pub mod protocol;
pub mod session;
pub mod store;
pub mod text;
pub mod webui;
