//! Protocol models: packets, router, session, server, client data.

pub mod client;
pub mod packet;
pub mod render;
pub mod router;
pub mod server;
pub mod session;
