//! wormhole: a fast, minimal, multiplexed TCP tunnel.
//!
//! A stateless generic server, client-declared proxies, shared-secret auth and
//! N parallel data channels.
pub mod address_laws;
pub mod buffer;
pub mod channel_laws;
pub mod cli;
pub mod client;
pub mod client_laws;
pub mod complaint_laws;
pub mod config;
pub mod config_laws;
pub mod layout_laws;
pub mod policy_laws;
pub mod protocol;
pub mod proxy_laws;
pub mod report_laws;
pub mod server;
pub mod server_laws;
pub mod session_laws;
pub mod setup_laws;
pub mod text;
pub mod tunnel;
pub mod tunnel_laws;
pub mod view_laws;
pub mod wire_laws;
