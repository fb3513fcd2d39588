//! Resumable upload sessions: identity resolution, chunk ingestion,
//! liveness tracking, staleness reaping and the change feed, over an
//! in-memory model of the session store, with contracts proved by Verus.

pub mod admin;
pub mod config;
pub mod identity;
pub mod laws;
pub mod liveness;
pub mod order;
pub mod session;
pub mod store;
pub mod text;
pub mod tunnel;
pub mod utils;

pub use admin::{FeedCursor, FeedEvent, HeartbeatRequest, ListQuery, UploadData, PAGE_SIZE};
pub use config::{AppConfig, Args, ConfigError};
pub use identity::{choose_identity, extract_client_ip, ProxyHeaders};
pub use session::{Client, UploadSession, UploadStatus};
pub use store::{Announcement, ChunkPlan, SessionStore, UploadError};
pub use tunnel::{
    create_tunnel_provider, extract_uuid, CfTunnelConfig, CfTunnelManager, CloudflareTunnelProvider,
    RegisterRequest, RegisterResponse, TunnelClient, TunnelConfig, TunnelError, TunnelInfo,
};
pub use utils::{bytes_to_string, now};
