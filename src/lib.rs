//! Routing, loading and request-adaptation rules of a WebAssembly plugin host.
//!
//! Plugins are mounted on URL prefixes; the host keeps a router from those
//! prefixes to plugin ids, decides which plugins of a stack come up, rewrites
//! request paths before they reach a guest, and translates the guest's
//! outbound HTTP methods.
pub mod cli;
pub mod dispatch;
pub mod gateway;
pub mod loader;
pub mod manifest;
pub mod meta;
pub mod method;
pub mod registry;
pub mod rewrite;
pub mod router;
pub mod routes;
pub mod server;

pub use cli::{PluginArgs, PluginCommand, StackArgs, StackCommand};
pub use dispatch::{reply_for, route_or_reply, DispatchOutcome, Reply};
pub use gateway::{HttpPluginMeta, PoolConfig};
pub use loader::{assemble, LoadCandidate, LoadReport, LoadedStack};
pub use manifest::{
    default_data_folder, deploy_plan, finish_build, join, BuildError, DeployPlan, PluginBuildInfo,
    PluginMetaBuild, WasselMeta,
};
pub use meta::{default_data_dir, default_endpoint, default_version, PluginConfig, PluginMeta};
pub use method::{method_token, OutboundError, WitMethod};
pub use registry::{PluginEntry, StackConfig, StackError, StackMeta};
pub use rewrite::{guest_path, prefix_to_strip};
pub use routes::{mount_of, EndpointError, RouteTable};
pub use server::{Config, Server};
