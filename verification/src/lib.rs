//! A hierarchical service-bus substrate.
//!
//! Endpoints named by URL-like paths are registered at a hub and resolved
//! through a chain of parent hubs of strictly wider scope. A request is
//! answered by interception, local lookup, parent escalation, alias
//! fallback or approximate matching, in that order. The same substrate
//! carries topic-addressed publish/subscribe with priority-ordered
//! interceptor chains, and a byte codec for the peer transport.

pub mod codec;
pub mod hub;
pub mod interceptor;
pub mod laws;
pub mod registry;
pub mod similarity;
pub mod types;
pub mod utils;

pub use crate::hub::Hub;
pub use crate::hub::HubError;
pub use crate::hub::HubSystem;
pub use crate::hub::PublishOutcome;
pub use crate::interceptor::InterceptorManager;
pub use crate::registry::ApiEntry;
pub use crate::registry::ApiRegistry;
pub use crate::types::ApiRequest;
pub use crate::types::ApiResponse;
pub use crate::types::Handler;
pub use crate::types::HubScope;
pub use crate::types::Interceptor;
pub use crate::types::Message;
pub use crate::types::MetaMap;
pub use crate::types::Payload;
pub use crate::types::ResponseStatus;
pub use crate::types::Subscription;
