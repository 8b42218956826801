//! Tests for the hub core functionality.

use network_hub::hub::Hub;
use network_hub::hub::HubSystem;
use network_hub::types::ApiRequest;
use network_hub::types::Handler;
use network_hub::types::HubScope;
use network_hub::types::MetaMap;
use network_hub::types::Payload;
use network_hub::types::ResponseStatus;

fn request(path: &str, data: Payload, metadata: MetaMap) -> ApiRequest {
    ApiRequest {
        path: path.to_string(),
        data,
        metadata,
        sender_id: "test-client".to_string(),
    }
}

#[test]
fn test_hub_creation_and_api_registration() {
    let hub = Hub::new(HubScope::Thread);

    assert_eq!(hub.scope, HubScope::Thread);

    assert!(!hub.id.is_empty());
}

#[test]
fn test_api_registration_and_calling() {
    let mut sys = HubSystem::new();
    let hub = sys.new_hub(HubScope::Thread);

    // An echoing handler answers with the request's payload and metadata.
    sys.register_api(hub, "/test/echo".to_string(), Handler::EchoPayload, MetaMap::new());

    let mut metadata = MetaMap::new();
    metadata.insert("test".to_string(), "metadata".to_string());
    let req = request("/test/echo", Payload::Text("test data".to_string()), metadata);

    let response = sys.handle_request(hub, req);

    assert_eq!(response.status, ResponseStatus::Success);
    assert_eq!(
        response.metadata.get(&"test".to_string()),
        Some(&"metadata".to_string())
    );
    assert_eq!(response.data, Payload::Text("test data".to_string()));
}

#[test]
fn test_api_fallback() {
    let mut sys = HubSystem::new();
    let hub = sys.new_hub(HubScope::Thread);

    let mut v2_metadata = MetaMap::new();
    v2_metadata.insert("fallback".to_string(), "/api/v1/resource".to_string());
    sys.register_api(
        hub,
        "/api/v2/resource".to_string(),
        Handler::Fixed(Payload::Text("v2".to_string())),
        v2_metadata,
    );

    sys.register_api(
        hub,
        "/api/v1/resource".to_string(),
        Handler::Fixed(Payload::Text("v1".to_string())),
        MetaMap::new(),
    );

    let response_v2 = sys.handle_request(hub, request("/api/v2/resource", Payload::Empty, MetaMap::new()));
    assert_eq!(response_v2.status, ResponseStatus::Success);
    assert_eq!(response_v2.data, Payload::Text("v2".to_string()));

    let response_v1 = sys.handle_request(hub, request("/api/v1/resource", Payload::Empty, MetaMap::new()));
    assert_eq!(response_v1.status, ResponseStatus::Success);
    assert_eq!(response_v1.data, Payload::Text("v1".to_string()));
}

#[test]
fn test_parent_child_relationship() {
    let mut sys = HubSystem::new();
    let parent_hub = sys.new_hub(HubScope::Process);
    let child_hub = sys.new_hub(HubScope::Thread);

    let wired = sys.connect_to_parent(child_hub, parent_hub);
    assert!(wired.is_ok());

    sys.register_api(
        parent_hub,
        "/parent/api".to_string(),
        Handler::Fixed(Payload::Text("parent response".to_string())),
        MetaMap::new(),
    );

    let response = sys.handle_request(child_hub, request("/parent/api", Payload::Empty, MetaMap::new()));

    assert_eq!(response.status, ResponseStatus::Success);
    assert_eq!(response.data, Payload::Text("parent response".to_string()));
}

#[test]
fn test_api_not_found() {
    let mut sys = HubSystem::new();
    let hub = sys.new_hub(HubScope::Thread);

    let response = sys.handle_request(hub, request("/non/existent/api", Payload::Empty, MetaMap::new()));

    assert_eq!(response.status, ResponseStatus::NotFound);
}

#[test]
fn test_rewiring_rejected() {
    let mut sys = HubSystem::new();
    let parent = sys.new_hub(HubScope::Process);
    let other = sys.new_hub(HubScope::Machine);
    let child = sys.new_hub(HubScope::Thread);

    // Same scope or smaller is rejected.
    let peer = sys.new_hub(HubScope::Thread);
    assert!(sys.connect_to_parent(child, peer).is_err());

    assert!(sys.connect_to_parent(child, parent).is_ok());

    // A second attachment is rejected, even to a wider scope.
    assert!(sys.connect_to_parent(child, other).is_err());
}

#[test]
fn test_detach_from_parent() {
    let mut sys = HubSystem::new();
    let parent = sys.new_hub(HubScope::Process);
    let child = sys.new_hub(HubScope::Thread);
    sys.connect_to_parent(child, parent).expect("wiring failed");

    sys.register_api(
        parent,
        "/upstream".to_string(),
        Handler::Fixed(Payload::Text("served above".to_string())),
        MetaMap::new(),
    );

    let reached = sys.handle_request(child, request("/upstream", Payload::Empty, MetaMap::new()));
    assert_eq!(reached.status, ResponseStatus::Success);

    assert!(sys.detach_from_parent(child));
    assert!(!sys.detach_from_parent(child));

    // Escalation stops once the wiring is gone.
    let unreached = sys.handle_request(child, request("/upstream", Payload::Empty, MetaMap::new()));
    assert_eq!(unreached.status, ResponseStatus::NotFound);

    // A detached hub may be wired again.
    assert!(sys.connect_to_parent(child, parent).is_ok());
    let again = sys.handle_request(child, request("/upstream", Payload::Empty, MetaMap::new()));
    assert_eq!(again.status, ResponseStatus::Success);
}

#[test]
fn test_initialize_builds_chain() {
    let mut sys = HubSystem::new();
    let hub = sys.new_hub(HubScope::Process);
    sys.register_api(
        hub,
        "/up/here".to_string(),
        Handler::Fixed(Payload::Text("from process".to_string())),
        MetaMap::new(),
    );

    let thread_hub = sys.initialize(HubScope::Thread);
    assert_eq!(sys.hub_at(thread_hub).scope, HubScope::Thread);

    // The initialized hub has its own fresh ancestors; a request for a
    // path registered on an unrelated hub still misses.
    let response = sys.handle_request(thread_hub, request("/up/here", Payload::Empty, MetaMap::new()));
    assert_eq!(response.status, ResponseStatus::NotFound);

    let network_hub = sys.initialize(HubScope::Network);
    assert_eq!(sys.hub_at(network_hub).scope, HubScope::Network);
}
