//! Scenario tests: resolution, retargeting, ordering and boundary
//! behaviour of the bus.

use network_hub::hub::HubSystem;
use network_hub::types::ApiInterceptorRule;
use network_hub::types::ApiRequest;
use network_hub::types::ApiResponse;
use network_hub::types::Handler;
use network_hub::types::HubScope;
use network_hub::types::MessageRule;
use network_hub::types::MetaMap;
use network_hub::types::Payload;
use network_hub::types::ResponseStatus;

fn request(path: &str, data: Payload, metadata: MetaMap) -> ApiRequest {
    ApiRequest {
        path: path.to_string(),
        data,
        metadata,
        sender_id: "test-client".to_string(),
    }
}

#[test]
fn test_echo_endpoint() {
    let mut sys = HubSystem::new();
    let hub = sys.new_hub(HubScope::Thread);
    sys.register_api(hub, "/echo".to_string(), Handler::EchoPayload, MetaMap::new());

    let response = sys.handle_request(hub, request("/echo", Payload::Text("x".to_string()), MetaMap::new()));
    assert_eq!(response.status, ResponseStatus::Success);
    assert_eq!(response.data, Payload::Text("x".to_string()));
}

#[test]
fn test_parent_serves_child_request() {
    let mut sys = HubSystem::new();
    let parent = sys.new_hub(HubScope::Process);
    let child = sys.new_hub(HubScope::Thread);
    sys.connect_to_parent(child, parent).expect("wiring failed");

    sys.register_api(
        parent,
        "/p".to_string(),
        Handler::Fixed(Payload::Text("parent answer".to_string())),
        MetaMap::new(),
    );

    let response = sys.handle_request(child, request("/p", Payload::Empty, MetaMap::new()));
    assert_eq!(response.status, ResponseStatus::Success);
    assert_eq!(response.data, Payload::Text("parent answer".to_string()));
}

#[test]
fn test_alias_fallback_retargets() {
    let mut sys = HubSystem::new();
    let hub = sys.new_hub(HubScope::Thread);

    // `/v2/res` answers for the missing `/v1/res`.
    let mut metadata = MetaMap::new();
    metadata.insert("fallback".to_string(), "/v1/res".to_string());
    sys.register_api(
        hub,
        "/v2/res".to_string(),
        Handler::Fixed(Payload::Text("v2 data".to_string())),
        metadata,
    );

    let response = sys.handle_request(hub, request("/v1/res", Payload::Empty, MetaMap::new()));
    assert_eq!(response.status, ResponseStatus::Success);
    assert_eq!(response.data, Payload::Text("v2 data".to_string()));
    assert_eq!(
        response.metadata.get(&"original_path".to_string()),
        Some(&"/v1/res".to_string())
    );
}

#[test]
fn test_approximate_match() {
    let mut sys = HubSystem::new();
    let hub = sys.new_hub(HubScope::Thread);

    sys.register_api(
        hub,
        "/users/list".to_string(),
        Handler::Fixed(Payload::Text("everyone".to_string())),
        MetaMap::new(),
    );

    // The request path contains the registered path, which clears the
    // similarity threshold, so resolution approximates to it.
    let response = sys.handle_request(hub, request("/users/list/all", Payload::Empty, MetaMap::new()));
    assert_eq!(response.status, ResponseStatus::Approximated);
    assert_eq!(response.data, Payload::Text("everyone".to_string()));
    assert_eq!(
        response.metadata.get(&"original_path".to_string()),
        Some(&"/users/list/all".to_string())
    );
    assert_eq!(
        response.metadata.get(&"approximated".to_string()),
        Some(&"true".to_string())
    );
}

#[test]
fn test_low_similarity_is_not_approximated() {
    let mut sys = HubSystem::new();
    let hub = sys.new_hub(HubScope::Thread);

    sys.register_api(
        hub,
        "/users/list".to_string(),
        Handler::Fixed(Payload::Text("everyone".to_string())),
        MetaMap::new(),
    );

    // One shared segment out of two is similarity 50, below the
    // threshold of 80: no approximation happens.
    let response = sys.handle_request(hub, request("/users/lst", Payload::Empty, MetaMap::new()));
    assert_eq!(response.status, ResponseStatus::NotFound);
}

#[test]
fn test_interceptor_priority_order() {
    let mut sys = HubSystem::new();
    let hub = sys.new_hub(HubScope::Thread);

    sys.register_api_interceptor(
        hub,
        "/data".to_string(),
        ApiInterceptorRule::Respond(ApiResponse {
            data: Payload::Text("low priority".to_string()),
            metadata: MetaMap::new(),
            status: ResponseStatus::Success,
        }),
        5,
    );
    sys.register_api_interceptor(
        hub,
        "/data".to_string(),
        ApiInterceptorRule::Respond(ApiResponse {
            data: Payload::Text("high priority".to_string()),
            metadata: MetaMap::new(),
            status: ResponseStatus::Success,
        }),
        10,
    );

    // The priority-10 interceptor answers; the priority-5 one is
    // never reached.
    let response = sys.handle_request(hub, request("/data", Payload::Empty, MetaMap::new()));
    assert_eq!(response.status, ResponseStatus::Intercepted);
    assert_eq!(response.data, Payload::Text("high priority".to_string()));
}

#[test]
fn test_alias_cycle_yields_not_found() {
    let mut sys = HubSystem::new();
    let hub = sys.new_hub(HubScope::Thread);

    // `/a` and `/b` alias each other; both are bare alias records
    // whose handlers serve nothing themselves.
    let placeholder = |target: &str| {
        let mut metadata = MetaMap::new();
        metadata.insert("fallback".to_string(), target.to_string());
        metadata
    };
    sys.register_api(
        hub,
        "/a".to_string(),
        Handler::Respond(ApiResponse {
            data: Payload::Empty,
            metadata: MetaMap::new(),
            status: ResponseStatus::NotFound,
        }),
        placeholder("/b"),
    );
    sys.register_api(
        hub,
        "/b".to_string(),
        Handler::Respond(ApiResponse {
            data: Payload::Empty,
            metadata: MetaMap::new(),
            status: ResponseStatus::NotFound,
        }),
        placeholder("/a"),
    );

    let response = sys.handle_request(hub, request("/a", Payload::Empty, MetaMap::new()));
    assert_eq!(response.status, ResponseStatus::NotFound);
}

#[test]
fn test_empty_path_not_found() {
    let mut sys = HubSystem::new();
    let hub = sys.new_hub(HubScope::Thread);
    sys.register_api(
        hub,
        "/something".to_string(),
        Handler::Fixed(Payload::Text("there".to_string())),
        MetaMap::new(),
    );

    let response = sys.handle_request(hub, request("", Payload::Empty, MetaMap::new()));
    assert_eq!(response.status, ResponseStatus::NotFound);
}

#[test]
fn test_empty_path_registration_ignored() {
    let mut sys = HubSystem::new();
    let hub = sys.new_hub(HubScope::Thread);

    sys.register_api(hub, "".to_string(), Handler::EchoPayload, MetaMap::new());

    let response = sys.handle_request(hub, request("", Payload::Text("x".to_string()), MetaMap::new()));
    assert_eq!(response.status, ResponseStatus::NotFound);
}

#[test]
fn test_handler_does_not_touch_callers_request() {
    let mut sys = HubSystem::new();
    let hub = sys.new_hub(HubScope::Thread);
    sys.register_api(hub, "/echo".to_string(), Handler::EchoPayload, MetaMap::new());

    let mut metadata = MetaMap::new();
    metadata.insert("mine".to_string(), "untouched".to_string());
    let req = request("/echo", Payload::Text("x".to_string()), metadata);

    // The caller keeps its own copy; resolution works on another.
    let kept = req.clone();
    let _response = sys.handle_request(hub, req);

    assert_eq!(kept.path, "/echo".to_string());
    assert_eq!(kept.data, Payload::Text("x".to_string()));
    assert_eq!(
        kept.metadata.get(&"mine".to_string()),
        Some(&"untouched".to_string())
    );
}

#[test]
fn test_publish_nothing_on_quiet_root() {
    let mut sys = HubSystem::new();
    let hub = sys.new_hub(HubScope::Network);

    let outcome = sys.publish(
        hub,
        "lonely/topic".to_string(),
        Payload::Text("anyone?".to_string()),
        MetaMap::new(),
    );

    assert!(outcome.value.is_none());
    assert!(outcome.offered.is_empty());
}

#[test]
fn test_topic_interceptor_short_circuits_publish() {
    let mut sys = HubSystem::new();
    let parent = sys.new_hub(HubScope::Process);
    let child = sys.new_hub(HubScope::Thread);
    sys.connect_to_parent(child, parent).expect("wiring failed");

    let parent_sub = sys.subscribe(parent, "alerts/*".to_string(), MessageRule::Pass, 1);
    sys.register_interceptor(
        child,
        "alerts/fire".to_string(),
        MessageRule::Produce(Payload::Text("handled".to_string())),
        5,
    );

    // The child's interceptor answers, so the publish never escalates
    // and the parent's subscription is not offered the message.
    let outcome = sys.publish(child, "alerts/fire".to_string(), Payload::Empty, MetaMap::new());
    assert_eq!(outcome.value, Some(Payload::Text("handled".to_string())));
    assert!(outcome.offered.is_empty());

    // Without interception the publish escalates and the parent's
    // wildcard subscription is offered the message.
    let outcome = sys.publish(child, "alerts/flood".to_string(), Payload::Empty, MetaMap::new());
    assert!(outcome.value.is_none());
    assert_eq!(outcome.offered, vec![parent_sub]);
}

#[test]
fn test_wildcard_api_interceptor() {
    let mut sys = HubSystem::new();
    let hub = sys.new_hub(HubScope::Thread);

    sys.register_api(
        hub,
        "/http/page".to_string(),
        Handler::Fixed(Payload::Text("page body".to_string())),
        MetaMap::new(),
    );
    sys.register_api_interceptor(
        hub,
        "/http/*".to_string(),
        ApiInterceptorRule::RespondIfMeta {
            key: "blocked".to_string(),
            value: "yes".to_string(),
            response: ApiResponse {
                data: Payload::Text("forbidden".to_string()),
                metadata: MetaMap::new(),
                status: ResponseStatus::Error,
            },
        },
        1,
    );

    let open_response = sys.handle_request(hub, request("/http/page", Payload::Empty, MetaMap::new()));
    assert_eq!(open_response.status, ResponseStatus::Success);

    let mut blocked = MetaMap::new();
    blocked.insert("blocked".to_string(), "yes".to_string());
    let blocked_response = sys.handle_request(hub, request("/http/page", Payload::Empty, blocked));
    assert_eq!(blocked_response.status, ResponseStatus::Intercepted);
    assert_eq!(blocked_response.data, Payload::Text("forbidden".to_string()));
}

#[test]
fn test_reregistration_replaces_entry() {
    let mut sys = HubSystem::new();
    let hub = sys.new_hub(HubScope::Thread);

    sys.register_api(
        hub,
        "/versioned".to_string(),
        Handler::Fixed(Payload::Text("first".to_string())),
        MetaMap::new(),
    );
    sys.register_api(
        hub,
        "/versioned".to_string(),
        Handler::Fixed(Payload::Text("second".to_string())),
        MetaMap::new(),
    );

    let response = sys.handle_request(hub, request("/versioned", Payload::Empty, MetaMap::new()));
    assert_eq!(response.status, ResponseStatus::Success);
    assert_eq!(response.data, Payload::Text("second".to_string()));
}
