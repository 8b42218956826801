//! Integration tests for the hub system.

use network_hub::hub::HubSystem;
use network_hub::types::ApiInterceptorRule;
use network_hub::types::ApiRequest;
use network_hub::types::ApiResponse;
use network_hub::types::Handler;
use network_hub::types::HubScope;
use network_hub::types::MessageRule;
use network_hub::types::MetaMap;
use network_hub::types::Payload;
use network_hub::types::ResponseStatus;

fn request(path: &str, data: Payload, metadata: MetaMap) -> ApiRequest {
    ApiRequest {
        path: path.to_string(),
        data,
        metadata,
        sender_id: "test-client".to_string(),
    }
}

#[test]
fn test_api_interception() {
    let mut sys = HubSystem::new();
    let hub = sys.new_hub(HubScope::Thread);

    sys.register_api(
        hub,
        "/data/fetch".to_string(),
        Handler::Fixed(Payload::Text("original data".to_string())),
        MetaMap::new(),
    );

    let mut intercepted_meta = MetaMap::new();
    intercepted_meta.insert("intercepted".to_string(), "true".to_string());
    sys.register_api_interceptor(
        hub,
        "/data/fetch".to_string(),
        ApiInterceptorRule::RespondIfMeta {
            key: "intercept".to_string(),
            value: "true".to_string(),
            response: ApiResponse {
                data: Payload::Text("intercepted data".to_string()),
                metadata: intercepted_meta,
                status: ResponseStatus::Intercepted,
            },
        },
        10,
    );

    let normal_response = sys.handle_request(hub, request("/data/fetch", Payload::Empty, MetaMap::new()));
    assert_eq!(normal_response.status, ResponseStatus::Success);
    assert_eq!(normal_response.data, Payload::Text("original data".to_string()));

    let mut flag = MetaMap::new();
    flag.insert("intercept".to_string(), "true".to_string());
    let intercept_response = sys.handle_request(hub, request("/data/fetch", Payload::Empty, flag));
    assert_eq!(intercept_response.status, ResponseStatus::Intercepted);
    assert_eq!(
        intercept_response.metadata.get(&"intercepted".to_string()),
        Some(&"true".to_string())
    );
    assert_eq!(
        intercept_response.data,
        Payload::Text("intercepted data".to_string())
    );
}

#[test]
fn test_multiple_hubs() {
    let mut sys = HubSystem::new();
    let process_hub = sys.new_hub(HubScope::Process);
    let thread_hub1 = sys.new_hub(HubScope::Thread);
    let thread_hub2 = sys.new_hub(HubScope::Thread);

    sys.register_api(
        thread_hub1,
        "/hub1/api".to_string(),
        Handler::Fixed(Payload::Text("hub1 response".to_string())),
        MetaMap::new(),
    );

    sys.register_api(
        thread_hub2,
        "/hub2/api".to_string(),
        Handler::Fixed(Payload::Text("hub2 response".to_string())),
        MetaMap::new(),
    );

    sys.register_api(
        process_hub,
        "/process/api".to_string(),
        Handler::Fixed(Payload::Text("process hub response".to_string())),
        MetaMap::new(),
    );

    let response = sys.handle_request(thread_hub1, request("/hub1/api", Payload::Empty, MetaMap::new()));
    assert_eq!(response.status, ResponseStatus::Success);
    assert_eq!(response.data, Payload::Text("hub1 response".to_string()));

    let response = sys.handle_request(thread_hub2, request("/hub2/api", Payload::Empty, MetaMap::new()));
    assert_eq!(response.status, ResponseStatus::Success);
    assert_eq!(response.data, Payload::Text("hub2 response".to_string()));

    let response = sys.handle_request(process_hub, request("/process/api", Payload::Empty, MetaMap::new()));
    assert_eq!(response.status, ResponseStatus::Success);
    assert_eq!(response.data, Payload::Text("process hub response".to_string()));
}

#[test]
fn test_message_publishing() {
    let mut sys = HubSystem::new();
    let hub = sys.new_hub(HubScope::Thread);

    let sub_id = sys.subscribe(hub, "test/topic".to_string(), MessageRule::Pass, 10);

    let mut metadata = MetaMap::new();
    metadata.insert("key1".to_string(), "value1".to_string());
    metadata.insert("key2".to_string(), "value2".to_string());

    let outcome = sys.publish(
        hub,
        "test/topic".to_string(),
        Payload::Text("Hello, world!".to_string()),
        metadata,
    );

    // The one matching subscription was offered the message exactly once.
    assert_eq!(outcome.offered.len(), 1);
    assert_eq!(outcome.offered[0], sub_id);
    assert!(outcome.value.is_none());
}

#[test]
fn test_request_escalation_and_routing() {
    let mut sys = HubSystem::new();
    let process_hub = sys.new_hub(HubScope::Process);
    let thread_hub = sys.new_hub(HubScope::Thread);

    sys.connect_to_parent(thread_hub, process_hub)
        .expect("Failed to connect thread hub to process hub");

    sys.register_api(
        thread_hub,
        "/thread/local_api".to_string(),
        Handler::Fixed(Payload::Text("thread hub response".to_string())),
        MetaMap::new(),
    );

    sys.register_api(
        process_hub,
        "/process/api".to_string(),
        Handler::Fixed(Payload::Text("process hub response".to_string())),
        MetaMap::new(),
    );

    // Escalation: a request at the child for the parent's path is
    // answered by the parent.
    let response = sys.handle_request(thread_hub, request("/process/api", Payload::Empty, MetaMap::new()));
    assert_eq!(response.status, ResponseStatus::Success);
    assert_eq!(response.data, Payload::Text("process hub response".to_string()));

    // Routing downward does not exist: a registration is not handed to
    // the parent as an invocable handler, so the parent cannot reach a
    // child's endpoint and reports NotFound.
    let response = sys.handle_request(process_hub, request("/thread/local_api", Payload::Empty, MetaMap::new()));
    assert_eq!(response.status, ResponseStatus::NotFound);
}

#[test]
fn test_cross_hub_messaging() {
    let mut sys = HubSystem::new();
    let hub1 = sys.new_hub(HubScope::Thread);
    let hub2 = sys.new_hub(HubScope::Thread);

    let sub1 = sys.subscribe(hub1, "test/topic".to_string(), MessageRule::Pass, 10);
    let sub2 = sys.subscribe(hub2, "test/topic".to_string(), MessageRule::Pass, 10);

    let mut metadata1 = MetaMap::new();
    metadata1.insert("source".to_string(), "hub1".to_string());
    let mut metadata2 = MetaMap::new();
    metadata2.insert("source".to_string(), "hub2".to_string());

    let outcome1 = sys.publish(
        hub1,
        "test/topic".to_string(),
        Payload::Text("From hub1".to_string()),
        metadata1,
    );
    let outcome2 = sys.publish(
        hub2,
        "test/topic".to_string(),
        Payload::Text("From hub2".to_string()),
        metadata2,
    );

    assert_eq!(outcome1.offered, vec![sub1], "Hub1 did not receive the message");
    assert_eq!(outcome2.offered, vec![sub2], "Hub2 did not receive the message");
}

#[test]
fn test_unregister_interceptor() {
    let mut sys = HubSystem::new();
    let hub = sys.new_hub(HubScope::Thread);

    sys.register_api(
        hub,
        "/guarded".to_string(),
        Handler::Fixed(Payload::Text("plain".to_string())),
        MetaMap::new(),
    );
    let id = sys.register_api_interceptor(
        hub,
        "/guarded".to_string(),
        ApiInterceptorRule::Respond(ApiResponse {
            data: Payload::Text("seized".to_string()),
            metadata: MetaMap::new(),
            status: ResponseStatus::Intercepted,
        }),
        5,
    );

    let seized = sys.handle_request(hub, request("/guarded", Payload::Empty, MetaMap::new()));
    assert_eq!(seized.status, ResponseStatus::Intercepted);

    assert!(sys.unregister_interceptor(hub, &id));
    assert!(!sys.unregister_interceptor(hub, &id));

    let plain = sys.handle_request(hub, request("/guarded", Payload::Empty, MetaMap::new()));
    assert_eq!(plain.status, ResponseStatus::Success);
    assert_eq!(plain.data, Payload::Text("plain".to_string()));
}

#[test]
fn test_unsubscribe_restores_table() {
    let mut sys = HubSystem::new();
    let hub = sys.new_hub(HubScope::Thread);

    let keeper = sys.subscribe(hub, "news/*".to_string(), MessageRule::Pass, 3);
    let id = sys.subscribe(hub, "news/sport".to_string(), MessageRule::Pass, 7);

    let before = sys.publish(hub, "news/sport".to_string(), Payload::Empty, MetaMap::new());
    assert_eq!(before.offered, vec![id.clone(), keeper.clone()]);

    assert!(sys.unsubscribe(hub, &id));
    assert!(!sys.unsubscribe(hub, &id));

    let after = sys.publish(hub, "news/sport".to_string(), Payload::Empty, MetaMap::new());
    assert_eq!(after.offered, vec![keeper]);
}

#[test]
fn test_method_interception() {
    let mut sys = HubSystem::new();
    let parent = sys.new_hub(HubScope::Process);
    let child = sys.new_hub(HubScope::Thread);
    sys.connect_to_parent(child, parent).expect("wiring failed");

    let tag = "Calculator".to_string();
    let method = "add".to_string();
    let args = Payload::Number(7);

    assert!(sys.try_intercept_method(child, &tag, &method, &args).is_none());

    sys.intercept_method(
        parent,
        tag.clone(),
        method.clone(),
        network_hub::types::MethodRule::Produce(Payload::Number(42)),
        1,
    );

    // The chain on the parent answers calls escalated from the child.
    assert_eq!(
        sys.try_intercept_method(child, &tag, &method, &args),
        Some(Payload::Number(42))
    );
    assert!(sys.try_intercept_method(child, &tag, &"sub".to_string(), &args).is_none());
}
