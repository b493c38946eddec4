use s3_buddy::route_request;
use s3_buddy::Mapping;
use s3_buddy::MappingManager;
use s3_buddy::MappingStatus;
use s3_buddy::RouteDecision;

#[test]
fn test_proxy_routing_scenario_b() {
    // mapping {source: "s3://b/base", host: "h"}, request path "/x/y"
    // -> composed key must equal "base/x/y"
    let mut manager = MappingManager::new();
    let mapping = Mapping::new("s3://b/base".to_string(), "h".to_string());
    manager.add_mapping(mapping, 1_000).unwrap();

    let decision = route_request(&manager.list_mappings(), "h", "/x/y");
    assert_eq!(
        decision,
        RouteDecision::Sign {
            bucket: "b".to_string(),
            key: "base/x/y".to_string(),
            ttl_secs: 300,
        }
    );
}

#[test]
fn test_proxy_routing_scenario_c() {
    // mapping {source: "s3://b", host: "h"}, path "/x" -> composed key "x"
    let mut manager = MappingManager::new();
    let mapping = Mapping::new("s3://b".to_string(), "h".to_string());
    manager.add_mapping(mapping, 1_000).unwrap();

    let decision = route_request(&manager.list_mappings(), "h", "/x");
    assert_eq!(
        decision,
        RouteDecision::Sign {
            bucket: "b".to_string(),
            key: "x".to_string(),
            ttl_secs: 300,
        }
    );
}

#[test]
fn test_proxy_routing_scenario_e() {
    // an unknown hostname is "not found"; a paused mapping is unavailable
    let mut manager = MappingManager::new();
    let mapping = Mapping::new("s3://b/docs/".to_string(), "h".to_string());
    let id = manager.add_mapping(mapping, 1_000).unwrap();

    let decision = route_request(&manager.list_mappings(), "nobody.example.com", "/x");
    assert_eq!(decision, RouteDecision::NotFound);

    manager.pause_mapping(id, 2_000).unwrap();
    let decision = route_request(&manager.list_mappings(), "h", "/x");
    assert_eq!(
        decision,
        RouteDecision::Unavailable {
            status: MappingStatus::Paused,
        }
    );
}

#[test]
fn test_proxy_routing_trailing_slash_single_separator() {
    // a prefix that already ends in "/" gains no second separator
    let mut manager = MappingManager::new();
    let mapping = Mapping::new("s3://b/base/".to_string(), "h".to_string());
    manager.add_mapping(mapping, 1_000).unwrap();

    let decision = route_request(&manager.list_mappings(), "h", "/x");
    assert_eq!(
        decision,
        RouteDecision::Sign {
            bucket: "b".to_string(),
            key: "base/x".to_string(),
            ttl_secs: 300,
        }
    );
}

#[test]
fn test_proxy_routing_empty_path() {
    // an empty request path serves the prefix itself, trailing slash trimmed
    let mut manager = MappingManager::new();
    let mapping = Mapping::new("s3://b/base/".to_string(), "h".to_string());
    manager.add_mapping(mapping, 1_000).unwrap();

    let decision = route_request(&manager.list_mappings(), "h", "");
    assert_eq!(
        decision,
        RouteDecision::Sign {
            bucket: "b".to_string(),
            key: "base".to_string(),
            ttl_secs: 300,
        }
    );

    let decision = route_request(&manager.list_mappings(), "h", "/");
    assert_eq!(
        decision,
        RouteDecision::Sign {
            bucket: "b".to_string(),
            key: "base".to_string(),
            ttl_secs: 300,
        }
    );
}

#[test]
fn test_proxy_routing_uses_mapping_ttl() {
    let mut manager = MappingManager::new();
    let mut mapping = Mapping::new("s3://b/base".to_string(), "h".to_string());
    mapping.presign_duration_secs = 600;
    manager.add_mapping(mapping, 1_000).unwrap();

    let decision = route_request(&manager.list_mappings(), "h", "/file.txt");
    assert_eq!(
        decision,
        RouteDecision::Sign {
            bucket: "b".to_string(),
            key: "base/file.txt".to_string(),
            ttl_secs: 600,
        }
    );
}

#[test]
fn test_proxy_routing_error_status_unavailable() {
    let mut manager = MappingManager::new();
    let mapping = Mapping::new("s3://b/docs/".to_string(), "h".to_string());
    let id = manager.add_mapping(mapping, 1_000).unwrap();
    manager.apply_refresh_outcome(id, Err("signer down".to_string()), 2_000);

    let decision = route_request(&manager.list_mappings(), "h", "/x");
    assert_eq!(
        decision,
        RouteDecision::Unavailable {
            status: MappingStatus::Error,
        }
    );
}
