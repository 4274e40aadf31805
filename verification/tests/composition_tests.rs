use service_framework::errors::BuildError;
use service_framework::librarian::{LibrarianConfig, LibrarianService};
use service_framework::my_other_service::{OtherConfig, OtherService};
use service_framework::my_service::{MyService, ServiceConfig};
use service_framework::registry::build_router;
use service_framework::routing::{route_request, Mount, RootTree, Route, Subtree};
use service_framework::service_config::{config_sources, ConfigFileType, ConfigSource};
use service_framework::services::RegisteredService;

fn configured_services() -> Vec<RegisteredService> {
    vec![
        RegisteredService::My(MyService {
            config: Some(ServiceConfig { dburl: "sqlite://my.db".to_string() }),
        }),
        RegisteredService::Other(OtherService {
            config: Some(OtherConfig { some_text: "hello".to_string() }),
        }),
        RegisteredService::Librarian(LibrarianService {
            config: Some(LibrarianConfig { database_url: "sqlite://library.db".to_string() }),
        }),
    ]
}

#[test]
fn composition_mounts_every_service_in_order() {
    let services = configured_services();
    let tree = build_router(&services).unwrap();
    assert_eq!(tree.mounts.len(), 3);
    assert_eq!(tree.mounts[0].prefix, "/api/v1");
    assert_eq!(tree.mounts[1].prefix, "/api/v2");
    assert_eq!(tree.mounts[2].prefix, "/library/v1/");
    assert_eq!(tree.mounts[0].subtree.routes.len(), 1);
    assert_eq!(tree.mounts[0].subtree.routes[0].path, "/show_config");
    assert_eq!(tree.mounts[2].subtree.routes.len(), 5);
    assert_eq!(tree.mounts[2].subtree.routes[0].path, "/");
}

#[test]
fn composition_fails_atomically_on_one_unbuildable_service() {
    let services = vec![
        RegisteredService::My(MyService {
            config: Some(ServiceConfig { dburl: "sqlite://my.db".to_string() }),
        }),
        RegisteredService::Other(OtherService { config: None }),
        RegisteredService::Librarian(LibrarianService {
            config: Some(LibrarianConfig { database_url: "sqlite://library.db".to_string() }),
        }),
    ];
    let composed = build_router(&services);
    assert!(matches!(composed, Err(BuildError::Configuration)));
}

#[test]
fn first_registrant_wins_on_colliding_prefixes() {
    let first = Subtree {
        routes: vec![Route { path: "/a".to_string(), protected: false }],
    };
    let second = Subtree {
        routes: vec![Route { path: "/b".to_string(), protected: false }],
    };
    let tree = RootTree {
        mounts: vec![
            Mount { prefix: "/x".to_string(), subtree: first },
            Mount { prefix: "/x".to_string(), subtree: second },
        ],
    };
    assert_eq!(route_request(&tree, "/x/a"), Some(0));
    assert_eq!(route_request(&tree, "/x/b"), Some(0));
    assert_eq!(route_request(&tree, "/x"), Some(0));
    assert_eq!(route_request(&tree, "/y/a"), None);
}

#[test]
fn requests_route_to_the_matching_prefix() {
    let services = configured_services();
    let tree = build_router(&services).unwrap();
    assert_eq!(route_request(&tree, "/api/v1/show_config"), Some(0));
    assert_eq!(route_request(&tree, "/api/v2/show_config"), Some(1));
    assert_eq!(route_request(&tree, "/library/v1/add"), Some(2));
    assert_eq!(route_request(&tree, "/nothing/here"), None);
}

#[test]
fn configuration_plan_puts_environment_after_file() {
    let env_only = config_sources("TEST_SERVICE", &ConfigFileType::NoFile);
    assert_eq!(env_only.len(), 1);
    assert!(matches!(&env_only[0], ConfigSource::Environment { prefix } if prefix == "TEST_SERVICE"));

    let with_file = config_sources(
        "TEST_SERVICE",
        &ConfigFileType::File { filename: "test_config.json".to_string(), required: true },
    );
    assert_eq!(with_file.len(), 2);
    assert!(matches!(
        &with_file[0],
        ConfigSource::File { filename, required: true } if filename == "test_config.json"
    ));
    assert!(matches!(&with_file[1], ConfigSource::Environment { prefix } if prefix == "TEST_SERVICE"));
}

#[test]
fn listen_endpoint_joins_address_and_port() {
    let config = service_framework::service_config::ServiceConfig {
        listen_address: "0.0.0.0".to_string(),
        listen_port: "3001".to_string(),
        static_content: "static_html".to_string(),
    };
    assert_eq!(config.listen(), "0.0.0.0:3001");
}
