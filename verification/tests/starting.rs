use mcp_local_router::aggregator::AggregatorService;
use mcp_local_router::config::{AppConfig, ServerConfig};
use mcp_local_router::names::table_of;
use mcp_local_router::startup::{Startup, StartupAction, StartupEvent};

type Service = AggregatorService<u32, ()>;

fn server(command: &str) -> ServerConfig {
    ServerConfig {
        command: command.to_string(),
        args: vec!["-y".to_string(), "server".to_string()],
        env: table_of(vec![("TOKEN".to_string(), "value".to_string())]),
    }
}

fn config() -> AppConfig {
    AppConfig::new(vec![
        ("filesystem".to_string(), server("npx")),
        ("workspace-search".to_string(), server("uvx")),
    ])
}

fn pending_text(startup: &Startup) -> String {
    match startup.pending() {
        StartupAction::Spawn { name, config } => format!("spawn {} {}", name, config.command),
        StartupAction::Serve { name } => format!("serve {}", name),
        StartupAction::Discover { name } => format!("discover {}", name),
        StartupAction::Ready => "ready".to_string(),
        StartupAction::Fail { context } => format!("fail: {}", context),
    }
}

#[test]
fn upstreams_start_one_after_another() {
    let mut startup = Startup::new(config());
    let mut service = Service::empty();
    assert_eq!(pending_text(&startup), "spawn filesystem npx");
    startup.advance(&mut service, StartupEvent::Spawned);
    assert_eq!(pending_text(&startup), "serve filesystem");
    assert_eq!(service.get_client_handle("filesystem"), None);
    startup.advance(&mut service, StartupEvent::Served(1));
    assert_eq!(pending_text(&startup), "discover filesystem");
    assert_eq!(service.get_client_handle("filesystem"), Some(1));
    startup.advance(&mut service, StartupEvent::DiscoveryStarted);
    assert_eq!(pending_text(&startup), "spawn workspace-search uvx");
    startup.advance(&mut service, StartupEvent::Spawned);
    startup.advance(&mut service, StartupEvent::Served(2));
    startup.advance(&mut service, StartupEvent::DiscoveryStarted);
    assert_eq!(pending_text(&startup), "ready");
    assert_eq!(service.upstream_names(), vec!["filesystem", "workspace-search"]);
    assert_eq!(service.get_client_handle("filesystem"), Some(1));
    assert_eq!(service.get_client_handle("workspace-search"), Some(2));
}

#[test]
fn an_upstream_is_launched_as_configured() {
    let startup = Startup::new(config());
    match startup.pending() {
        StartupAction::Spawn { config, .. } => {
            assert_eq!(config.args, vec!["-y", "server"]);
            assert_eq!(config.env.len(), 1);
            assert_eq!(config.env.get("TOKEN"), Some(&"value".to_string()));
        }
        _ => panic!("nothing to launch"),
    }
}

#[test]
fn a_process_that_cannot_be_created_ends_the_startup() {
    let mut startup = Startup::new(config());
    let mut service = Service::empty();
    startup.advance(&mut service, StartupEvent::SpawnFailed);
    assert_eq!(
        pending_text(&startup),
        "fail: Failed to create child process transport for filesystem"
    );
    startup.advance(&mut service, StartupEvent::Spawned);
    assert_eq!(
        pending_text(&startup),
        "fail: Failed to create child process transport for filesystem"
    );
    assert!(service.upstream_names().is_empty());
}

#[test]
fn a_client_that_cannot_be_connected_ends_the_startup() {
    let mut startup = Startup::new(config());
    let mut service = Service::empty();
    startup.advance(&mut service, StartupEvent::Spawned);
    startup.advance(&mut service, StartupEvent::Served(1));
    startup.advance(&mut service, StartupEvent::DiscoveryStarted);
    startup.advance(&mut service, StartupEvent::Spawned);
    startup.advance(&mut service, StartupEvent::ServeFailed);
    assert_eq!(
        pending_text(&startup),
        "fail: Failed to create client service for workspace-search"
    );
    assert_eq!(service.upstream_names(), vec!["filesystem"]);
}

#[test]
fn a_configuration_without_upstreams_is_ready_at_once() {
    let startup = Startup::new(AppConfig::new(vec![]));
    assert_eq!(pending_text(&startup), "ready");
}

#[test]
fn events_that_are_not_waited_for_change_nothing() {
    let mut startup = Startup::new(config());
    let mut service = Service::empty();
    startup.advance(&mut service, StartupEvent::Served(5));
    startup.advance(&mut service, StartupEvent::DiscoveryStarted);
    assert_eq!(pending_text(&startup), "spawn filesystem npx");
    assert!(service.upstream_names().is_empty());
}

#[test]
fn streams_exist_for_the_configured_upstreams() {
    let mut startup = Startup::new(config());
    let mut service = Service::empty();
    for handle in [1, 2] {
        startup.advance(&mut service, StartupEvent::Spawned);
        startup.advance(&mut service, StartupEvent::Served(handle));
        startup.advance(&mut service, StartupEvent::DiscoveryStarted);
    }
    assert!(service.upstream_target("filesystem".to_string()).is_ok());
    assert!(service.upstream_target("workspace-search".to_string()).is_ok());
    assert!(service.upstream_target("other".to_string()).is_err());
}
