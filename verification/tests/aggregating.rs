use mcp_local_router::aggregator::{AggregatorService, ConnectionService, TargetService};
use mcp_local_router::http::Status;
use mcp_local_router::rpc::{upstream_reply, CallToolRequest, INTERNAL_ERROR, RESOURCE_NOT_FOUND};
use mcp_local_router::tools::{Discovery, Tool, DISCOVERY_TIMEOUT_SECS};
use rmcp::model::ErrorCode;

type Service = AggregatorService<u32, &'static str>;

fn tool(name: &str, definition: &'static str) -> Tool<&'static str> {
    Tool {
        name: name.to_string(),
        definition,
    }
}

fn call(name: &str) -> CallToolRequest<Option<u8>> {
    CallToolRequest {
        name: name.to_string(),
        arguments: Some(7),
    }
}

fn two_upstreams() -> Service {
    let mut service = Service::empty();
    service.register_client("files".to_string(), 1);
    service.register_client("search".to_string(), 2);
    service.record_discovery(
        "files",
        Discovery::Listed(vec![tool("read", "files/read"), tool("find", "files/find")]),
    );
    service.record_discovery("search", Discovery::Listed(vec![tool("find", "search/find")]));
    service
}

#[test]
fn lists_the_tools_of_all_upstreams_once() {
    let service = two_upstreams();
    let list = service.list_tools();
    assert_eq!(list.tools, vec![&"files/read", &"search/find"]);
    assert_eq!(list.next_cursor, None);
}

#[test]
fn nothing_is_listed_before_a_discovery() {
    let service = Service::empty();
    assert!(service.list_tools().tools.is_empty());
}

#[test]
fn calls_go_to_the_upstream_that_listed_the_tool_last() {
    let service = two_upstreams();
    let forward = service.call_tool(call("find")).unwrap();
    assert_eq!(forward.client_name, "search");
    assert_eq!(forward.client, 2);
    assert_eq!(forward.request, call("find"));
    let forward = service.call_tool(call("read")).unwrap();
    assert_eq!(forward.client_name, "files");
    assert_eq!(forward.client, 1);
}

#[test]
fn the_last_definition_in_one_listing_stays() {
    let mut service = Service::empty();
    service.register_client("files".to_string(), 1);
    service.record_discovery(
        "files",
        Discovery::Listed(vec![tool("read", "old"), tool("read", "new")]),
    );
    assert_eq!(service.list_tools().tools, vec![&"new"]);
}

#[test]
fn a_discovery_without_a_listing_changes_nothing() {
    let mut service = two_upstreams();
    service.record_discovery("files", Discovery::Failed);
    service.record_discovery("files", Discovery::TimedOut);
    service.record_discovery("files", Discovery::ClientTaken);
    assert_eq!(
        service.list_tools().tools,
        vec![&"files/read", &"search/find"]
    );
    assert_eq!(service.call_tool(call("find")).unwrap().client, 2);
    assert_eq!(DISCOVERY_TIMEOUT_SECS, 30);
}

#[test]
fn an_unknown_tool_is_not_found() {
    let error = two_upstreams().call_tool(call("write")).unwrap_err();
    assert_eq!(error.code, -32002);
    assert_eq!(error.code, RESOURCE_NOT_FOUND);
    assert_eq!(error.code, ErrorCode::RESOURCE_NOT_FOUND.0);
    assert_eq!(error.message, "Tool 'write' not found");
}

#[test]
fn a_tool_without_a_client_is_an_internal_error() {
    let mut service = Service::empty();
    service.record_discovery("ghost", Discovery::Listed(vec![tool("read", "x")]));
    let error = service.call_tool(call("read")).unwrap_err();
    assert_eq!(error.code, -32603);
    assert_eq!(error.message, "Client 'ghost' not found");
}

#[test]
fn a_call_enters_a_running_client() {
    let forward = two_upstreams().call_tool(call("read")).unwrap();
    let slot = Some("running");
    assert_eq!(forward.enter(&slot), Ok((&"running", call("read"))));
}

#[test]
fn a_call_of_a_client_that_was_shut_down_is_refused() {
    let forward = two_upstreams().call_tool(call("read")).unwrap();
    let slot: Option<&str> = None;
    let error = forward.enter(&slot).unwrap_err();
    assert_eq!(error.code, INTERNAL_ERROR);
    assert_eq!(error.code, ErrorCode::INTERNAL_ERROR.0);
    assert_eq!(error.message, "Client 'files' already shut down");
}

#[test]
fn upstream_outcomes_are_handed_on() {
    assert_eq!(upstream_reply::<u8>(Ok(5)), Ok(5));
    let error = upstream_reply::<u8>(Err("broken pipe".to_string())).unwrap_err();
    assert_eq!(error.code, -32603);
    assert_eq!(error.message, "broken pipe");
}

#[test]
fn handles_and_names_are_found() {
    let service = two_upstreams();
    assert_eq!(service.get_client_handle("search"), Some(2));
    assert_eq!(service.get_client_handle("Search"), None);
    assert_eq!(service.upstream_names(), vec!["files", "search"]);
}

#[test]
fn a_stream_of_one_upstream_is_served_by_its_proxy() {
    let service = two_upstreams();
    let target = service.upstream_target("search".to_string()).unwrap();
    assert_eq!(
        target,
        TargetService::Upstream {
            name: "search".to_string(),
            client: 2
        }
    );
    match target.service() {
        ConnectionService::Proxy(proxy) => {
            assert_eq!(proxy.client_name, "search");
            assert_eq!(proxy.client, 2);
        }
        ConnectionService::Aggregator => panic!("not a proxy"),
    }
    let all: TargetService<u32> = TargetService::Aggregator;
    assert_eq!(all.service(), ConnectionService::Aggregator);
}

#[test]
fn a_stream_of_an_unknown_upstream_is_not_found() {
    let response = two_upstreams()
        .upstream_target("nope".to_string())
        .unwrap_err();
    assert_eq!(response.status, Status::NotFound);
    assert_eq!(
        response.body,
        "Unknown upstream service 'nope'. Available: files, search"
    );
    let response = Service::empty()
        .upstream_target("nope".to_string())
        .unwrap_err();
    assert_eq!(response.body, "Unknown upstream service 'nope'");
}
