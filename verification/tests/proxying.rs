use mcp_local_router::proxy::UpstreamProxyService;
use mcp_local_router::rpc::CallToolRequest;

#[test]
fn requests_pass_to_a_running_client_as_they_came() {
    let proxy = UpstreamProxyService::new("files".to_string(), 9);
    let slot = Some('c');
    assert_eq!(proxy.list_tools(&slot, Some("page 2")), Ok((&'c', Some("page 2"))));
    let request = CallToolRequest {
        name: "read".to_string(),
        arguments: 3,
    };
    let (client, sent) = proxy.call_tool(&slot, request).unwrap();
    assert_eq!(client, &'c');
    assert_eq!(sent.name, "read");
    assert_eq!(sent.arguments, 3);
    assert_eq!(proxy.client, 9);
}

#[test]
fn requests_to_a_client_that_was_shut_down_are_refused() {
    let proxy = UpstreamProxyService::new("files".to_string(), 9);
    let slot: Option<char> = None;
    let error = proxy.list_tools(&slot, ()).unwrap_err();
    assert_eq!(error.code, -32603);
    assert_eq!(error.message, "Client 'files' already shut down");
    let request = CallToolRequest {
        name: "read".to_string(),
        arguments: 3,
    };
    let error = proxy.call_tool(&slot, request).unwrap_err();
    assert_eq!(error.message, "Client 'files' already shut down");
}
