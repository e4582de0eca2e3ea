use mcp_local_router::aggregator::AggregatorService;
use mcp_local_router::rpc::CallToolRequest;
use mcp_local_router::shutdown::ShutdownAction;
use mcp_local_router::tools::{Discovery, Tool};

type Service = AggregatorService<usize, ()>;

fn service() -> Service {
    let mut service = Service::empty();
    for (i, name) in ["a", "b", "c"].iter().enumerate() {
        service.register_client(name.to_string(), i);
    }
    service
}

/// Shuts down the clients in `slots` and says which ones were cancelled.
fn shut_down(service: &Service, slots: &mut Vec<Option<String>>) -> Vec<String> {
    let mut shutdown = service.shutdown();
    let mut taken = None;
    let mut cancelled = vec![];
    loop {
        match shutdown.pending() {
            ShutdownAction::Visit { handle, .. } => {
                let handle = *handle;
                taken = shutdown.visit(&mut slots[handle]);
            }
            ShutdownAction::Cancel { name } => {
                let client: String = taken.take().unwrap();
                cancelled.push(format!("{}={}", name, client));
                shutdown.cancel_finished();
            }
            ShutdownAction::Finished => return cancelled,
        }
    }
}

#[test]
fn every_running_client_is_cancelled_once() {
    let mut slots = vec![Some("x".to_string()), None, Some("z".to_string())];
    assert_eq!(shut_down(&service(), &mut slots), vec!["a=x", "c=z"]);
    assert_eq!(slots, vec![None, None, None]);
}

#[test]
fn a_second_shutdown_cancels_nothing() {
    let mut slots = vec![Some("x".to_string()), None, Some("z".to_string())];
    shut_down(&service(), &mut slots);
    assert!(shut_down(&service(), &mut slots).is_empty());
    assert_eq!(slots, vec![None, None, None]);
}

#[test]
fn a_service_without_clients_is_down_at_once() {
    let shutdown = Service::empty().shutdown();
    assert_eq!(shutdown.pending(), ShutdownAction::Finished);
}

#[test]
fn a_visit_out_of_turn_leaves_the_slot_alone() {
    let mut shutdown = service().shutdown();
    shutdown.cancel_finished();
    let mut slot = Some(1);
    assert_eq!(shutdown.visit(&mut slot), Some(1));
    let mut other = Some(2);
    assert_eq!(shutdown.visit(&mut other), None);
    assert_eq!(other, Some(2));
    assert_eq!(
        shutdown.pending(),
        ShutdownAction::Cancel {
            name: &"a".to_string()
        }
    );
    shutdown.cancel_finished();
    assert_eq!(
        shutdown.pending(),
        ShutdownAction::Visit {
            name: &"b".to_string(),
            handle: &1
        }
    );
}

#[test]
fn calls_after_a_shutdown_are_refused() {
    let mut service = service();
    service.record_discovery(
        "b",
        Discovery::Listed(vec![Tool {
            name: "read".to_string(),
            definition: (),
        }]),
    );
    let mut slots = vec![None, Some("y".to_string()), None];
    shut_down(&service, &mut slots);
    let forward = service
        .call_tool(CallToolRequest {
            name: "read".to_string(),
            arguments: (),
        })
        .unwrap();
    let error = forward.enter(&slots[1]).unwrap_err();
    assert_eq!(error.message, "Client 'b' already shut down");
}
