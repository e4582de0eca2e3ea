use mcp_local_router::aggregator::AggregatorService;
use mcp_local_router::tools::{Discovery, ListingAction, PageReply, Tool, ToolListing};

type Service = AggregatorService<u32, u8>;

fn page(tools: &[(&str, u8)], next_cursor: Option<&str>) -> PageReply<u8> {
    PageReply::Page {
        tools: tools
            .iter()
            .map(|(name, definition)| Tool {
                name: name.to_string(),
                definition: *definition,
            })
            .collect(),
        next_cursor: next_cursor.map(|cursor| cursor.to_string()),
    }
}

/// Hands these replies to a listing of the upstream `server`, and says what was asked for.
fn list(service: &mut Service, server: &str, replies: Vec<PageReply<u8>>) -> Vec<String> {
    let mut listing = ToolListing::new();
    let mut asked = vec![];
    for reply in replies {
        asked.push(match listing.pending() {
            ListingAction::AskFirst => "first".to_string(),
            ListingAction::AskAfter { cursor } => format!("after {}", cursor),
            ListingAction::Finished => "nothing".to_string(),
        });
        if let Some(discovery) = listing.advance(reply) {
            service.record_discovery(server, discovery);
        }
    }
    if listing.pending() == ListingAction::Finished {
        asked.push("over".to_string());
    }
    asked
}

#[test]
fn every_page_of_an_upstream_is_taken_in() {
    let mut service = Service::empty();
    service.register_client("a".to_string(), 1);
    let asked = list(
        &mut service,
        "a",
        vec![
            page(&[("one", 1), ("two", 2)], Some("c1")),
            page(&[], Some("c2")),
            page(&[("three", 3), ("one", 4)], None),
        ],
    );
    assert_eq!(asked, vec!["first", "after c1", "after c2", "over"]);
    assert_eq!(service.list_tools().tools, vec![&4, &2, &3]);
}

#[test]
fn a_page_that_fails_ends_the_listing_and_keeps_the_pages_before() {
    for end in [PageReply::Failed, PageReply::TimedOut, PageReply::ClientTaken] {
        let mut service = Service::empty();
        service.register_client("a".to_string(), 1);
        let asked = list(&mut service, "a", vec![page(&[("one", 1)], Some("c1")), end]);
        assert_eq!(asked, vec!["first", "after c1", "over"]);
        assert_eq!(service.list_tools().tools, vec![&1]);
    }
}

#[test]
fn a_listing_that_is_over_takes_no_reply() {
    let mut listing = ToolListing::new();
    assert_eq!(
        listing.advance(PageReply::<u8>::ClientTaken),
        Some(Discovery::ClientTaken)
    );
    assert_eq!(listing.advance(page(&[("one", 1)], Some("c1"))), None);
    assert_eq!(listing.pending(), ListingAction::Finished);
}

#[test]
fn pages_of_several_upstreams_may_come_in_any_order() {
    let mut service = Service::empty();
    service.register_client("a".to_string(), 1);
    service.register_client("b".to_string(), 2);
    list(&mut service, "a", vec![page(&[("x", 1)], Some("c"))]);
    list(&mut service, "b", vec![page(&[("y", 2)], None)]);
    list(&mut service, "a", vec![page(&[("z", 3)], None)]);
    assert_eq!(service.list_tools().tools, vec![&1, &2, &3]);
}
