use mcp_local_router::text::{enclose, join};

#[test]
fn texts_are_joined_between_neighbours() {
    assert_eq!(join(&vec![], ", "), "");
    assert_eq!(join(&vec!["a".to_string()], ", "), "a");
    assert_eq!(
        join(&vec!["a".to_string(), String::new(), "c".to_string()], ", "),
        "a, , c"
    );
}

#[test]
fn texts_are_enclosed() {
    assert_eq!(enclose("<", "x", ">"), "<x>");
}
