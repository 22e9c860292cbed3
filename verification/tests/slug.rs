use hackstore::is_illegal_hack_slug;

#[test]
pub fn test_illegal_hack_slug() {
    assert!(is_illegal_hack_slug("I/am"));
    assert!(is_illegal_hack_slug("faq"));
    assert!(!is_illegal_hack_slug("hello"));
}

#[test]
fn reserved_page_names_are_illegal() {
    for name in [
        "Oswald-Medium.ttf",
        "style.css",
        "majority",
        "tagged",
        "create_majority_token",
        "disconnect_majority_token",
        "connect_majority_token",
        "index",
        "reload",
        "information",
        "search",
        "filter",
        "download",
        "marius",
        "pokemon-mystery-dungeon",
        "adventurers",
        "explorers",
        "super",
        "gates",
    ] {
        assert!(is_illegal_hack_slug(name), "{name} should be illegal");
    }
}

#[test]
fn slashes_anywhere_are_illegal() {
    assert!(is_illegal_hack_slug("/"));
    assert!(is_illegal_hack_slug("a/b/c"));
    assert!(is_illegal_hack_slug("trailing/"));
    assert!(!is_illegal_hack_slug(""));
    assert!(!is_illegal_hack_slug("perfectly-fine-name"));
}
