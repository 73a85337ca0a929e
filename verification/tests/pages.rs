use wikigraph::page::excluded;

#[test]
fn articles_are_kept() {
    assert!(!excluded("Anarchism", "Some [[text]]"));
    assert!(!excluded("Category:Cities", "text"));
}

#[test]
fn empty_pages_are_left_out() {
    assert!(excluded("", "text"));
    assert!(excluded("Anarchism", ""));
}

#[test]
fn other_namespaces_are_left_out() {
    for mark in ["Template:", "Wikipedia:", "File:", "WP:", "User:", "Help:", "Draft:"] {
        assert!(excluded(&format!("{}x", mark), "text"));
        assert!(excluded(&format!("x {}", mark), "text"));
        assert!(!excluded(&mark.replace(':', ""), "text"));
        assert!(!excluded("title", mark));
    }
}

#[test]
fn disambiguation_pages_are_left_out() {
    assert!(excluded("Mercury (disambiguation)", "text"));
    assert!(excluded("Mercury", "a {{disambiguation}} b"));
    assert!(excluded("Mercury", "a {{disambig|geo}} b"));
    assert!(!excluded("Mercury", "disambiguation {{disambi"));
}

#[test]
fn the_title_is_measured_in_bytes() {
    assert!(!excluded(&"a".repeat(255), "text"));
    assert!(excluded(&"a".repeat(256), "text"));
    assert!(!excluded(&"é".repeat(127), "text"));
    assert!(excluded(&"é".repeat(128), "text"));
}
