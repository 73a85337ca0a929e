use wikigraph::models::{LookupEntry, RedirectEntry};
use wikigraph::tables::{add_lookup_entry, add_redirect_entry, lookup_redirect_entry};
use wikigraph::tables::{lookup_with_redirects, resolve_title, AfterInsert, Insert};

fn entry(title: &str, byteoffset: i32) -> LookupEntry {
    LookupEntry { title: title.to_string(), byteoffset, length: 0 }
}

fn redirect(from: &str, to: &str) -> RedirectEntry {
    RedirectEntry { redirect_from: from.to_string(), redirect_to: to.to_string() }
}

#[test]
fn a_second_redirect_is_no_failure() {
    assert!(matches!(add_redirect_entry(Insert::Added), AfterInsert::GoOn));
    assert!(matches!(add_redirect_entry(Insert::Duplicate), AfterInsert::Report));
    assert!(matches!(add_redirect_entry(Insert::Failed), AfterInsert::Fail));
}

#[test]
fn a_second_page_of_a_title_is_a_failure() {
    assert!(matches!(add_lookup_entry(Insert::Added), AfterInsert::GoOn));
    assert!(matches!(add_lookup_entry(Insert::Duplicate), AfterInsert::Fail));
    assert!(matches!(add_lookup_entry(Insert::Failed), AfterInsert::Fail));
}

#[test]
fn a_redirect_leads_to_its_target() {
    let entries = vec![entry("Paris", 16), entry("Lutetia", 32), entry("Rome", 48)];
    let redirects = vec![redirect("Lutetia", "Paris"), redirect("Nowhere", "Gone")];
    let find = |title: &str| {
        lookup_with_redirects(&entries, &redirects, &title.to_string()).map(|e| e.byteoffset)
    };
    assert_eq!(find("Lutetia"), Some(16));
    assert_eq!(find("Rome"), Some(48));
    assert_eq!(find("Nowhere"), None);
    assert_eq!(find("Athens"), None);
}

#[test]
fn only_one_redirect_is_followed() {
    let redirects = vec![redirect("A", "B"), redirect("B", "C")];
    assert_eq!(resolve_title(&redirects, &"A".to_string()), "B");
    assert_eq!(resolve_title(&redirects, &"C".to_string()), "C");
    assert!(lookup_redirect_entry(&redirects, &"C".to_string()).is_none());
    assert_eq!(lookup_redirect_entry(&redirects, &"B".to_string()).unwrap().redirect_to, "C");
}
