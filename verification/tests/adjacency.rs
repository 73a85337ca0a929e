use wikigraph::adjacency::{add_to_adj_list, read_line};

fn strings(list: &[&str]) -> Vec<String> {
    list.iter().map(|s| s.to_string()).collect()
}

#[test]
fn a_line_holds_the_title_and_a_comma_after_each_link() {
    assert_eq!(add_to_adj_list("Paris", &strings(&["France", "Seine"])), "Paris|France,Seine,\n");
    assert_eq!(add_to_adj_list("Paris", &strings(&[])), "Paris|\n");
}

#[test]
fn a_line_is_read_back() {
    for links in [vec![], vec!["France"], vec!["France", "", "Seine"], vec![""]] {
        let line = add_to_adj_list("Île-de-France", &strings(&links));
        let read = read_line(line.trim_end_matches('\n'));
        assert_eq!(read.title, "Île-de-France");
        assert_eq!(read.links, Some(strings(&links)));
    }
}

#[test]
fn a_list_cut_at_its_line_breaks_gives_back_its_lines() {
    let pages = [("A", vec!["B", "C"]), ("B", vec![]), ("C", vec!["", "A"])];
    let mut list = String::new();
    for (title, links) in &pages {
        list.push_str(&add_to_adj_list(title, &strings(links)));
    }
    let lines: Vec<&str> = list.lines().collect();
    assert_eq!(lines, vec!["A|B,C,", "B|", "C|,A,"]);
    for (line, (title, links)) in lines.iter().zip(&pages) {
        let read = read_line(line);
        assert_eq!(read.title, *title);
        assert_eq!(read.links, Some(strings(links)));
    }
}

#[test]
fn a_last_link_needs_no_comma() {
    assert_eq!(read_line("A|B,C").links, Some(strings(&["B", "C"])));
    assert_eq!(read_line("A|B,C,").links, Some(strings(&["B", "C"])));
    assert_eq!(read_line("A|,").links, Some(strings(&[""])));
    assert_eq!(read_line("A|").links, Some(strings(&[])));
}

#[test]
fn what_stands_behind_a_second_bar_is_ignored() {
    let read = read_line("A|B,C|D,E");
    assert_eq!(read.title, "A");
    assert_eq!(read.links, Some(strings(&["B", "C"])));
}

#[test]
fn a_line_without_a_bar_has_a_title_alone() {
    let read = read_line("A,B");
    assert_eq!(read.title, "A,B");
    assert_eq!(read.links, None);
    assert_eq!(read_line("").title, "");
    assert_eq!(read_line("").links, None);
}

#[test]
fn a_link_with_a_comma_is_not_read_back() {
    let line = add_to_adj_list("A", &strings(&["Paris, Texas"]));
    assert_eq!(read_line(line.trim_end()).links, Some(strings(&["Paris", " Texas"])));
}
