use byteorder::{ByteOrder, LittleEndian};
use wikigraph::graph::{graph_node, write_file_header, write_node_header, GraphError};
use wikigraph::layout::{compute_byte_offset, compute_length};
use wikigraph::models::{look_up_lookup_entry, LookupEntry};
use wikigraph::parser::Parser;
use wikigraph::words::write_i32;

fn entry(title: &str, byteoffset: i32, length: i32) -> LookupEntry {
    LookupEntry { title: title.to_string(), byteoffset, length }
}

fn strings(list: &[&str]) -> Vec<String> {
    list.iter().map(|s| s.to_string()).collect()
}

fn integers(bytes: &[u8]) -> Vec<i32> {
    bytes.chunks(4).map(|word| LittleEndian::read_i32(word)).collect()
}

fn parser(count: i32) -> Parser {
    let mut parser = Parser::new("graph.bin".to_string(), "postgres://wiki".to_string());
    parser.set_count(count);
    parser
}

#[test]
fn integers_have_their_low_byte_first() {
    let mut file = vec![7u8];
    write_i32(&mut file, 0x0102_0304);
    write_i32(&mut file, -2);
    assert_eq!(file, vec![7, 4, 3, 2, 1, 0xfe, 0xff, 0xff, 0xff]);
}

#[test]
fn integers_are_read_back() {
    for value in [0, 1, -1, 255, 256, 65536, 1 << 24, i32::MAX, i32::MIN, -1_000_000] {
        let mut file = Vec::new();
        write_i32(&mut file, value);
        assert_eq!(integers(&file), vec![value]);
    }
}

#[test]
fn sizes_are_in_bytes() {
    assert_eq!(compute_length(0), 16);
    assert_eq!(compute_length(384), 1552);
    assert_eq!(compute_byte_offset(16, 0), 16);
    assert_eq!(compute_byte_offset(16, 1552), 1568);
}

#[test]
fn headers_are_four_integers() {
    let mut file = Vec::new();
    write_file_header(&mut file, 6789472);
    write_node_header(&mut file, 384);
    assert_eq!(integers(&file), vec![1, 6789472, 0, 0, 0, 0, 0, 384]);
}

#[test]
fn a_graph_holds_the_places_of_the_linked_pages() {
    let rows = vec![entry("A", 16, 8), entry("B", 40, 4), entry("C", 60, 0)];
    let lines = strings(&["A|B,C,", "B|A,", "C|"]);
    let file = parser(3).create_graph(&lines, &rows).unwrap();
    assert_eq!(
        integers(&file),
        vec![1, 3, 0, 0, 0, 0, 0, 2, 40, 60, 0, 0, 0, 1, 16, 0, 0, 0, 0]
    );
}

#[test]
fn the_next_page_is_found_by_skipping_the_links() {
    let rows = vec![entry("A", 16, 8), entry("B", 40, 4), entry("C", 60, 0)];
    let lines = strings(&["A|B,C,", "B|A,", "C|"]);
    let file = parser(3).create_graph(&lines, &rows).unwrap();
    let mut at: usize = 16;
    let mut places = Vec::new();
    while at < file.len() {
        places.push(at);
        at += 16 + 4 * LittleEndian::read_i32(&file[at + 12..at + 16]) as usize;
    }
    assert_eq!(places, vec![16, 40, 60]);
    assert_eq!(at, file.len());
}

#[test]
fn pages_follow_one_another_whatever_the_list_looks_like() {
    let rows = vec![entry("Z", -4, 0), entry("B", 40, 7), entry("A", 16, 0), entry("", 60, 0)];
    let lines = strings(&["A|B,Z|ignored", "B|A", "|"]);
    let file = parser(9).create_graph(&lines, &rows).unwrap();
    assert_eq!(
        integers(&file),
        vec![1, 9, 0, 0, 0, 0, 0, 2, 40, -4, 0, 0, 0, 1, 16, 0, 0, 0, 0]
    );
    let mut at = 16;
    for (title, num_links) in [("A", 2), ("B", 1), ("", 0)] {
        let row = look_up_lookup_entry(&rows, &title.to_string()).unwrap();
        assert_eq!(row.byteoffset, at);
        at += 16 + 4 * num_links;
    }
    assert_eq!(at as usize, file.len());
}

#[test]
fn a_graph_without_lines_is_a_header() {
    let file = parser(0).create_graph(&vec![], &vec![]).unwrap();
    assert_eq!(integers(&file), vec![1, 0, 0, 0]);
}

#[test]
fn a_page_in_the_wrong_place_is_refused() {
    let rows = vec![entry("A", 0, 0)];
    match parser(1).create_graph(&strings(&["A|"]), &rows) {
        Err(GraphError::OffsetMismatch { expected, found }) => {
            assert_eq!(expected, 0);
            assert_eq!(found, 16);
        }
        other => panic!("{:?}", other),
    }
    assert!(matches!(
        graph_node(16, "A|", &vec![entry("A", -16, 0)]),
        Err(GraphError::OffsetMismatch { expected: -16, found: 16 })
    ));
}

#[test]
fn an_unknown_page_is_refused() {
    let rows = vec![entry("A", 16, 4)];
    match parser(1).create_graph(&strings(&["B|A,"]), &rows) {
        Err(GraphError::UnknownTitle(title)) => assert_eq!(title, "B"),
        other => panic!("{:?}", other),
    }
}

#[test]
fn the_first_unknown_link_is_reported() {
    let rows = vec![entry("A", 16, 8)];
    match graph_node(16, "A|A,X,Y,", &rows) {
        Err(GraphError::UnknownTitle(title)) => assert_eq!(title, "X"),
        other => panic!("{:?}", other),
    }
}

#[test]
fn a_line_without_links_field_is_refused() {
    let rows = vec![entry("A", 16, 0)];
    assert!(matches!(graph_node(16, "A", &rows), Err(GraphError::NoLinkField)));
}

#[test]
fn the_first_row_of_a_title_is_found() {
    let rows = vec![entry("A", 1, 0), entry("B", 2, 0), entry("B", 3, 0)];
    assert_eq!(look_up_lookup_entry(&rows, &"B".to_string()).unwrap().byteoffset, 2);
    assert!(look_up_lookup_entry(&rows, &"b".to_string()).is_none());
}

#[test]
fn the_rows_that_a_line_names_suffice() {
    let table = vec![entry("A", 16, 8), entry("B", 40, 4), entry("C", 60, 0)];
    let named = vec![entry("C", 60, 0), entry("A", 16, 8)];
    let node = graph_node(16, "A|C,A,", &table).unwrap();
    assert_eq!(node, graph_node(16, "A|C,A,", &named).unwrap());
    assert_eq!(integers(&node), vec![0, 0, 0, 2, 60, 16]);
}
