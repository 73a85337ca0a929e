//! The graph file: a header, then for each page of the adjacency list its header and its links.
use vstd::prelude::*;

use crate::adjacency::{line_links, line_title, read_line};
use crate::models::{find_row, look_up_lookup_entry, rows_of, LookupEntry, LookupRow};
use crate::models::{law_first_row_is_found, law_found_row_has_the_title};
use crate::text::contents;
use crate::words::{law_words_round_trip, lemma_words_add, lemma_words_len};
use crate::words::{word, word_at, words, write_i32};

verus! {

/// The version of the file format.
pub const FILE_VERSION: i32 = 1;

/// Why a line of the adjacency list cannot become a page of the graph.
#[derive(Debug)]
pub enum GraphError {
    /// The lookup table has no page of this title.
    UnknownTitle(String),
    /// The page belongs at one place in the file, and the file has grown to another.
    OffsetMismatch { expected: i32, found: u64 },
    /// The line has a title alone.
    NoLinkField,
}

/// Such a reason, by value.
pub enum GraphFault {
    UnknownTitle(Seq<char>),
    OffsetMismatch { expected: i32, found: u64 },
    NoLinkField,
}

impl View for GraphError {
    type V = GraphFault;

    open spec fn view(&self) -> GraphFault {
        match self {
            GraphError::UnknownTitle(title) => GraphFault::UnknownTitle(title@),
            GraphError::OffsetMismatch { expected, found } => GraphFault::OffsetMismatch {
                expected: *expected,
                found: *found,
            },
            GraphError::NoLinkField => GraphFault::NoLinkField,
        }
    }
}

/// The file header: the version, the number of pages, and two integers without use.
pub open spec fn file_header(count: i32) -> Seq<u8> {
    words(seq![FILE_VERSION, count, 0i32, 0i32])
}

/// The header of a page: three integers without use, and the number of its links.
pub open spec fn node_header(num_links: i32) -> Seq<u8> {
    words(seq![0i32, 0i32, 0i32, num_links])
}

/// The places of the linked pages, one for each link; or the first link to no page of the table.
pub open spec fn link_offsets(rows: Seq<LookupRow>, links: Seq<Seq<char>>) -> Result<
    Seq<i32>,
    Seq<char>,
>
    decreases links.len(),
{
    if links.len() == 0 {
        Ok(seq![])
    } else {
        match link_offsets(rows, links.drop_last()) {
            Err(title) => Err(title),
            Ok(offsets) => match find_row(rows, links.last()) {
                Some(row) => Ok(offsets.push(row.byteoffset)),
                None => Err(links.last()),
            },
        }
    }
}

/// The bytes of the page on a line of the adjacency list, where the file has grown to `position`.
pub open spec fn line_node(position: u64, line: Seq<char>, rows: Seq<LookupRow>) -> Result<
    Seq<u8>,
    GraphFault,
> {
    match find_row(rows, line_title(line)) {
        None => Err(GraphFault::UnknownTitle(line_title(line))),
        Some(row) => if row.byteoffset as u64 != position {
            Err(GraphFault::OffsetMismatch { expected: row.byteoffset, found: position })
        } else {
            match line_links(line) {
                None => Err(GraphFault::NoLinkField),
                Some(links) => match link_offsets(rows, links) {
                    Err(title) => Err(GraphFault::UnknownTitle(title)),
                    Ok(offsets) => Ok(node_header(links.len() as i32) + words(offsets)),
                },
            }
        },
    }
}

/// The graph file of an adjacency list: the header, then each line's page after those before it.
pub open spec fn graph_file(count: i32, lines: Seq<Seq<char>>, rows: Seq<LookupRow>) -> Result<
    Seq<u8>,
    GraphFault,
>
    decreases lines.len(),
{
    if lines.len() == 0 {
        Ok(file_header(count))
    } else {
        match graph_file(count, lines.drop_last(), rows) {
            Err(fault) => Err(fault),
            Ok(file) => match line_node(file.len() as u64, lines.last(), rows) {
                Err(fault) => Err(fault),
                Ok(node) => Ok(file + node),
            },
        }
    }
}

/// A result is what a specification says it is.
pub open spec fn is_outcome(
    result: Result<Vec<u8>, GraphError>,
    expected: Result<Seq<u8>, GraphFault>,
) -> bool {
    match result {
        Ok(bytes) => expected == Ok::<Seq<u8>, GraphFault>(bytes@),
        Err(error) => expected == Err::<Seq<u8>, GraphFault>(error@),
    }
}

/// Writes the file header.
pub fn write_file_header(graph: &mut Vec<u8>, count: i32)
    ensures
        final(graph)@ == old(graph)@ + file_header(count),
{
    write_i32(graph, FILE_VERSION);
    write_i32(graph, count);
    write_i32(graph, 0);
    write_i32(graph, 0);
    proof {
        lemma_four_words(FILE_VERSION, count, 0, 0);
        assert(graph@ =~= old(graph)@ + file_header(count));
    }
}

/// Writes the header of a page.
pub fn write_node_header(graph: &mut Vec<u8>, num_links: i32)
    ensures
        final(graph)@ == old(graph)@ + node_header(num_links),
{
    write_i32(graph, 0);
    write_i32(graph, 0);
    write_i32(graph, 0);
    write_i32(graph, num_links);
    proof {
        lemma_four_words(0, 0, 0, num_links);
        assert(graph@ =~= old(graph)@ + node_header(num_links));
    }
}

proof fn lemma_four_words(a: i32, b: i32, c: i32, d: i32)
    ensures
        words(seq![a, b, c, d]) == word(a) + word(b) + word(c) + word(d),
{
    reveal_with_fuel(words, 5);
    let all = seq![a, b, c, d];
    assert(all.drop_last() =~= seq![a, b, c]);
    assert(seq![a, b, c].drop_last() =~= seq![a, b]);
    assert(seq![a, b].drop_last() =~= seq![a]);
    assert(seq![a].drop_last() =~= Seq::<i32>::empty());
    assert(words(seq![a]) =~= word(a));
}

/// A link to no page is the same first one, however many links follow it.
proof fn lemma_unknown_link(rows: Seq<LookupRow>, links: Seq<Seq<char>>, n: int)
    requires
        0 <= n <= links.len(),
        link_offsets(rows, links.take(n)) is Err,
    ensures
        link_offsets(rows, links) == link_offsets(rows, links.take(n)),
    decreases links.len(),
{
    if n == links.len() {
        assert(links.take(n) =~= links);
    } else {
        assert(links.drop_last().take(n) =~= links.take(n));
        lemma_unknown_link(rows, links.drop_last(), n);
    }
}

/// The bytes of the page on a line of the adjacency list, where the file has grown to `position`
/// and `entries` are the rows of the lookup table that the line may name.
pub fn graph_node(position: u64, line: &str, entries: &Vec<LookupEntry>) -> (node: Result<
    Vec<u8>,
    GraphError,
>)
    ensures
        is_outcome(node, line_node(position, line@, rows_of(entries@))),
{
    let ghost rows = rows_of(entries@);
    let read = read_line(line);
    let entry = match look_up_lookup_entry(entries, &read.title) {
        Some(entry) => entry,
        None => {
            return Err(GraphError::UnknownTitle(read.title));
        },
    };
    if entry.byteoffset as u64 != position {
        return Err(GraphError::OffsetMismatch { expected: entry.byteoffset, found: position });
    }
    let links = match read.links {
        Some(links) => links,
        None => {
            return Err(GraphError::NoLinkField);
        },
    };
    let ghost all = contents(links@);
    let num_links: i32 = links.len() as i32;
    let mut node: Vec<u8> = Vec::new();
    write_node_header(&mut node, num_links);
    let ghost header = node_header(num_links);
    let ghost mut offsets: Seq<i32> = seq![];
    assert(node@ =~= header + words(offsets));
    assert(all.take(0) =~= Seq::<Seq<char>>::empty());
    let mut i: usize = 0;
    while i < links.len()
        invariant
            i <= links@.len(),
            all == contents(links@),
            rows == rows_of(entries@),
            find_row(rows, line_title(line@)) matches Some(row) && row.byteoffset as u64
                == position,
            line_links(line@) == Some(all),
            link_offsets(rows, all.take(i as int)) == Ok::<Seq<i32>, Seq<char>>(offsets),
            node@ == header + words(offsets),
        decreases links@.len() - i,
    {
        let ghost read_links = all.take(i + 1);
        assert(read_links.drop_last() =~= all.take(i as int));
        assert(read_links.last() == links@[i as int]@);
        match look_up_lookup_entry(entries, &links[i]) {
            Some(linked) => {
                write_i32(&mut node, linked.byteoffset);
                proof {
                    let grown = offsets.push(linked.byteoffset);
                    assert(grown.drop_last() =~= offsets);
                    assert(node@ =~= header + words(grown));
                    offsets = grown;
                }
            },
            None => {
                proof {
                    lemma_unknown_link(rows, all, i + 1);
                }
                return Err(GraphError::UnknownTitle(links[i].clone()));
            },
        }
        i += 1;
    }
    assert(all.take(i as int) =~= all);
    Ok(node)
}

/// A line that cannot become a page stops the graph, however many lines follow it.
pub proof fn lemma_fault_stays(count: i32, lines: Seq<Seq<char>>, rows: Seq<LookupRow>, n: int)
    requires
        0 <= n <= lines.len(),
        graph_file(count, lines.take(n), rows) is Err,
    ensures
        graph_file(count, lines, rows) == graph_file(count, lines.take(n), rows),
    decreases lines.len(),
{
    if n == lines.len() {
        assert(lines.take(n) =~= lines);
    } else {
        assert(lines.drop_last().take(n) =~= lines.take(n));
        lemma_fault_stays(count, lines.drop_last(), rows, n);
    }
}

/// The graph file of an adjacency list, from its lines and the rows of the lookup table.
pub fn build_graph(count: i32, lines: &Vec<String>, entries: &Vec<LookupEntry>) -> (file: Result<
    Vec<u8>,
    GraphError,
>)
    ensures
        is_outcome(file, graph_file(count, contents(lines@), rows_of(entries@))),
{
    let ghost rows = rows_of(entries@);
    let ghost all = contents(lines@);
    let mut graph: Vec<u8> = Vec::new();
    write_file_header(&mut graph, count);
    assert(graph@ =~= file_header(count));
    assert(all.take(0) =~= Seq::<Seq<char>>::empty());
    let mut i: usize = 0;
    while i < lines.len()
        invariant
            i <= lines@.len(),
            all == contents(lines@),
            rows == rows_of(entries@),
            graph_file(count, all.take(i as int), rows) == Ok::<Seq<u8>, GraphFault>(graph@),
        decreases lines@.len() - i,
    {
        let ghost read_lines = all.take(i + 1);
        assert(read_lines.drop_last() =~= all.take(i as int));
        assert(read_lines.last() == lines@[i as int]@);
        match graph_node(graph.len() as u64, lines[i].as_str(), entries) {
            Ok(node) => {
                let mut node = node;
                graph.append(&mut node);
            },
            Err(error) => {
                proof {
                    lemma_fault_stays(count, all, rows, i + 1);
                }
                return Err(error);
            },
        }
        i += 1;
    }
    assert(all.take(i as int) =~= all);
    Ok(graph)
}

proof fn lemma_named_rows(rows: Seq<LookupRow>, other: Seq<LookupRow>, links: Seq<Seq<char>>)
    requires
        forall|j: int|
            0 <= j < links.len() ==> find_row(rows, #[trigger] links[j]) == find_row(
                other,
                links[j],
            ),
    ensures
        link_offsets(rows, links) == link_offsets(other, links),
    decreases links.len(),
{
    if links.len() != 0 {
        let shorter = links.drop_last();
        assert forall|j: int| 0 <= j < shorter.len() implies find_row(rows, #[trigger] shorter[j])
            == find_row(other, shorter[j]) by {
            assert(shorter[j] == links[j]);
        }
        lemma_named_rows(rows, other, shorter);
        assert(links.last() == links[links.len() - 1]);
    }
}

/// The page of a line needs the rows of the titles that the line names, and no others: two tables
/// that agree on these give the same page.
pub proof fn law_named_rows_suffice(
    position: u64,
    line: Seq<char>,
    rows: Seq<LookupRow>,
    other: Seq<LookupRow>,
)
    requires
        find_row(rows, line_title(line)) == find_row(other, line_title(line)),
        line_links(line) matches Some(links) ==> forall|j: int|
            0 <= j < links.len() ==> find_row(rows, #[trigger] links[j]) == find_row(
                other,
                links[j],
            ),
    ensures
        line_node(position, line, rows) == line_node(position, line, other),
{
    if let Some(links) = line_links(line) {
        lemma_named_rows(rows, other, links);
    }
}

/// The places of links: for each link, in order, the place of the first row that has its title.
pub open spec fn are_places_of(
    rows: Seq<LookupRow>,
    links: Seq<Seq<char>>,
    places: Seq<i32>,
) -> bool {
    &&& places.len() == links.len()
    &&& forall|j: int|
        0 <= j < links.len() ==> exists|i: int|
            0 <= i < rows.len() && (#[trigger] rows[i]).title == #[trigger] links[j]
                && rows[i].byteoffset == places[j] && forall|k: int|
                0 <= k < i ==> (#[trigger] rows[k]).title != links[j]
}

proof fn lemma_places(rows: Seq<LookupRow>, links: Seq<Seq<char>>, places: Seq<i32>)
    requires
        link_offsets(rows, links) == Ok::<Seq<i32>, Seq<char>>(places),
    ensures
        are_places_of(rows, links, places),
    decreases links.len(),
{
    if links.len() != 0 {
        let shorter = links.drop_last();
        let fewer = places.drop_last();
        assert(link_offsets(rows, shorter) matches Ok(found) && found =~= fewer);
        lemma_places(rows, shorter, fewer);
        law_found_row_has_the_title(rows, links.last());
        assert forall|j: int| 0 <= j < links.len() implies exists|i: int|
            0 <= i < rows.len() && (#[trigger] rows[i]).title == #[trigger] links[j]
                && rows[i].byteoffset == places[j] && forall|k: int|
                0 <= k < i ==> (#[trigger] rows[k]).title != links[j] by {
            if j < links.len() - 1 {
                assert(shorter[j] == links[j]);
                assert(fewer[j] == places[j]);
            } else {
                assert(links[j] == links.last());
            }
        }
    }
}

/// Links that all have a row become the places of those rows, the first of each title, in order.
pub proof fn law_links_become_places(rows: Seq<LookupRow>, links: Seq<Seq<char>>)
    requires
        forall|j: int|
            0 <= j < links.len() ==> exists|i: int|
                0 <= i < rows.len() && (#[trigger] rows[i]).title == #[trigger] links[j],
    ensures
        link_offsets(rows, links) matches Ok(places) && are_places_of(rows, links, places),
    decreases links.len(),
{
    if links.len() != 0 {
        let shorter = links.drop_last();
        assert forall|j: int| 0 <= j < shorter.len() implies exists|i: int|
            0 <= i < rows.len() && (#[trigger] rows[i]).title == #[trigger] shorter[j] by {
            assert(shorter[j] == links[j]);
        }
        law_links_become_places(rows, shorter);
        law_found_row_has_the_title(rows, links.last());
        assert(links.last() == links[links.len() - 1]);
        assert(find_row(rows, links.last()) is Some);
    }
    lemma_places(rows, links, link_offsets(rows, links)->Ok_0);
}

/// The first link that no row has the title of is the one reported, whatever links follow it.
pub proof fn law_first_unknown_link_is_reported(
    rows: Seq<LookupRow>,
    links: Seq<Seq<char>>,
    at: int,
)
    requires
        0 <= at < links.len(),
        forall|i: int| 0 <= i < rows.len() ==> (#[trigger] rows[i]).title != links[at],
        forall|j: int|
            0 <= j < at ==> exists|i: int|
                0 <= i < rows.len() && (#[trigger] rows[i]).title == #[trigger] links[j],
    ensures
        link_offsets(rows, links) == Err::<Seq<i32>, Seq<char>>(links[at]),
{
    let known = links.take(at);
    assert forall|j: int| 0 <= j < known.len() implies exists|i: int|
        0 <= i < rows.len() && (#[trigger] rows[i]).title == #[trigger] known[j] by {
        assert(known[j] == links[j]);
    }
    law_links_become_places(rows, known);
    law_found_row_has_the_title(rows, links[at]);
    let read = links.take(at + 1);
    assert(read.drop_last() =~= known);
    assert(read.last() == links[at]);
    lemma_unknown_link(rows, links, at + 1);
}

/// The headers are four integers each: the version and the number of pages lead the file, and the
/// number of its links ends that of a page.
pub proof fn law_headers(count: i32, num_links: i32)
    ensures
        file_header(count) == word(1) + word(count) + word(0) + word(0),
        node_header(num_links) == word(0) + word(0) + word(0) + word(num_links),
{
    lemma_four_words(1, count, 0, 0);
    lemma_four_words(0, 0, 0, num_links);
}

/// A line whose title no row has becomes no page.
pub proof fn law_unknown_title_is_refused(position: u64, line: Seq<char>, rows: Seq<LookupRow>)
    requires
        forall|i: int| 0 <= i < rows.len() ==> (#[trigger] rows[i]).title != line_title(line),
    ensures
        line_node(position, line, rows) == Err::<Seq<u8>, GraphFault>(
            GraphFault::UnknownTitle(line_title(line)),
        ),
{
    law_found_row_has_the_title(rows, line_title(line));
}

/// A line whose title has a row, the first of it at `at`, becomes a page exactly where that row
/// has the place that the file has grown to, the line has a field of links, and each link has a
/// row. Otherwise the first of these that fails is reported.
pub proof fn law_line_becomes_a_page(
    position: u64,
    line: Seq<char>,
    rows: Seq<LookupRow>,
    at: int,
)
    requires
        0 <= at < rows.len(),
        rows[at].title == line_title(line),
        forall|j: int| 0 <= j < at ==> (#[trigger] rows[j]).title != line_title(line),
    ensures
        rows[at].byteoffset as u64 != position ==> line_node(position, line, rows) == Err::<
            Seq<u8>,
            GraphFault,
        >(GraphFault::OffsetMismatch { expected: rows[at].byteoffset, found: position }),
        rows[at].byteoffset as u64 == position ==> match line_links(line) {
            None => line_node(position, line, rows) == Err::<Seq<u8>, GraphFault>(
                GraphFault::NoLinkField,
            ),
            Some(links) => match link_offsets(rows, links) {
                Err(link) => line_node(position, line, rows) == Err::<Seq<u8>, GraphFault>(
                    GraphFault::UnknownTitle(link),
                ),
                Ok(places) => line_node(position, line, rows) matches Ok(node) && is_page(
                    node,
                    places,
                ) && are_places_of(rows, links, places),
            },
        },
{
    law_first_row_is_found(rows, at);
    if let Some(links) = line_links(line) {
        if let Ok(places) = link_offsets(rows, links) {
            lemma_places(rows, links, places);
            lemma_page(places);
        }
    }
}

/// The bytes of a page that links to the given places: three integers without use, the number of
/// the links in so far as an integer holds it, and then the places, in order.
pub open spec fn is_page(node: Seq<u8>, places: Seq<i32>) -> bool {
    &&& node.len() == 16 + 4 * places.len()
    &&& word_at(node, 0) == 0
    &&& word_at(node, 4) == 0
    &&& word_at(node, 8) == 0
    &&& word_at(node, 12) == places.len() as i32
    &&& forall|j: int| 0 <= j < places.len() ==> word_at(node, 16 + 4 * j) == #[trigger] places[j]
}

proof fn lemma_page(places: Seq<i32>)
    ensures
        is_page(node_header(places.len() as i32) + words(places), places),
{
    let header = seq![0i32, 0i32, 0i32, places.len() as i32];
    let values = header + places;
    let none = Seq::<u8>::empty();
    lemma_words_add(header, places);
    lemma_words_len(values);
    let node = node_header(places.len() as i32) + words(places);
    assert(none + words(values) + none =~= node);
    law_words_round_trip(none, values, none, 0);
    law_words_round_trip(none, values, none, 1);
    law_words_round_trip(none, values, none, 2);
    law_words_round_trip(none, values, none, 3);
    assert forall|j: int| 0 <= j < places.len() implies word_at(node, 16 + 4 * j)
        == #[trigger] places[j] by {
        law_words_round_trip(none, values, none, j + 4);
        assert(values[j + 4] == places[j]);
    }
}

/// The graph file grows line by line: it begins with its header, each line adds its page at the
/// end, and the first line that becomes no page leaves no file, whatever lines follow.
pub proof fn law_graph_grows_by_its_lines(
    count: i32,
    lines: Seq<Seq<char>>,
    line: Seq<char>,
    rows: Seq<LookupRow>,
)
    ensures
        graph_file(count, seq![], rows) == Ok::<Seq<u8>, GraphFault>(
            word(1) + word(count) + word(0) + word(0),
        ),
        match graph_file(count, lines, rows) {
            Err(fault) => graph_file(count, lines.push(line), rows) == Err::<Seq<u8>, GraphFault>(
                fault,
            ),
            Ok(file) => match line_node(file.len() as u64, line, rows) {
                Err(fault) => graph_file(count, lines.push(line), rows) == Err::<
                    Seq<u8>,
                    GraphFault,
                >(fault),
                Ok(node) => graph_file(count, lines.push(line), rows) == Ok::<
                    Seq<u8>,
                    GraphFault,
                >(file + node),
            },
        },
{
    law_headers(count, 0);
    assert(lines.push(line).drop_last() =~= lines);
}

/// A result says what it holds: the bytes, or the reason why there are none.
pub proof fn law_outcome_by_value(
    result: Result<Vec<u8>, GraphError>,
    expected: Result<Seq<u8>, GraphFault>,
)
    requires
        is_outcome(result, expected),
    ensures
        match result {
            Ok(bytes) => expected == Ok::<Seq<u8>, GraphFault>(bytes@),
            Err(GraphError::UnknownTitle(title)) => expected == Err::<Seq<u8>, GraphFault>(
                GraphFault::UnknownTitle(title@),
            ),
            Err(GraphError::OffsetMismatch { expected: place, found }) => expected == Err::<
                Seq<u8>,
                GraphFault,
            >(GraphFault::OffsetMismatch { expected: place, found }),
            Err(GraphError::NoLinkField) => expected == Err::<Seq<u8>, GraphFault>(
                GraphFault::NoLinkField,
            ),
        },
{
}

} // verus!
