//! The articles as a list: where they stand, and that the graph of their lines and rows holds them
//! there.
use vstd::prelude::*;

use crate::adjacency::{adjacency_line, law_line_is_one_line, law_line_round_trip, line_body};
use crate::adjacency::{lemma_split_head, lemma_split_whole, line_links, line_title, list_lines};
use crate::graph::{file_header, graph_file, line_node, link_offsets, node_header, GraphFault};
use crate::graph::lemma_fault_stays;
use crate::layout::{node_size, FILE_HEADER_SIZE, LINK_SIZE, NODE_HEADER_SIZE};
use crate::models::{find_row, law_found_row_has_the_title, lemma_find_row, LookupRow};
use crate::text::split;
use crate::words::{law_words_round_trip, lemma_words_add, lemma_words_len, word_at, words};

verus! {

/// An article: its row of the lookup table and its links.
pub struct Article {
    pub row: LookupRow,
    pub links: Seq<Seq<char>>,
}

/// Where the first byte behind the articles stands.
pub open spec fn end_of(articles: Seq<Article>) -> int {
    if articles.len() == 0 {
        FILE_HEADER_SIZE as int
    } else {
        articles.last().row.byteoffset + NODE_HEADER_SIZE + articles.last().row.length
    }
}

/// The first article stands behind the file header, and each one right behind the one before.
/// The length of an article is that of its links.
pub open spec fn are_placed(articles: Seq<Article>) -> bool {
    &&& forall|k: int|
        0 <= k < articles.len() ==> (#[trigger] articles[k]).row.byteoffset == end_of(
            articles.take(k),
        )
    &&& forall|k: int|
        0 <= k < articles.len() ==> (#[trigger] articles[k]).row.length == articles[k].links.len()
            * LINK_SIZE
}

/// The header of a graph file of so many pages.
pub open spec fn has_header(file: Seq<u8>, count: i32) -> bool {
    &&& file.len() >= FILE_HEADER_SIZE
    &&& word_at(file, 0) == 1
    &&& word_at(file, 4) == count
    &&& word_at(file, 8) == 0
    &&& word_at(file, 12) == 0
}

/// A page stands at the given place, with links to the given places.
pub open spec fn is_page_at(file: Seq<u8>, at: int, targets: Seq<i32>) -> bool {
    &&& 0 <= at
    &&& at + node_size(targets.len() as int) <= file.len()
    &&& word_at(file, at) == 0
    &&& word_at(file, at + 4) == 0
    &&& word_at(file, at + 8) == 0
    &&& word_at(file, at + 12) == targets.len()
    &&& forall|j: int|
        0 <= j < targets.len() ==> word_at(file, at + NODE_HEADER_SIZE + j * LINK_SIZE)
            == #[trigger] targets[j]
}

/// The page of a line stands in the file where the lookup table says, with the links of the line.
pub open spec fn is_line_placed(file: Seq<u8>, line: Seq<char>, rows: Seq<LookupRow>) -> bool {
    &&& find_row(rows, line_title(line)) matches Some(row)
    &&& line_links(line) matches Some(links)
    &&& link_offsets(rows, links) matches Ok(targets)
    &&& are_targets(rows, links, targets)
    &&& is_page_at(file, row.byteoffset as int, targets)
}

/// More bytes at its end change nothing of what a file holds.
proof fn lemma_word_stays(file: Seq<u8>, more: Seq<u8>, at: int)
    requires
        0 <= at,
        at + 4 <= file.len(),
    ensures
        word_at(file + more, at) == word_at(file, at),
{
}

proof fn lemma_page_stays(file: Seq<u8>, more: Seq<u8>, at: int, targets: Seq<i32>)
    requires
        is_page_at(file, at, targets),
    ensures
        is_page_at(file + more, at, targets),
{
    lemma_word_stays(file, more, at);
    lemma_word_stays(file, more, at + 4);
    lemma_word_stays(file, more, at + 8);
    lemma_word_stays(file, more, at + 12);
    assert forall|j: int| 0 <= j < targets.len() implies word_at(
        file + more,
        at + NODE_HEADER_SIZE + j * LINK_SIZE,
    ) == #[trigger] targets[j] by {
        lemma_word_stays(file, more, at + NODE_HEADER_SIZE + j * LINK_SIZE);
    }
}

/// The places of the linked pages are those of their rows, one for each link.
pub open spec fn are_targets(rows: Seq<LookupRow>, links: Seq<Seq<char>>, targets: Seq<i32>) -> bool {
    &&& targets.len() == links.len()
    &&& forall|j: int|
        0 <= j < links.len() ==> (find_row(rows, #[trigger] links[j]) matches Some(row)
            && row.byteoffset == targets[j])
}

proof fn lemma_link_offsets(rows: Seq<LookupRow>, links: Seq<Seq<char>>, targets: Seq<i32>)
    requires
        link_offsets(rows, links) == Ok::<Seq<i32>, Seq<char>>(targets),
    ensures
        are_targets(rows, links, targets),
    decreases links.len(),
{
    if links.len() != 0 {
        let shorter = targets.drop_last();
        assert(link_offsets(rows, links.drop_last()) matches Ok(found) && found =~= shorter);
        lemma_link_offsets(rows, links.drop_last(), shorter);
        assert forall|j: int| 0 <= j < links.len() implies (find_row(
            rows,
            #[trigger] links[j],
        ) matches Some(row) && row.byteoffset == targets[j]) by {
            if j < links.len() - 1 {
                assert(links.drop_last()[j] == links[j]);
                assert(targets[j] == shorter[j]);
            }
        }
    }
}

proof fn lemma_node_written(file: Seq<u8>, targets: Seq<i32>)
    requires
        targets.len() <= i32::MAX,
    ensures
        is_page_at(
            file + (node_header(targets.len() as i32) + words(targets)),
            file.len() as int,
            targets,
        ),
{
    let header = seq![0i32, 0i32, 0i32, targets.len() as i32];
    let values = header + targets;
    lemma_words_add(header, targets);
    lemma_words_len(values);
    let whole = file + words(values) + Seq::<u8>::empty();
    assert(whole =~= file + (node_header(targets.len() as i32) + words(targets)));
    law_words_round_trip(file, values, seq![], 0);
    law_words_round_trip(file, values, seq![], 1);
    law_words_round_trip(file, values, seq![], 2);
    law_words_round_trip(file, values, seq![], 3);
    assert forall|j: int| 0 <= j < targets.len() implies word_at(
        whole,
        file.len() + NODE_HEADER_SIZE + j * LINK_SIZE,
    ) == #[trigger] targets[j] by {
        law_words_round_trip(file, values, seq![], j + 4);
        assert(values[j + 4] == targets[j]);
    }
}

proof fn lemma_header_written(count: i32)
    ensures
        has_header(file_header(count), count),
        file_header(count).len() == FILE_HEADER_SIZE,
{
    let values = seq![1i32, count, 0i32, 0i32];
    lemma_words_len(values);
    let none = Seq::<u8>::empty();
    assert(none + words(values) + none =~= file_header(count));
    law_words_round_trip(none, values, none, 0);
    law_words_round_trip(none, values, none, 1);
    law_words_round_trip(none, values, none, 2);
    law_words_round_trip(none, values, none, 3);
}

proof fn lemma_header_stays(file: Seq<u8>, more: Seq<u8>, count: i32)
    requires
        has_header(file, count),
    ensures
        has_header(file + more, count),
{
    lemma_word_stays(file, more, 0);
    lemma_word_stays(file, more, 4);
    lemma_word_stays(file, more, 8);
    lemma_word_stays(file, more, 12);
}

proof fn lemma_line_stays(file: Seq<u8>, more: Seq<u8>, line: Seq<char>, rows: Seq<LookupRow>)
    requires
        is_line_placed(file, line, rows),
    ensures
        is_line_placed(file + more, line, rows),
{
    let row = find_row(rows, line_title(line))->Some_0;
    let links = line_links(line)->Some_0;
    lemma_page_stays(file, more, row.byteoffset as int, link_offsets(rows, links)->Ok_0);
}

/// A place in the table that is taken for a position in the file is that position.
proof fn lemma_position(byteoffset: i32, position: u64)
    requires
        byteoffset as u64 == position,
        position < 0x8000_0000_0000_0000,
    ensures
        byteoffset == position,
{
    assert(byteoffset < 0 ==> byteoffset as u64 >= 0x8000_0000_0000_0000) by (bit_vector);
}

/// No line has more links than the header of a page can count.
pub open spec fn are_countable(lines: Seq<Seq<char>>) -> bool {
    forall|k: int|
        0 <= k < lines.len() ==> (line_links(#[trigger] lines[k]) matches Some(links)
            ==> links.len() <= i32::MAX)
}

/// The largest file: the last page of a table begins no later than its integers reach, and has no
/// more links than its header can count.
spec fn size_limit() -> int {
    i32::MAX + node_size(i32::MAX as int)
}

proof fn lemma_line_added(file: Seq<u8>, node: Seq<u8>, line: Seq<char>, rows: Seq<LookupRow>)
    requires
        line_node(file.len() as u64, line, rows) == Ok::<Seq<u8>, GraphFault>(node),
        file.len() <= size_limit(),
        line_links(line) matches Some(links) ==> links.len() <= i32::MAX,
    ensures
        is_line_placed(file + node, line, rows),
        find_row(rows, line_title(line))->Some_0.byteoffset == file.len(),
        node.len() == node_size(line_links(line)->Some_0.len() as int),
        (file + node).len() <= size_limit(),
{
    let row = find_row(rows, line_title(line))->Some_0;
    let links = line_links(line)->Some_0;
    let targets = link_offsets(rows, links)->Ok_0;
    lemma_position(row.byteoffset, file.len() as u64);
    lemma_link_offsets(rows, links, targets);
    lemma_node_written(file, targets);
    lemma_node_len(links.len() as i32, targets);
}

proof fn lemma_graph_size(count: i32, lines: Seq<Seq<char>>, rows: Seq<LookupRow>)
    requires
        graph_file(count, lines, rows) is Ok,
        are_countable(lines),
    ensures
        graph_file(count, lines, rows)->Ok_0.len() <= size_limit(),
    decreases lines.len(),
{
    if lines.len() == 0 {
        lemma_header_written(count);
    } else {
        let shorter = lines.drop_last();
        lemma_countable(lines, lines.len() - 1);
        assert(lines.take(lines.len() - 1) =~= shorter);
        lemma_graph_size(count, shorter, rows);
        let file = graph_file(count, shorter, rows)->Ok_0;
        let node = line_node(file.len() as u64, lines.last(), rows)->Ok_0;
        assert(lines.last() == lines[lines.len() - 1]);
        lemma_line_added(file, node, lines.last(), rows);
    }
}

proof fn lemma_countable(lines: Seq<Seq<char>>, n: int)
    requires
        are_countable(lines),
        0 <= n <= lines.len(),
    ensures
        are_countable(lines.take(n)),
{
    assert forall|k: int| 0 <= k < n implies (line_links(#[trigger] lines.take(n)[k]) matches Some(
        links,
    ) ==> links.len() <= i32::MAX) by {
        assert(lines.take(n)[k] == lines[k]);
    }
}

/// Every page of a graph file stands where the lookup table says, with the number of its links
/// and the places of the pages that they lead to, and the file begins with its header.
pub proof fn law_graph_holds_its_lines(count: i32, lines: Seq<Seq<char>>, rows: Seq<LookupRow>)
    requires
        graph_file(count, lines, rows) is Ok,
        are_countable(lines),
    ensures
        has_header(graph_file(count, lines, rows)->Ok_0, count),
        forall|k: int|
            0 <= k < lines.len() ==> is_line_placed(
                graph_file(count, lines, rows)->Ok_0,
                #[trigger] lines[k],
                rows,
            ),
    decreases lines.len(),
{
    if lines.len() == 0 {
        lemma_header_written(count);
    } else {
        let shorter = lines.drop_last();
        let file = graph_file(count, shorter, rows)->Ok_0;
        let node = line_node(file.len() as u64, lines.last(), rows)->Ok_0;
        let whole = graph_file(count, lines, rows)->Ok_0;
        assert(whole == file + node);
        lemma_countable(lines, lines.len() - 1);
        assert(lines.take(lines.len() - 1) =~= shorter);
        law_graph_holds_its_lines(count, shorter, rows);
        lemma_graph_size(count, shorter, rows);
        lemma_header_stays(file, node, count);
        assert forall|k: int| 0 <= k < lines.len() implies is_line_placed(
            whole,
            #[trigger] lines[k],
            rows,
        ) by {
            if k < lines.len() - 1 {
                assert(shorter[k] == lines[k]);
                lemma_line_stays(file, node, lines[k], rows);
            } else {
                lemma_line_added(file, node, lines[k], rows);
            }
        }
    }
}

/// The place in the graph file of the page on a line.
pub open spec fn line_place(line: Seq<char>, rows: Seq<LookupRow>) -> int {
    find_row(rows, line_title(line))->Some_0.byteoffset as int
}

/// The lines before one of an accepted list are accepted, and the page of the line begins where
/// their file ends.
proof fn lemma_line_place(count: i32, lines: Seq<Seq<char>>, rows: Seq<LookupRow>, k: int)
    requires
        graph_file(count, lines, rows) is Ok,
        are_countable(lines),
        0 <= k < lines.len(),
    ensures
        graph_file(count, lines.take(k), rows) matches Ok(file) && file.len() == line_place(
            lines[k],
            rows,
        ),
        graph_file(count, lines.take(k + 1), rows) matches Ok(file) && file.len() == line_place(
            lines[k],
            rows,
        ) + node_size(line_links(lines[k])->Some_0.len() as int),
{
    let before = lines.take(k);
    let after = lines.take(k + 1);
    if graph_file(count, before, rows) is Err {
        lemma_fault_stays(count, lines, rows, k);
    }
    if graph_file(count, after, rows) is Err {
        lemma_fault_stays(count, lines, rows, k + 1);
    }
    assert(after.drop_last() =~= before);
    assert(after.last() == lines[k]);
    lemma_countable(lines, k);
    lemma_graph_size(count, before, rows);
    let file = graph_file(count, before, rows)->Ok_0;
    let node = line_node(file.len() as u64, lines[k], rows)->Ok_0;
    lemma_line_added(file, node, lines[k], rows);
}

/// The pages of a graph file follow one another without a gap, whatever list it was made from: the
/// first begins behind the file header, and behind the header of each stand four bytes for each
/// link that the header counts. There the next page begins, or the file ends.
pub proof fn law_pages_follow_one_another(
    count: i32,
    lines: Seq<Seq<char>>,
    rows: Seq<LookupRow>,
    k: int,
)
    requires
        graph_file(count, lines, rows) is Ok,
        are_countable(lines),
        0 <= k < lines.len(),
    ensures
        ({
            let file = graph_file(count, lines, rows)->Ok_0;
            let at = line_place(lines[k], rows);
            let num_links = word_at(file, at + 12);
            let next = at + NODE_HEADER_SIZE + LINK_SIZE * num_links;
            &&& line_links(lines[k]) matches Some(links) && num_links == links.len()
            &&& k == 0 ==> at == FILE_HEADER_SIZE
            &&& k + 1 < lines.len() ==> next == line_place(lines[k + 1], rows)
            &&& k + 1 == lines.len() ==> next == file.len()
        }),
{
    let file = graph_file(count, lines, rows)->Ok_0;
    law_graph_holds_its_lines(count, lines, rows);
    assert(is_line_placed(file, lines[k], rows));
    lemma_line_place(count, lines, rows, k);
    if k == 0 {
        lemma_header_written(count);
        assert(lines.take(0) =~= seq![]);
    }
    if k + 1 < lines.len() {
        lemma_line_place(count, lines, rows, k + 1);
    } else {
        assert(lines.take(k + 1) =~= lines);
    }
}

/// The rows of the lookup table that the articles give.
pub open spec fn rows(articles: Seq<Article>) -> Seq<LookupRow> {
    articles.map_values(|a: Article| a.row)
}

/// The lines of the adjacency list that the articles give.
pub open spec fn lines(articles: Seq<Article>) -> Seq<Seq<char>> {
    articles.map_values(|a: Article| line_body(a.row.title, a.links))
}

/// The places of the pages that links lead to.
pub open spec fn places(rows: Seq<LookupRow>, links: Seq<Seq<char>>) -> Seq<i32> {
    links.map_values(|title: Seq<char>| find_row(rows, title)->Some_0.byteoffset)
}

/// No two articles have one title.
pub open spec fn have_distinct_titles(articles: Seq<Article>) -> bool {
    forall|i: int, j: int|
        0 <= i < j < articles.len() ==> (#[trigger] articles[i]).row.title != (
        #[trigger] articles[j]).row.title
}

/// No title holds a bar, which ends it on its line, and no link a comma, which ends it.
pub open spec fn are_separable(articles: Seq<Article>) -> bool {
    &&& forall|k: int|
        0 <= k < articles.len() ==> !(#[trigger] articles[k]).row.title.contains('|')
    &&& forall|k: int, j: int|
        0 <= k < articles.len() && 0 <= j < articles[k].links.len() ==> !(
        #[trigger] articles[k].links[j]).contains(',')
}

/// No link holds a bar.
pub open spec fn have_no_bars(articles: Seq<Article>) -> bool {
    forall|k: int, j: int|
        0 <= k < articles.len() && 0 <= j < articles[k].links.len() ==> !(
        #[trigger] articles[k].links[j]).contains('|')
}

/// Some article has the given title.
pub open spec fn is_title(articles: Seq<Article>, title: Seq<char>) -> bool {
    exists|i: int| 0 <= i < articles.len() && (#[trigger] articles[i]).row.title == title
}

/// Every link of an article leads to an article.
pub open spec fn are_linked(articles: Seq<Article>) -> bool {
    forall|k: int, j: int|
        0 <= k < articles.len() && 0 <= j < articles[k].links.len() ==> is_title(
            articles,
            #[trigger] articles[k].links[j],
        )
}

proof fn lemma_title_found(articles: Seq<Article>, i: int)
    requires
        have_distinct_titles(articles),
        0 <= i < articles.len(),
    ensures
        find_row(rows(articles), articles[i].row.title) == Some(articles[i].row),
{
    let all = rows(articles);
    assert forall|i: int, j: int| 0 <= i < j < all.len() implies all[i].title != all[j].title by {
        assert(all[i] == articles[i].row && all[j] == articles[j].row);
    }
    lemma_find_row(all, i);
}

proof fn lemma_links_found(articles: Seq<Article>, links: Seq<Seq<char>>)
    requires
        have_distinct_titles(articles),
        forall|j: int| 0 <= j < links.len() ==> is_title(articles, #[trigger] links[j]),
    ensures
        link_offsets(rows(articles), links) == Ok::<Seq<i32>, Seq<char>>(
            places(rows(articles), links),
        ),
    decreases links.len(),
{
    let all = rows(articles);
    if links.len() == 0 {
        assert(places(all, links) =~= seq![]);
    } else {
        let shorter = links.drop_last();
        assert forall|j: int| 0 <= j < shorter.len() implies is_title(
            articles,
            #[trigger] shorter[j],
        ) by {
            assert(shorter[j] == links[j]);
        }
        lemma_links_found(articles, shorter);
        assert(is_title(articles, links[links.len() - 1]));
        let i = choose|i: int|
            0 <= i < articles.len() && (#[trigger] articles[i]).row.title == links.last();
        lemma_title_found(articles, i);
        assert(places(all, links) =~= places(all, shorter).push(articles[i].row.byteoffset));
    }
}

/// The line of an article is read as it was written.
proof fn lemma_line_read(articles: Seq<Article>, k: int)
    requires
        are_separable(articles),
        have_no_bars(articles),
        0 <= k < articles.len(),
    ensures
        line_title(lines(articles)[k]) == articles[k].row.title,
        line_links(lines(articles)[k]) == Some(articles[k].links),
{
    let article = articles[k];
    assert forall|j: int| 0 <= j < article.links.len() implies !(
    #[trigger] article.links[j]).contains('|') && !article.links[j].contains(',') by {
        assert(!articles[k].links[j].contains(','));
        assert(!articles[k].links[j].contains('|'));
    }
    law_line_round_trip(article.row.title, article.links);
}

proof fn lemma_article_links(articles: Seq<Article>, k: int)
    requires
        have_distinct_titles(articles),
        are_linked(articles),
        0 <= k < articles.len(),
    ensures
        link_offsets(rows(articles), articles[k].links) == Ok::<Seq<i32>, Seq<char>>(
            places(rows(articles), articles[k].links),
        ),
{
    let links = articles[k].links;
    assert forall|j: int| 0 <= j < links.len() implies is_title(articles, #[trigger] links[j]) by {
        assert(articles[k].links[j] == links[j]);
    }
    lemma_links_found(articles, links);
}

proof fn lemma_node_len(num_links: i32, targets: Seq<i32>)
    ensures
        (node_header(num_links) + words(targets)).len() == node_size(targets.len() as int),
{
    lemma_words_len(seq![0i32, 0i32, 0i32, num_links]);
    lemma_words_len(targets);
}

proof fn lemma_article_node(articles: Seq<Article>, k: int)
    requires
        are_placed(articles),
        have_no_bars(articles),
        have_distinct_titles(articles),
        are_separable(articles),
        are_linked(articles),
        0 <= k < articles.len(),
    ensures
        line_node(
            articles[k].row.byteoffset as u64,
            lines(articles)[k],
            rows(articles),
        ) matches Ok(node) && node.len() == node_size(articles[k].links.len() as int),
{
    let article = articles[k];
    lemma_line_read(articles, k);
    lemma_title_found(articles, k);
    lemma_article_links(articles, k);
    lemma_node_len(article.links.len() as i32, places(rows(articles), article.links));
}

proof fn lemma_graph_grows(count: i32, articles: Seq<Article>, n: int)
    requires
        are_placed(articles),
        have_no_bars(articles),
        have_distinct_titles(articles),
        are_separable(articles),
        are_linked(articles),
        0 <= n <= articles.len(),
    ensures
        graph_file(count, lines(articles).take(n), rows(articles)) matches Ok(file) && file.len()
            == end_of(articles.take(n)),
    decreases n,
{
    let list = lines(articles).take(n);
    if n == 0 {
        lemma_header_written(count);
    } else {
        lemma_graph_grows(count, articles, n - 1);
        let article = articles[n - 1];
        assert(list.drop_last() =~= lines(articles).take(n - 1));
        assert(list.last() == lines(articles)[n - 1]);
        assert(article.row.byteoffset == end_of(articles.take(n - 1)));
        assert(article.row.length == article.links.len() * LINK_SIZE);
        lemma_article_node(articles, n - 1);
        assert(articles.take(n).last() == article);
    }
}

/// A file is the graph of the articles: it ends where the last of them ends, its header gives
/// the number that was asked for, and each article stands where its row says, with the places of
/// the articles that its links lead to.
pub open spec fn holds_articles(file: Seq<u8>, count: i32, articles: Seq<Article>) -> bool {
    &&& file.len() == end_of(articles)
    &&& has_header(file, count)
    &&& forall|k: int|
        0 <= k < articles.len() ==> is_page_at(
            file,
            (#[trigger] articles[k]).row.byteoffset as int,
            places(rows(articles), articles[k].links),
        )
    &&& forall|k: int|
        0 <= k < articles.len() ==> find_row(rows(articles), (#[trigger] articles[k]).row.title)
            == Some(articles[k].row)
}

/// The lines and the rows of articles that stand one behind the other become their graph.
pub proof fn law_graph_of_articles(count: i32, articles: Seq<Article>)
    requires
        are_placed(articles),
        have_no_bars(articles),
        have_distinct_titles(articles),
        are_separable(articles),
        are_linked(articles),
    ensures
        graph_file(count, lines(articles), rows(articles)) matches Ok(file) && holds_articles(
            file,
            count,
            articles,
        ),
{
    let table = rows(articles);
    let list = lines(articles);
    lemma_graph_grows(count, articles, articles.len() as int);
    assert(list.take(articles.len() as int) =~= list);
    assert(articles.take(articles.len() as int) =~= articles);
    let file = graph_file(count, list, table)->Ok_0;
    assert forall|k: int| 0 <= k < list.len() implies (line_links(#[trigger] list[k]) matches Some(
        links,
    ) ==> links.len() <= i32::MAX) by {
        lemma_line_read(articles, k);
        assert(articles[k].row.length == articles[k].links.len() * LINK_SIZE);
    }
    law_graph_holds_its_lines(count, list, table);
    assert forall|k: int| 0 <= k < articles.len() implies is_page_at(
        file,
        (#[trigger] articles[k]).row.byteoffset as int,
        places(table, articles[k].links),
    ) by {
        lemma_line_read(articles, k);
        lemma_title_found(articles, k);
        assert(is_line_placed(file, list[k], table));
        let targets = link_offsets(table, articles[k].links)->Ok_0;
        assert(targets =~= places(table, articles[k].links));
    }
    assert forall|k: int| 0 <= k < articles.len() implies find_row(
        table,
        (#[trigger] articles[k]).row.title,
    ) == Some(articles[k].row) by {
        lemma_title_found(articles, k);
    }
}

/// From an article to the next one: behind its header stand four bytes for each link that the
/// header counts, and there the next article begins, or the file ends.
pub proof fn law_skip_to_next_page(file: Seq<u8>, count: i32, articles: Seq<Article>, k: int)
    requires
        are_placed(articles),
        holds_articles(file, count, articles),
        0 <= k < articles.len(),
    ensures
        ({
            let at = articles[k].row.byteoffset as int;
            let next = at + NODE_HEADER_SIZE + LINK_SIZE * word_at(file, at + 12);
            if k + 1 < articles.len() {
                next == articles[k + 1].row.byteoffset
            } else {
                next == file.len()
            }
        }),
{
    assert(is_page_at(
        file,
        articles[k].row.byteoffset as int,
        places(rows(articles), articles[k].links),
    ));
    assert(articles[k].row.length == articles[k].links.len() * LINK_SIZE);
    assert(articles.take(k + 1).last() == articles[k]);
    if k + 1 < articles.len() {
        assert(articles[k + 1].row.byteoffset == end_of(articles.take(k + 1)));
    } else {
        assert(articles.take(k + 1) =~= articles);
    }
}

/// The adjacency list of the articles: their lines, one after the other.
pub open spec fn adjacency_list(articles: Seq<Article>) -> Seq<char>
    decreases articles.len(),
{
    if articles.len() == 0 {
        seq![]
    } else {
        adjacency_line(articles[0].row.title, articles[0].links) + adjacency_list(
            articles.drop_first(),
        )
    }
}

/// No title and no link holds a line break.
pub open spec fn have_no_breaks(articles: Seq<Article>) -> bool {
    &&& forall|k: int|
        0 <= k < articles.len() ==> !(#[trigger] articles[k]).row.title.contains('\n')
    &&& forall|k: int, j: int|
        0 <= k < articles.len() && 0 <= j < articles[k].links.len() ==> !(
        #[trigger] articles[k].links[j]).contains('\n')
}

proof fn lemma_split_list(articles: Seq<Article>)
    requires
        have_no_breaks(articles),
    ensures
        split(adjacency_list(articles), '\n') == lines(articles).push(seq![]),
    decreases articles.len(),
{
    if articles.len() == 0 {
        lemma_split_whole(adjacency_list(articles), '\n');
        assert(lines(articles).push(seq![]) =~= seq![Seq::<char>::empty()]);
    } else {
        let article = articles[0];
        let rest = articles.drop_first();
        assert forall|k: int| 0 <= k < rest.len() implies !(
        #[trigger] rest[k]).row.title.contains('\n') by {
            assert(rest[k] == articles[k + 1]);
        }
        assert forall|k: int, j: int|
            0 <= k < rest.len() && 0 <= j < rest[k].links.len() implies !(
        #[trigger] rest[k].links[j]).contains('\n') by {
            assert(rest[k].links[j] == articles[k + 1].links[j]);
        }
        lemma_split_list(rest);
        assert forall|j: int| 0 <= j < article.links.len() implies !(
        #[trigger] article.links[j]).contains('\n') by {
            assert(article.links[j] == articles[0].links[j]);
        }
        law_line_is_one_line(article.row.title, article.links);
        let head = line_body(article.row.title, article.links);
        lemma_split_head(head, '\n', adjacency_list(rest));
        assert(adjacency_list(articles) =~= head + seq!['\n'] + adjacency_list(rest));
        assert(seq![head] + lines(rest).push(seq![]) =~= lines(articles).push(seq![]));
    }
}

/// The adjacency list, cut at its line breaks, gives back the lines of the articles.
pub proof fn law_list_round_trip(articles: Seq<Article>)
    requires
        have_no_breaks(articles),
    ensures
        list_lines(adjacency_list(articles)) == lines(articles),
{
    lemma_split_list(articles);
    assert(lines(articles).push(seq![]).drop_last() =~= lines(articles));
}

/// Every link of a graph file is the place of a page whose title equals the link, and the page of
/// a line stands at the place of a row whose title equals that of the line.
pub proof fn law_links_lead_to_their_titles(
    count: i32,
    lines: Seq<Seq<char>>,
    rows: Seq<LookupRow>,
    k: int,
    j: int,
)
    requires
        graph_file(count, lines, rows) is Ok,
        are_countable(lines),
        0 <= k < lines.len(),
        line_links(lines[k]) matches Some(links) ==> 0 <= j < links.len(),
    ensures
        exists|p: int, i: int|
            0 <= p < rows.len() && 0 <= i < rows.len() && (#[trigger] rows[p]).title == line_title(
                lines[k],
            ) && line_links(lines[k]) is Some && (
            #[trigger] rows[i]).title == line_links(lines[k])->Some_0[j] && word_at(
                graph_file(count, lines, rows)->Ok_0,
                rows[p].byteoffset + 16 + 4 * j,
            ) == rows[i].byteoffset,
{
    law_graph_holds_its_lines(count, lines, rows);
    let file = graph_file(count, lines, rows)->Ok_0;
    assert(is_line_placed(file, lines[k], rows));
    let links = line_links(lines[k])->Some_0;
    let targets = link_offsets(rows, links)->Ok_0;
    law_found_row_has_the_title(rows, line_title(lines[k]));
    law_found_row_has_the_title(rows, links[j]);
    let page = find_row(rows, line_title(lines[k]))->Some_0;
    let linked = find_row(rows, links[j])->Some_0;
    let p = choose|p: int| 0 <= p < rows.len() && rows[p] == page;
    let i = choose|i: int| 0 <= i < rows.len() && rows[i] == linked;
    assert(targets[j] == linked.byteoffset);
    assert(rows[p].title == line_title(lines[k]) && rows[i].title == links[j]);
}

} // verus!
