//! The adjacency list between the two passes: one line per page, `title|link,link,`.
use vstd::prelude::*;

use crate::text::{before, contents, first, split, terminated};
use crate::text::{chars_of, lemma_first, lemma_first_at, split_chars};

verus! {

/// The links of a line, a comma after each.
pub open spec fn link_fields(links: Seq<Seq<char>>) -> Seq<char>
    decreases links.len(),
{
    if links.len() == 0 {
        seq![]
    } else {
        links[0] + seq![','] + link_fields(links.drop_first())
    }
}

/// The lines of a list: what stands before each line break, and what stands after the last one
/// unless that is nothing.
pub open spec fn list_lines(list: Seq<char>) -> Seq<Seq<char>> {
    terminated(list, '\n')
}

/// What stands on the line of a page.
pub open spec fn line_body(title: Seq<char>, links: Seq<Seq<char>>) -> Seq<char> {
    title + seq!['|'] + link_fields(links)
}

/// The line of a page, with its line break.
pub open spec fn adjacency_line(title: Seq<char>, links: Seq<Seq<char>>) -> Seq<char> {
    line_body(title, links).push('\n')
}

/// The title on a line: what stands before the first bar.
pub open spec fn line_title(line: Seq<char>) -> Seq<char> {
    split(line, '|')[0]
}

/// The links on a line: of the field between its first bar and the next one or its end, what
/// stands before each comma, and what stands after the last one unless that is nothing.
/// A line without a bar has no such field.
pub open spec fn line_links(line: Seq<char>) -> Option<Seq<Seq<char>>> {
    if split(line, '|').len() >= 2 {
        Some(terminated(split(line, '|')[1], ','))
    } else {
        None
    }
}

/// A line of the adjacency list, read.
pub struct AdjacencyLine {
    pub title: String,
    /// Absent where the line has no bar.
    pub links: Option<Vec<String>>,
}

/// The line that adds a page to the adjacency list.
pub fn add_to_adj_list(title_entry: &str, links: &Vec<String>) -> (line: String)
    ensures
        line@ == adjacency_line(title_entry@, contents(links@)),
{
    let mut line = String::new();
    line.push_str(title_entry);
    line.push('|');
    let ghost all = contents(links@);
    let mut i: usize = 0;
    assert(all.skip(0) =~= all);
    assert(line@ + link_fields(all) =~= line_body(title_entry@, all));
    while i < links.len()
        invariant
            i <= links@.len(),
            all == contents(links@),
            line@ + link_fields(all.skip(i as int)) == line_body(title_entry@, all),
        decreases links@.len() - i,
    {
        let ghost written = line@;
        let ghost rest = all.skip(i as int);
        line.push_str(links[i].as_str());
        line.push(',');
        proof {
            assert(rest[0] == links@[i as int]@);
            assert(rest.drop_first() =~= all.skip(i + 1));
            assert(line@ + link_fields(all.skip(i + 1)) =~= written + link_fields(rest));
        }
        i += 1;
    }
    assert(line@ + link_fields(all.skip(i as int)) =~= line@);
    line.push('\n');
    line
}

/// A separator cannot make fewer than one piece.
pub proof fn lemma_split_some(s: Seq<char>, sep: char)
    ensures
        split(s, sep).len() >= 1,
    decreases s.len(),
{
    if first(s, sep) < s.len() {
        lemma_split_some(s.skip(first(s, sep) as int + 1), sep);
    }
}

/// Reads a line of the adjacency list.
pub fn read_line(line: &str) -> (read: AdjacencyLine)
    ensures
        read.title@ == line_title(line@),
        match read.links {
            Some(links) => line_links(line@) == Some(contents(links@)),
            None => line_links(line@) is None,
        },
{
    let chars = chars_of(line);
    let pieces = split_chars(&chars, '|');
    let ghost all = pieces@;
    proof {
        lemma_split_some(line@, '|');
        assert(contents(all).len() == all.len());
        assert(contents(all)[0] == all[0]@);
    }
    let title = pieces[0].clone();
    if pieces.len() < 2 {
        return AdjacencyLine { title, links: None };
    }
    assert(contents(all)[1] == all[1]@);
    let field = chars_of(pieces[1].as_str());
    let mut links = split_chars(&field, ',');
    let ghost found = links@;
    proof {
        lemma_split_some(field@, ',');
        assert(contents(found).last() == found.last()@);
    }
    if links[links.len() - 1].as_str().is_empty() {
        links.pop();
        assert(contents(links@) =~= contents(found).drop_last());
    }
    AdjacencyLine { title, links: Some(links) }
}

/// A piece without separators, a separator, and more: the first piece and the pieces of the rest.
pub proof fn lemma_split_head(head: Seq<char>, sep: char, rest: Seq<char>)
    requires
        !head.contains(sep),
    ensures
        split(head + seq![sep] + rest, sep) == seq![head] + split(rest, sep),
{
    let s = head + seq![sep] + rest;
    assert forall|i: int| 0 <= i < head.len() implies s[i] != sep by {
        assert(s[i] == head[i]);
    }
    lemma_first_at(s, sep, head.len() as int);
    assert(before(s, sep) =~= head);
    assert(s.skip(head.len() as int + 1) =~= rest);
}

/// Text without separators is one piece.
pub proof fn lemma_split_whole(s: Seq<char>, sep: char)
    requires
        !s.contains(sep),
    ensures
        split(s, sep) == seq![s],
{
    lemma_first(s, sep);
}

proof fn lemma_split_fields(links: Seq<Seq<char>>)
    requires
        forall|i: int| 0 <= i < links.len() ==> !(#[trigger] links[i]).contains(','),
    ensures
        split(link_fields(links), ',') == links.push(seq![]),
    decreases links.len(),
{
    if links.len() == 0 {
        lemma_split_whole(link_fields(links), ',');
        assert(links.push(seq![]) =~= seq![Seq::<char>::empty()]);
    } else {
        let rest = links.drop_first();
        assert forall|i: int| 0 <= i < rest.len() implies !(#[trigger] rest[i]).contains(',') by {
            assert(rest[i] == links[i + 1]);
        }
        lemma_split_fields(rest);
        lemma_split_head(links[0], ',', link_fields(rest));
        assert(seq![links[0]] + rest.push(seq![]) =~= links.push(seq![]));
    }
}

/// A character other than the comma that stands in no link stands in no field of them.
proof fn lemma_fields_without(links: Seq<Seq<char>>, c: char)
    requires
        c != ',',
        forall|i: int| 0 <= i < links.len() ==> !(#[trigger] links[i]).contains(c),
    ensures
        !link_fields(links).contains(c),
    decreases links.len(),
{
    if links.len() != 0 {
        let rest = links.drop_first();
        assert forall|i: int| 0 <= i < rest.len() implies !(#[trigger] rest[i]).contains(c) by {
            assert(rest[i] == links[i + 1]);
        }
        lemma_fields_without(rest, c);
        let head = links[0] + seq![','];
        let tail = link_fields(rest);
        assert forall|i: int| 0 <= i < (head + tail).len() implies (head + tail)[i] != c by {
            if i < links[0].len() {
                assert((head + tail)[i] == links[0][i]);
                assert(links[0].contains(links[0][i]));
            } else if i >= head.len() {
                assert((head + tail)[i] == tail[i - head.len()]);
                assert(tail.contains(tail[i - head.len()]));
            }
        }
    }
}

/// What the adjacency list says of a page is read back from its line: its title and its links.
pub proof fn law_line_round_trip(title: Seq<char>, links: Seq<Seq<char>>)
    requires
        !title.contains('|'),
        forall|i: int|
            0 <= i < links.len() ==> !(#[trigger] links[i]).contains('|') && !links[i].contains(','),
    ensures
        line_title(line_body(title, links)) == title,
        line_links(line_body(title, links)) == Some(links),
{
    lemma_fields_without(links, '|');
    lemma_split_head(title, '|', link_fields(links));
    lemma_split_whole(link_fields(links), '|');
    lemma_split_fields(links);
    assert(split(line_body(title, links), '|') =~= seq![title, link_fields(links)]);
    assert(links.push(seq![]).drop_last() =~= links);
}

/// The line of a page whose title and links hold no line break is one line: a break stands at
/// its end alone, after a bar or a comma.
pub proof fn law_line_is_one_line(title: Seq<char>, links: Seq<Seq<char>>)
    requires
        !title.contains('\n'),
        forall|i: int| 0 <= i < links.len() ==> !(#[trigger] links[i]).contains('\n'),
    ensures
        !line_body(title, links).contains('\n'),
        line_body(title, links).last() == (if links.len() == 0 { '|' } else { ',' }),
        adjacency_line(title, links).last() == '\n',
{
    lemma_fields_without(links, '\n');
    let head = title + seq!['|'];
    let tail = link_fields(links);
    assert forall|i: int| 0 <= i < (head + tail).len() implies (head + tail)[i] != '\n' by {
        if i < title.len() {
            assert((head + tail)[i] == title[i]);
            assert(title.contains(title[i]));
        } else if i >= head.len() {
            assert((head + tail)[i] == tail[i - head.len()]);
            assert(tail.contains(tail[i - head.len()]));
        }
    }
    lemma_fields_last(links);
}

proof fn lemma_fields_last(links: Seq<Seq<char>>)
    ensures
        links.len() > 0 ==> link_fields(links).len() > 0 && link_fields(links).last() == ',',
    decreases links.len(),
{
    reveal_with_fuel(link_fields, 2);
    if links.len() > 0 {
        lemma_fields_last(links.drop_first());
    }
}

/// The line of a page: its title, a bar, its links as they are with a comma after each, and a line
/// break. One link more adds itself and a comma at the end.
pub proof fn law_line_grows_by_its_links(title: Seq<char>, links: Seq<Seq<char>>, link: Seq<char>)
    ensures
        line_body(title, seq![]) == title + seq!['|'],
        line_body(title, links.push(link)) == line_body(title, links) + link + seq![','],
        adjacency_line(title, links) == line_body(title, links) + seq!['\n'],
{
    assert(line_body(title, seq![]) =~= title + seq!['|']);
    lemma_fields_push(links, link);
    assert(line_body(title, links.push(link)) =~= line_body(title, links) + link + seq![',']);
    assert(adjacency_line(title, links) =~= line_body(title, links) + seq!['\n']);
}

proof fn lemma_fields_push(links: Seq<Seq<char>>, link: Seq<char>)
    ensures
        link_fields(links.push(link)) == link_fields(links) + link + seq![','],
    decreases links.len(),
{
    let all = links.push(link);
    if links.len() == 0 {
        assert(all.drop_first() =~= links);
        assert(link_fields(all) =~= link + seq![',']);
        assert(link_fields(links) + link + seq![','] =~= link + seq![',']);
    } else {
        assert(all.drop_first() =~= links.drop_first().push(link));
        lemma_fields_push(links.drop_first(), link);
        assert(link_fields(all) =~= link_fields(links) + link + seq![',']);
    }
}

/// What is cut off at its ends: each piece before an end, in order, and what stands behind the
/// last end unless that is nothing.
pub proof fn law_terminated(head: Seq<char>, sep: char, rest: Seq<char>)
    requires
        !head.contains(sep),
    ensures
        terminated(head + seq![sep] + rest, sep) == seq![head] + terminated(rest, sep),
        terminated(head, sep) == if head.len() == 0 {
            Seq::<Seq<char>>::empty()
        } else {
            seq![head]
        },
{
    lemma_split_head(head, sep, rest);
    lemma_split_whole(head, sep);
    lemma_split_some(rest, sep);
    let pieces = split(rest, sep);
    assert((seq![head] + pieces).last() == pieces.last());
    assert((seq![head] + pieces).drop_last() =~= seq![head] + pieces.drop_last());
    assert(seq![head].drop_last() =~= Seq::<Seq<char>>::empty());
}

/// The title on a line is what stands before its first bar, or the whole line without one.
pub proof fn law_title_ends_at_the_bar(title: Seq<char>, rest: Seq<char>)
    requires
        !title.contains('|'),
    ensures
        line_title(title + seq!['|'] + rest) == title,
        line_title(title) == title,
        line_links(title) is None,
{
    lemma_split_head(title, '|', rest);
    lemma_split_whole(title, '|');
}

/// The links on a line are those between its first bar and the next one or the end, in order: the
/// last one may do without its comma, and what follows a second bar is of no account.
pub proof fn law_links_stand_behind_the_bar(
    title: Seq<char>,
    links: Seq<Seq<char>>,
    last: Seq<char>,
    more: Seq<char>,
)
    requires
        !title.contains('|'),
        forall|i: int|
            0 <= i < links.len() ==> !(#[trigger] links[i]).contains('|') && !links[i].contains(','),
        !last.contains('|') && !last.contains(','),
    ensures
        ({
            let found = if last.len() == 0 {
                links
            } else {
                links.push(last)
            };
            let line = line_body(title, links) + last;
            line_links(line) == Some(found) && line_links(line + seq!['|'] + more) == Some(found)
        }),
{
    let field = link_fields(links) + last;
    lemma_fields_without(links, '|');
    assert forall|i: int| 0 <= i < field.len() implies field[i] != '|' by {
        let fields = link_fields(links);
        if i < fields.len() {
            assert(fields.contains(fields[i]));
        } else {
            assert(last.contains(last[i - fields.len()]));
        }
    }
    let line = line_body(title, links) + last;
    assert(line =~= title + seq!['|'] + field);
    lemma_split_head(title, '|', field);
    lemma_split_whole(field, '|');
    assert(split(line, '|')[1] == field);
    let longer = line + seq!['|'] + more;
    assert(longer =~= title + seq!['|'] + (field + seq!['|'] + more));
    lemma_split_head(title, '|', field + seq!['|'] + more);
    lemma_split_head(field, '|', more);
    lemma_split_some(more, '|');
    assert(split(longer, '|')[1] == field);
    lemma_terminated_fields(links, last);
}

proof fn lemma_terminated_fields(links: Seq<Seq<char>>, last: Seq<char>)
    requires
        forall|i: int| 0 <= i < links.len() ==> !(#[trigger] links[i]).contains(','),
        !last.contains(','),
    ensures
        terminated(link_fields(links) + last, ',') == if last.len() == 0 {
            links
        } else {
            links.push(last)
        },
    decreases links.len(),
{
    if links.len() == 0 {
        assert(link_fields(links) + last =~= last);
        law_terminated(last, ',', seq![]);
        assert(links.push(last) =~= seq![last]);
    } else {
        let rest = links.drop_first();
        assert forall|i: int| 0 <= i < rest.len() implies !(#[trigger] rest[i]).contains(',') by {
            assert(rest[i] == links[i + 1]);
        }
        lemma_terminated_fields(rest, last);
        law_terminated(links[0], ',', link_fields(rest) + last);
        assert(link_fields(links) + last =~= links[0] + seq![','] + (link_fields(rest) + last));
        assert(seq![links[0]] + rest =~= links);
        assert(seq![links[0]] + rest.push(last) =~= links.push(last));
    }
}

/// The lines of a list are what stands before each line break, in order, and what stands behind
/// the last one unless that is nothing.
pub proof fn law_lines_end_at_breaks(line: Seq<char>, rest: Seq<char>)
    requires
        !line.contains('\n'),
    ensures
        list_lines(line + seq!['\n'] + rest) == seq![line] + list_lines(rest),
        list_lines(line) == if line.len() == 0 {
            Seq::<Seq<char>>::empty()
        } else {
            seq![line]
        },
{
    law_terminated(line, '\n', rest);
}

} // verus!
