//! What holds of the first pass over any dump, and of the graph of what it gives.
use vstd::prelude::*;
use vstd::utf8::{encode_utf8, encode_utf8_decode_utf8};

use crate::catalog::{are_linked, are_placed, are_separable, end_of, have_distinct_titles};
use crate::catalog::{holds_articles, law_graph_of_articles, lines, rows, Article};
use crate::dump::{end_page, is_tag, run, start, step, DraftState};
use crate::dump::{law_dump_in_parts, law_nothing_between_pages};
use crate::dump::{Outcome, PassState, StageState, XmlEvent};
use crate::graph::graph_file;
use crate::layout::LINK_SIZE;
use crate::links::{all_clean, is_clean, law_links_are_clean};
use crate::markup::event_text;
use crate::page::is_excluded_title;
use crate::parser::counted;
use crate::text::holds;
use crate::words::word_at;

verus! {

/// The articles among the outcomes of a pass, in order.
pub open spec fn articles(outcomes: Seq<Outcome>) -> Seq<Article>
    decreases outcomes.len(),
{
    if outcomes.len() == 0 {
        seq![]
    } else {
        match outcomes.last() {
            Outcome::Article { row, links } => articles(outcomes.drop_last()).push(
                Article { row, links },
            ),
            _ => articles(outcomes.drop_last()),
        }
    }
}

/// The articles have titles of articles and links that a text can have.
pub open spec fn are_admitted(articles: Seq<Article>) -> bool {
    forall|k: int|
        0 <= k < articles.len() ==> !is_excluded_title((#[trigger] articles[k]).row.title)
            && all_clean(articles[k].links)
}

/// The pass knows where its last article ends, and how many there are.
spec fn is_in_step(pass: PassState, articles: Seq<Article>) -> bool {
    &&& pass.wf()
    &&& pass.count == articles.len()
    &&& pass.prev_offset + pass.prev_length == end_of(articles)
    &&& are_placed(articles)
    &&& are_admitted(articles)
}

proof fn lemma_article_added(articles: Seq<Article>, article: Article)
    requires
        are_placed(articles),
        are_admitted(articles),
        article.row.byteoffset == end_of(articles),
        article.row.length == article.links.len() * LINK_SIZE,
        !is_excluded_title(article.row.title),
        all_clean(article.links),
    ensures
        are_placed(articles.push(article)),
        are_admitted(articles.push(article)),
{
    let all = articles.push(article);
    assert forall|k: int| 0 <= k < all.len() implies (#[trigger] all[k]).row.byteoffset == end_of(
        all.take(k),
    ) by {
        if k < articles.len() {
            assert(all[k] == articles[k]);
            assert(all.take(k) =~= articles.take(k));
        } else {
            assert(all.take(k) =~= articles);
        }
    }
    assert forall|k: int| 0 <= k < all.len() implies (#[trigger] all[k]).row.length
        == all[k].links.len() * LINK_SIZE by {
        if k < articles.len() {
            assert(all[k] == articles[k]);
        }
    }
}

proof fn lemma_step(pass: PassState, event: XmlEvent, articles: Seq<Article>)
    requires
        is_in_step(pass, articles),
    ensures
        match step(pass, event).1 {
            Some(Outcome::Article { row, links }) => is_in_step(
                step(pass, event).0,
                articles.push(Article { row, links }),
            ),
            _ => is_in_step(step(pass, event).0, articles),
        },
{
    match step(pass, event).1 {
        Some(Outcome::Article { row, links }) => {
            let draft = match pass.stage {
                StageState::Page(draft) => draft,
                StageState::Title(draft) => draft,
                StageState::Text(draft) => draft,
                _ => DraftState { title: seq![], text: seq![], is_redirect: false },
            };
            law_links_are_clean(draft.text);
            lemma_article_added(articles, Article { row, links });
        },
        _ => {},
    }
}

proof fn lemma_run(events: Seq<XmlEvent>)
    ensures
        is_in_step(run(start(), events).0, articles(run(start(), events).1)),
    decreases events.len(),
{
    if events.len() != 0 {
        lemma_run(events.drop_last());
        let before = run(start(), events.drop_last());
        lemma_step(before.0, events.last(), articles(before.1));
        if let Some(outcome) = step(before.0, events.last()).1 {
            assert(before.1.push(outcome).drop_last() =~= before.1);
        }
    }
}

/// The articles of a dump fill the graph file without a gap: the first begins behind the file
/// header, and each of the others where the one before ends. An article's length is four bytes
/// for each of its links.
pub proof fn law_articles_are_placed(events: Seq<XmlEvent>)
    ensures
        are_placed(articles(run(start(), events).1)),
{
    lemma_run(events);
}

/// No article has a title that is left out, and no link of one leads into a namespace or holds
/// the markup of a label, a section or a tag.
pub proof fn law_articles_are_admitted(events: Seq<XmlEvent>)
    ensures
        are_admitted(articles(run(start(), events).1)),
{
    lemma_run(events);
}

/// Once the pass has finished, there is nothing to be done.
proof fn lemma_finished(events: Seq<XmlEvent>)
    ensures
        forall|k: int|
            0 <= k < run(start(), events).1.len() && (#[trigger] run(start(), events).1[k] is Finish
                || run(start(), events).1[k] is Abort) ==> k == run(start(), events).1.len() - 1
                && run(start(), events).0.stage is Finished,
    decreases events.len(),
{
    if events.len() != 0 {
        lemma_finished(events.drop_last());
    }
}

/// The end of a dump is reported once, after everything else, with the number of its articles.
/// A failure too comes after everything else.
pub proof fn law_end_is_last(events: Seq<XmlEvent>, k: int)
    requires
        0 <= k < run(start(), events).1.len(),
        run(start(), events).1[k] is Finish || run(start(), events).1[k] is Abort,
    ensures
        k == run(start(), events).1.len() - 1,
        run(start(), events).1[k] matches Outcome::Finish(count) ==> count == articles(
            run(start(), events).1,
        ).len(),
{
    lemma_finished(events);
    lemma_finish_count(events);
}

proof fn lemma_finish_count(events: Seq<XmlEvent>)
    ensures
        run(start(), events).1.len() > 0 ==> (run(start(), events).1.last() matches Outcome::Finish(
            count,
        ) ==> count == articles(run(start(), events).1).len()),
    decreases events.len(),
{
    if events.len() != 0 {
        lemma_finish_count(events.drop_last());
        lemma_run(events.drop_last());
        let before = run(start(), events.drop_last());
        if let Some(outcome) = step(before.0, events.last()).1 {
            assert(before.1.push(outcome).drop_last() =~= before.1);
        }
    }
}

/// The graph of a dump: the adjacency list and the lookup table that the first pass gives become
/// a file that holds every article where its row says, with the number of its links and, for each
/// link, the place of the article that it leads to.
///
/// The titles differ from each other, none holds a bar, no link holds a comma, and every link
/// leads to an article.
pub proof fn law_graph_of_dump(events: Seq<XmlEvent>, count: i32)
    requires
        have_distinct_titles(articles(run(start(), events).1)),
        are_separable(articles(run(start(), events).1)),
        are_linked(articles(run(start(), events).1)),
    ensures
        ({
            let found = articles(run(start(), events).1);
            graph_file(count, lines(found), rows(found)) matches Ok(file) && holds_articles(
                file,
                count,
                found,
            )
        }),
{
    let found = articles(run(start(), events).1);
    lemma_run(events);
    assert forall|k: int, j: int|
        0 <= k < found.len() && 0 <= j < found[k].links.len() implies !(
    #[trigger] found[k].links[j]).contains('|') by {
        assert(all_clean(found[k].links));
        assert(is_clean(found[k].links[j]));
    }
    law_graph_of_articles(count, found);
}

/// The header of the graph of a dump that has ended gives the number of its articles.
pub proof fn law_header_counts_the_articles(events: Seq<XmlEvent>, known: i32)
    requires
        run(start(), events).1.len() > 0,
        run(start(), events).1.last() is Finish,
        have_distinct_titles(articles(run(start(), events).1)),
        are_separable(articles(run(start(), events).1)),
        are_linked(articles(run(start(), events).1)),
    ensures
        ({
            let found = articles(run(start(), events).1);
            let count = counted(run(start(), events).1, known);
            graph_file(count, lines(found), rows(found)) matches Ok(file) && word_at(file, 4)
                == found.len()
        }),
{
    law_end_is_last(events, run(start(), events).1.len() - 1);
    law_graph_of_dump(events, counted(run(start(), events).1, known));
}

/// Two tags whose names differ are told apart.
proof fn lemma_tags_differ(name: Seq<u8>, tag: Seq<char>, other: Seq<char>)
    requires
        is_tag(name, tag),
        tag != other,
    ensures
        !is_tag(name, other),
{
    encode_utf8_decode_utf8(tag);
    encode_utf8_decode_utf8(other);
}

/// The outcome of a page does not depend on what it holds besides its title, its text and its
/// redirect mark: such an event in a page leaves the pass as it is.
pub proof fn law_page_ignores_the_rest(pass: PassState, event: XmlEvent)
    requires
        pass.stage is Page,
        match event {
            XmlEvent::Start(name) => !is_tag(name@, "title"@) && !is_tag(name@, "text"@),
            XmlEvent::End(name) => !is_tag(name@, "page"@),
            XmlEvent::Empty(name) => !is_tag(name@, "redirect"@),
            XmlEvent::Text(_) => true,
            XmlEvent::Eof => false,
            XmlEvent::Other => true,
            XmlEvent::Error => true,
        },
    ensures
        step(pass, event) == (pass, None::<Outcome>),
{
}

/// The events of one page: its title and its text between their tags, and a redirect mark or not.
pub open spec fn page_events(
    tags: (XmlEvent, XmlEvent, XmlEvent, XmlEvent, XmlEvent, XmlEvent),
    title: XmlEvent,
    text: XmlEvent,
    mark: Seq<XmlEvent>,
) -> Seq<XmlEvent> {
    seq![tags.0, tags.1, title, tags.2] + mark + seq![tags.3, text, tags.4, tags.5]
}

/// A page between its tags is left out, or a redirect, or an article, by its title, its text and
/// its redirect mark alone, where both can be decoded and the title is not one of the project's
/// own namespace.
pub proof fn law_page_is_read(
    pass: PassState,
    page: (Vec<u8>, Vec<u8>),
    title: (Vec<u8>, Vec<u8>, Vec<u8>),
    text: (Vec<u8>, Vec<u8>, Vec<u8>),
    mark: Option<Vec<u8>>,
)
    requires
        pass.stage is Outside,
        is_tag(page.0@, "page"@) && is_tag(page.1@, "page"@),
        is_tag(title.0@, "title"@) && is_tag(title.2@, "title"@),
        is_tag(text.0@, "text"@) && is_tag(text.2@, "text"@),
        mark matches Some(name) ==> is_tag(name@, "redirect"@),
    ensures
        ({
            let events = page_events(
                (
                    XmlEvent::Start(page.0),
                    XmlEvent::Start(title.0),
                    XmlEvent::End(title.2),
                    XmlEvent::Start(text.0),
                    XmlEvent::End(text.2),
                    XmlEvent::End(page.1),
                ),
                XmlEvent::Text(title.1),
                XmlEvent::Text(text.1),
                match mark {
                    Some(name) => seq![XmlEvent::Empty(name)],
                    None => seq![],
                },
            );
            let end = end_page(
                pass,
                DraftState {
                    title: event_text(title.1@)->Some_0,
                    text: event_text(text.1@)->Some_0,
                    is_redirect: mark is Some,
                },
            );
            event_text(title.1@) is Some && !holds(event_text(title.1@)->Some_0, "Wikipedia:"@)
                && event_text(text.1@) is Some ==> run(pass, events) == (
                end.0,
                match end.1 {
                    Some(outcome) => seq![outcome],
                    None => seq![],
                },
            )
        }),
{
    reveal_strlit("page");
    reveal_strlit("title");
    reveal_strlit("text");
    reveal_strlit("redirect");
    lemma_tags_differ(title.2@, "title"@, "page"@);
    lemma_tags_differ(text.0@, "text"@, "title"@);
    assert("text"@ != "page"@) by {
        assert("text"@[0] != "page"@[0]);
    }
    lemma_tags_differ(text.2@, "text"@, "page"@);
    let e1 = XmlEvent::Start(page.0);
    let e2 = XmlEvent::Start(title.0);
    let e3 = XmlEvent::Text(title.1);
    let e4 = XmlEvent::End(title.2);
    let e6 = XmlEvent::Start(text.0);
    let e7 = XmlEvent::Text(text.1);
    let e8 = XmlEvent::End(text.2);
    let e9 = XmlEvent::End(page.1);
    let none = Seq::<XmlEvent>::empty();
    lemma_run_push(pass, none, e1);
    lemma_run_push(pass, none.push(e1), e2);
    lemma_run_push(pass, none.push(e1).push(e2), e3);
    let head = none.push(e1).push(e2).push(e3).push(e4);
    lemma_run_push(pass, none.push(e1).push(e2).push(e3), e4);
    let marked = match mark {
        Some(name) => {
            lemma_run_push(pass, head, XmlEvent::Empty(name));
            head.push(XmlEvent::Empty(name))
        },
        None => head,
    };
    lemma_run_push(pass, marked, e6);
    lemma_run_push(pass, marked.push(e6), e7);
    lemma_run_push(pass, marked.push(e6).push(e7), e8);
    lemma_run_push(pass, marked.push(e6).push(e7).push(e8), e9);
    let all = marked.push(e6).push(e7).push(e8).push(e9);
    let marks: Seq<XmlEvent> = match mark {
        Some(name) => seq![XmlEvent::Empty(name)],
        None => seq![],
    };
    assert(page_events((e1, e2, e4, e6, e8, e9), e3, e7, marks) =~= all);
}

/// One event more.
proof fn lemma_run_push(pass: PassState, events: Seq<XmlEvent>, event: XmlEvent)
    ensures
        run(pass, events.push(event)) == ({
            let before = run(pass, events);
            let next = step(before.0, event);
            match next.1 {
                Some(outcome) => (next.0, before.1.push(outcome)),
                None => (next.0, before.1),
            }
        }),
{
    assert(events.push(event).drop_last() =~= events);
}

/// A redirect leads from a page that is not left out, to the target of a link.
pub proof fn law_redirects_are_admitted(events: Seq<XmlEvent>, k: int)
    requires
        0 <= k < run(start(), events).1.len(),
    ensures
        run(start(), events).1[k] matches Outcome::Redirect(row) ==> !is_excluded_title(
            row.redirect_from,
        ) && is_clean(row.redirect_to),
    decreases events.len(),
{
    let before = run(start(), events.drop_last());
    if k < before.1.len() {
        law_redirects_are_admitted(events.drop_last(), k);
    } else {
        let draft = match before.0.stage {
            StageState::Page(draft) => draft,
            StageState::Title(draft) => draft,
            StageState::Text(draft) => draft,
            _ => DraftState { title: seq![], text: seq![], is_redirect: false },
        };
        law_links_are_clean(draft.text);
    }
}

/// The events between pages are of no account, however many there are: whole pages give the same
/// with them as without.
pub proof fn law_surroundings_of_a_page(
    pass: PassState,
    before: Seq<XmlEvent>,
    page: Seq<XmlEvent>,
    after: Seq<XmlEvent>,
)
    requires
        pass.stage is Outside,
        run(pass, page).0.stage is Outside,
        forall|i: int| 0 <= i < before.len() ==> is_between_pages(#[trigger] before[i]),
        forall|i: int| 0 <= i < after.len() ==> is_between_pages(#[trigger] after[i]),
    ensures
        run(pass, before + page + after) == run(pass, page),
{
    lemma_between_pages(pass, before);
    lemma_between_pages(run(pass, page).0, after);
    law_dump_in_parts(pass, before, page);
    law_dump_in_parts(pass, before + page, after);
    assert(Seq::<Outcome>::empty() + run(pass, page).1 =~= run(pass, page).1);
    assert(run(pass, page).1 + Seq::<Outcome>::empty() =~= run(pass, page).1);
}

/// An event that may stand between two pages: it is neither the start of one, nor the end of the
/// dump, nor an error.
pub open spec fn is_between_pages(event: XmlEvent) -> bool {
    match event {
        XmlEvent::Start(name) => name@ != encode_utf8("page"@),
        XmlEvent::Eof => false,
        XmlEvent::Error => false,
        _ => true,
    }
}

proof fn lemma_between_pages(pass: PassState, events: Seq<XmlEvent>)
    requires
        pass.stage is Outside,
        forall|i: int| 0 <= i < events.len() ==> is_between_pages(#[trigger] events[i]),
    ensures
        run(pass, events) == (pass, Seq::<Outcome>::empty()),
    decreases events.len(),
{
    if events.len() != 0 {
        let shorter = events.drop_last();
        assert forall|i: int| 0 <= i < shorter.len() implies is_between_pages(
            #[trigger] shorter[i],
        ) by {
            assert(shorter[i] == events[i]);
        }
        lemma_between_pages(pass, shorter);
        assert(is_between_pages(events[events.len() - 1]));
        law_nothing_between_pages(pass, events.last());
    }
}

/// Behind the end of a dump, or a failure, nothing is done, whatever follows.
pub proof fn law_run_behind_the_end(pass: PassState, events: Seq<XmlEvent>)
    requires
        pass.stage is Finished,
    ensures
        run(pass, events) == (pass, Seq::<Outcome>::empty()),
    decreases events.len(),
{
    if events.len() != 0 {
        law_run_behind_the_end(pass, events.drop_last());
    }
}

} // verus!
