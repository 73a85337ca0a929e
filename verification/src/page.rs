//! Which pages of the dump are articles.
use vstd::prelude::*;
use vstd::utf8::encode_utf8;

use crate::text::{chars_of, contains, holds};
use crate::text::{law_held_word_is_there, law_word_is_found};

verus! {

/// The longest title that the tables take, in bytes.
pub const MAX_TITLE_SIZE: usize = 255;

/// The title of a page outside the articles: it is empty or too long, or names another namespace
/// or a disambiguation page.
pub open spec fn is_excluded_title(title: Seq<char>) -> bool {
    ||| title.len() == 0
    ||| holds(title, "Template:"@)
    ||| holds(title, "Wikipedia:"@)
    ||| holds(title, "File:"@)
    ||| holds(title, "WP:"@)
    ||| holds(title, "User:"@)
    ||| holds(title, "Help:"@)
    ||| holds(title, "Draft:"@)
    ||| encode_utf8(title).len() > MAX_TITLE_SIZE
    ||| holds(title, "(disambiguation)"@)
}

/// The text of a page outside the articles: it is empty, or uses a disambiguation template.
pub open spec fn is_excluded_text(text: Seq<char>) -> bool {
    ||| text.len() == 0
    ||| holds(text, "{{disambiguation}}"@)
    ||| holds(text, "{{disambig"@)
}

/// A page that is left out of the graph.
pub open spec fn is_excluded(title: Seq<char>, text: Seq<char>) -> bool {
    is_excluded_title(title) || is_excluded_text(text)
}

/// Whether a page is left out of the graph.
pub fn excluded(title: &str, text: &str) -> (out: bool)
    ensures
        out == is_excluded(title@, text@),
        !out <==> {
            &&& title@.len() > 0
            &&& encode_utf8(title@).len() <= 255
            &&& !holds(title@, "Template:"@) && !holds(title@, "Wikipedia:"@)
            &&& !holds(title@, "File:"@) && !holds(title@, "WP:"@) && !holds(title@, "User:"@)
            &&& !holds(title@, "Help:"@) && !holds(title@, "Draft:"@)
            &&& !holds(title@, "(disambiguation)"@)
            &&& text@.len() > 0
            &&& !holds(text@, "{{disambig"@)
        },
{
    proof {
        law_kept_pages(title@, text@);
    }
    let name = chars_of(title);
    let body = chars_of(text);
    name.len() == 0 || body.len() == 0 || contains(&name, "Template:") || contains(
        &name,
        "Wikipedia:",
    ) || contains(&name, "File:") || contains(&name, "WP:") || contains(&name, "User:") || contains(
        &name,
        "Help:",
    ) || contains(&name, "Draft:") || title.as_bytes().len() > MAX_TITLE_SIZE || contains(
        &name,
        "(disambiguation)",
    ) || contains(&body, "{{disambiguation}}") || contains(&body, "{{disambig")
}

/// The closed disambiguation template begins as the open one does.
proof fn lemma_disambiguation(text: Seq<char>)
    requires
        holds(text, "{{disambiguation}}"@),
    ensures
        holds(text, "{{disambig"@),
{
    reveal_strlit("{{disambiguation}}");
    reveal_strlit("{{disambig");
    law_held_word_is_there(text, "{{disambiguation}}"@);
    let (head, tail) = choose|head: Seq<char>, tail: Seq<char>|
        text == #[trigger] (head + "{{disambiguation}}"@ + tail);
    let more = "{{disambiguation}}"@.skip(10) + tail;
    assert("{{disambiguation}}"@ =~= "{{disambig"@ + "{{disambiguation}}"@.skip(10));
    assert(text =~= head + "{{disambig"@ + more);
    law_word_is_found(head, "{{disambig"@, more);
}

/// A page is kept where it has a title of no more than 255 bytes that names neither another
/// namespace nor a disambiguation, and a text without the start of a disambiguation template;
/// nothing else about it matters.
pub proof fn law_kept_pages(title: Seq<char>, text: Seq<char>)
    ensures
        !is_excluded(title, text) <==> {
            &&& title.len() > 0
            &&& encode_utf8(title).len() <= 255
            &&& !holds(title, "Template:"@) && !holds(title, "Wikipedia:"@)
            &&& !holds(title, "File:"@) && !holds(title, "WP:"@) && !holds(title, "User:"@)
            &&& !holds(title, "Help:"@) && !holds(title, "Draft:"@)
            &&& !holds(title, "(disambiguation)"@)
            &&& text.len() > 0
            &&& !holds(text, "{{disambig"@)
        },
{
    if holds(text, "{{disambiguation}}"@) {
        lemma_disambiguation(text);
    }
}

/// The title alone leaves a page out where it is empty, longer than 255 bytes, or names another
/// namespace or a disambiguation.
pub proof fn law_kept_titles(title: Seq<char>)
    ensures
        !is_excluded_title(title) <==> {
            &&& title.len() > 0
            &&& encode_utf8(title).len() <= 255
            &&& !holds(title, "Template:"@) && !holds(title, "Wikipedia:"@)
            &&& !holds(title, "File:"@) && !holds(title, "WP:"@) && !holds(title, "User:"@)
            &&& !holds(title, "Help:"@) && !holds(title, "Draft:"@)
            &&& !holds(title, "(disambiguation)"@)
        },
{
}

/// A title that names another namespace or a disambiguation, wherever in it, leaves its page out,
/// whatever the text.
pub proof fn law_marked_titles_are_left_out(
    head: Seq<char>,
    mark: Seq<char>,
    tail: Seq<char>,
    text: Seq<char>,
)
    requires
        mark == "Template:"@ || mark == "Wikipedia:"@ || mark == "File:"@ || mark == "WP:"@ || mark
            == "User:"@ || mark == "Help:"@ || mark == "Draft:"@ || mark == "(disambiguation)"@,
    ensures
        is_excluded(head + mark + tail, text),
{
    law_word_is_found(head, mark, tail);
}

/// A disambiguation template, wherever in the text it begins, leaves its page out, whatever the
/// title.
pub proof fn law_disambiguations_are_left_out(title: Seq<char>, head: Seq<char>, tail: Seq<char>)
    ensures
        is_excluded(title, head + "{{disambig"@ + tail),
{
    law_word_is_found(head, "{{disambig"@, tail);
}

} // verus!
