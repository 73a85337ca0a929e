//! The links of a page: `[[target]]`, `[[target|label]]` and `[[target#section]]` in its text.
use vstd::prelude::*;

use crate::text::{before, behind, contents, first, holds, occurs_at};
use crate::text::{chars_of, find_behind, found_at, string_of};
use crate::text::{lemma_behind, lemma_behind_at, lemma_behind_none};
use crate::text::{lemma_first, lemma_first_at, lemma_occurs_later};

verus! {

/// `s` begins with two times `c`.
pub open spec fn doubled(s: Seq<char>, c: char) -> bool {
    s.len() >= 2 && s[0] == c && s[1] == c
}

/// The namespaces whose pages are no articles: a link into one of them is no link.
pub open spec fn is_namespace(body: Seq<char>) -> bool {
    body == "File:"@ || body == "Wikipedia:"@ || body == "WP:"@ || body == "User:"@
}

/// `body` begins with one of the namespaces.
pub open spec fn in_namespace(body: Seq<char>) -> bool {
    exists|n: int| 0 <= n <= body.len() && is_namespace(#[trigger] body.take(n))
}

/// The page that a link leads to: its text without the label and without the section.
pub open spec fn target(body: Seq<char>) -> Seq<char> {
    before(before(body, '|'), '#')
}

/// `s` begins with the opening tag of highlighted code.
pub open spec fn opens_code(s: Seq<char>) -> bool {
    s.len() > 0 && s[0] == '<' && occurs_at(s, "syntaxhighlight"@, 1)
}

/// The targets of the links that end in `s`, in order, where `body` is what has been read of
/// the link that `s` continues, if it continues one.
///
/// `[[` starts a link, afresh where one was being read. `]]` ends it. A template, from `{{` to the
/// next `}}`, and highlighted code, from its opening tag to its closing tag, are passed over; each
/// goes on to the end of the text where it is not closed. Any other `<` belongs to no link. A link
/// whose text so far is a namespace is given up.
pub open spec fn links_from(s: Seq<char>, body: Option<Seq<char>>) -> Seq<Seq<char>>
    decreases s.len(),
{
    if s.len() == 0 {
        seq![]
    } else if doubled(s, '[') {
        links_from(s.skip(2), Some(seq![]))
    } else if doubled(s, ']') {
        match body {
            Some(read) => seq![target(read)] + links_from(s.skip(2), None),
            None => links_from(s.skip(2), None),
        }
    } else if doubled(s, '{') {
        proof {
            let _ = lemma_behind(s.skip(2), "}}"@);
        }
        links_from(behind(s.skip(2), "}}"@), body)
    } else if opens_code(s) {
        proof {
            let _ = lemma_behind(s.skip(1), "</syntaxhighlight>"@);
        }
        links_from(behind(s.skip(1), "</syntaxhighlight>"@), body)
    } else if s[0] == '<' {
        links_from(s.skip(1), body)
    } else {
        match body {
            Some(read) => if is_namespace(read.push(s[0])) {
                links_from(s.skip(1), None)
            } else {
                links_from(s.skip(1), Some(read.push(s[0])))
            },
            None => links_from(s.skip(1), None),
        }
    }
}

/// The targets of the links in a page's text, in order.
pub open spec fn links_in(text: Seq<char>) -> Seq<Seq<char>> {
    links_from(text, None)
}

/// A link is cut where its text first holds a `|` or a `#`.
proof fn lemma_target(body: Seq<char>, cut: int)
    requires
        0 <= cut <= body.len(),
        forall|i: int| 0 <= i < cut ==> body[i] != '|' && body[i] != '#',
        cut == body.len() || body[cut] == '|' || body[cut] == '#',
    ensures
        target(body) == body.take(cut),
{
    lemma_first(body, '|');
    let read = before(body, '|');
    assert(first(body, '|') >= cut);
    lemma_first_at(read, '#', cut);
    assert(read.take(cut) =~= body.take(cut));
}

/// Whether the text of a link so far is one of the namespaces.
fn at_namespace(body: &Vec<char>) -> (found: bool)
    ensures
        found == is_namespace(body@),
{
    proof {
        reveal_strlit("File:");
        reveal_strlit("Wikipedia:");
        reveal_strlit("WP:");
        reveal_strlit("User:");
    }
    if body.len() == 3 {
        same(body, "WP:")
    } else if body.len() == 5 {
        same(body, "File:") || same(body, "User:")
    } else if body.len() == 10 {
        same(body, "Wikipedia:")
    } else {
        false
    }
}

/// Whether `chars` are the characters of `word`.
fn same(chars: &Vec<char>, word: &str) -> (equal: bool)
    ensures
        equal == (chars@ == word@),
{
    let other = chars_of(word);
    if chars.len() != other.len() {
        return false;
    }
    let mut i: usize = 0;
    while i < chars.len()
        invariant
            i <= chars@.len() == other@.len(),
            forall|j: int| 0 <= j < i ==> chars@[j] == other@[j],
            other@ == word@,
        decreases chars@.len() - i,
    {
        if chars[i] != other[i] {
            return false;
        }
        i += 1;
    }
    assert(chars@ =~= word@);
    true
}

/// The target of a link from its text.
fn target_of(body: &Vec<char>) -> (link: String)
    ensures
        link@ == target(body@),
{
    let mut cut: usize = 0;
    while cut < body.len() && body[cut] != '|' && body[cut] != '#'
        invariant
            cut <= body@.len(),
            forall|i: int| 0 <= i < cut ==> body@[i] != '|' && body@[i] != '#',
        decreases body@.len() - cut,
    {
        cut += 1;
    }
    proof {
        lemma_target(body@, cut as int);
    }
    string_of(body, 0, cut)
}

/// The targets of the links in a page's text, in order.
pub fn extract_links_from_text(text: &str) -> (links: Vec<String>)
    ensures
        contents(links@) == links_in(text@),
{
    let chars = chars_of(text);
    let template_end = chars_of("}}");
    let code_name = chars_of("syntaxhighlight");
    let code_end = chars_of("</syntaxhighlight>");
    let mut links: Vec<String> = Vec::new();
    let mut body: Vec<char> = Vec::new();
    let mut inside: bool = false;
    let mut i: usize = 0;
    assert(chars@.skip(0) =~= chars@);
    assert(contents(links@) + links_in(chars@) =~= links_in(chars@));
    while i < chars.len()
        invariant
            i <= chars.len(),
            template_end@ == "}}"@,
            code_name@ == "syntaxhighlight"@,
            code_end@ == "</syntaxhighlight>"@,
            contents(links@) + links_from(
                chars@.skip(i as int),
                if inside { Some(body@) } else { None },
            ) == links_in(chars@),
        decreases chars@.len() - i,
    {
        let ghost rest = chars@.skip(i as int);
        let ghost earlier = links@;
        assert(rest.skip(1) =~= chars@.skip(i + 1));
        assert(i + 2 <= chars@.len() ==> rest.skip(2) =~= chars@.skip(i + 2));
        let c = chars[i];
        let twice: bool = i + 1 < chars.len() && chars[i + 1] == c;
        if c == '[' && twice {
            inside = true;
            body.clear();
            i += 2;
        } else if c == ']' && twice {
            if inside {
                let link = target_of(&body);
                links.push(link);
                inside = false;
                proof {
                    let tail = links_from(rest.skip(2), None);
                    assert(contents(links@) =~= contents(earlier).push(link@));
                    assert(contents(earlier) + (seq![link@] + tail) =~= contents(links@) + tail);
                }
            }
            i += 2;
        } else if c == '{' && twice {
            i = find_behind(&chars, i + 2, &template_end);
        } else if c == '<' {
            proof {
                lemma_occurs_later(chars@, "syntaxhighlight"@, i as int, 1);
            }
            if found_at(&chars, &code_name, i + 1) {
                i = find_behind(&chars, i + 1, &code_end);
            } else {
                i += 1;
            }
        } else {
            if inside {
                body.push(c);
                if at_namespace(&body) {
                    inside = false;
                }
            }
            i += 1;
        }
    }
    assert(contents(links@) + seq![] =~= contents(links@));
    links
}

/// Text that a link's target can be: it begins with no namespace and holds no `|`, `#` or `<`.
pub open spec fn is_clean(link: Seq<char>) -> bool {
    &&& !in_namespace(link)
    &&& !link.contains('|')
    &&& !link.contains('#')
    &&& !link.contains('<')
}

/// Every target of a list is one that a link can have.
pub open spec fn all_clean(links: Seq<Seq<char>>) -> bool {
    forall|i: int| 0 <= i < links.len() ==> is_clean(#[trigger] links[i])
}

/// What has been read of a link neither begins with a namespace nor holds a `<`.
spec fn is_readable(body: Option<Seq<char>>) -> bool {
    body matches Some(read) ==> !in_namespace(read) && !read.contains('<')
}

proof fn lemma_clean_target(body: Seq<char>)
    requires
        !in_namespace(body),
        !body.contains('<'),
    ensures
        is_clean(target(body)),
{
    lemma_first(body, '|');
    let read = before(body, '|');
    lemma_first(read, '#');
    let link = target(body);
    assert forall|n: int| 0 <= n <= link.len() implies !is_namespace(#[trigger] link.take(n)) by {
        assert(link.take(n) =~= body.take(n));
    }
    assert forall|i: int| 0 <= i < link.len() implies link[i] == body[i] && link[i] == read[i] by {
    }
}

proof fn lemma_grown_body(read: Seq<char>, c: char)
    requires
        !in_namespace(read),
        !is_namespace(read.push(c)),
    ensures
        !in_namespace(read.push(c)),
{
    let grown = read.push(c);
    assert forall|n: int| 0 <= n <= grown.len() implies !is_namespace(#[trigger] grown.take(n)) by {
        if n <= read.len() {
            assert(grown.take(n) =~= read.take(n));
        } else {
            assert(grown.take(n) =~= grown);
        }
    }
}

proof fn lemma_empty_body()
    ensures
        !in_namespace(seq![]),
{
    reveal_strlit("File:");
    reveal_strlit("Wikipedia:");
    reveal_strlit("WP:");
    reveal_strlit("User:");
    let body = Seq::<char>::empty();
    assert forall|n: int| 0 <= n <= body.len() implies !is_namespace(#[trigger] body.take(n)) by {
        assert(body.take(n).len() == 0);
    }
}

proof fn lemma_links_clean(s: Seq<char>, body: Option<Seq<char>>)
    requires
        is_readable(body),
    ensures
        all_clean(links_from(s, body)),
    decreases s.len(),
{
    if s.len() == 0 {
    } else if doubled(s, '[') {
        lemma_empty_body();
        lemma_links_clean(s.skip(2), Some(seq![]));
    } else if doubled(s, ']') {
        lemma_links_clean(s.skip(2), None);
        if let Some(read) = body {
            lemma_clean_target(read);
            let tail = links_from(s.skip(2), None);
            let all = seq![target(read)] + tail;
            assert(links_from(s, body) == all);
            assert forall|i: int| 0 <= i < all.len() implies is_clean(#[trigger] all[i]) by {
                if i > 0 {
                    assert(all[i] == tail[i - 1]);
                }
            }
        }
    } else if doubled(s, '{') {
        let _ = lemma_behind(s.skip(2), "}}"@);
        lemma_links_clean(behind(s.skip(2), "}}"@), body);
    } else if opens_code(s) {
        let _ = lemma_behind(s.skip(1), "</syntaxhighlight>"@);
        lemma_links_clean(behind(s.skip(1), "</syntaxhighlight>"@), body);
    } else if s[0] == '<' {
        lemma_links_clean(s.skip(1), body);
    } else {
        match body {
            Some(read) => {
                if is_namespace(read.push(s[0])) {
                    lemma_links_clean(s.skip(1), None);
                } else {
                    lemma_grown_body(read, s[0]);
                    lemma_links_clean(s.skip(1), Some(read.push(s[0])));
                }
            },
            None => lemma_links_clean(s.skip(1), None),
        }
    }
}

/// No link leads into a namespace, and no target holds the markup of a label, a section or a tag.
pub proof fn law_links_are_clean(text: Seq<char>)
    ensures
        all_clean(links_in(text)),
{
    lemma_links_clean(text, None);
}

proof fn lemma_link_count(s: Seq<char>, body: Option<Seq<char>>)
    ensures
        4 * links_from(s, body).len() <= s.len() + (if body is Some { 2int } else { 0 }),
    decreases s.len(),
{
    if s.len() == 0 {
    } else if doubled(s, '[') {
        lemma_link_count(s.skip(2), Some(seq![]));
    } else if doubled(s, ']') {
        lemma_link_count(s.skip(2), None);
    } else if doubled(s, '{') {
        let _ = lemma_behind(s.skip(2), "}}"@);
        lemma_link_count(behind(s.skip(2), "}}"@), body);
    } else if opens_code(s) {
        let _ = lemma_behind(s.skip(1), "</syntaxhighlight>"@);
        lemma_link_count(behind(s.skip(1), "</syntaxhighlight>"@), body);
    } else if s[0] == '<' {
        lemma_link_count(s.skip(1), body);
    } else {
        match body {
            Some(read) => {
                lemma_link_count(s.skip(1), None);
                lemma_link_count(s.skip(1), Some(read.push(s[0])));
            },
            None => lemma_link_count(s.skip(1), None),
        }
    }
}

/// Each link takes at least the four brackets around it, so a text has no more links than a
/// quarter of its length.
pub proof fn law_link_count(text: Seq<char>)
    ensures
        4 * links_in(text).len() <= text.len(),
{
    lemma_link_count(text, None);
}

proof fn lemma_no_start(s: Seq<char>)
    requires
        !holds(s, "[["@),
    ensures
        links_in(s).len() == 0,
    decreases s.len(),
{
    reveal_strlit("[[");
    if s.len() != 0 {
        if doubled(s, '[') {
            assert(s.subrange(0, 2) =~= "[["@);
            assert(occurs_at(s, "[["@, 0));
        }
        let n: int = if doubled(s, ']') {
            2
        } else if doubled(s, '{') {
            let m = lemma_behind(s.skip(2), "}}"@);
            assert(s.skip(2).skip(m) =~= s.skip(m + 2));
            m + 2
        } else if opens_code(s) {
            let m = lemma_behind(s.skip(1), "</syntaxhighlight>"@);
            assert(s.skip(1).skip(m) =~= s.skip(m + 1));
            m + 1
        } else {
            1
        };
        let rest = s.skip(n);
        assert forall|at: int| !occurs_at(rest, "[["@, at) by {
            if occurs_at(rest, "[["@, at) {
                lemma_occurs_later(s, "[["@, n, at);
                assert(occurs_at(s, "[["@, n + at));
            }
        }
        lemma_no_start(rest);
    }
}

/// A text without `[[` has no links.
pub proof fn law_no_brackets_no_links(text: Seq<char>)
    requires
        !holds(text, "[["@),
    ensures
        links_in(text) == Seq::<Seq<char>>::empty(),
{
    lemma_no_start(text);
}

/// Text without brackets, tags and templates holds no link and starts or ends none: the links of
/// a text that begins with it are those of what follows.
pub proof fn law_plain_text(plain: Seq<char>, rest: Seq<char>)
    requires
        is_plain_body(plain),
    ensures
        links_in(plain + rest) == links_in(rest),
    decreases plain.len(),
{
    if plain.len() == 0 {
        assert(plain + rest =~= rest);
    } else {
        let s = plain + rest;
        assert(plain.contains(plain[0]));
        assert(s[0] == plain[0]);
        assert(s.skip(1) =~= plain.skip(1) + rest);
        assert forall|i: int| 0 <= i < plain.skip(1).len() implies plain.contains(
            #[trigger] plain.skip(1)[i],
        ) by {
            assert(plain.skip(1)[i] == plain[i + 1]);
        }
        law_plain_text(plain.skip(1), rest);
    }
}

/// Text without the characters that mean something between the brackets of a link and outside: it
/// holds no bracket and starts no tag and no template.
pub open spec fn is_plain_body(body: Seq<char>) -> bool {
    !body.contains('[') && !body.contains(']') && !body.contains('<') && !body.contains('{')
}

proof fn lemma_read_body(read: Seq<char>, body: Seq<char>, rest: Seq<char>)
    requires
        is_plain_body(body),
        !in_namespace(read + body),
    ensures
        links_from(body + "]]"@ + rest, Some(read)) == seq![target(read + body)] + links_in(rest),
    decreases body.len(),
{
    reveal_strlit("]]");
    let s = body + "]]"@ + rest;
    if body.len() == 0 {
        assert(s.skip(2) =~= rest);
        assert(read + body =~= read);
    } else {
        assert(s[0] == body[0]);
        assert(body.contains(body[0]));
        let grown = read.push(body[0]);
        assert((read + body).take(grown.len() as int) =~= grown);
        assert(s.skip(1) =~= body.skip(1) + "]]"@ + rest);
        assert(grown + body.skip(1) =~= read + body);
        assert forall|i: int| 0 <= i < body.skip(1).len() implies body.contains(
            #[trigger] body.skip(1)[i],
        ) by {
            assert(body.skip(1)[i] == body[i + 1]);
        }
        lemma_read_body(grown, body.skip(1), rest);
    }
}

/// A link in brackets gives its target, and the links after it follow: whatever label or
/// section its text holds is cut off.
pub proof fn law_link_is_extracted(body: Seq<char>, rest: Seq<char>)
    requires
        is_plain_body(body),
        !in_namespace(body),
    ensures
        links_in("[["@ + body + "]]"@ + rest) == seq![target(body)] + links_in(rest),
{
    reveal_strlit("[[");
    let s = "[["@ + body + "]]"@ + rest;
    assert(s.skip(2) =~= body + "]]"@ + rest);
    assert(Seq::<char>::empty() + body =~= body);
    lemma_read_body(seq![], body, rest);
}

/// A template is passed over up to the first `}}` in it, in a link and outside: what stands in it
/// gives no link.
pub proof fn law_template_is_skipped(inside: Seq<char>, rest: Seq<char>, body: Option<Seq<char>>)
    requires
        !holds(inside.push('}'), "}}"@),
    ensures
        links_from("{{"@ + inside + "}}"@ + rest, body) == links_from(rest, body),
{
    reveal_strlit("{{");
    reveal_strlit("}}");
    let s = "{{"@ + inside + "}}"@ + rest;
    let tail = s.skip(2);
    assert(tail =~= inside + "}}"@ + rest);
    let at = inside.len() as int;
    assert(tail.subrange(at, at + 2) =~= "}}"@);
    assert forall|i: int| 0 <= i < at implies !occurs_at(tail, "}}"@, i) by {
        assert(tail.subrange(i, i + 2) =~= inside.push('}').subrange(i, i + 2));
        assert(!occurs_at(inside.push('}'), "}}"@, i));
    }
    lemma_behind_at(tail, "}}"@, at);
    assert(tail.skip(at + 2) =~= rest);
}

/// A template without its end takes the rest of the text with it.
pub proof fn law_open_template_is_skipped(inside: Seq<char>, body: Option<Seq<char>>)
    requires
        !holds(inside, "}}"@),
    ensures
        links_from("{{"@ + inside, body) == Seq::<Seq<char>>::empty(),
{
    reveal_strlit("{{");
    let s = "{{"@ + inside;
    assert(s.skip(2) =~= inside);
    lemma_behind_none(inside, "}}"@);
    assert(links_from(behind(inside, "}}"@), body).len() == 0);
}

/// Highlighted code is passed over up to its closing tag, in a link and outside: what stands in it
/// gives no link.
pub proof fn law_code_is_skipped(inside: Seq<char>, rest: Seq<char>, body: Option<Seq<char>>)
    requires
        !holds(inside, "</syntaxhighlight>"@),
    ensures
        links_from("<syntaxhighlight"@ + inside + "</syntaxhighlight>"@ + rest, body)
            == links_from(rest, body),
{
    reveal_strlit("<syntaxhighlight");
    reveal_strlit("syntaxhighlight");
    reveal_strlit("</syntaxhighlight>");
    let end = "</syntaxhighlight>"@;
    let s = "<syntaxhighlight"@ + inside + end + rest;
    let tail = s.skip(1);
    let at = 15 + inside.len() as int;
    assert(s.subrange(1, 16) =~= "syntaxhighlight"@);
    assert(tail.subrange(at, at + 18) =~= end);
    assert forall|i: int| 0 <= i < at implies !occurs_at(tail, end, i) by {
        let found = tail.subrange(i, i + 18);
        if i < 15 {
            assert(found[0] == "<syntaxhighlight"@[i + 1]);
        } else if i + 18 <= at {
            assert(found =~= inside.subrange(i - 15, i + 3));
            assert(!occurs_at(inside, end, i - 15));
        } else {
            assert(found[at - i] == end[0]);
        }
    }
    lemma_behind_at(tail, end, at);
    assert(tail.skip(at + 18) =~= rest);
}

/// Highlighted code without its closing tag takes the rest of the text with it.
pub proof fn law_open_code_is_skipped(inside: Seq<char>, body: Option<Seq<char>>)
    requires
        !holds(inside, "</syntaxhighlight>"@),
    ensures
        links_from("<syntaxhighlight"@ + inside, body) == Seq::<Seq<char>>::empty(),
{
    reveal_strlit("<syntaxhighlight");
    reveal_strlit("syntaxhighlight");
    reveal_strlit("</syntaxhighlight>");
    let end = "</syntaxhighlight>"@;
    let s = "<syntaxhighlight"@ + inside;
    let tail = s.skip(1);
    assert(s.subrange(1, 16) =~= "syntaxhighlight"@);
    assert forall|i: int| !occurs_at(tail, end, i) by {
        if occurs_at(tail, end, i) {
            let found = tail.subrange(i, i + 18);
            if i < 15 {
                assert(found[0] == "<syntaxhighlight"@[i + 1]);
            } else {
                assert(found =~= inside.subrange(i - 15, i + 3));
                assert(occurs_at(inside, end, i - 15));
            }
        }
    }
    lemma_behind_none(tail, end);
    assert(links_from(behind(tail, end), body).len() == 0);
}

/// A `<` that opens no highlighted code is passed over alone, in a link and outside: all that
/// follows it is read as though it were not there.
pub proof fn law_ordinary_tag_is_read_on(s: Seq<char>, body: Option<Seq<char>>)
    requires
        s.len() < 15 || s.take(15) != "syntaxhighlight"@,
    ensures
        links_from(seq!['<'] + s, body) == links_from(s, body),
{
    reveal_strlit("syntaxhighlight");
    let all = seq!['<'] + s;
    assert(all.skip(1) =~= s);
    if occurs_at(all, "syntaxhighlight"@, 1) {
        assert(all.subrange(1, 16) =~= s.take(15));
    }
}

/// The text of a page is read from outside any link.
pub proof fn law_text_begins_outside(text: Seq<char>)
    ensures
        links_in(text) == links_from(text, None),
{
}

/// Where the text ends, no further link is found, though one was being read.
pub proof fn law_no_link_at_the_end(body: Option<Seq<char>>)
    ensures
        links_from(seq![], body) == Seq::<Seq<char>>::empty(),
{
}

/// `[[` begins a link, and whatever was being read of another one is forgotten.
pub proof fn law_link_begins_afresh(rest: Seq<char>, body: Option<Seq<char>>)
    ensures
        links_from("[["@ + rest, body) == links_from(rest, Some(seq![])),
        links_from("[["@ + rest, body) == links_in("[["@ + rest),
{
    reveal_strlit("[[");
    let s = "[["@ + rest;
    assert(s.skip(2) =~= rest);
}

/// `]]` ends the link that was being read: it leads to the page named before its first `|` or
/// `#`, and the links that follow are those of the rest.
pub proof fn law_link_ends(name: Seq<char>, suffix: Seq<char>, rest: Seq<char>)
    requires
        !name.contains('|') && !name.contains('#'),
        suffix.len() == 0 || suffix[0] == '|' || suffix[0] == '#',
    ensures
        links_from("]]"@ + rest, Some(name + suffix)) == seq![name] + links_in(rest),
{
    reveal_strlit("]]");
    let s = "]]"@ + rest;
    assert(s.skip(2) =~= rest);
    law_target(name, suffix);
}

/// `]]` outside a link is passed over.
pub proof fn law_end_without_link(rest: Seq<char>)
    ensures
        links_in("]]"@ + rest) == links_in(rest),
{
    reveal_strlit("]]");
    let s = "]]"@ + rest;
    assert(s.skip(2) =~= rest);
}

/// A character between the brackets of a link is part of its text, unless it opens a tag, or a
/// second one of its kind makes a bracket or a template of it, or the text is now a namespace.
pub proof fn law_character_is_read(c: char, rest: Seq<char>, read: Seq<char>)
    requires
        c != '<',
        c == '[' || c == ']' || c == '{' ==> rest.len() == 0 || rest[0] != c,
        read.push(c) != "File:"@,
        read.push(c) != "Wikipedia:"@,
        read.push(c) != "WP:"@,
        read.push(c) != "User:"@,
    ensures
        links_from(seq![c] + rest, Some(read)) == links_from(rest, Some(read.push(c))),
{
    let s = seq![c] + rest;
    assert(s.skip(1) =~= rest);
    assert(s.len() >= 2 ==> s[1] == rest[0]);
}

/// A character outside a link changes nothing, unless it opens a tag, or a second one of its kind
/// makes a bracket or a template of it.
pub proof fn law_character_outside(c: char, rest: Seq<char>)
    requires
        c != '<',
        c == '[' || c == ']' || c == '{' ==> rest.len() == 0 || rest[0] != c,
    ensures
        links_in(seq![c] + rest) == links_in(rest),
{
    let s = seq![c] + rest;
    assert(s.skip(1) =~= rest);
    assert(s.len() >= 2 ==> s[1] == rest[0]);
}

/// Text of a link is read to its end where it never becomes a namespace.
proof fn lemma_read_part(read: Seq<char>, part: Seq<char>, rest: Seq<char>)
    requires
        is_plain_body(part),
        forall|n: int|
            read.len() < n <= read.len() + part.len() ==> !is_namespace(
                #[trigger] (read + part).take(n),
            ),
    ensures
        links_from(part + rest, Some(read)) == links_from(rest, Some(read + part)),
    decreases part.len(),
{
    let s = part + rest;
    if part.len() == 0 {
        assert(s =~= rest);
        assert(read + part =~= read);
    } else {
        assert(s[0] == part[0]);
        assert(part.contains(part[0]));
        let grown = read.push(part[0]);
        let more = part.skip(1);
        assert((read + part).take(read.len() as int + 1) =~= grown);
        assert(s.skip(1) =~= more + rest);
        assert(grown + more =~= read + part);
        assert forall|i: int| 0 <= i < more.len() implies part.contains(#[trigger] more[i]) by {
            assert(more[i] == part[i + 1]);
        }
        lemma_read_part(grown, more, rest);
    }
}

/// A link into one of the namespaces is given up at the colon: what follows is read as though no
/// link had begun.
pub proof fn law_namespace_is_given_up(name: Seq<char>, rest: Seq<char>)
    requires
        name == "File:"@ || name == "Wikipedia:"@ || name == "WP:"@ || name == "User:"@,
    ensures
        links_from(seq![name.last()] + rest, Some(name.drop_last())) == links_in(rest),
        links_in("[["@ + name + rest) == links_in(rest),
{
    reveal_strlit("File:");
    reveal_strlit("Wikipedia:");
    reveal_strlit("WP:");
    reveal_strlit("User:");
    let part = name.drop_last();
    let tail = seq![name.last()] + rest;
    assert(part.push(name.last()) =~= name);
    assert(tail.skip(1) =~= rest);
    assert(links_from(tail, Some(part)) == links_in(rest));
    let none = Seq::<char>::empty();
    assert forall|n: int| 0 < n <= part.len() implies !is_namespace(
        #[trigger] (none + part).take(n),
    ) by {
        let begun = (none + part).take(n);
        assert(begun.last() == name[n - 1]);
        assert(begun.last() != ':');
    }
    lemma_read_part(none, part, tail);
    law_link_begins_afresh(name + rest, None);
    assert("[["@ + name + rest =~= "[["@ + (name + rest));
    assert(name + rest =~= part + tail);
    assert(none + part =~= part);
}

/// A link anywhere in plain text is found: it leads to the page named before its first `|` or
/// `#`, and the links that follow are those of the rest.
pub proof fn law_link_leads_to_its_page(
    plain: Seq<char>,
    name: Seq<char>,
    suffix: Seq<char>,
    rest: Seq<char>,
)
    requires
        !plain.contains('[') && !plain.contains(']') && !plain.contains('<') && !plain.contains(
            '{',
        ),
        forall|i: int|
            0 <= i < (name + suffix).len() ==> !("[]<{"@).contains(#[trigger] (name + suffix)[i]),
        !name.contains('|') && !name.contains('#'),
        suffix.len() == 0 || suffix[0] == '|' || suffix[0] == '#',
        forall|n: int|
            0 <= n <= (name + suffix).len() ==> (#[trigger] (name + suffix).take(n)) != "File:"@
                && (name + suffix).take(n) != "Wikipedia:"@ && (name + suffix).take(n) != "WP:"@
                && (name + suffix).take(n) != "User:"@,
    ensures
        links_in(plain + "[["@ + name + suffix + "]]"@ + rest) == seq![name] + links_in(rest),
{
    reveal_strlit("[]<{");
    let body = name + suffix;
    let marks = "[]<{"@;
    assert(marks[0] == '[' && marks[1] == ']' && marks[2] == '<' && marks[3] == '{');
    assert(is_plain_body(body));
    let end = "]]"@ + rest;
    let none = Seq::<char>::empty();
    assert(none + body =~= body);
    assert forall|n: int| 0 < n <= body.len() implies !is_namespace(
        #[trigger] (none + body).take(n),
    ) by {
        assert((none + body).take(n) == (name + suffix).take(n));
    }
    lemma_read_part(none, body, end);
    law_link_ends(name, suffix, rest);
    law_link_begins_afresh(body + end, None);
    law_plain_text(plain, "[["@ + (body + end));
    assert(plain + "[["@ + name + suffix + "]]"@ + rest =~= plain + ("[["@ + (body + end)));
}

/// A link leads to the page that its text names before the first `|` or `#`.
pub proof fn law_target(name: Seq<char>, suffix: Seq<char>)
    requires
        !name.contains('|') && !name.contains('#'),
        suffix.len() == 0 || suffix[0] == '|' || suffix[0] == '#',
    ensures
        target(name + suffix) == name,
{
    let body = name + suffix;
    assert forall|i: int| 0 <= i < name.len() implies body[i] != '|' && body[i] != '#' by {
        assert(name.contains(name[i]));
        assert(body[i] == name[i]);
    }
    lemma_target(body, name.len() as int);
    assert(body.take(name.len() as int) =~= name);
}

} // verus!
