//! Character sequences: what a string holds, where one string occurs in another, and how a
//! string is cut at a separator.
use vstd::prelude::*;

verus! {

/// `String::push` appends the character to the string.
pub assume_specification[ String::push ](string: &mut String, ch: char)
    ensures
        final(string)@ == old(string)@.push(ch),
;

/// `String::push_str` appends the characters of `text` to the string.
pub assume_specification[ String::push_str ](string: &mut String, text: &str)
    ensures
        final(string)@ == old(string)@ + text@,
;

/// The contents of a list of strings.
pub open spec fn contents(list: Seq<String>) -> Seq<Seq<char>> {
    list.map_values(|s: String| s@)
}

/// `needle` stands in `hay` from position `at` on.
pub open spec fn occurs_at(hay: Seq<char>, needle: Seq<char>, at: int) -> bool {
    0 <= at && at + needle.len() <= hay.len() && hay.subrange(at, at + needle.len()) == needle
}

/// `needle` stands somewhere in `hay`.
pub open spec fn holds(hay: Seq<char>, needle: Seq<char>) -> bool {
    exists|at: int| occurs_at(hay, needle, at)
}

/// The position of the first `sep` in `s`, or the length of `s` where it holds none.
pub open spec fn first(s: Seq<char>, sep: char) -> nat
    decreases s.len(),
{
    if s.len() == 0 || s[0] == sep {
        0
    } else {
        1 + first(s.drop_first(), sep)
    }
}

/// The characters of `s` before the first `sep`; all of `s` where it holds none.
pub open spec fn before(s: Seq<char>, sep: char) -> Seq<char> {
    s.take(first(s, sep) as int)
}

/// The pieces of `s` between its separators, one more than it holds separators.
pub open spec fn split(s: Seq<char>, sep: char) -> Seq<Seq<char>>
    decreases s.len(),
{
    if first(s, sep) < s.len() {
        seq![before(s, sep)] + split(s.skip(first(s, sep) as int + 1), sep)
    } else {
        seq![s]
    }
}

/// The pieces of `s` that end at a separator, and what stands behind the last separator unless
/// that is nothing.
pub open spec fn terminated(s: Seq<char>, sep: char) -> Seq<Seq<char>> {
    let pieces = split(s, sep);
    if pieces.last().len() == 0 {
        pieces.drop_last()
    } else {
        pieces
    }
}

/// What stands in `s` behind the first `end`; nothing where it holds none.
pub open spec fn behind(s: Seq<char>, end: Seq<char>) -> Seq<char>
    decreases s.len(),
{
    if s.len() == 0 {
        s
    } else if occurs_at(s, end, 0) {
        s.skip(end.len() as int)
    } else {
        behind(s.skip(1), end)
    }
}

/// What stands behind a text is the rest of it.
pub proof fn lemma_behind(s: Seq<char>, end: Seq<char>) -> (n: int)
    ensures
        0 <= n <= s.len(),
        behind(s, end) == s.skip(n),
    decreases s.len(),
{
    if s.len() == 0 {
        assert(s.skip(0) =~= s);
        0
    } else if occurs_at(s, end, 0) {
        end.len() as int
    } else {
        let n = lemma_behind(s.skip(1), end);
        assert(s.skip(1).skip(n) =~= s.skip(n + 1));
        n + 1
    }
}

/// Where `end` first stands, it is behind it that the rest begins.
pub proof fn lemma_behind_at(s: Seq<char>, end: Seq<char>, at: int)
    requires
        end.len() > 0,
        occurs_at(s, end, at),
        forall|i: int| 0 <= i < at ==> !occurs_at(s, end, i),
    ensures
        behind(s, end) == s.skip(at + end.len()),
    decreases s.len(),
{
    if at > 0 {
        let rest = s.skip(1);
        assert(!occurs_at(s, end, 0));
        assert forall|i: int| 0 <= i < at - 1 implies !occurs_at(rest, end, i) by {
            lemma_occurs_later(s, end, 1, i);
            assert(!occurs_at(s, end, i + 1));
        }
        lemma_occurs_later(s, end, 1, at - 1);
        lemma_behind_at(rest, end, at - 1);
        assert(rest.skip(at - 1 + end.len()) =~= s.skip(at + end.len()));
    }
}

/// Nothing stands behind a text that does not occur.
pub proof fn lemma_behind_none(s: Seq<char>, end: Seq<char>)
    requires
        !holds(s, end),
    ensures
        behind(s, end).len() == 0,
    decreases s.len(),
{
    if s.len() != 0 {
        assert(!occurs_at(s, end, 0));
        assert forall|i: int| !occurs_at(s.skip(1), end, i) by {
            if occurs_at(s.skip(1), end, i) {
                lemma_occurs_later(s, end, 1, i);
                assert(occurs_at(s, end, i + 1));
            }
        }
        lemma_behind_none(s.skip(1), end);
    }
}

/// What stands in the rest of a text stands in the text, so much further on.
pub proof fn lemma_occurs_later(s: Seq<char>, word: Seq<char>, n: int, at: int)
    requires
        0 <= n <= s.len(),
        0 <= at,
    ensures
        occurs_at(s.skip(n), word, at) == occurs_at(s, word, n + at),
{
    if at + word.len() <= s.skip(n).len() {
        assert(s.skip(n).subrange(at, at + word.len()) =~= s.subrange(
            n + at,
            n + at + word.len(),
        ));
    }
}

/// What `first` means, position by position.
pub proof fn lemma_first(s: Seq<char>, sep: char)
    ensures
        first(s, sep) <= s.len(),
        forall|i: int| 0 <= i < first(s, sep) ==> s[i] != sep,
        first(s, sep) < s.len() ==> s[first(s, sep) as int] == sep,
    decreases s.len(),
{
    if s.len() != 0 && s[0] != sep {
        lemma_first(s.drop_first(), sep);
        assert forall|i: int| 0 <= i < first(s, sep) implies s[i] != sep by {
            if i > 0 {
                assert(s[i] == s.drop_first()[i - 1]);
            }
        }
    }
}

/// The first position without a separator before it, with one at it or the end, is `first`.
pub proof fn lemma_first_at(s: Seq<char>, sep: char, at: int)
    requires
        0 <= at <= s.len(),
        forall|i: int| 0 <= i < at ==> s[i] != sep,
        at == s.len() || s[at] == sep,
    ensures
        first(s, sep) == at,
{
    lemma_first(s, sep);
}

/// The characters of a string, one by one.
pub fn chars_of(text: &str) -> (chars: Vec<char>)
    ensures
        chars@ == text@,
{
    let mut chars: Vec<char> = Vec::new();
    for c in it: text.chars()
        invariant
            chars@ == it.seq().take(it.index() as int),
            it.seq() == text@,
    {
        chars.push(c);
    }
    chars
}

/// The string that holds the characters `chars[from..to]`.
pub fn string_of(chars: &Vec<char>, from: usize, to: usize) -> (text: String)
    requires
        from <= to <= chars@.len(),
    ensures
        text@ == chars@.subrange(from as int, to as int),
{
    let mut text = String::new();
    let mut i: usize = from;
    while i < to
        invariant
            from <= i <= to <= chars@.len(),
            text@ == chars@.subrange(from as int, i as int),
        decreases to - i,
    {
        text.push(chars[i]);
        i += 1;
    }
    text
}

/// Whether `needle` stands in `hay` from position `at` on.
pub fn found_at(hay: &Vec<char>, needle: &Vec<char>, at: usize) -> (found: bool)
    ensures
        found == occurs_at(hay@, needle@, at as int),
{
    if at > hay.len() || needle.len() > hay.len() - at {
        return false;
    }
    let mut i: usize = 0;
    while i < needle.len()
        invariant
            i <= needle@.len(),
            at + needle@.len() <= hay.len(),
            forall|j: int| 0 <= j < i ==> hay@[at + j] == needle@[j],
        decreases needle@.len() - i,
    {
        if hay[at + i] != needle[i] {
            assert(hay@.subrange(at as int, at + needle@.len())[i as int] != needle@[i as int]);
            return false;
        }
        i += 1;
    }
    assert(hay@.subrange(at as int, at + needle@.len()) =~= needle@);
    true
}

/// Whether `needle` stands somewhere in `hay`.
pub fn contains(hay: &Vec<char>, needle: &str) -> (found: bool)
    ensures
        found == holds(hay@, needle@),
{
    let word = chars_of(needle);
    if word.len() > hay.len() {
        return false;
    }
    let last: usize = hay.len() - word.len();
    let mut at: usize = 0;
    loop
        invariant
            word@ == needle@,
            at <= last,
            last + needle@.len() == hay@.len(),
            forall|i: int| 0 <= i < at ==> !occurs_at(hay@, needle@, i),
        decreases last - at,
    {
        if found_at(hay, &word, at) {
            return true;
        }
        if at == last {
            return false;
        }
        at += 1;
    }
}

/// The position behind the first `end` in `chars[from..]`; the end where it holds none.
pub fn find_behind(chars: &Vec<char>, from: usize, end: &Vec<char>) -> (to: usize)
    requires
        from <= chars@.len(),
    ensures
        from <= to <= chars@.len(),
        chars@.skip(to as int) == behind(chars@.skip(from as int), end@),
{
    let mut at: usize = from;
    while at < chars.len()
        invariant
            from <= at <= chars@.len(),
            behind(chars@.skip(at as int), end@) == behind(chars@.skip(from as int), end@),
        decreases chars@.len() - at,
    {
        let ghost rest = chars@.skip(at as int);
        proof {
            lemma_occurs_later(chars@, end@, at as int, 0);
        }
        if found_at(chars, end, at) {
            assert(rest.skip(end@.len() as int) =~= chars@.skip(at + end@.len()));
            return at + end.len();
        }
        assert(rest.skip(1) =~= chars@.skip(at + 1));
        at += 1;
    }
    at
}

/// The pieces of `chars` between its separators.
pub fn split_chars(chars: &Vec<char>, sep: char) -> (pieces: Vec<String>)
    ensures
        contents(pieces@) == split(chars@, sep),
{
    let mut pieces: Vec<String> = Vec::new();
    let mut start: usize = 0;
    let mut i: usize = 0;
    assert(chars@.skip(0) =~= chars@);
    assert(contents(pieces@) + split(chars@, sep) =~= split(chars@, sep));
    while i < chars.len()
        invariant
            start <= i <= chars@.len(),
            forall|j: int| start <= j < i ==> chars@[j] != sep,
            contents(pieces@) + split(chars@.skip(start as int), sep) == split(chars@, sep),
        decreases chars@.len() - i,
    {
        if chars[i] == sep {
            let ghost rest = chars@.skip(start as int);
            let ghost earlier = pieces@;
            let piece = string_of(chars, start, i);
            pieces.push(piece);
            proof {
                assert forall|j: int| 0 <= j < i - start implies rest[j] != sep by {
                    assert(rest[j] == chars@[start + j]);
                }
                lemma_first_at(rest, sep, i - start);
                assert(rest.skip(first(rest, sep) as int + 1) =~= chars@.skip(i + 1));
                assert(before(rest, sep) =~= piece@);
                assert(contents(pieces@) =~= contents(earlier).push(piece@));
                assert(contents(earlier) + (seq![piece@] + split(chars@.skip(i + 1), sep))
                    =~= contents(earlier).push(piece@) + split(chars@.skip(i + 1), sep));
            }
            start = i + 1;
        }
        i += 1;
    }
    let ghost rest = chars@.skip(start as int);
    let ghost earlier = pieces@;
    let piece = string_of(chars, start, chars.len());
    pieces.push(piece);
    proof {
        assert forall|j: int| 0 <= j < rest.len() implies rest[j] != sep by {
            assert(rest[j] == chars@[start + j]);
        }
        lemma_first_at(rest, sep, rest.len() as int);
        assert(piece@ =~= rest);
        assert(contents(pieces@) =~= contents(earlier).push(piece@));
        assert(contents(earlier) + seq![rest] =~= contents(earlier).push(rest));
    }
    pieces
}

/// The contents of a list of strings are theirs, one for each, in order.
pub proof fn law_contents(list: Seq<String>)
    ensures
        contents(list).len() == list.len(),
        forall|i: int| 0 <= i < list.len() ==> #[trigger] contents(list)[i] == list[i]@,
{
}

/// A word stands in a text behind whatever comes before it, whatever follows.
pub proof fn law_word_is_found(head: Seq<char>, word: Seq<char>, tail: Seq<char>)
    ensures
        occurs_at(head + word + tail, word, head.len() as int),
        holds(head + word + tail, word),
{
    let text = head + word + tail;
    assert(text.subrange(head.len() as int, head.len() as int + word.len()) =~= word);
    assert(occurs_at(text, word, head.len() as int));
}

/// A text in which a word stands is what comes before it, the word, and what follows.
pub proof fn law_found_word_is_there(text: Seq<char>, word: Seq<char>, at: int)
    requires
        occurs_at(text, word, at),
    ensures
        0 <= at <= text.len() - word.len(),
        text == text.take(at) + word + text.skip(at + word.len()),
{
    assert(text =~= text.take(at) + text.subrange(at, at + word.len()) + text.skip(
        at + word.len(),
    ));
}

/// A text that holds a word has it between what comes before it and what follows.
pub proof fn law_held_word_is_there(text: Seq<char>, word: Seq<char>)
    requires
        holds(text, word),
    ensures
        exists|head: Seq<char>, tail: Seq<char>| text == #[trigger] (head + word + tail),
{
    let at = choose|at: int| occurs_at(text, word, at);
    law_found_word_is_there(text, word, at);
}

/// What stands before a separator: everything up to the first one, or all of a text without.
pub proof fn law_before(head: Seq<char>, sep: char, rest: Seq<char>)
    requires
        !head.contains(sep),
    ensures
        before(head, sep) == head,
        before(head + seq![sep] + rest, sep) == head,
        first(head, sep) == head.len(),
        first(head + seq![sep] + rest, sep) == head.len(),
{
    let s = head + seq![sep] + rest;
    assert forall|i: int| 0 <= i < head.len() implies head[i] != sep && s[i] != sep by {
        assert(head.contains(head[i]));
        assert(s[i] == head[i]);
    }
    lemma_first_at(head, sep, head.len() as int);
    lemma_first_at(s, sep, head.len() as int);
    assert(s.take(head.len() as int) =~= head);
}

/// What stands behind the first end of a text: all that follows it.
pub proof fn law_behind(head: Seq<char>, end: Seq<char>, rest: Seq<char>)
    requires
        end.len() > 0,
        forall|i: int|
            0 <= i < head.len() ==> #[trigger] (head + end).subrange(i, i + end.len()) != end,
    ensures
        behind(head + end + rest, end) == rest,
{
    let s = head + end + rest;
    let at = head.len() as int;
    assert(s.subrange(at, at + end.len()) =~= end);
    assert forall|i: int| 0 <= i < at implies !occurs_at(s, end, i) by {
        assert(s.subrange(i, i + end.len()) =~= (head + end).subrange(i, i + end.len()));
    }
    lemma_behind_at(s, end, at);
    assert(s.skip(at + end.len()) =~= rest);
}

/// Nothing stands behind an end that a text does not have.
pub proof fn law_behind_nothing(s: Seq<char>, end: Seq<char>)
    requires
        forall|i: int|
            0 <= i <= s.len() - end.len() ==> #[trigger] s.subrange(i, i + end.len()) != end,
    ensures
        behind(s, end) == Seq::<char>::empty(),
{
    lemma_behind_none(s, end);
}

} // verus!
