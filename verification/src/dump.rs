//! The first pass: from the events of the dump to the rows of the tables and the adjacency list.
use vstd::prelude::*;
use vstd::utf8::{encode_utf8, encode_utf8_decode_utf8};

use crate::layout::{compute_byte_offset, compute_length, node_size};
use crate::layout::{FILE_HEADER_SIZE, LINK_SIZE, NODE_HEADER_SIZE};
use crate::links::{extract_links_from_text, links_in};
use crate::markup::{event_text, read_text};
use crate::models::{LookupEntry, LookupRow, RedirectEntry, RedirectRow};
use crate::page::{excluded, is_excluded};
use crate::text::{chars_of, contains, contents, holds};

verus! {

/// An event of the XML reader. Names and texts are the bytes of the dump.
pub enum XmlEvent {
    Start(Vec<u8>),
    End(Vec<u8>),
    Empty(Vec<u8>),
    Text(Vec<u8>),
    Eof,
    /// An event of another kind: a comment, a declaration and the like.
    Other,
    /// What the reader could not read.
    Error,
}

/// Why the pass cannot go on.
#[derive(Debug, Clone, Copy)]
pub enum Failure {
    /// The dump cannot be read between two pages.
    BadXml,
    /// A title or a text is no UTF-8, or holds an escape that is none.
    BadText,
    /// The place or the size of a page is too large for the lookup table.
    TooLarge,
}

/// What is to be done after an event.
#[derive(Debug)]
pub enum Action {
    /// Add a row to the redirect table.
    Redirect(RedirectEntry),
    /// Report a redirect page without a link, which is skipped.
    Skip(String),
    /// Add a row to the lookup table, and a line with the links to the adjacency list.
    Article { entry: LookupEntry, links: Vec<String> },
    /// The dump has ended, after so many articles.
    Finish(i32),
    /// The pass fails.
    Abort(Failure),
}

/// What is to be done after an event, by value.
pub enum Outcome {
    Redirect(RedirectRow),
    Skip(Seq<char>),
    Article { row: LookupRow, links: Seq<Seq<char>> },
    Finish(i32),
    Abort(Failure),
}

impl View for Action {
    type V = Outcome;

    open spec fn view(&self) -> Outcome {
        match self {
            Action::Redirect(entry) => Outcome::Redirect(entry@),
            Action::Skip(title) => Outcome::Skip(title@),
            Action::Article { entry, links } => Outcome::Article {
                row: entry@,
                links: contents(links@),
            },
            Action::Finish(count) => Outcome::Finish(*count),
            Action::Abort(failure) => Outcome::Abort(*failure),
        }
    }
}

/// What has been read of a page.
pub struct Draft {
    pub title: String,
    pub text: String,
    pub is_redirect: bool,
}

/// What has been read of a page, by value.
pub struct DraftState {
    pub title: Seq<char>,
    pub text: Seq<char>,
    pub is_redirect: bool,
}

impl View for Draft {
    type V = DraftState;

    open spec fn view(&self) -> DraftState {
        DraftState { title: self.title@, text: self.text@, is_redirect: self.is_redirect }
    }
}

/// Where in the dump the pass stands.
pub enum Stage {
    /// Between two pages.
    Outside,
    /// In a page.
    Page(Draft),
    /// In a page, right behind the start of its title.
    Title(Draft),
    /// In a page, right behind the start of its text.
    Text(Draft),
    /// Behind the end of the dump, or behind a failure.
    Finished,
}

/// Where in the dump the pass stands, by value.
pub enum StageState {
    Outside,
    Page(DraftState),
    Title(DraftState),
    Text(DraftState),
    Finished,
}

impl View for Stage {
    type V = StageState;

    open spec fn view(&self) -> StageState {
        match self {
            Stage::Outside => StageState::Outside,
            Stage::Page(draft) => StageState::Page(draft@),
            Stage::Title(draft) => StageState::Title(draft@),
            Stage::Text(draft) => StageState::Text(draft@),
            Stage::Finished => StageState::Finished,
        }
    }
}

/// The first pass over a dump.
pub struct Pass {
    stage: Stage,
    prev_offset: usize,
    prev_length: usize,
    count: i32,
}

/// The first pass over a dump, by value.
pub struct PassState {
    pub stage: StageState,
    /// The place and the size in the graph file of the last article; before the first article,
    /// the size of the file header and nothing.
    pub prev_offset: int,
    pub prev_length: int,
    /// The articles so far.
    pub count: int,
}

impl View for Pass {
    type V = PassState;

    closed spec fn view(&self) -> PassState {
        PassState {
            stage: self.stage@,
            prev_offset: self.prev_offset as int,
            prev_length: self.prev_length as int,
            count: self.count as int,
        }
    }
}

impl PassState {
    /// The last article has a place and a size that the lookup table can hold, and the articles
    /// so far fill the file up to its end with no less than a header each.
    pub open spec fn wf(self) -> bool {
        &&& 0 <= self.prev_offset <= i32::MAX
        &&& 0 <= self.prev_length <= i32::MAX
        &&& 0 <= self.count
        &&& FILE_HEADER_SIZE + NODE_HEADER_SIZE * self.count <= self.prev_offset + self.prev_length
    }

    /// The same pass at another stage.
    pub open spec fn at(self, stage: StageState) -> PassState {
        PassState { stage, ..self }
    }
}

/// The pass before the first event.
pub open spec fn start() -> PassState {
    PassState {
        stage: StageState::Outside,
        prev_offset: FILE_HEADER_SIZE as int,
        prev_length: 0,
        count: 0,
    }
}

/// A name is that of the given tag.
pub open spec fn is_tag(name: Seq<u8>, tag: Seq<char>) -> bool {
    name == encode_utf8(tag)
}

/// A page of which nothing has been read.
pub open spec fn blank() -> DraftState {
    DraftState { title: seq![], text: seq![], is_redirect: false }
}

/// An article takes its place in the graph file: right behind the last one.
pub open spec fn place_article(
    pass: PassState,
    title: Seq<char>,
    links: Seq<Seq<char>>,
) -> (PassState, Option<Outcome>) {
    let offset = pass.prev_offset + pass.prev_length;
    let size = node_size(links.len() as int);
    if offset > i32::MAX || size > i32::MAX {
        (pass.at(StageState::Finished), Some(Outcome::Abort(Failure::TooLarge)))
    } else {
        (
            PassState {
                stage: StageState::Outside,
                prev_offset: offset,
                prev_length: size,
                count: pass.count + 1,
            },
            Some(
                Outcome::Article {
                    row: LookupRow {
                        title,
                        byteoffset: offset as i32,
                        length: (links.len() * LINK_SIZE) as i32,
                    },
                    links,
                },
            ),
        )
    }
}

/// The end of a page: it is left out, or a redirect, or an article.
pub open spec fn end_page(pass: PassState, draft: DraftState) -> (PassState, Option<Outcome>) {
    let links = links_in(draft.text);
    if is_excluded(draft.title, draft.text) {
        (pass.at(StageState::Outside), None)
    } else if !draft.is_redirect {
        place_article(pass, draft.title, links)
    } else if links.len() == 0 {
        (pass.at(StageState::Outside), Some(Outcome::Skip(draft.title)))
    } else {
        (
            pass.at(StageState::Outside),
            Some(
                Outcome::Redirect(
                    RedirectRow { redirect_from: draft.title, redirect_to: links[0] },
                ),
            ),
        )
    }
}

/// A text, decoded if it could be: that of the title or of the page right behind their tags, of
/// no account elsewhere. A title of the project's own namespace ends the page without it.
pub open spec fn take_text(pass: PassState, text: Option<Seq<char>>) -> (
    PassState,
    Option<Outcome>,
) {
    let failed = (pass.at(StageState::Finished), Some(Outcome::Abort(Failure::BadText)));
    match pass.stage {
        StageState::Title(draft) => match text {
            None => failed,
            Some(title) => if holds(title, "Wikipedia:"@) {
                end_page(pass, draft)
            } else {
                (pass.at(StageState::Page(DraftState { title, ..draft })), None)
            },
        },
        StageState::Text(draft) => match text {
            None => failed,
            Some(text) => (pass.at(StageState::Page(DraftState { text, ..draft })), None),
        },
        _ => (pass, None),
    }
}

/// One event of the dump.
pub open spec fn step(pass: PassState, event: XmlEvent) -> (PassState, Option<Outcome>) {
    match (pass.stage, event) {
        (StageState::Outside, XmlEvent::Error) => (
            pass.at(StageState::Finished),
            Some(Outcome::Abort(Failure::BadXml)),
        ),
        (StageState::Outside, XmlEvent::Eof) => (
            pass.at(StageState::Finished),
            Some(Outcome::Finish(pass.count as i32)),
        ),
        (StageState::Outside, XmlEvent::Start(name)) => if is_tag(name@, "page"@) {
            (pass.at(StageState::Page(blank())), None)
        } else {
            (pass, None)
        },
        (StageState::Page(draft), XmlEvent::Start(name)) => if is_tag(name@, "title"@) {
            (pass.at(StageState::Title(draft)), None)
        } else if is_tag(name@, "text"@) {
            (pass.at(StageState::Text(draft)), None)
        } else {
            (pass, None)
        },
        (StageState::Page(draft), XmlEvent::End(name)) => if is_tag(name@, "page"@) {
            end_page(pass, draft)
        } else {
            (pass, None)
        },
        (StageState::Page(draft), XmlEvent::Eof) => end_page(pass, draft),
        (StageState::Page(draft), XmlEvent::Empty(name)) => if is_tag(name@, "redirect"@) {
            (pass.at(StageState::Page(DraftState { is_redirect: true, ..draft })), None)
        } else {
            (pass, None)
        },
        (_, XmlEvent::Text(raw)) => take_text(pass, event_text(raw@)),
        (StageState::Title(draft), _) => (pass.at(StageState::Page(draft)), None),
        (StageState::Text(draft), _) => (pass.at(StageState::Page(draft)), None),
        _ => (pass, None),
    }
}

/// What is to be done after an event, if anything, by value.
pub open spec fn outcome_of(action: Option<Action>) -> Option<Outcome> {
    match action {
        Some(action) => Some(action@),
        None => None,
    }
}

/// Whether a name is that of the given tag.
fn has_name(name: &Vec<u8>, tag: &str) -> (equal: bool)
    ensures
        equal == is_tag(name@, tag@),
{
    let bytes = tag.as_bytes();
    if name.len() != bytes.len() {
        return false;
    }
    let mut i: usize = 0;
    while i < name.len()
        invariant
            i <= name@.len() == bytes@.len(),
            bytes@ == encode_utf8(tag@),
            forall|j: int| 0 <= j < i ==> name@[j] == bytes@[j],
        decreases name@.len() - i,
    {
        if name[i] != bytes[i] {
            return false;
        }
        i += 1;
    }
    assert(name@ =~= bytes@);
    true
}

impl Pass {
    /// A pass at the start of a dump.
    pub fn new() -> (pass: Pass)
        ensures
            pass@ == start(),
            pass@.wf(),
    {
        Pass { stage: Stage::Outside, prev_offset: FILE_HEADER_SIZE, prev_length: 0, count: 0 }
    }

    /// The same pass at another stage.
    fn at(self, stage: Stage) -> (pass: Pass)
        ensures
            pass@ == self@.at(stage@),
    {
        Pass { stage, ..self }
    }

    /// Places an article right behind the last one.
    fn place_article(self, title: String, links: Vec<String>) -> (next: (Pass, Option<Action>))
        requires
            self@.wf(),
        ensures
            (next.0@, outcome_of(next.1)) == place_article(self@, title@, contents(links@)),
            next.0@.wf(),
    {
        let offset: usize = compute_byte_offset(self.prev_offset, self.prev_length);
        let num_links: usize = links.len();
        if offset > i32::MAX as usize || num_links > (i32::MAX as usize - NODE_HEADER_SIZE)
            / LINK_SIZE {
            return (self.at(Stage::Finished), Some(Action::Abort(Failure::TooLarge)));
        }
        let length: usize = compute_length(num_links);
        let entry = LookupEntry {
            title,
            byteoffset: offset as i32,
            length: (num_links * LINK_SIZE) as i32,
        };
        let next = Pass {
            stage: Stage::Outside,
            prev_offset: offset,
            prev_length: length,
            count: self.count + 1,
        };
        (next, Some(Action::Article { entry, links }))
    }

    /// Ends a page.
    fn end_page(self, draft: Draft) -> (next: (Pass, Option<Action>))
        requires
            self@.wf(),
        ensures
            (next.0@, outcome_of(next.1)) == end_page(self@, draft@),
            next.0@.wf(),
    {
        if excluded(draft.title.as_str(), draft.text.as_str()) {
            return (self.at(Stage::Outside), None);
        }
        let links = extract_links_from_text(draft.text.as_str());
        if !draft.is_redirect {
            return self.place_article(draft.title, links);
        }
        if links.len() == 0 {
            return (self.at(Stage::Outside), Some(Action::Skip(draft.title)));
        }
        let entry = RedirectEntry {
            redirect_from: draft.title,
            redirect_to: links[0].clone(),
        };
        (self.at(Stage::Outside), Some(Action::Redirect(entry)))
    }

    /// Takes the text of an event: nothing stands for one that could not be decoded.
    pub fn take_text(self, text: Option<String>) -> (next: (Pass, Option<Action>))
        requires
            self@.wf(),
        ensures
            (next.0@, outcome_of(next.1)) == take_text(
                self@,
                match text {
                    Some(text) => Some(text@),
                    None => None,
                },
            ),
            next.0@.wf(),
    {
        let Pass { stage, prev_offset, prev_length, count } = self;
        let idle = Pass { stage: Stage::Outside, prev_offset, prev_length, count };
        match stage {
            Stage::Title(draft) => match text {
                None => (idle.at(Stage::Finished), Some(Action::Abort(Failure::BadText))),
                Some(title) => {
                    let chars = chars_of(title.as_str());
                    if contains(&chars, "Wikipedia:") {
                        idle.end_page(draft)
                    } else {
                        (idle.at(Stage::Page(Draft { title, ..draft })), None)
                    }
                },
            },
            Stage::Text(draft) => match text {
                None => (idle.at(Stage::Finished), Some(Action::Abort(Failure::BadText))),
                Some(text) => (idle.at(Stage::Page(Draft { text, ..draft })), None),
            },
            stage => (idle.at(stage), None),
        }
    }

    /// Takes one event of the dump.
    pub fn step(self, event: &XmlEvent) -> (next: (Pass, Option<Action>))
        requires
            self@.wf(),
        ensures
            (next.0@, outcome_of(next.1)) == step(self@, *event),
            next.0@.wf(),
    {
        if let XmlEvent::Text(raw) = event {
            return match self.stage {
                Stage::Title(_) | Stage::Text(_) => {
                    let text = read_text(raw);
                    self.take_text(text)
                },
                _ => (self, None),
            };
        }
        let Pass { stage, prev_offset, prev_length, count } = self;
        let idle = Pass { stage: Stage::Outside, prev_offset, prev_length, count };
        match stage {
            Stage::Outside => match event {
                XmlEvent::Error => (
                    idle.at(Stage::Finished),
                    Some(Action::Abort(Failure::BadXml)),
                ),
                XmlEvent::Eof => (idle.at(Stage::Finished), Some(Action::Finish(count))),
                XmlEvent::Start(name) => if has_name(name, "page") {
                    let draft = Draft {
                        title: String::new(),
                        text: String::new(),
                        is_redirect: false,
                    };
                    (idle.at(Stage::Page(draft)), None)
                } else {
                    (idle, None)
                },
                _ => (idle, None),
            },
            Stage::Page(draft) => match event {
                XmlEvent::Start(name) => if has_name(name, "title") {
                    (idle.at(Stage::Title(draft)), None)
                } else if has_name(name, "text") {
                    (idle.at(Stage::Text(draft)), None)
                } else {
                    (idle.at(Stage::Page(draft)), None)
                },
                XmlEvent::End(name) => if has_name(name, "page") {
                    idle.end_page(draft)
                } else {
                    (idle.at(Stage::Page(draft)), None)
                },
                XmlEvent::Eof => idle.end_page(draft),
                XmlEvent::Empty(name) => if has_name(name, "redirect") {
                    (idle.at(Stage::Page(Draft { is_redirect: true, ..draft })), None)
                } else {
                    (idle.at(Stage::Page(draft)), None)
                },
                _ => (idle.at(Stage::Page(draft)), None),
            },
            Stage::Title(draft) | Stage::Text(draft) => (idle.at(Stage::Page(draft)), None),
            Stage::Finished => (idle.at(Stage::Finished), None),
        }
    }
}

/// What is to be done after several events, in order, and where the pass then stands.
pub open spec fn run(pass: PassState, events: Seq<XmlEvent>) -> (PassState, Seq<Outcome>)
    decreases events.len(),
{
    if events.len() == 0 {
        (pass, seq![])
    } else {
        let before = run(pass, events.drop_last());
        let next = step(before.0, events.last());
        match next.1 {
            Some(outcome) => (next.0, before.1.push(outcome)),
            None => (next.0, before.1),
        }
    }
}

/// What a list of actions says, by value.
pub open spec fn outcomes_of(actions: Seq<Action>) -> Seq<Outcome> {
    actions.map_values(|a: Action| a@)
}

/// Takes the events of a whole dump.
pub fn run_pass(events: &Vec<XmlEvent>) -> (done: (Pass, Vec<Action>))
    ensures
        (done.0@, outcomes_of(done.1@)) == run(start(), events@),
        done.0@.wf(),
{
    let mut pass = Pass::new();
    let mut actions: Vec<Action> = Vec::new();
    let mut i: usize = 0;
    assert(outcomes_of(actions@) =~= seq![]);
    assert(events@.take(0) =~= seq![]);
    while i < events.len()
        invariant
            i <= events@.len(),
            pass@.wf(),
            (pass@, outcomes_of(actions@)) == run(start(), events@.take(i as int)),
        decreases events@.len() - i,
    {
        let ghost done = outcomes_of(actions@);
        assert(events@.take(i + 1).drop_last() =~= events@.take(i as int));
        let (next, action) = pass.step(&events[i]);
        pass = next;
        if let Some(action) = action {
            actions.push(action);
            assert(outcomes_of(actions@) =~= done.push(action@));
        }
        i += 1;
    }
    assert(events@.take(i as int) =~= events@);
    (pass, actions)
}

/// A name is that of a tag where it has the same bytes, no more, no fewer and no others.
pub proof fn law_tag_names(name: Seq<u8>, tag: Seq<char>)
    ensures
        is_tag(name, tag) <==> name.len() == encode_utf8(tag).len() && forall|i: int|
            0 <= i < name.len() ==> #[trigger] name[i] == encode_utf8(tag)[i],
{
    if name.len() == encode_utf8(tag).len() && forall|i: int|
        0 <= i < name.len() ==> #[trigger] name[i] == encode_utf8(tag)[i] {
        assert(name =~= encode_utf8(tag));
    }
}

/// Before the first event the pass stands outside any page, the file ends behind the sixteen bytes
/// of its header, and there are no articles.
pub proof fn law_start()
    ensures
        start().stage is Outside,
        start().prev_offset + start().prev_length == 16,
        start().prev_offset == 16,
        start().count == 0,
{
}

/// Between two pages every event but the start of a page, the end of the dump and an error leaves
/// the pass as it is.
pub proof fn law_nothing_between_pages(pass: PassState, event: XmlEvent)
    requires
        pass.stage is Outside,
        !(event is Eof),
        !(event is Error),
        event matches XmlEvent::Start(name) ==> name@ != encode_utf8("page"@),
    ensures
        step(pass, event) == (pass, None::<Outcome>),
{
}

/// A page begins with nothing read of it, and takes no place yet.
pub proof fn law_page_begins(pass: PassState, name: Vec<u8>)
    requires
        pass.stage is Outside,
        name@ == encode_utf8("page"@),
    ensures
        step(pass, XmlEvent::Start(name)).1 is None,
        step(pass, XmlEvent::Start(name)).0.stage matches StageState::Page(draft)
            && draft.title.len() == 0 && draft.text.len() == 0 && !draft.is_redirect,
        step(pass, XmlEvent::Start(name)).0.prev_offset == pass.prev_offset,
        step(pass, XmlEvent::Start(name)).0.prev_length == pass.prev_length,
        step(pass, XmlEvent::Start(name)).0.count == pass.count,
{
}

/// The end of the dump between two pages is reported with the number of the articles so far, and
/// an event that could not be read as a failure. Either ends the pass.
pub proof fn law_pass_ends(pass: PassState)
    requires
        pass.stage is Outside,
        0 <= pass.count <= i32::MAX,
    ensures
        step(pass, XmlEvent::Eof).1 matches Some(Outcome::Finish(count)) && count == pass.count,
        step(pass, XmlEvent::Eof).0.stage is Finished,
        step(pass, XmlEvent::Error).1 == Some(Outcome::Abort(Failure::BadXml)),
        step(pass, XmlEvent::Error).0.stage is Finished,
{
}

/// Behind the end of the pass no event does anything.
pub proof fn law_nothing_behind_the_end(pass: PassState, event: XmlEvent)
    requires
        pass.stage is Finished,
    ensures
        step(pass, event) == (pass, None::<Outcome>),
{
}

/// In a page, the tags of its title and of its text are waited at, and the redirect mark is kept;
/// nothing that was read before is lost, and nothing is done yet.
pub proof fn law_tags_of_a_page(pass: PassState, draft: DraftState, name: Vec<u8>)
    requires
        pass.stage == StageState::Page(draft),
    ensures
        name@ == encode_utf8("title"@) ==> step(pass, XmlEvent::Start(name)) == (
            PassState { stage: StageState::Title(draft), ..pass },
            None::<Outcome>,
        ),
        name@ == encode_utf8("text"@) ==> step(pass, XmlEvent::Start(name)) == (
            PassState { stage: StageState::Text(draft), ..pass },
            None::<Outcome>,
        ),
        name@ == encode_utf8("redirect"@) ==> step(pass, XmlEvent::Empty(name)) == (
            PassState {
                stage: StageState::Page(
                    DraftState { title: draft.title, text: draft.text, is_redirect: true },
                ),
                ..pass
            },
            None::<Outcome>,
        ),
{
    reveal_strlit("title");
    reveal_strlit("text");
    if name@ == encode_utf8("text"@) && name@ == encode_utf8("title"@) {
        encode_utf8_decode_utf8("text"@);
        encode_utf8_decode_utf8("title"@);
        assert("text"@.len() != "title"@.len());
    }
}

/// In a page, an event that is none of its tags, nor its end, leaves the pass as it is.
pub proof fn law_nothing_else_in_a_page(pass: PassState, event: XmlEvent)
    requires
        pass.stage is Page,
        !(event is Eof),
        event matches XmlEvent::Start(name) ==> name@ != encode_utf8("title"@) && name@
            != encode_utf8("text"@),
        event matches XmlEvent::End(name) ==> name@ != encode_utf8("page"@),
        event matches XmlEvent::Empty(name) ==> name@ != encode_utf8("redirect"@),
    ensures
        step(pass, event) == (pass, None::<Outcome>),
{
}

/// The end of the page's tag and the end of the dump end a page alike, with what was read of it.
pub proof fn law_ends_of_a_page(pass: PassState, draft: DraftState, name: Vec<u8>)
    requires
        pass.stage == StageState::Page(draft),
        name@ == encode_utf8("page"@),
    ensures
        step(pass, XmlEvent::End(name)) == step(pass, XmlEvent::Eof),
        step(pass, XmlEvent::Eof) == end_page(pass, draft),
{
}

/// The text right behind the tag of the title becomes the title of the page, in place of any that
/// was read before; all else stays. A title of the project's own namespace ends the page instead,
/// as the end of the dump would have ended it before the tag.
pub proof fn law_title_is_taken(pass: PassState, draft: DraftState, title: Seq<char>)
    requires
        pass.stage == StageState::Title(draft),
    ensures
        ({
            let (next, outcome) = take_text(pass, Some(title));
            &&& !holds(title, "Wikipedia:"@) ==> outcome is None && next.prev_offset
                == pass.prev_offset && next.prev_length == pass.prev_length && next.count
                == pass.count && (next.stage matches StageState::Page(read) && read.title == title
                && read.text == draft.text && read.is_redirect == draft.is_redirect)
            &&& holds(title, "Wikipedia:"@) ==> (next, outcome) == step(
                PassState { stage: StageState::Page(draft), ..pass },
                XmlEvent::Eof,
            )
        }),
{
}

/// The text right behind the tag of the text becomes the text of the page, in place of any that
/// was read before; all else stays.
pub proof fn law_text_is_taken(pass: PassState, draft: DraftState, text: Seq<char>)
    requires
        pass.stage == StageState::Text(draft),
    ensures
        ({
            let (next, outcome) = take_text(pass, Some(text));
            &&& outcome is None
            &&& next.prev_offset == pass.prev_offset
            &&& next.prev_length == pass.prev_length
            &&& next.count == pass.count
            &&& next.stage matches StageState::Page(read) && read.text == text && read.title
                == draft.title && read.is_redirect == draft.is_redirect
        }),
{
}

/// A title or a text that cannot be decoded is a failure, and ends the pass.
pub proof fn law_bad_text_is_a_failure(pass: PassState)
    requires
        pass.stage is Title || pass.stage is Text,
    ensures
        take_text(pass, None).1 == Some(Outcome::Abort(Failure::BadText)),
        take_text(pass, None).0.stage is Finished,
        take_text(pass, None).0.count == pass.count,
{
}

/// A text elsewhere is of no account, decoded or not.
pub proof fn law_other_texts(pass: PassState, text: Option<Seq<char>>)
    requires
        !(pass.stage is Title),
        !(pass.stage is Text),
    ensures
        take_text(pass, text) == (pass, None::<Outcome>),
{
}

/// The text of an event is taken as what its bytes stand for.
pub proof fn law_decoded_text(pass: PassState, raw: Vec<u8>)
    ensures
        step(pass, XmlEvent::Text(raw)) == take_text(pass, event_text(raw@)),
{
}

/// Right behind the tag of the title or of the text, an event that is no text is of no account,
/// whatever it is: the page goes on with what was read of it.
pub proof fn law_tag_without_text(pass: PassState, draft: DraftState, event: XmlEvent)
    requires
        pass.stage == StageState::Title(draft) || pass.stage == StageState::Text(draft),
        !(event is Text),
    ensures
        step(pass, event) == (
            PassState { stage: StageState::Page(draft), ..pass },
            None::<Outcome>,
        ),
{
}

/// A page that is left out does nothing and takes no place.
pub proof fn law_left_out_page(pass: PassState, draft: DraftState)
    requires
        is_excluded(draft.title, draft.text),
    ensures
        end_page(pass, draft) == (
            PassState { stage: StageState::Outside, ..pass },
            None::<Outcome>,
        ),
{
}

/// A redirect that is not left out is recorded: from the title of its page to the first link of
/// its text. It is skipped only where the text has no link. Either way it takes no place.
pub proof fn law_redirect_is_recorded(pass: PassState, draft: DraftState)
    requires
        draft.is_redirect,
        !is_excluded(draft.title, draft.text),
    ensures
        end_page(pass, draft).0 == (PassState { stage: StageState::Outside, ..pass }),
        links_in(draft.text).len() > 0 ==> (end_page(pass, draft).1 matches Some(
            Outcome::Redirect(row),
        ) && row.redirect_from == draft.title && row.redirect_to == links_in(draft.text)[0]),
        links_in(draft.text).len() == 0 ==> end_page(pass, draft).1 == Some(
            Outcome::Skip(draft.title),
        ),
{
}

/// An article that is not left out begins where the last one ends, takes sixteen bytes and four
/// for each link of its text, and counts as one more. It fails only where its place or its size
/// is larger than an integer of the table.
pub proof fn law_article_takes_its_place(pass: PassState, draft: DraftState)
    requires
        !draft.is_redirect,
        !is_excluded(draft.title, draft.text),
        0 <= pass.prev_offset + pass.prev_length,
    ensures
        ({
            let at = pass.prev_offset + pass.prev_length;
            let links = links_in(draft.text);
            let (next, outcome) = end_page(pass, draft);
            if at <= 0x7fff_ffff && 16 + 4 * links.len() <= 0x7fff_ffff {
                &&& outcome matches Some(Outcome::Article { row, links: found }) && row.title
                    == draft.title && row.byteoffset == at && row.length == 4 * links.len()
                    && found == links
                &&& next.stage is Outside
                &&& next.prev_offset == at
                &&& next.prev_length == 16 + 4 * links.len()
                &&& next.count == pass.count + 1
            } else {
                &&& outcome == Some(Outcome::Abort(Failure::TooLarge))
                &&& next == (PassState { stage: StageState::Finished, ..pass })
            }
        }),
{
}

/// One event gives what its step gives, and no event nothing.
pub proof fn law_one_event(pass: PassState, event: XmlEvent)
    ensures
        run(pass, seq![]) == (pass, Seq::<Outcome>::empty()),
        run(pass, seq![event]) == (
            step(pass, event).0,
            match step(pass, event).1 {
                Some(outcome) => seq![outcome],
                None => seq![],
            },
        ),
{
    reveal_with_fuel(run, 2);
    assert(seq![event].drop_last() =~= Seq::<XmlEvent>::empty());
    if let Some(outcome) = step(pass, event).1 {
        assert(Seq::<Outcome>::empty().push(outcome) =~= seq![outcome]);
    }
}

/// A dump may be taken in parts: what is done for it is what is done for the first part and then,
/// from where that left the pass, for the second.
pub proof fn law_dump_in_parts(pass: PassState, first: Seq<XmlEvent>, second: Seq<XmlEvent>)
    ensures
        run(pass, first + second) == ({
            let before = run(pass, first);
            let after = run(before.0, second);
            (after.0, before.1 + after.1)
        }),
    decreases second.len(),
{
    let before = run(pass, first);
    if second.len() == 0 {
        assert(first + second =~= first);
        assert(before.1 + Seq::<Outcome>::empty() =~= before.1);
    } else {
        let shorter = second.drop_last();
        law_dump_in_parts(pass, first, shorter);
        assert((first + second).drop_last() =~= first + shorter);
        assert((first + second).last() == second.last());
        let after = run(before.0, shorter);
        if let Some(outcome) = step(after.0, second.last()).1 {
            assert((before.1 + after.1).push(outcome) =~= before.1 + after.1.push(outcome));
        }
    }
}

/// An action says what is to be done: the row of its table with all it holds, the links in order,
/// the number, the reason.
pub proof fn law_action_by_value(action: Action)
    ensures
        match action {
            Action::Redirect(entry) => action@ matches Outcome::Redirect(row)
                && row.redirect_from == entry.redirect_from@ && row.redirect_to
                == entry.redirect_to@,
            Action::Skip(title) => action@ == Outcome::Skip(title@),
            Action::Article { entry, links } => action@ matches Outcome::Article {
                row,
                links: found,
            } && row.title == entry.title@ && row.byteoffset == entry.byteoffset && row.length
                == entry.length && found.len() == links@.len() && forall|i: int|
                0 <= i < found.len() ==> #[trigger] found[i] == links@[i]@,
            Action::Finish(count) => action@ == Outcome::Finish(count),
            Action::Abort(failure) => action@ == Outcome::Abort(failure),
        },
        outcome_of(Some(action)) == Some(action@),
        outcome_of(None) is None,
{
}

/// The actions of a list say what they say one by one, in order.
pub proof fn law_actions_by_value(actions: Seq<Action>)
    ensures
        outcomes_of(actions).len() == actions.len(),
        forall|i: int| 0 <= i < actions.len() ==> #[trigger] outcomes_of(actions)[i] == actions[i]@,
{
}

} // verus!
