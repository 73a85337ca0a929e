use quick_xml::events::Event;
use quick_xml::reader::Reader;
use wikigraph::adjacency::add_to_adj_list;
use wikigraph::dump::{Action, Failure, Pass, XmlEvent};
use wikigraph::markup::read_text;
use wikigraph::models::LookupEntry;
use wikigraph::parser::Parser;

fn start(name: &str) -> XmlEvent {
    XmlEvent::Start(name.as_bytes().to_vec())
}

fn end(name: &str) -> XmlEvent {
    XmlEvent::End(name.as_bytes().to_vec())
}

fn text(content: &str) -> XmlEvent {
    XmlEvent::Text(content.as_bytes().to_vec())
}

fn page(title: &str, body: &str, is_redirect: bool) -> Vec<XmlEvent> {
    let mut events = vec![start("page"), start("title"), text(title), end("title")];
    if is_redirect {
        events.push(XmlEvent::Empty(b"redirect".to_vec()));
    }
    events.push(start("text"));
    events.push(text(body));
    events.push(end("text"));
    events.push(end("page"));
    events
}

fn parser() -> Parser {
    Parser::new("graph.bin".to_string(), "postgres://wiki".to_string())
}

fn run(events: Vec<XmlEvent>) -> Vec<String> {
    parser().pre_process_file(&events).iter().map(|action| describe(action)).collect()
}

fn describe(action: &Action) -> String {
    match action {
        Action::Redirect(entry) => format!("{} -> {}", entry.redirect_from, entry.redirect_to),
        Action::Skip(title) => format!("skip {}", title),
        Action::Article { entry, links } => format!(
            "{} at {} length {}: {}",
            entry.title,
            entry.byteoffset,
            entry.length,
            links.join("/")
        ),
        Action::Finish(count) => format!("finish {}", count),
        Action::Abort(failure) => format!("abort {:?}", failure),
    }
}

fn xml_events(dump: &str) -> Vec<XmlEvent> {
    let mut reader = Reader::from_str(dump);
    reader.trim_text(true);
    let mut events = Vec::new();
    loop {
        let event = match reader.read_event() {
            Ok(Event::Start(e)) => XmlEvent::Start(e.name().as_ref().to_vec()),
            Ok(Event::End(e)) => XmlEvent::End(e.name().as_ref().to_vec()),
            Ok(Event::Empty(e)) => XmlEvent::Empty(e.name().as_ref().to_vec()),
            Ok(Event::Text(e)) => XmlEvent::Text(e.to_vec()),
            Ok(Event::Eof) => XmlEvent::Eof,
            Ok(_) => XmlEvent::Other,
            Err(_) => XmlEvent::Error,
        };
        let ends = matches!(event, XmlEvent::Eof);
        events.push(event);
        if ends {
            return events;
        }
    }
}

#[test]
fn the_first_article_stands_behind_the_file_header() {
    let body: Vec<String> = (0..384).map(|i| format!("[[Page {}]]", i)).collect();
    let actions = parser().pre_process_file(&page("Anarchism", &body.join(" "), false));
    match &actions[0] {
        Action::Article { entry, links } => {
            assert_eq!(entry.byteoffset, 16);
            assert_eq!(entry.length, 1536);
            assert_eq!(entry.length / 4, 384);
            assert_eq!(links.len(), 384);
        }
        other => panic!("{:?}", other),
    }
}

#[test]
fn articles_follow_one_another() {
    let mut events = page("A", "[[B]] [[C]]", false);
    events.extend(page("B", "none", false));
    events.extend(page("C", "[[A]]", false));
    events.push(XmlEvent::Eof);
    assert_eq!(
        run(events),
        vec![
            "A at 16 length 8: B/C",
            "B at 40 length 0: ",
            "C at 56 length 4: A",
            "finish 3"
        ]
    );
}

#[test]
fn links_in_templates_and_highlighted_code_take_no_place() {
    let mut events = page("A", "{{Infobox|[[X]]}}[[B]]", false);
    let code = "&lt;syntaxhighlight lang=c&gt;x[[0]]&lt;/syntaxhighlight&gt;[[A]]";
    events.extend(page("B", code, false));
    events.push(XmlEvent::Eof);
    assert_eq!(
        run(events),
        vec!["A at 16 length 4: B", "B at 36 length 4: A", "finish 2"]
    );
}

#[test]
fn redirects_and_pages_left_out_take_no_place() {
    let mut events = page("Old", "#REDIRECT [[New]] [[Other]]", true);
    events.extend(page("Lost", "#REDIRECT", true));
    events.extend(page("Help:Me", "[[A]]", false));
    events.extend(page("A", "[[B]]", false));
    events.push(XmlEvent::Eof);
    assert_eq!(
        run(events),
        vec!["Old -> New", "skip Lost", "A at 16 length 4: B", "finish 1"]
    );
}

#[test]
fn a_title_of_the_project_ends_the_page() {
    let mut events = page("Wikipedia:About", "[[A]]", false);
    events.push(XmlEvent::Eof);
    assert_eq!(run(events), vec!["finish 0"]);

    let events = vec![
        start("page"),
        start("title"),
        text("A"),
        end("title"),
        start("text"),
        text("[[B]]"),
        end("text"),
        start("title"),
        text("Wikipedia:A"),
        XmlEvent::Eof,
    ];
    assert_eq!(run(events), vec!["A at 16 length 4: B", "finish 1"]);
}

#[test]
fn the_end_of_the_dump_ends_the_page() {
    let mut events = page("A", "[[B]]", false);
    events.pop();
    events.push(XmlEvent::Eof);
    events.push(XmlEvent::Eof);
    assert_eq!(run(events), vec!["A at 16 length 4: B", "finish 1"]);
}

#[test]
fn the_event_behind_a_title_tag_is_taken_for_its_text() {
    let events = vec![
        start("page"),
        start("title"),
        end("page"),
        start("text"),
        XmlEvent::Error,
        start("title"),
        text("A"),
        text("not the title"),
        start("text"),
        text("body"),
        end("page"),
    ];
    assert_eq!(run(events), vec!["A at 16 length 0: "]);
}

#[test]
fn only_the_tags_of_a_page_count() {
    let mut events = vec![XmlEvent::Other, text("x"), start("mediawiki"), end("page")];
    events.extend(page("A", "text", false));
    events.insert(5, XmlEvent::Empty(b"br".to_vec()));
    events.push(end("mediawiki"));
    events.push(XmlEvent::Eof);
    assert_eq!(run(events), vec!["A at 16 length 0: ", "finish 1"]);
}

#[test]
fn what_cannot_be_read_between_pages_is_a_failure() {
    assert_eq!(run(vec![XmlEvent::Error, XmlEvent::Eof]), vec!["abort BadXml"]);
    let mut events = page("A", "text", false);
    events.insert(4, XmlEvent::Error);
    assert_eq!(run(events), vec!["A at 16 length 0: "]);
}

#[test]
fn a_text_that_cannot_be_decoded_is_a_failure() {
    assert_eq!(run(page("A &unknown; B", "text", false)), vec!["abort BadText"]);
    assert_eq!(run(page("A", "a & b", false)), vec!["abort BadText"]);
    let events = vec![start("page"), start("text"), XmlEvent::Text(vec![0xff])];
    assert_eq!(run(events), vec!["abort BadText"]);
    let pass = Pass::new();
    let (pass, _) = pass.step(&start("page"));
    let (pass, _) = pass.step(&start("title"));
    let (_, action) = pass.take_text(None);
    assert!(matches!(action, Some(Action::Abort(Failure::BadText))));
}

#[test]
fn a_decoded_text_is_taken_as_it_is() {
    let (pass, _) = Pass::new().step(&start("page"));
    let (pass, _) = pass.step(&start("title"));
    let (pass, _) = pass.take_text(Some("A & B".to_string()));
    let (pass, _) = pass.step(&start("text"));
    let (pass, _) = pass.take_text(Some("[[C]]".to_string()));
    let (_, action) = pass.step(&end("page"));
    assert_eq!(describe(&action.unwrap()), "A & B at 16 length 4: C");
}

#[test]
fn escapes_are_replaced() {
    let read = |raw: &str| read_text(&raw.as_bytes().to_vec());
    assert_eq!(read("AT&amp;T &lt;b&gt; &#233;"), Some("AT&T <b> é".to_string()));
    assert_eq!(read("plain; text"), Some("plain; text".to_string()));
    assert_eq!(read("&nosuch;"), None);
    assert_eq!(read("&amp"), None);
    assert_eq!(read_text(&vec![0xc3, 0x28]), None);
    assert_eq!(
        run(page("AT&amp;T", "[[R&amp;D]]", false)),
        vec!["AT&T at 16 length 4: R&D"]
    );
}

#[test]
fn nothing_is_done_behind_the_end() {
    let mut events = vec![XmlEvent::Eof];
    events.extend(page("A", "text", false));
    events.push(XmlEvent::Eof);
    assert_eq!(run(events), vec!["finish 0"]);
}

#[test]
fn the_number_of_articles_is_kept_once_the_dump_has_ended() {
    let mut parser = parser();
    assert_eq!(parser.count(), 0);
    assert_eq!(parser.output_file_path(), "graph.bin");
    assert_eq!(parser.connection_string(), "postgres://wiki");
    parser.set_count(7);
    let mut events = page("A", "text", false);
    parser.pre_process_file(&events);
    assert_eq!(parser.count(), 7);
    events.push(XmlEvent::Eof);
    parser.pre_process_file(&events);
    assert_eq!(parser.count(), 1);
}

#[test]
fn a_dump_becomes_a_graph() {
    let dump = "<mediawiki>
        <page><title>A</title><ns>0</ns><revision><text bytes=\"9\">see [[B|it]] and [[C#x]]</text>
        </revision></page>
        <page><title>D</title><redirect title=\"A\" /><text>#REDIRECT [[A]]</text></page>
        <page><title>B</title><!-- note --><text>[[A]] &lt;ref&gt;</text></page>
        <page><title>Template:T</title><text>[[A]]</text></page>
        <page><title>C</title><text>nothing</text></page>
    </mediawiki>";
    let mut parser = parser();
    let mut rows: Vec<LookupEntry> = Vec::new();
    let mut lines: Vec<String> = Vec::new();
    let mut redirects = 0;
    for action in parser.pre_process_file(&xml_events(dump)) {
        match action {
            Action::Article { entry, links } => {
                let line = add_to_adj_list(&entry.title, &links);
                lines.push(line.trim_end().to_string());
                rows.push(entry);
            }
            Action::Redirect(entry) => {
                assert_eq!(entry.redirect_to, "A");
                redirects += 1;
            }
            Action::Finish(count) => assert_eq!(count, 3),
            other => panic!("{:?}", other),
        }
    }
    assert_eq!(redirects, 1);
    assert_eq!(lines, vec!["A|B,C,", "B|A,", "C|"]);
    let file = parser.create_graph(&lines, &rows).unwrap();
    let integers: Vec<i32> = file
        .chunks(4)
        .map(|w| i32::from_le_bytes([w[0], w[1], w[2], w[3]]))
        .collect();
    assert_eq!(
        integers,
        vec![1, 3, 0, 0, 0, 0, 0, 2, 40, 60, 0, 0, 0, 1, 16, 0, 0, 0, 0]
    );
}
