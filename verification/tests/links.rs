use wikigraph::links::extract_links_from_text;

fn links(text: &str) -> Vec<String> {
    extract_links_from_text(text)
}

#[test]
fn plain_links_come_out_in_order() {
    assert_eq!(links("See [[Anarchism]] and [[Paris]]."), vec!["Anarchism", "Paris"]);
}

#[test]
fn labels_and_sections_are_cut_off() {
    assert_eq!(links("[[Paris|the city]]"), vec!["Paris"]);
    assert_eq!(links("[[Paris#History]]"), vec!["Paris"]);
    assert_eq!(links("[[Paris#History|its history]]"), vec!["Paris"]);
    assert_eq!(links("[[Paris|label#not a section]]"), vec!["Paris"]);
    assert_eq!(links("[[#Notes]] [[]]"), vec!["", ""]);
}

#[test]
fn links_into_namespaces_are_given_up() {
    assert_eq!(links("[[File:a.png]] [[User:b]] [[WP:c]] [[Wikipedia:d]] [[E]]"), vec!["E"]);
    assert_eq!(links("[[Category:a]] [[AFile:b]]"), vec!["Category:a", "AFile:b"]);
    assert_eq!(links("[[File:a.png|see [[Paris]]]]"), vec!["Paris"]);
}

#[test]
fn a_new_start_begins_the_link_afresh() {
    assert_eq!(links("[[Lost [[Kept]]"), vec!["Kept"]);
    assert_eq!(links("[[[Odd]]"), vec!["[Odd"]);
}

#[test]
fn brackets_without_a_partner_make_no_link() {
    assert_eq!(links("[Paris]"), Vec::<String>::new());
    assert_eq!(links("Paris]]"), Vec::<String>::new());
    assert_eq!(links("[[Paris"), Vec::<String>::new());
    assert_eq!(links("[[Paris]"), Vec::<String>::new());
    assert_eq!(links(""), Vec::<String>::new());
}

#[test]
fn templates_are_passed_over() {
    assert_eq!(links("{{Infobox|[[B]]}}[[A]]"), vec!["A"]);
    assert_eq!(links("[[a{{b}}c]]"), vec!["ac"]);
    assert_eq!(links("{{cite|[[Paris]]}}"), Vec::<String>::new());
    assert_eq!(links("[[A]]{{b|{c}[[D]]}}[[E]]"), vec!["A", "E"]);
    assert_eq!(links("{{}}[[A]]"), vec!["A"]);
    assert_eq!(links("[[a{b]]"), vec!["a{b"]);
    assert_eq!(links("[[a}}b]]"), vec!["a}}b"]);
}

#[test]
fn the_first_end_closes_a_template() {
    assert_eq!(links("{{a{{b|[[C]]}}[[D]]}}[[E]]"), vec!["D", "E"]);
    assert_eq!(links("{{a}}}[[B]]"), vec!["B"]);
    assert_eq!(links("{{{a}}}[[B]]"), vec!["B"]);
}

#[test]
fn a_template_without_its_end_takes_the_rest() {
    assert_eq!(links("[[A]]{{b [[C]]} } [[D]]"), vec!["A"]);
    assert_eq!(links("[[A{{b]]"), Vec::<String>::new());
    assert_eq!(links("[[A]]{{"), vec!["A"]);
}

#[test]
fn highlighted_code_is_passed_over() {
    assert_eq!(
        links("[[A]]<syntaxhighlight lang=c>x[[0]]</syntaxhighlight>[[B]]"),
        vec!["A", "B"]
    );
    assert_eq!(
        links("<syntaxhighlight>[[Paris]]</syntaxhighlight>"),
        Vec::<String>::new()
    );
    assert_eq!(links("[[a<syntaxhighlight>{{</syntaxhighlight>b]]"), vec!["ab"]);
    assert_eq!(links("<syntaxhighlight>[[A]]<b></b>[[B]]</syntaxhighlight>[[C]]"), vec!["C"]);
}

#[test]
fn highlighted_code_without_its_closing_tag_takes_the_rest() {
    assert_eq!(links("[[A]]<syntaxhighlight>[[B]]</syntaxhighlight [[C]]"), vec!["A"]);
    assert_eq!(links("[[A]]<syntaxhighlight"), vec!["A"]);
}

#[test]
fn other_tags_give_only_their_bracket_up() {
    assert_eq!(links("[[a<b>c]]"), vec!["ab>c"]);
    assert_eq!(links("<ref>[[A]]</ref><"), vec!["A"]);
    assert_eq!(links("< syntaxhighlight>[[A]]</syntaxhighlight>"), vec!["A"]);
    assert_eq!(links("<syntaxhighligh>[[A]]"), vec!["A"]);
}

#[test]
fn text_outside_ascii_is_kept() {
    assert_eq!(links("é [[Zürich|Züri]] ∑ [[東京]]"), vec!["Zürich", "東京"]);
}

#[test]
fn a_text_has_no_more_links_than_a_quarter_of_its_length() {
    let text = "[[]]".repeat(25);
    assert_eq!(links(&text).len(), 25);
}
