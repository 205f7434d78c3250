use docconfig::doc::{get_doc, raw_doc, Attribute};
use docconfig::text::{is_white_space, split_lines, trim};

fn doc_of(raw: &[&str]) -> Vec<String> {
    get_doc(&raw.iter().map(|s| s.to_string()).collect())
}

#[test]
fn white_space_is_what_std_calls_white_space() {
    for n in 0..=0x10ffffu32 {
        if let Some(c) = char::from_u32(n) {
            assert_eq!(is_white_space(c), c.is_whitespace());
        }
    }
}

#[test]
fn trim_is_what_std_trims() {
    for text in ["", " ", "a", "  a b  ", "\t\u{a0}x\u{3000}\n", " \n ", "x y", "\u{2003}z"] {
        assert_eq!(trim(text), text.trim());
    }
}

#[test]
fn split_lines_is_what_std_splits() {
    for text in ["", "a", "a\n", "\na", "a\nb", "\n", "\n\n", "a\n\nb\n", "x\r\ny"] {
        let expected: Vec<String> = text.split('\n').map(|s| s.to_string()).collect();
        assert_eq!(split_lines(text), expected);
    }
}

#[test]
fn a_line_comment_loses_its_leading_space() {
    assert_eq!(doc_of(&[" test"]), vec!["test"]);
}

#[test]
fn every_line_is_trimmed() {
    assert_eq!(doc_of(&["  first  ", "\tsecond\t"]), vec!["first", "second"]);
}

#[test]
fn an_element_of_several_lines_is_split() {
    assert_eq!(doc_of(&["one\n  two\nthree"]), vec!["one", "two", "three"]);
}

#[test]
fn leading_empty_lines_are_dropped() {
    assert_eq!(doc_of(&["", "  ", "text", "", "more"]), vec!["text", "", "more"]);
}

#[test]
fn one_trailing_empty_line_is_dropped() {
    assert_eq!(doc_of(&["text", ""]), vec!["text"]);
    assert_eq!(doc_of(&["text\n"]), vec!["text"]);
}

#[test]
fn only_one_trailing_empty_line_is_dropped() {
    assert_eq!(doc_of(&["text", "", ""]), vec!["text", ""]);
}

#[test]
fn no_documentation_gives_no_lines() {
    assert_eq!(doc_of(&[]), Vec::<String>::new());
    assert_eq!(doc_of(&[""]), Vec::<String>::new());
    assert_eq!(doc_of(&["\n\n"]), Vec::<String>::new());
}

#[test]
fn a_starred_block_loses_its_stars() {
    assert_eq!(doc_of(&["\n * first\n * second\n "]), vec!["first", "second"]);
}

#[test]
fn a_star_takes_one_space_with_it() {
    assert_eq!(doc_of(&["*  indented", "*x"]), vec![" indented", "x"]);
}

#[test]
fn lines_left_empty_by_their_star_are_dropped_at_the_start() {
    assert_eq!(doc_of(&["*", "* ", "* text", "*", "* end"]), vec!["text", "", "end"]);
}

#[test]
fn a_block_with_one_line_without_star_keeps_its_stars() {
    assert_eq!(doc_of(&["* first", "second"]), vec!["* first", "second"]);
    assert_eq!(doc_of(&["* first", "", "* second"]), vec!["* first", "", "* second"]);
}

#[test]
fn normal_lines_are_left_as_they_are() {
    let once = doc_of(&["  first\n\n second ", " * not all starred"]);
    assert_eq!(once, vec!["first", "", "second", "* not all starred"]);
    assert_eq!(get_doc(&once), once);
}

#[test]
fn lines_that_are_not_normal_change_again() {
    let once = doc_of(&["* * twice"]);
    assert_eq!(once, vec!["* twice"]);
    assert_eq!(get_doc(&once), vec!["twice"]);
    let once = doc_of(&["text", "", ""]);
    assert_eq!(get_doc(&once), vec!["text"]);
    let once = doc_of(&["*  text"]);
    assert_eq!(once, vec![" text"]);
    assert_eq!(get_doc(&once), vec!["text"]);
}

fn attribute(name: &str, text: Option<&str>) -> Attribute {
    Attribute { name: name.to_string(), text: text.map(|t| t.to_string()) }
}

#[test]
fn only_doc_attributes_with_a_text_are_documentation() {
    let attrs = vec![
        attribute("derive", None),
        attribute("doc", Some(" first")),
        attribute("serde", Some("doc")),
        attribute("doc", None),
        attribute("docs", Some(" not this")),
        attribute("doc", Some("")),
        attribute("doc", Some(" last\n")),
    ];
    assert_eq!(raw_doc(&attrs), vec![" first", "", " last\n"]);
    assert_eq!(get_doc(&raw_doc(&attrs)), vec!["first", "", "last"]);
    assert_eq!(raw_doc(&vec![]), Vec::<String>::new());
}
