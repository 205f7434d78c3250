use docconfig::config::write_member;
use docconfig::line::{render_lines, Line};
use docconfig::{DocConfig, WritePrefixed};

struct Pair {
    left: String,
    right: String,
}

impl DocConfig for Pair {
    fn is_plain() -> bool {
        false
    }

    fn write_doc_config(w: &mut Vec<Line>, path: &Vec<String>, def: Option<&Self>) {
        let mut path = path.clone();
        let comments = vec!["the left one".to_string()];
        write_member::<String>(w, &mut path, "left", &comments, def.map(|p| &p.left));
        let comments = vec!["the right one".to_string()];
        write_member::<String>(w, &mut path, "right", &comments, def.map(|p| &p.right));
    }
}

#[test]
fn a_string_is_plain() {
    assert!(<String as DocConfig>::is_plain());
}

#[test]
fn a_string_writes_itself_in_quotes() {
    let mut lines: Vec<Line> = Vec::new();
    let path = vec!["section".to_string(), "key".to_string()];
    <String as DocConfig>::write_doc_config(&mut lines, &path, Some(&"value".to_string()));
    <String as DocConfig>::write_doc_config(&mut lines, &path, None);
    assert_eq!(
        render_lines(&lines),
        vec!["## a string", "key = \"value\"", "## a string", "# key = ..."]
    );
}

#[test]
fn a_plain_member_starts_no_section() {
    let mut lines: Vec<Line> = Vec::new();
    let mut path = vec!["top".to_string()];
    let comments = vec!["a name".to_string(), "of something".to_string()];
    write_member::<String>(&mut lines, &mut path, "name", &comments, Some(&"n".to_string()));
    assert_eq!(path, vec!["top".to_string()]);
    assert_eq!(
        render_lines(&lines),
        vec!["## a name", "## of something", "## a string", "name = \"n\""]
    );
}

#[test]
fn a_compound_member_starts_a_section_at_its_path() {
    let mut lines: Vec<Line> = Vec::new();
    let mut path = vec!["top".to_string()];
    let pair = Pair { left: "l".to_string(), right: "r".to_string() };
    write_member::<Pair>(&mut lines, &mut path, "pair", &vec!["both".to_string()], Some(&pair));
    write_member::<Pair>(&mut lines, &mut path, "other", &vec![], None);
    assert_eq!(path, vec!["top".to_string()]);
    assert_eq!(
        render_lines(&lines),
        vec![
            "## both",
            "[top.pair]",
            "## the left one",
            "## a string",
            "left = \"l\"",
            "## the right one",
            "## a string",
            "right = \"r\"",
            "[top.other]",
            "## the left one",
            "## a string",
            "# left = ...",
            "## the right one",
            "## a string",
            "# right = ...",
        ]
    );
}

#[test]
fn a_prefixed_writer_keeps_its_parts() {
    let writer = WritePrefixed::new(vec![1u8, 2], "# ".to_string());
    assert_eq!(writer.get_ref(), &vec![1u8, 2]);
    assert_eq!(writer.get_prefix(), "# ");
    assert_eq!(writer.into_parts(), (vec![1u8, 2], "# ".to_string()));
}

#[test]
fn a_prefixed_writer_puts_its_prefix_before_what_is_written() {
    let writer = WritePrefixed::new((), "# \u{e9}".to_string());
    assert_eq!(writer.frame(b"line\n"), b"# \xc3\xa9line\n".to_vec());
    assert_eq!(writer.frame(b""), b"# \xc3\xa9".to_vec());
    let plain = WritePrefixed::new((), String::new());
    assert_eq!(plain.frame(b"text"), b"text".to_vec());
}
