//! The lines of a document and their text.

use crate::shape::views;
use crate::text::{lemma_texts_push, texts};
use vstd::prelude::*;
use vstd::string::*;

verus! {

/// One line of a document.
#[derive(Clone, Debug, PartialEq, Eq)]
pub enum Line {
    /// A comment with the given text.
    Comment(String),
    /// The head of the section at the given path.
    Section(Vec<String>),
    /// A key with its value; a quoted value stands between double quotes.
    Value { key: String, text: String, quoted: bool },
    /// A key without a value, commented out.
    Placeholder(String),
}

/// The view of `Line`: the same value over sequences of characters.
pub enum LineView {
    Comment(Seq<char>),
    Section(Seq<Seq<char>>),
    Value { key: Seq<char>, text: Seq<char>, quoted: bool },
    Placeholder(Seq<char>),
}

impl View for Line {
    type V = LineView;

    open spec fn view(&self) -> LineView {
        match self {
            Line::Comment(text) => LineView::Comment(text@),
            Line::Section(path) => LineView::Section(texts(path@)),
            Line::Value { key, text, quoted } => LineView::Value {
                key: key@,
                text: text@,
                quoted: *quoted,
            },
            Line::Placeholder(key) => LineView::Placeholder(key@),
        }
    }
}

/// The segments of a path with a dot between each two.
pub open spec fn dotted(path: Seq<Seq<char>>) -> Seq<char>
    decreases path.len(),
{
    if path.len() == 0 {
        Seq::empty()
    } else if path.len() == 1 {
        path[0]
    } else {
        dotted(path.drop_last()) + "."@ + path.last()
    }
}

/// The text of a line.
pub open spec fn rendered(line: LineView) -> Seq<char> {
    match line {
        LineView::Comment(text) => "## "@ + text,
        LineView::Section(path) => "["@ + dotted(path) + "]"@,
        LineView::Value { key, text, quoted } => if quoted {
            key + " = \""@ + text + "\""@
        } else {
            key + " = "@ + text
        },
        LineView::Placeholder(key) => "# "@ + key + " = ..."@,
    }
}

/// The texts of the lines of a document.
pub open spec fn rendered_lines(lines: Seq<LineView>) -> Seq<Seq<char>> {
    Seq::new(lines.len(), |i: int| rendered(lines[i]))
}

/// The text of a document: the text of each line, each followed by a line
/// break.
pub open spec fn document_text(lines: Seq<LineView>) -> Seq<char>
    decreases lines.len(),
{
    if lines.len() == 0 {
        Seq::empty()
    } else {
        document_text(lines.drop_last()) + rendered(lines.last()) + "\n"@
    }
}

/// One comment line for each text.
pub open spec fn comment_lines(comments: Seq<Seq<char>>) -> Seq<LineView> {
    Seq::new(comments.len(), |i: int| LineView::Comment(comments[i]))
}

/// Joins the segments of a path with dots.
pub fn join_path(path: &Vec<String>) -> (text: String)
    ensures
        text@ == dotted(texts(path@)),
{
    let mut text = String::new();
    let mut i: usize = 0;
    let ghost segments = texts(path@);
    assert(segments.take(0) == Seq::<Seq<char>>::empty());
    while i < path.len()
        invariant
            i <= path.len(),
            segments == texts(path@),
            text@ == dotted(segments.take(i as int)),
        decreases path.len() - i,
    {
        proof {
            assert(segments.take(i + 1).drop_last() == segments.take(i as int));
            assert(segments.take(i + 1).last() == path[i as int]@);
            if i == 0 {
                assert(Seq::<char>::empty() + path[0]@ == path[0]@);
                assert(segments.take(1)[0] == path[0]@);
            }
        }
        if i > 0 {
            text.append(".");
        }
        text.append(path[i].as_str());
        i += 1;
    }
    assert(segments.take(path.len() as int) == segments);
    text
}

impl Line {
    /// The text of this line, without a line break.
    pub fn render(&self) -> (text: String)
        ensures
            text@ == rendered(self@),
    {
        match self {
            Line::Comment(comment) => {
                let mut text = String::from_str("## ");
                text.append(comment.as_str());
                text
            },
            Line::Section(path) => {
                let mut text = String::from_str("[");
                let inner = join_path(path);
                text.append(inner.as_str());
                text.append("]");
                text
            },
            Line::Value { key, text: value, quoted } => {
                let mut text = key.clone();
                if *quoted {
                    text.append(" = \"");
                    text.append(value.as_str());
                    text.append("\"");
                } else {
                    text.append(" = ");
                    text.append(value.as_str());
                }
                text
            },
            Line::Placeholder(key) => {
                let mut text = String::from_str("# ");
                text.append(key.as_str());
                text.append(" = ...");
                text
            },
        }
    }
}

/// The text of each line of a document, in order.
pub fn render_lines(lines: &Vec<Line>) -> (out: Vec<String>)
    ensures
        texts(out@) == rendered_lines(views(lines@)),
{
    let mut out: Vec<String> = Vec::new();
    let mut i: usize = 0;
    let ghost all = rendered_lines(views(lines@));
    while i < lines.len()
        invariant
            i <= lines.len(),
            all == rendered_lines(views(lines@)),
            texts(out@) == all.take(i as int),
        decreases lines.len() - i,
    {
        let text = lines[i].render();
        proof {
            lemma_texts_push(out@, text);
            assert(all.take(i + 1) == all.take(i as int).push(text@));
        }
        out.push(text);
        i += 1;
    }
    assert(all.take(lines.len() as int) == all);
    out
}

/// The text of a document, every line with its line break.
pub fn render_document(lines: &Vec<Line>) -> (text: String)
    ensures
        text@ == document_text(views(lines@)),
{
    let mut text = String::new();
    let mut i: usize = 0;
    let ghost all = views(lines@);
    assert(all.take(0) == Seq::<LineView>::empty());
    while i < lines.len()
        invariant
            i <= lines.len(),
            all == views(lines@),
            text@ == document_text(all.take(i as int)),
        decreases lines.len() - i,
    {
        let line = lines[i].render();
        proof {
            assert(all.take(i + 1).drop_last() == all.take(i as int));
            assert(all.take(i + 1).last() == lines[i as int]@);
        }
        text.append(line.as_str());
        text.append("\n");
        i += 1;
    }
    assert(all.take(lines.len() as int) == all);
    text
}

/// Appends one comment line for each text.
pub fn write_comments(w: &mut Vec<Line>, comments: &Vec<String>)
    ensures
        views(final(w)@) == views(old(w)@) + comment_lines(texts(comments@)),
{
    let ghost before = views(w@);
    let ghost all = comment_lines(texts(comments@));
    let mut i: usize = 0;
    assert(before + all.take(0) == before);
    while i < comments.len()
        invariant
            i <= comments.len(),
            all == comment_lines(texts(comments@)),
            views(w@) == before + all.take(i as int),
        decreases comments.len() - i,
    {
        let line = Line::Comment(comments[i].clone());
        proof {
            assert(views(w@.push(line)) == views(w@).push(line@));
            assert(all.take(i + 1) == all.take(i as int).push(line@));
            assert((before + all.take(i as int)).push(line@) == before + all.take(i + 1));
        }
        w.push(line);
        i += 1;
    }
    assert(all.take(comments.len() as int) == all);
}

} // verus!
