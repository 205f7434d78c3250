//! Normalisation of documentation text into comment lines.

use crate::text::{
    all_unbroken, lemma_pieces_unbroken, lemma_texts_push, lemma_trimmed_facts,
    lemma_unbroken_is_one_piece, pieces, split_lines, texts, trim, trimmed, unbroken,
};
use crate::shape::views;
use vstd::prelude::*;
use vstd::string::*;

verus! {

/// An attribute of an item: its name, and the text that it is set to, where
/// it has the form `name = "text"`.
#[derive(Clone, Debug, PartialEq, Eq)]
pub struct Attribute {
    pub name: String,
    pub text: Option<String>,
}

/// The view of `Attribute`: the same value over sequences of characters.
pub struct AttributeView {
    pub name: Seq<char>,
    pub text: Option<Seq<char>>,
}

impl View for Attribute {
    type V = AttributeView;

    open spec fn view(&self) -> AttributeView {
        AttributeView {
            name: self.name@,
            text: match self.text {
                Some(text) => Some(text@),
                None => None,
            },
        }
    }
}

/// The documentation that one attribute holds: its text, if it is a `doc`
/// attribute that is set to a text.
pub open spec fn documentation_of(attr: AttributeView) -> Seq<Seq<char>> {
    match attr.text {
        Some(text) => if attr.name == "doc"@ {
            seq![text]
        } else {
            Seq::empty()
        },
        None => Seq::empty(),
    }
}

/// The raw documentation among the attributes of an item: the texts of its
/// `doc` attributes, in order.
pub open spec fn documentation(attrs: Seq<AttributeView>) -> Seq<Seq<char>>
    decreases attrs.len(),
{
    if attrs.len() == 0 {
        Seq::empty()
    } else {
        documentation(attrs.drop_last()) + documentation_of(attrs.last())
    }
}

/// Picks the raw documentation out of the attributes of an item.
pub fn raw_doc(attrs: &Vec<Attribute>) -> (raw: Vec<String>)
    ensures
        texts(raw@) == documentation(views(attrs@)),
{
    let doc = String::from_str("doc");
    let mut raw: Vec<String> = Vec::new();
    let ghost all = views(attrs@);
    let mut i: usize = 0;
    assert(all.take(0) == Seq::<AttributeView>::empty());
    assert(texts(raw@) == Seq::<Seq<char>>::empty());
    while i < attrs.len()
        invariant
            i <= attrs.len(),
            all == views(attrs@),
            doc@ == "doc"@,
            texts(raw@) == documentation(all.take(i as int)),
        decreases attrs.len() - i,
    {
        proof {
            assert(all.take(i + 1).drop_last() == all.take(i as int));
            assert(all.take(i + 1).last() == attrs[i as int]@);
        }
        let ghost so_far = texts(raw@);
        match &attrs[i].text {
            Some(text) => {
                if attrs[i].name == doc {
                    let one = text.clone();
                    proof {
                        lemma_texts_push(raw@, one);
                        assert(so_far.push(one@) == so_far + seq![one@]);
                    }
                    raw.push(one);
                } else {
                    assert(so_far + Seq::<Seq<char>>::empty() == so_far);
                }
            },
            None => {
                assert(so_far + Seq::<Seq<char>>::empty() == so_far);
            },
        }
        i += 1;
    }
    assert(all.take(attrs.len() as int) == all);
    raw
}

/// Every piece of every raw element, in order, each without the white space
/// around it.
pub open spec fn trimmed_pieces(raw: Seq<Seq<char>>) -> Seq<Seq<char>>
    decreases raw.len(),
{
    if raw.len() == 0 {
        Seq::empty()
    } else {
        trimmed_pieces(raw.drop_last()) + pieces(raw.last()).map_values(|p: Seq<char>| trimmed(p))
    }
}

/// `lines` without the run of empty lines it starts with.
pub open spec fn without_leading_blank(lines: Seq<Seq<char>>) -> Seq<Seq<char>>
    decreases lines.len(),
{
    if lines.len() > 0 && lines[0].len() == 0 {
        without_leading_blank(lines.drop_first())
    } else {
        lines
    }
}

/// `lines` without its last line, if that line is empty.
pub open spec fn without_trailing_blank(lines: Seq<Seq<char>>) -> Seq<Seq<char>> {
    if lines.len() > 0 && lines.last().len() == 0 {
        lines.drop_last()
    } else {
        lines
    }
}

/// Whether `line` starts with `*`.
pub open spec fn starred(line: Seq<char>) -> bool {
    line.len() > 0 && line[0] == '*'
}

/// Whether every line starts with `*`.
pub open spec fn all_starred(lines: Seq<Seq<char>>) -> bool {
    forall|i: int| 0 <= i < lines.len() ==> starred(#[trigger] lines[i])
}

/// A starred line without its `*` and without the one space that follows it.
pub open spec fn unstarred(line: Seq<char>) -> Seq<char> {
    let rest = line.drop_first();
    if rest.len() > 0 && rest[0] == ' ' {
        rest.drop_first()
    } else {
        rest
    }
}

/// The lines before the rule for starred blocks is applied: the trimmed
/// pieces without the leading empty lines and without one trailing empty line.
pub open spec fn plain_lines(raw: Seq<Seq<char>>) -> Seq<Seq<char>> {
    without_trailing_blank(without_leading_blank(trimmed_pieces(raw)))
}

/// The comment lines that raw documentation stands for.
pub open spec fn normalized(raw: Seq<Seq<char>>) -> Seq<Seq<char>> {
    let lines = plain_lines(raw);
    if all_starred(lines) {
        without_leading_blank(lines.map_values(|l: Seq<char>| unstarred(l)))
    } else {
        lines
    }
}

/// A sequence of lines that normalisation leaves as it is: no line holds a
/// line break or is surrounded by white space, the first and the last line
/// are not empty, and some line does not start with `*`.
pub open spec fn is_normal(lines: Seq<Seq<char>>) -> bool {
    &&& all_unbroken(lines)
    &&& forall|i: int| 0 <= i < lines.len() ==> trimmed(#[trigger] lines[i]) == lines[i]
    &&& lines.len() > 0 ==> lines[0].len() > 0 && lines.last().len() > 0
    &&& lines.len() > 0 ==> !all_starred(lines)
}

/// Normalisation leaves a normal sequence of lines as it is.
pub proof fn lemma_normal_lines_are_fixed(lines: Seq<Seq<char>>)
    requires
        is_normal(lines),
    ensures
        normalized(lines) == lines,
{
    lemma_single_pieces(lines);
    assert(lines.map_values(|l: Seq<char>| trimmed(l)) == lines);
    if lines.len() == 0 {
        assert(lines.map_values(|l: Seq<char>| unstarred(l)) == lines);
    }
}

proof fn lemma_trimmed_pieces_unbroken(raw: Seq<Seq<char>>)
    ensures
        all_unbroken(trimmed_pieces(raw)),
        trimmed_pieces(raw).len() >= raw.len(),
    decreases raw.len(),
{
    if raw.len() > 0 {
        lemma_trimmed_pieces_unbroken(raw.drop_last());
        lemma_pieces_unbroken(raw.last());
        let front = trimmed_pieces(raw.drop_last());
        let back = pieces(raw.last()).map_values(|p: Seq<char>| trimmed(p));
        assert forall|i: int| 0 <= i < trimmed_pieces(raw).len() implies unbroken(
            #[trigger] trimmed_pieces(raw)[i],
        ) by {
            if i < front.len() {
                assert(trimmed_pieces(raw)[i] == front[i]);
            } else {
                let piece = pieces(raw.last())[i - front.len()];
                assert(unbroken(piece));
                lemma_trimmed_facts(piece);
                assert(trimmed_pieces(raw)[i] == trimmed(piece));
            }
        }
    }
}

proof fn lemma_skip_keeps_lines(lines: Seq<Seq<char>>)
    ensures
        without_leading_blank(lines).len() <= lines.len(),
        all_unbroken(lines) ==> all_unbroken(without_leading_blank(lines)),
        without_leading_blank(lines).len() == lines.len() ==> without_leading_blank(lines)
            == lines,
        without_leading_blank(lines) == lines ==> (lines.len() > 0 ==> lines[0].len() > 0),
        without_leading_blank(lines).len() > 0 ==> without_leading_blank(lines)[0].len() > 0,
    decreases lines.len(),
{
    if lines.len() > 0 && lines[0].len() == 0 {
        lemma_skip_keeps_lines(lines.drop_first());
        if all_unbroken(lines) {
            assert forall|i: int| 0 <= i < lines.drop_first().len() implies unbroken(
                #[trigger] lines.drop_first()[i],
            ) by {
                assert(lines.drop_first()[i] == lines[i + 1]);
            }
        }
    }
}

proof fn lemma_unstarred_facts(line: Seq<char>)
    requires
        starred(line),
    ensures
        unstarred(line).len() < line.len(),
        unbroken(line) ==> unbroken(unstarred(line)),
{
}

/// No line of normalised documentation holds a line break.
pub proof fn lemma_normalized_unbroken(raw: Seq<Seq<char>>)
    ensures
        all_unbroken(normalized(raw)),
        normalized(raw).len() <= plain_lines(raw).len(),
        plain_lines(raw).len() <= trimmed_pieces(raw).len(),
{
    let t = trimmed_pieces(raw);
    lemma_trimmed_pieces_unbroken(raw);
    lemma_skip_keeps_lines(t);
    let p = plain_lines(raw);
    assert(all_unbroken(p)) by {
        assert forall|i: int| 0 <= i < p.len() implies unbroken(#[trigger] p[i]) by {
            assert(p[i] == without_leading_blank(t)[i]);
        }
    }
    if all_starred(p) {
        let stripped = p.map_values(|l: Seq<char>| unstarred(l));
        assert forall|i: int| 0 <= i < stripped.len() implies unbroken(#[trigger] stripped[i]) by {
            assert(starred(p[i]));
            lemma_unstarred_facts(p[i]);
        }
        lemma_skip_keeps_lines(stripped);
    }
}

proof fn lemma_single_pieces(lines: Seq<Seq<char>>)
    requires
        all_unbroken(lines),
    ensures
        trimmed_pieces(lines) == lines.map_values(|l: Seq<char>| trimmed(l)),
    decreases lines.len(),
{
    if lines.len() > 0 {
        let front = lines.drop_last();
        assert forall|i: int| 0 <= i < front.len() implies unbroken(#[trigger] front[i]) by {
            assert(front[i] == lines[i]);
        }
        lemma_single_pieces(front);
        assert(unbroken(lines[lines.len() - 1]));
        lemma_unbroken_is_one_piece(lines.last());
        assert(pieces(lines.last()).map_values(|p: Seq<char>| trimmed(p)) == seq![
            trimmed(lines.last()),
        ]);
        assert(trimmed_pieces(lines) == lines.map_values(|l: Seq<char>| trimmed(l)));
    } else {
        assert(trimmed_pieces(lines) == lines.map_values(|l: Seq<char>| trimmed(l)));
    }
}

/// Only a normal sequence of lines is left as it is by normalisation.
pub proof fn lemma_fixed_lines_are_normal(lines: Seq<Seq<char>>)
    requires
        normalized(lines) == lines,
    ensures
        is_normal(lines),
{
    lemma_normalized_unbroken(lines);
    lemma_single_pieces(lines);
    let t = trimmed_pieces(lines);
    let s = without_leading_blank(t);
    let p = plain_lines(lines);
    assert(t.len() == lines.len());
    lemma_skip_keeps_lines(t);
    assert(p.len() == lines.len());
    assert(s == t);
    assert(p == t);
    if lines.len() > 0 {
        if all_starred(p) {
            let stripped = p.map_values(|l: Seq<char>| unstarred(l));
            lemma_skip_keeps_lines(stripped);
            assert(normalized(lines) == stripped);
            assert(starred(p[0]));
            lemma_unstarred_facts(p[0]);
            lemma_trimmed_facts(lines[0]);
            assert(stripped[0].len() < lines[0].len());
            assert(false);
        }
        assert(normalized(lines) == p);
        assert forall|i: int| 0 <= i < lines.len() implies trimmed(#[trigger] lines[i])
            == lines[i] by {
            assert(t[i] == trimmed(lines[i]));
        }
    }
}

/// Normalisation leaves a sequence of lines as it is if and only if the
/// sequence is normal.
pub proof fn lemma_fixed_if_and_only_if_normal(lines: Seq<Seq<char>>)
    ensures
        normalized(lines) == lines <==> is_normal(lines),
{
    if is_normal(lines) {
        lemma_normal_lines_are_fixed(lines);
    }
    if normalized(lines) == lines {
        lemma_fixed_lines_are_normal(lines);
    }
}

/// Normalising twice gives what normalising once gives, exactly where the
/// first result is normal. It is not where that result still ends in an
/// empty line, of which only one is dropped, starts a line with white space
/// that a `*` stood before, or is again a block of starred lines.
pub proof fn lemma_normalized_idempotent(raw: Seq<Seq<char>>)
    ensures
        normalized(normalized(raw)) == normalized(raw) <==> is_normal(normalized(raw)),
{
    lemma_fixed_if_and_only_if_normal(normalized(raw));
}

/// Normalised documentation never starts with an empty line.
pub proof fn lemma_normalized_starts_with_text(raw: Seq<Seq<char>>)
    ensures
        normalized(raw).len() > 0 ==> normalized(raw)[0].len() > 0,
{
    let lines = plain_lines(raw);
    lemma_skip_keeps_lines(trimmed_pieces(raw));
    if all_starred(lines) {
        lemma_skip_keeps_lines(lines.map_values(|l: Seq<char>| unstarred(l)));
    }
}

/// The pieces of one raw element, each trimmed, appended to `lines`.
fn push_trimmed_pieces(lines: &mut Vec<String>, element: &str)
    ensures
        texts(final(lines)@) == texts(old(lines)@) + pieces(element@).map_values(
            |p: Seq<char>| trimmed(p),
        ),
{
    let parts = split_lines(element);
    let ghost before = texts(lines@);
    let ghost all = pieces(element@).map_values(|p: Seq<char>| trimmed(p));
    let mut j: usize = 0;
    assert(all.take(0) == Seq::<Seq<char>>::empty());
    while j < parts.len()
        invariant
            j <= parts.len(),
            texts(parts@) == pieces(element@),
            all == pieces(element@).map_values(|p: Seq<char>| trimmed(p)),
            texts(lines@) == before + all.take(j as int),
        decreases parts.len() - j,
    {
        let t = trim(parts[j].as_str());
        proof {
            lemma_texts_push(lines@, t);
            assert(texts(parts@)[j as int] == parts[j as int]@);
            assert(all.take(j + 1) == all.take(j as int).push(t@));
        }
        lines.push(t);
        j += 1;
    }
    assert(all.take(parts.len() as int) == all);
}

/// The lines from the first one that is not empty.
fn skip_blank(lines: Vec<String>) -> (out: Vec<String>)
    ensures
        texts(out@) == without_leading_blank(texts(lines@)),
{
    let mut lines = lines;
    let ghost all = texts(lines@);
    let mut k: usize = 0;
    assert(all.subrange(0, all.len() as int) == all);
    while k < lines.len() && lines[k].as_str().is_empty()
        invariant
            k <= lines.len(),
            all == texts(lines@),
            without_leading_blank(all) == without_leading_blank(
                all.subrange(k as int, all.len() as int),
            ),
        decreases lines.len() - k,
    {
        assert(all.subrange(k as int, all.len() as int).drop_first() == all.subrange(
            k + 1,
            all.len() as int,
        ));
        k += 1;
    }
    let out = lines.split_off(k);
    assert(texts(out@) == all.subrange(k as int, all.len() as int));
    out
}

/// Whether every line starts with `*`.
fn every_line_starred(lines: &Vec<String>) -> (b: bool)
    ensures
        b == all_starred(texts(lines@)),
{
    let mut i: usize = 0;
    while i < lines.len()
        invariant
            i <= lines.len(),
            forall|j: int| 0 <= j < i ==> starred(#[trigger] texts(lines@)[j]),
        decreases lines.len() - i,
    {
        let line = lines[i].as_str();
        if line.is_empty() || line.get_char(0) != '*' {
            assert(!starred(texts(lines@)[i as int]));
            return false;
        }
        i += 1;
    }
    true
}

/// A starred line without its `*` and the one space after it.
fn unstar(line: &str) -> (out: String)
    requires
        starred(line@),
    ensures
        out@ == unstarred(line@),
{
    let n = line.unicode_len();
    let from: usize = if n > 1 && line.get_char(1) == ' ' {
        2
    } else {
        1
    };
    assert(line@.drop_first().len() == n - 1);
    assert(n > 1 ==> line@.drop_first()[0] == line@[1]);
    assert(line@.drop_first() == line@.subrange(1, n as int));
    assert(n > 1 ==> line@.drop_first().drop_first() == line@.subrange(2, n as int));
    line.substring_char(from, n).to_owned()
}

/// Turns the raw documentation attached to a type, a member or a variant into
/// comment lines. Every element is split at its line breaks and every piece is
/// trimmed; the leading empty lines and one trailing empty line are dropped.
/// Where every line that is left starts with `*`, each loses the `*` and one
/// space after it, and the lines that are then empty at the start are dropped.
pub fn get_doc(raw: &Vec<String>) -> (doc: Vec<String>)
    ensures
        texts(doc@) == normalized(texts(raw@)),
{
    let mut lines: Vec<String> = Vec::new();
    let mut i: usize = 0;
    assert(texts(raw@).take(0) == Seq::<Seq<char>>::empty());
    assert(texts(lines@) == Seq::<Seq<char>>::empty());
    while i < raw.len()
        invariant
            i <= raw.len(),
            texts(lines@) == trimmed_pieces(texts(raw@).take(i as int)),
        decreases raw.len() - i,
    {
        proof {
            let next = texts(raw@).take(i + 1);
            assert(next.drop_last() == texts(raw@).take(i as int));
            assert(next.last() == raw[i as int]@);
        }
        push_trimmed_pieces(&mut lines, raw[i].as_str());
        i += 1;
    }
    assert(texts(raw@).take(raw.len() as int) == texts(raw@));
    let mut lines = skip_blank(lines);
    if lines.len() > 0 && lines[lines.len() - 1].as_str().is_empty() {
        assert(texts(lines@).last() == lines[lines.len() - 1]@);
        let ghost before = texts(lines@);
        lines.pop();
        assert(texts(lines@) == before.drop_last());
    } else {
        assert(lines.len() > 0 ==> texts(lines@).last() == lines[lines.len() - 1]@);
    }
    assert(texts(lines@) == plain_lines(texts(raw@)));
    if every_line_starred(&lines) {
        let ghost stripped = texts(lines@).map_values(|l: Seq<char>| unstarred(l));
        let mut out: Vec<String> = Vec::new();
        let mut j: usize = 0;
        assert(stripped.take(0) == texts(out@));
        while j < lines.len()
            invariant
                j <= lines.len(),
                all_starred(texts(lines@)),
                stripped == texts(lines@).map_values(|l: Seq<char>| unstarred(l)),
                texts(out@) == stripped.take(j as int),
            decreases lines.len() - j,
        {
            assert(starred(texts(lines@)[j as int]));
            let s = unstar(lines[j].as_str());
            proof {
                lemma_texts_push(out@, s);
                assert(stripped.take(j + 1) == stripped.take(j as int).push(s@));
            }
            out.push(s);
            j += 1;
        }
        assert(stripped.take(lines.len() as int) == stripped);
        skip_blank(out)
    } else {
        lines
    }
}

} // verus!
