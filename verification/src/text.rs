//! Characters, lines and the line formats of the produced document.

use vstd::prelude::*;
use vstd::string::*;

verus! {

/// The view of a sequence of strings: each string as its characters.
pub open spec fn texts(v: Seq<String>) -> Seq<Seq<char>> {
    Seq::new(v.len(), |i: int| v[i]@)
}

/// Appending a string appends its characters to the view.
pub proof fn lemma_texts_push(v: Seq<String>, x: String)
    ensures
        texts(v.push(x)) == texts(v).push(x@),
{
    assert(texts(v.push(x)) =~= texts(v).push(x@));
}

/// Whether `c` is white space: a code point with the Unicode property
/// `White_Space`.
pub open spec fn white_space(c: char) -> bool {
    let n = c as u32;
    ||| 0x09 <= n <= 0x0d
    ||| n == 0x20
    ||| n == 0x85
    ||| n == 0xa0
    ||| n == 0x1680
    ||| 0x2000 <= n <= 0x200a
    ||| n == 0x2028
    ||| n == 0x2029
    ||| n == 0x202f
    ||| n == 0x205f
    ||| n == 0x3000
}

/// `s` without its leading white space.
pub open spec fn trimmed_start(s: Seq<char>) -> Seq<char>
    decreases s.len(),
{
    if s.len() > 0 && white_space(s[0]) {
        trimmed_start(s.drop_first())
    } else {
        s
    }
}

/// `s` without its trailing white space.
pub open spec fn trimmed_end(s: Seq<char>) -> Seq<char>
    decreases s.len(),
{
    if s.len() > 0 && white_space(s.last()) {
        trimmed_end(s.drop_last())
    } else {
        s
    }
}

/// `s` without the white space that surrounds it.
pub open spec fn trimmed(s: Seq<char>) -> Seq<char> {
    trimmed_end(trimmed_start(s))
}

/// The pieces of `s` between its line breaks, in order. A text without a line
/// break is one piece; a text that ends in a line break ends in an empty piece.
pub open spec fn pieces(s: Seq<char>) -> Seq<Seq<char>>
    decreases s.len(),
{
    if s.len() == 0 {
        seq![s]
    } else if s.last() == '\n' {
        pieces(s.drop_last()).push(Seq::empty())
    } else {
        let head = pieces(s.drop_last());
        head.drop_last().push(head.last().push(s.last()))
    }
}

pub fn is_white_space(c: char) -> (b: bool)
    ensures
        b == white_space(c),
{
    let n: u32 = c as u32;
    (0x09 <= n && n <= 0x0d) || n == 0x20 || n == 0x85 || n == 0xa0 || n == 0x1680 || (0x2000 <= n
        && n <= 0x200a) || n == 0x2028 || n == 0x2029 || n == 0x202f || n == 0x205f || n == 0x3000
}

/// Whether `s` holds no line break.
pub open spec fn unbroken(s: Seq<char>) -> bool {
    forall|i: int| 0 <= i < s.len() ==> s[i] != '\n'
}

/// Whether no line holds a line break.
pub open spec fn all_unbroken(lines: Seq<Seq<char>>) -> bool {
    forall|i: int| 0 <= i < lines.len() ==> unbroken(#[trigger] lines[i])
}

proof fn lemma_trimmed_start_facts(s: Seq<char>)
    ensures
        trimmed_start(s).len() <= s.len(),
        unbroken(s) ==> unbroken(trimmed_start(s)),
    decreases s.len(),
{
    if s.len() > 0 && white_space(s[0]) {
        lemma_trimmed_start_facts(s.drop_first());
        if unbroken(s) {
            assert forall|i: int| 0 <= i < s.drop_first().len() implies s.drop_first()[i]
                != '\n' by {
                assert(s.drop_first()[i] == s[i + 1]);
            }
        }
    }
}

proof fn lemma_trimmed_end_facts(s: Seq<char>)
    ensures
        trimmed_end(s).len() <= s.len(),
        unbroken(s) ==> unbroken(trimmed_end(s)),
    decreases s.len(),
{
    if s.len() > 0 && white_space(s.last()) {
        lemma_trimmed_end_facts(s.drop_last());
        if unbroken(s) {
            assert forall|i: int| 0 <= i < s.drop_last().len() implies s.drop_last()[i]
                != '\n' by {
                assert(s.drop_last()[i] == s[i]);
            }
        }
    }
}

/// Trimming makes a text no longer and brings no line break into it.
pub proof fn lemma_trimmed_facts(s: Seq<char>)
    ensures
        trimmed(s).len() <= s.len(),
        unbroken(s) ==> unbroken(trimmed(s)),
{
    lemma_trimmed_start_facts(s);
    lemma_trimmed_end_facts(trimmed_start(s));
}

/// No piece of a text holds a line break.
pub proof fn lemma_pieces_unbroken(s: Seq<char>)
    ensures
        pieces(s).len() >= 1,
        all_unbroken(pieces(s)),
    decreases s.len(),
{
    if s.len() > 0 {
        let head = pieces(s.drop_last());
        lemma_pieces_unbroken(s.drop_last());
        if s.last() == '\n' {
            assert forall|i: int| 0 <= i < pieces(s).len() implies unbroken(
                #[trigger] pieces(s)[i],
            ) by {
                if i < head.len() {
                    assert(pieces(s)[i] == head[i]);
                }
            }
        } else {
            assert forall|i: int| 0 <= i < pieces(s).len() implies unbroken(
                #[trigger] pieces(s)[i],
            ) by {
                if i < head.len() - 1 {
                    assert(pieces(s)[i] == head[i]);
                } else {
                    assert(unbroken(head[head.len() - 1]));
                }
            }
        }
    }
}

/// A text without a line break is its own single piece.
pub proof fn lemma_unbroken_is_one_piece(s: Seq<char>)
    requires
        unbroken(s),
    ensures
        pieces(s) == seq![s],
    decreases s.len(),
{
    if s.len() > 0 {
        assert forall|i: int| 0 <= i < s.drop_last().len() implies s.drop_last()[i] != '\n' by {
            assert(s.drop_last()[i] == s[i]);
        }
        lemma_unbroken_is_one_piece(s.drop_last());
        let head = pieces(s.drop_last());
        assert(head.drop_last() == Seq::<Seq<char>>::empty());
        assert(s.drop_last().push(s.last()) == s);
        assert(Seq::<Seq<char>>::empty().push(s) == seq![s]);
    }
}

/// The pieces with a line break between each two.
pub open spec fn rejoined(parts: Seq<Seq<char>>) -> Seq<char>
    decreases parts.len(),
{
    if parts.len() == 0 {
        Seq::empty()
    } else if parts.len() == 1 {
        parts[0]
    } else {
        rejoined(parts.drop_last()) + seq!['\n'] + parts.last()
    }
}

/// The pieces of a text are the text cut at its line breaks: no piece holds
/// a line break, and the pieces with a line break between each two are the
/// text again.
pub proof fn lemma_pieces_cut_at_line_breaks(s: Seq<char>)
    ensures
        all_unbroken(pieces(s)),
        rejoined(pieces(s)) == s,
    decreases s.len(),
{
    lemma_pieces_unbroken(s);
    if s.len() > 0 {
        let front = s.drop_last();
        let head = pieces(front);
        lemma_pieces_cut_at_line_breaks(front);
        lemma_pieces_unbroken(front);
        if s.last() == '\n' {
            let all = head.push(Seq::empty());
            assert(all.drop_last() == head);
            assert(rejoined(all) == front + seq!['\n'] + Seq::<char>::empty());
            assert(front + seq!['\n'] + Seq::<char>::empty() == s);
        } else {
            let all = head.drop_last().push(head.last().push(s.last()));
            if head.len() == 1 {
                assert(head[0] == front);
                assert(all[0] == front.push(s.last()));
                assert(front.push(s.last()) == s);
            } else {
                assert(all.drop_last() == head.drop_last());
                assert(rejoined(head) == rejoined(head.drop_last()) + seq!['\n'] + head.last());
                assert(rejoined(all) == rejoined(head.drop_last()) + seq!['\n'] + head.last().push(
                    s.last(),
                ));
                assert(rejoined(head.drop_last()) + seq!['\n'] + head.last().push(s.last()) == (
                rejoined(head.drop_last()) + seq!['\n'] + head.last()).push(s.last()));
                assert(front.push(s.last()) == s);
            }
        }
    } else {
        assert(pieces(s)[0] == s);
    }
}

/// How many characters of white space `s` starts with.
pub open spec fn leading_white_space(s: Seq<char>) -> nat
    decreases s.len(),
{
    if s.len() > 0 && white_space(s[0]) {
        1 + leading_white_space(s.drop_first())
    } else {
        0
    }
}

/// How many characters of white space `s` ends with.
pub open spec fn trailing_white_space(s: Seq<char>) -> nat
    decreases s.len(),
{
    if s.len() > 0 && white_space(s.last()) {
        1 + trailing_white_space(s.drop_last())
    } else {
        0
    }
}

/// Trimming at the start takes away the white space that the text starts
/// with, all of it and nothing else.
pub proof fn lemma_trimmed_start_is_a_suffix(s: Seq<char>)
    ensures
        leading_white_space(s) <= s.len(),
        trimmed_start(s) == s.skip(leading_white_space(s) as int),
        forall|i: int| 0 <= i < leading_white_space(s) ==> white_space(s[i]),
        trimmed_start(s).len() > 0 ==> !white_space(trimmed_start(s)[0]),
    decreases s.len(),
{
    if s.len() > 0 && white_space(s[0]) {
        let rest = s.drop_first();
        lemma_trimmed_start_is_a_suffix(rest);
        assert(rest.skip(leading_white_space(rest) as int) == s.skip(
            leading_white_space(s) as int,
        ));
        assert forall|i: int| 0 <= i < leading_white_space(s) implies white_space(s[i]) by {
            if i > 0 {
                assert(s[i] == rest[i - 1]);
            }
        }
    } else {
        assert(s.skip(0) == s);
    }
}

/// Trimming at the end takes away the white space that the text ends with,
/// all of it and nothing else.
pub proof fn lemma_trimmed_end_is_a_prefix(s: Seq<char>)
    ensures
        trailing_white_space(s) <= s.len(),
        trimmed_end(s) == s.take(s.len() - trailing_white_space(s)),
        forall|i: int| s.len() - trailing_white_space(s) <= i < s.len() ==> white_space(s[i]),
        trimmed_end(s).len() > 0 ==> !white_space(trimmed_end(s).last()),
    decreases s.len(),
{
    if s.len() > 0 && white_space(s.last()) {
        let rest = s.drop_last();
        lemma_trimmed_end_is_a_prefix(rest);
        assert(rest.take(rest.len() - trailing_white_space(rest)) == s.take(
            s.len() - trailing_white_space(s),
        ));
        assert forall|i: int| s.len() - trailing_white_space(s) <= i < s.len() implies white_space(
            s[i],
        ) by {
            if i < s.len() - 1 {
                assert(s[i] == rest[i]);
            }
        }
    } else {
        assert(s.take(s.len() as int) == s);
    }
}

/// A trimmed text neither starts nor ends with white space, and trimming it
/// again changes nothing.
pub proof fn lemma_trimmed_has_no_white_space_around(s: Seq<char>)
    ensures
        trimmed(s).len() > 0 ==> !white_space(trimmed(s)[0]) && !white_space(trimmed(s).last()),
        trimmed(trimmed(s)) == trimmed(s),
{
    let start = trimmed_start(s);
    lemma_trimmed_start_is_a_suffix(s);
    lemma_trimmed_end_is_a_prefix(start);
    if trimmed(s).len() > 0 {
        assert(trimmed(s)[0] == start[0]);
    }
}

/// Whether `k` is the first place in `names` that holds `name`.
pub open spec fn first_at(names: Seq<Seq<char>>, name: Seq<char>, k: int) -> bool {
    &&& 0 <= k < names.len()
    &&& names[k] == name
    &&& forall|j: int| 0 <= j < k ==> #[trigger] names[j] != name
}

/// The first place in `names` that holds `name`, if there is one.
pub open spec fn index_of(names: Seq<Seq<char>>, name: Seq<char>) -> Option<int> {
    if exists|k: int| first_at(names, name, k) {
        Some(choose|k: int| first_at(names, name, k))
    } else {
        None
    }
}

/// The first place that holds a name is the place that a search from the
/// start stops at.
pub proof fn lemma_index_found(names: Seq<Seq<char>>, name: Seq<char>, k: int)
    requires
        first_at(names, name, k),
    ensures
        index_of(names, name) == Some(k),
{
    let first = choose|j: int| first_at(names, name, j);
    if first < k {
        assert(names[first] != name);
    }
    if k < first {
        assert(names[k] != name);
    }
}

proof fn lemma_first_exists(names: Seq<Seq<char>>, name: Seq<char>, j: int)
    requires
        0 <= j < names.len(),
        names[j] == name,
    ensures
        exists|k: int| first_at(names, name, k),
    decreases j,
{
    if exists|i: int| 0 <= i < j && #[trigger] names[i] == name {
        let i = choose|i: int| 0 <= i < j && #[trigger] names[i] == name;
        lemma_first_exists(names, name, i);
    } else {
        assert(first_at(names, name, j));
    }
}

/// What `index_of` gives: the first place that holds the name, or nothing
/// where no place holds it.
pub proof fn lemma_index_of(names: Seq<Seq<char>>, name: Seq<char>)
    ensures
        match index_of(names, name) {
            Some(k) => first_at(names, name, k),
            None => forall|j: int| 0 <= j < names.len() ==> #[trigger] names[j] != name,
        },
{
    if !(exists|k: int| first_at(names, name, k)) {
        assert forall|j: int| 0 <= j < names.len() implies #[trigger] names[j] != name by {
            if names[j] == name {
                lemma_first_exists(names, name, j);
            }
        }
    }
}

/// A name that is found keeps its place when another name is added at the
/// end.
pub proof fn lemma_index_stable(names: Seq<Seq<char>>, added: Seq<char>, name: Seq<char>)
    requires
        index_of(names, name) is Some,
    ensures
        index_of(names.push(added), name) == index_of(names, name),
{
    let k = index_of(names, name)->0;
    lemma_index_of(names, name);
    let more = names.push(added);
    assert forall|j: int| 0 <= j < k implies #[trigger] more[j] != name by {
        assert(more[j] == names[j]);
    }
    assert(more[k] == names[k]);
    lemma_index_found(more, name, k);
}

/// A copy of a sequence of strings.
pub fn copy_texts(v: &Vec<String>) -> (copy: Vec<String>)
    ensures
        texts(copy@) == texts(v@),
{
    let mut copy: Vec<String> = Vec::new();
    let mut i: usize = 0;
    while i < v.len()
        invariant
            i <= v.len(),
            texts(copy@) == texts(v@).take(i as int),
        decreases v.len() - i,
    {
        let one = v[i].clone();
        proof {
            lemma_texts_push(copy@, one);
            assert(texts(v@).take(i + 1) == texts(v@).take(i as int).push(one@));
        }
        copy.push(one);
        i += 1;
    }
    assert(texts(v@).take(v.len() as int) == texts(v@));
    copy
}

/// Removes the white space around `s`.
pub fn trim(s: &str) -> (r: String)
    ensures
        r@ == trimmed(s@),
{
    let n = s.unicode_len();
    let mut from: usize = 0;
    assert(s@.subrange(0, n as int) == s@);
    while from < n && is_white_space(s.get_char(from))
        invariant
            from <= n,
            n == s@.len(),
            trimmed_start(s@) == trimmed_start(s@.subrange(from as int, n as int)),
        decreases n - from,
    {
        assert(s@.subrange(from as int, n as int).drop_first() == s@.subrange(from + 1, n as int));
        from += 1;
    }
    let mut to: usize = n;
    while to > from && is_white_space(s.get_char(to - 1))
        invariant
            from <= to <= n,
            n == s@.len(),
            trimmed_end(s@.subrange(from as int, n as int)) == trimmed_end(
                s@.subrange(from as int, to as int),
            ),
        decreases to - from,
    {
        assert(s@.subrange(from as int, to as int).drop_last() == s@.subrange(
            from as int,
            to - 1,
        ));
        to -= 1;
    }
    s.substring_char(from, to).to_owned()
}

/// Splits `s` at its line breaks.
pub fn split_lines(s: &str) -> (out: Vec<String>)
    ensures
        texts(out@) == pieces(s@),
{
    let n = s.unicode_len();
    let mut out: Vec<String> = Vec::new();
    let mut start: usize = 0;
    let mut i: usize = 0;
    assert(s@.take(0) == Seq::<char>::empty());
    assert(texts(out@).push(s@.subrange(0, 0)) == seq![Seq::<char>::empty()]);
    while i < n
        invariant
            start <= i <= n,
            n == s@.len(),
            pieces(s@.take(i as int)) == texts(out@).push(s@.subrange(start as int, i as int)),
        decreases n - i,
    {
        let c = s.get_char(i);
        let ghost before = texts(out@);
        let ghost open = s@.subrange(start as int, i as int);
        assert(s@.take(i + 1).drop_last() == s@.take(i as int));
        assert(s@.take(i + 1).last() == c);
        if c == '\n' {
            out.push(s.substring_char(start, i).to_owned());
            start = i + 1;
            assert(texts(out@) == before.push(open));
            assert(s@.subrange(start as int, i + 1) == Seq::<char>::empty());
        } else {
            assert(before.push(open).drop_last() == before);
            assert(open.push(c) == s@.subrange(start as int, i + 1));
        }
        i += 1;
    }
    assert(s@.take(n as int) == s@);
    let ghost before = texts(out@);
    out.push(s.substring_char(start, n).to_owned());
    assert(texts(out@) == before.push(s@.subrange(start as int, n as int)));
    out
}

} // verus!
