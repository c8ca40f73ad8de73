//! Conversions between strings and character vectors, and the small
//! character-level operations the rest of the library is built on.

use vstd::prelude::*;

verus! {

/// `String::push` appends the given character to the end of the string.
pub assume_specification[ String::push ](s: &mut String, ch: char)
    ensures
        final(s)@ == old(s)@.push(ch),
;

/// The characters of `s`, in order.
pub fn chars_of(s: &str) -> (out: Vec<char>)
    ensures
        out@ == s@,
{
    broadcast use vstd::string::axiom_spec_iter;

    let mut out: Vec<char> = Vec::new();
    for c in it: s.chars()
        invariant
            it.seq() == s@,
            out@ == it.seq().take(it.index()),
    {
        out.push(c);
    }
    proof {
        assert(out@ == s@);
    }
    out
}

/// The string made of the characters of `v`, in order.
pub fn string_of(v: &Vec<char>) -> (out: String)
    ensures
        out@ == v@,
{
    let mut out = String::new();
    let mut i: usize = 0;
    while i < v.len()
        invariant
            i <= v.len(),
            out@ == v@.take(i as int),
        decreases v.len() - i,
    {
        out.push(v[i]);
        i += 1;
    }
    out
}

/// The views of a sequence of strings, one character sequence per string.
pub open spec fn views(v: Seq<String>) -> Seq<Seq<char>> {
    v.map_values(|s: String| s@)
}

/// The pieces of `s` between line feeds. There is always at least one piece,
/// and the last one is empty exactly when `s` is empty or ends in a line feed.
pub open spec fn raw_pieces(s: Seq<char>) -> Seq<Seq<char>>
    decreases s.len(),
{
    if s.len() == 0 {
        seq![Seq::<char>::empty()]
    } else {
        let before = raw_pieces(s.drop_last());
        if s.last() == '\n' {
            before.push(Seq::<char>::empty())
        } else {
            before.drop_last().push(before.last().push(s.last()))
        }
    }
}

/// `line` without one trailing carriage return, if it has one.
pub open spec fn strip_cr(line: Seq<char>) -> Seq<char> {
    if line.len() > 0 && line.last() == '\r' {
        line.drop_last()
    } else {
        line
    }
}

/// Each of `pieces` without its trailing carriage return.
pub open spec fn strip_all(pieces: Seq<Seq<char>>) -> Seq<Seq<char>> {
    pieces.map_values(|p: Seq<char>| strip_cr(p))
}

/// The lines of a text. A line ends at a line feed; a carriage return just
/// before that line feed belongs to the line ending. The last line needs no
/// line ending, and is then kept exactly as written.
pub open spec fn lines_of(text: Seq<char>) -> Seq<Seq<char>> {
    let pieces = raw_pieces(text);
    let ended = strip_all(pieces.drop_last());
    if pieces.last().len() == 0 {
        ended
    } else {
        ended.push(pieces.last())
    }
}

/// Every text has at least one raw piece.
pub proof fn lemma_raw_pieces_nonempty(s: Seq<char>)
    ensures
        raw_pieces(s).len() >= 1,
    decreases s.len(),
{
    if s.len() > 0 {
        lemma_raw_pieces_nonempty(s.drop_last());
    }
}

/// Splits a text into its lines. Any text has lines: nothing is rejected.
pub fn split_lines(text: &str) -> (out: Vec<String>)
    ensures
        views(out@) == lines_of(text@),
{
    let chars = chars_of(text);
    let mut done: Vec<String> = Vec::new();
    let mut cur: Vec<char> = Vec::new();
    let mut i: usize = 0;
    while i < chars.len()
        invariant
            i <= chars.len(),
            raw_pieces(chars@.take(i as int)).len() >= 1,
            views(done@) == strip_all(raw_pieces(chars@.take(i as int)).drop_last()),
            cur@ == raw_pieces(chars@.take(i as int)).last(),
        decreases chars.len() - i,
    {
        let c = chars[i];
        proof {
            let upto = chars@.take(i as int + 1);
            assert(upto.drop_last() == chars@.take(i as int));
            assert(upto.last() == c);
            lemma_raw_pieces_nonempty(upto);
        }
        let ghost old_cur = cur@;
        let ghost old_done = done@;
        if c == '\n' {
            let n = cur.len();
            if n > 0 && cur[n - 1] == '\r' {
                cur.pop();
            }
            let line = string_of(&cur);
            done.push(line);
            cur = Vec::new();
            proof {
                let before = raw_pieces(chars@.take(i as int));
                let after = raw_pieces(chars@.take(i as int + 1));
                assert(after == before.push(Seq::<char>::empty()));
                assert(after.drop_last() == before);
                assert(line@ == strip_cr(old_cur));
                assert(views(done@) == views(old_done).push(line@));
                assert(before == before.drop_last().push(before.last()));
                assert(strip_all(before) == strip_all(before.drop_last()).push(
                    strip_cr(before.last()),
                ));
            }
        } else {
            cur.push(c);
            proof {
                let before = raw_pieces(chars@.take(i as int));
                let after = raw_pieces(chars@.take(i as int + 1));
                assert(after == before.drop_last().push(before.last().push(c)));
                assert(after.drop_last() == before.drop_last());
            }
        }
        i += 1;
    }
    proof {
        assert(chars@.take(i as int) == chars@);
    }
    if cur.len() > 0 {
        let line = string_of(&cur);
        done.push(line);
    }
    proof {
        assert(views(done@) == lines_of(text@));
    }
    done
}

/// The lines joined by single line feeds, with none after the last line.
pub open spec fn joined(lines: Seq<Seq<char>>) -> Seq<char>
    decreases lines.len(),
{
    if lines.len() == 0 {
        Seq::<char>::empty()
    } else if lines.len() == 1 {
        lines[0]
    } else {
        joined(lines.drop_last()).push('\n') + lines.last()
    }
}

/// The text that holds `lines`: joined by line feeds, with one line feed at
/// the end.
pub open spec fn rendered(lines: Seq<Seq<char>>) -> Seq<char> {
    joined(lines).push('\n')
}

/// Holds of a line that can stand in a text as it is: it has no line feed.
pub open spec fn single_line(line: Seq<char>) -> bool {
    forall|i: int| 0 <= i < line.len() ==> line[i] != '\n'
}

/// Holds of a line that comes back unchanged when the text that holds it is
/// split again: it has no line feed and does not end in a carriage return.
pub open spec fn clean_line(line: Seq<char>) -> bool {
    single_line(line) && strip_cr(line) == line
}

/// Renders lines as one text, each line followed by a line feed (an empty
/// list gives a single line feed).
pub fn render_lines(lines: &Vec<String>) -> (out: String)
    ensures
        out@ == rendered(views(lines@)),
{
    let mut out = String::new();
    let mut i: usize = 0;
    while i < lines.len()
        invariant
            i <= lines.len(),
            out@ == joined(views(lines@).take(i as int)),
        decreases lines.len() - i,
    {
        proof {
            let upto = views(lines@).take(i as int + 1);
            assert(upto.drop_last() == views(lines@).take(i as int));
            assert(upto.last() == lines@[i as int]@);
            if i == 0 {
                assert(joined(upto) == upto[0]);
                assert(Seq::<char>::empty() + upto[0] == upto[0]);
            }
        }
        if i > 0 {
            out.push('\n');
        }
        out.append(lines[i].as_str());
        i += 1;
    }
    proof {
        assert(views(lines@).take(i as int) == views(lines@));
    }
    out.push('\n');
    out
}

/// Appending text without line feeds only lengthens the last raw piece.
pub proof fn lemma_pieces_extend(a: Seq<char>, b: Seq<char>)
    requires
        single_line(b),
    ensures
        raw_pieces(a).len() >= 1,
        raw_pieces(a + b) == raw_pieces(a).drop_last().push(raw_pieces(a).last() + b),
    decreases b.len(),
{
    lemma_raw_pieces_nonempty(a);
    let pa = raw_pieces(a);
    if b.len() == 0 {
        assert(a + b == a);
        assert(pa.last() + b == pa.last());
        assert(pa.drop_last().push(pa.last()) == pa);
    } else {
        let b0 = b.drop_last();
        assert(single_line(b0));
        lemma_pieces_extend(a, b0);
        assert((a + b).drop_last() == a + b0);
        assert((a + b).last() == b.last());
        let mid = raw_pieces(a + b0);
        assert(mid.last() == pa.last() + b0);
        assert(mid.drop_last() == pa.drop_last());
        assert((pa.last() + b0).push(b.last()) == pa.last() + b);
    }
}

/// Lines without line feeds, joined, split back into exactly those lines.
pub proof fn lemma_pieces_of_joined(lines: Seq<Seq<char>>)
    requires
        lines.len() > 0,
        forall|i: int| 0 <= i < lines.len() ==> single_line(#[trigger] lines[i]),
    ensures
        raw_pieces(joined(lines)) == lines,
    decreases lines.len(),
{
    let e = Seq::<char>::empty();
    if lines.len() == 1 {
        lemma_pieces_extend(e, lines[0]);
        assert(e + lines[0] == lines[0]);
        assert(raw_pieces(e) == seq![e]);
        assert(seq![e].drop_last().push(e + lines[0]) == lines);
    } else {
        let prev = lines.drop_last();
        assert forall|i: int| 0 <= i < prev.len() implies single_line(#[trigger] prev[i]) by {
            assert(prev[i] == lines[i]);
        }
        lemma_pieces_of_joined(prev);
        let head = joined(prev).push('\n');
        assert(head.drop_last() == joined(prev));
        assert(raw_pieces(head) == prev.push(e));
        lemma_pieces_extend(head, lines.last());
        assert(e + lines.last() == lines.last());
        assert(prev.push(e).drop_last().push(lines.last()) == lines);
    }
}

/// Splitting a rendered text gives the lines back, each without a trailing
/// carriage return.
pub proof fn lemma_lines_of_rendered(lines: Seq<Seq<char>>)
    requires
        lines.len() > 0,
        forall|i: int| 0 <= i < lines.len() ==> single_line(#[trigger] lines[i]),
    ensures
        lines_of(rendered(lines)) == strip_all(lines),
{
    lemma_pieces_of_joined(lines);
    let text = rendered(lines);
    assert(text.drop_last() == joined(lines));
    assert(raw_pieces(text) == lines.push(Seq::<char>::empty()));
    assert(lines.push(Seq::<char>::empty()).drop_last() == lines);
}

} // verus!
