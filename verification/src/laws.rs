//! What holds of the manifest however often it is merged: merging is
//! idempotent, only ever appends, and writes its header once.

use vstd::prelude::*;
use crate::manifest::{
    entries_for, existing_lines, fresh_entries, header, is_comment, merge_result, with_header,
};
use crate::paths::{lies_under, posix_form, relative_to};
use crate::walker::{well_formed, WalkState};
use crate::text::{
    clean_line, joined, lemma_lines_of_rendered, lemma_raw_pieces_nonempty, lines_of, raw_pieces,
    rendered, single_line, strip_all, strip_cr,
};

verus! {

/// No raw piece of a text holds a line feed.
pub proof fn lemma_pieces_are_single(s: Seq<char>)
    ensures
        forall|i: int| 0 <= i < raw_pieces(s).len() ==> single_line(#[trigger] raw_pieces(s)[i]),
    decreases s.len(),
{
    if s.len() > 0 {
        lemma_pieces_are_single(s.drop_last());
        lemma_raw_pieces_nonempty(s.drop_last());
    }
}

/// No line of a text holds a line feed.
pub proof fn lemma_lines_are_single(text: Seq<char>)
    ensures
        forall|i: int| 0 <= i < lines_of(text).len() ==> single_line(#[trigger] lines_of(text)[i]),
{
    lemma_pieces_are_single(text);
    lemma_raw_pieces_nonempty(text);
    let pieces = raw_pieces(text);
    assert forall|i: int| 0 <= i < lines_of(text).len() implies single_line(
        #[trigger] lines_of(text)[i],
    ) by {
        if i < pieces.len() - 1 {
            assert(lines_of(text)[i] == strip_cr(pieces.drop_last()[i]));
            assert(single_line(pieces[i]));
        } else {
            assert(lines_of(text)[i] == pieces.last());
            assert(single_line(pieces[pieces.len() - 1]));
        }
    }
}

/// The header is three comment lines, each of which survives being written
/// and read back.
pub proof fn lemma_header_is_clean()
    ensures
        header().len() == 3,
        is_comment(header()[0]),
        forall|i: int| 0 <= i < 3 ==> clean_line(#[trigger] header()[i]),
{
    reveal_strlit("# .sotaignore file generated by sota staircase ReStepper/SideStepper");
    reveal_strlit("# anything here either can't or shouldn't be uploaded to GitHub");
    reveal_strlit("# unless you know what you're doing, don't edit this file! >:(");
    assert(clean_line(header()[0]));
    assert(clean_line(header()[1]));
    assert(clean_line(header()[2]));
}

/// Every fresh entry is one of the entries and equals no old line, and
/// every entry that equals no old line is fresh.
pub proof fn lemma_fresh_are_new(old: Seq<Seq<char>>, entries: Seq<Seq<char>>)
    ensures
        forall|j: int|
            0 <= j < fresh_entries(old, entries).len() ==> !old.contains(
                #[trigger] fresh_entries(old, entries)[j],
            ) && entries.contains(fresh_entries(old, entries)[j]),
        forall|i: int|
            0 <= i < entries.len() && !old.contains(entries[i]) ==> fresh_entries(
                old,
                entries,
            ).contains(#[trigger] entries[i]),
    decreases entries.len(),
{
    reveal(Seq::filter);
    let fresh = fresh_entries(old, entries);
    if entries.len() > 0 {
        let rest = entries.drop_last();
        let before = fresh_entries(old, rest);
        lemma_fresh_are_new(old, rest);
        assert forall|j: int| 0 <= j < fresh.len() implies !old.contains(#[trigger] fresh[j])
            && entries.contains(fresh[j]) by {
            if j < before.len() {
                assert(fresh[j] == before[j]);
                let k = choose|k: int| 0 <= k < rest.len() && rest[k] == before[j];
                assert(entries[k] == fresh[j]);
            } else {
                assert(fresh[j] == entries.last());
                assert(entries[entries.len() - 1] == fresh[j]);
            }
        }
        assert forall|i: int| 0 <= i < entries.len() && !old.contains(entries[i]) implies fresh.contains(
            #[trigger] entries[i],
        ) by {
            if i < rest.len() {
                assert(rest[i] == entries[i]);
                let k = choose|k: int| 0 <= k < before.len() && before[k] == rest[i];
                assert(fresh[k] == entries[i]);
            } else {
                assert(fresh[fresh.len() - 1] == entries[i]);
            }
        }
    }
}

/// Where every entry equals some old line, none is fresh.
pub proof fn lemma_nothing_fresh(old: Seq<Seq<char>>, entries: Seq<Seq<char>>)
    requires
        forall|i: int| 0 <= i < entries.len() ==> old.contains(#[trigger] entries[i]),
    ensures
        fresh_entries(old, entries).len() == 0,
    decreases entries.len(),
{
    reveal(Seq::filter);
    if entries.len() > 0 {
        let rest = entries.drop_last();
        assert forall|i: int| 0 <= i < rest.len() implies old.contains(#[trigger] rest[i]) by {
            assert(rest[i] == entries[i]);
        }
        lemma_nothing_fresh(old, rest);
        assert(old.contains(entries[entries.len() - 1]));
    }
}

/// Merging appends and nothing else: the lines that were there stay first,
/// as they were and in their order, and what follows them are exactly the
/// entries that no old line equals.
pub proof fn lemma_merge_appends_only(
    existing: Option<Seq<char>>,
    files: Seq<Seq<char>>,
    root: Seq<char>,
    sep: char,
)
    ensures
        ({
            let old = existing_lines(existing);
            let entries = entries_for(files, root, sep);
            let merged = old + fresh_entries(old, entries);
            &&& merged.take(old.len() as int) == old
            &&& forall|j: int| old.len() <= j < merged.len() ==> !old.contains(#[trigger] merged[j])
            &&& forall|i: int| 0 <= i < entries.len() ==> merged.contains(#[trigger] entries[i])
            &&& merge_result(existing, files, root, sep).1 <==> merged != old
            &&& merge_result(existing, files, root, sep).1 ==> merge_result(
                existing,
                files,
                root,
                sep,
            ).0 == rendered(with_header(merged))
        }),
{
    let old = existing_lines(existing);
    let entries = entries_for(files, root, sep);
    let fresh = fresh_entries(old, entries);
    let merged = old + fresh;
    lemma_fresh_are_new(old, entries);
    assert(merged.take(old.len() as int) == old);
    assert forall|j: int| old.len() <= j < merged.len() implies !old.contains(
        #[trigger] merged[j],
    ) by {
        assert(merged[j] == fresh[j - old.len()]);
    }
    assert forall|i: int| 0 <= i < entries.len() implies merged.contains(#[trigger] entries[i]) by {
        if old.contains(entries[i]) {
            let k = choose|k: int| 0 <= k < old.len() && old[k] == entries[i];
            assert(merged[k] == entries[i]);
        } else {
            let k = choose|k: int| 0 <= k < fresh.len() && fresh[k] == entries[i];
            assert(merged[old.len() + k] == entries[i]);
        }
    }
    if fresh.len() == 0 {
        assert(merged == old);
    } else {
        assert(merged.len() != old.len());
    }
}

/// Merging is idempotent: merging the same files into the manifest that a
/// merge has just given changes nothing, and leaves its text as it is. This
/// holds where every entry survives being written and read back, that is,
/// where no entry holds a line feed or ends in a carriage return.
pub proof fn lemma_merge_idempotent(
    existing: Option<Seq<char>>,
    files: Seq<Seq<char>>,
    root: Seq<char>,
    sep: char,
)
    requires
        forall|i: int|
            0 <= i < entries_for(files, root, sep).len() ==> clean_line(
                #[trigger] entries_for(files, root, sep)[i],
            ),
    ensures
        ({
            let first = merge_result(existing, files, root, sep);
            let second = merge_result(Some(first.0), files, root, sep);
            !second.1 && second.0 == first.0
        }),
{
    let old = existing_lines(existing);
    let entries = entries_for(files, root, sep);
    let fresh = fresh_entries(old, entries);
    if fresh.len() == 0 {
        if existing is None {
            assert(lines_of(Seq::<char>::empty()) == Seq::<Seq<char>>::empty());
        }
    } else {
        let merged = old + fresh;
        let lines = with_header(merged);
        let skipped = lines.len() - merged.len();
        lemma_header_is_clean();
        lemma_fresh_are_new(old, entries);
        if let Some(text) = existing {
            lemma_lines_are_single(text);
        }
        assert(forall|k: int| 0 <= k < merged.len() ==> lines[k + skipped] == merged[k]);
        assert forall|i: int| 0 <= i < lines.len() implies single_line(#[trigger] lines[i]) by {
            if i < skipped {
                assert(lines[i] == header()[i]);
                assert(clean_line(header()[i]));
            } else if i < skipped + old.len() {
                assert(lines[i] == old[i - skipped]);
            } else {
                let e = fresh[i - skipped - old.len()];
                assert(lines[i] == e);
                let k = choose|k: int| 0 <= k < entries.len() && entries[k] == e;
                assert(clean_line(entries[k]));
            }
        }
        lemma_lines_of_rendered(lines);
        let again = lines_of(rendered(lines));
        assert forall|i: int| 0 <= i < entries.len() implies again.contains(
            #[trigger] entries[i],
        ) by {
            let e = entries[i];
            assert(clean_line(e));
            let k = if old.contains(e) {
                choose|k: int| 0 <= k < old.len() && old[k] == e
            } else {
                old.len() + choose|k: int| 0 <= k < fresh.len() && fresh[k] == e
            };
            assert(merged[k] == e);
            assert(again[k + skipped] == strip_cr(lines[k + skipped]));
        }
        lemma_nothing_fresh(again, entries);
    }
}

/// A text that starts with a character other than a line feed has a first
/// raw piece that starts with that character.
pub proof fn lemma_first_piece(s: Seq<char>)
    requires
        s.len() > 0,
        s[0] != '\n',
    ensures
        raw_pieces(s).len() >= 1,
        raw_pieces(s)[0].len() > 0,
        raw_pieces(s)[0][0] == s[0],
    decreases s.len(),
{
    lemma_raw_pieces_nonempty(s);
    if s.len() == 1 {
        assert(s.drop_last() == Seq::<char>::empty());
        assert(raw_pieces(s.drop_last()) == seq![Seq::<char>::empty()]);
    } else {
        lemma_first_piece(s.drop_last());
    }
}

/// A text that starts with the comment marker has a first line, and it is a
/// comment.
pub proof fn lemma_comment_stays_first(text: Seq<char>)
    requires
        text.len() > 0,
        text[0] == '#',
    ensures
        lines_of(text).len() > 0,
        is_comment(lines_of(text)[0]),
{
    lemma_first_piece(text);
    let pieces = raw_pieces(text);
    if pieces.len() >= 2 {
        assert(lines_of(text)[0] == strip_cr(pieces.drop_last()[0]));
    }
}

/// Lines that start with a non-empty line are rendered as a text that starts
/// with the first character of that line.
pub proof fn lemma_rendered_starts(lines: Seq<Seq<char>>)
    requires
        lines.len() > 0,
        lines[0].len() > 0,
    ensures
        joined(lines).len() > 0,
        joined(lines)[0] == lines[0][0],
        rendered(lines)[0] == lines[0][0],
    decreases lines.len(),
{
    if lines.len() > 1 {
        lemma_rendered_starts(lines.drop_last());
    }
}

/// The header is written at most once: the text that a merge writes starts
/// with a comment, so a later merge, of whatever files, finds a comment
/// first and puts no header before it.
pub proof fn lemma_header_written_once(
    existing: Option<Seq<char>>,
    files: Seq<Seq<char>>,
    later_files: Seq<Seq<char>>,
    root: Seq<char>,
    sep: char,
)
    requires
        merge_result(existing, files, root, sep).1,
    ensures
        ({
            let first = merge_result(existing, files, root, sep);
            let second = merge_result(Some(first.0), later_files, root, sep);
            let old = lines_of(first.0);
            &&& old.len() > 0
            &&& is_comment(old[0])
            &&& second.1 ==> second.0 == rendered(
                old + fresh_entries(old, entries_for(later_files, root, sep)),
            )
        }),
{
    let old = existing_lines(existing);
    let fresh = fresh_entries(old, entries_for(files, root, sep));
    let lines = with_header(old + fresh);
    lemma_header_is_clean();
    assert(is_comment(lines[0]));
    lemma_rendered_starts(lines);
    lemma_comment_stays_first(rendered(lines));
}

/// Files that all lie under the root all get an entry: the manifest has as
/// many entries as there are files, each the file's path relative to the
/// root, with forward slashes.
pub proof fn lemma_entries_for_files_under_root(files: Seq<Seq<char>>, root: Seq<char>, sep: char)
    requires
        forall|i: int| 0 <= i < files.len() ==> lies_under(#[trigger] files[i], root, sep),
    ensures
        entries_for(files, root, sep).len() == files.len(),
        forall|i: int|
            0 <= i < files.len() ==> relative_to(files[i], root, sep) == Some(
                relative_to(files[i], root, sep)->0,
            ) && #[trigger] entries_for(files, root, sep)[i] == posix_form(
                relative_to(files[i], root, sep)->0,
                sep,
            ),
    decreases files.len(),
{
    if files.len() > 0 {
        let rest = files.drop_last();
        assert forall|i: int| 0 <= i < rest.len() implies lies_under(#[trigger] rest[i], root, sep) by {
            assert(rest[i] == files[i]);
        }
        lemma_entries_for_files_under_root(rest, root, sep);
        assert(lies_under(files[files.len() - 1], root, sep));
        assert forall|i: int| 0 <= i < files.len() implies relative_to(files[i], root, sep) == Some(
            relative_to(files[i], root, sep)->0,
        ) && #[trigger] entries_for(files, root, sep)[i] == posix_form(
            relative_to(files[i], root, sep)->0,
            sep,
        ) by {
            assert(lies_under(files[i], root, sep));
            if i < rest.len() {
                assert(rest[i] == files[i]);
                assert(entries_for(files, root, sep)[i] == entries_for(rest, root, sep)[i]);
            }
        }
    }
}

/// Whatever a walk of a root that is not empty has found can be recorded:
/// every file it found lies under the root, so none is skipped when the
/// manifest entries are made.
pub proof fn lemma_walk_files_have_entries(s: WalkState)
    requires
        well_formed(s),
        s.root.len() > 0,
    ensures
        entries_for(s.found, s.root, s.sep).len() == s.found.len(),
{
    lemma_entries_for_files_under_root(s.found, s.root, s.sep);
}

} // verus!
