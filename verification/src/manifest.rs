//! The manifest of oversized files: a text file of one entry per line that
//! is only ever extended. Existing lines, whatever they hold, are kept as
//! they are and in their order.

use vstd::prelude::*;
use crate::paths::{posix_form, relative_path, relative_to, to_posix};
use crate::text::{lines_of, render_lines, rendered, split_lines, views};

verus! {

/// The comment block that opens a manifest written by this library.
pub open spec fn header() -> Seq<Seq<char>> {
    seq![
        "# .sotaignore file generated by sota staircase ReStepper/SideStepper"@,
        "# anything here either can't or shouldn't be uploaded to GitHub"@,
        "# unless you know what you're doing, don't edit this file! >:("@,
    ]
}

/// Holds of a line that starts with the comment marker.
pub open spec fn is_comment(line: Seq<char>) -> bool {
    line.len() > 0 && line[0] == '#'
}

/// The manifest entries for `files`, in their order: each file that lies
/// under `root`, written relative to it with forward slashes. A file that
/// does not lie under `root` has no entry.
pub open spec fn entries_for(files: Seq<Seq<char>>, root: Seq<char>, sep: char) -> Seq<Seq<char>>
    decreases files.len(),
{
    if files.len() == 0 {
        Seq::<Seq<char>>::empty()
    } else {
        let before = entries_for(files.drop_last(), root, sep);
        match relative_to(files.last(), root, sep) {
            Some(rel) => before.push(posix_form(rel, sep)),
            None => before,
        }
    }
}

/// The entries that no line of `old` equals, in their order.
pub open spec fn fresh_entries(old: Seq<Seq<char>>, entries: Seq<Seq<char>>) -> Seq<Seq<char>> {
    entries.filter(|e: Seq<char>| !old.contains(e))
}

/// `lines` with the header before them, unless they are empty or already
/// start with a comment.
pub open spec fn with_header(lines: Seq<Seq<char>>) -> Seq<Seq<char>> {
    if lines.len() > 0 && !is_comment(lines[0]) {
        header() + lines
    } else {
        lines
    }
}

/// The lines of the manifest as it stands: none when there is no manifest.
pub open spec fn existing_lines(existing: Option<Seq<char>>) -> Seq<Seq<char>> {
    match existing {
        Some(text) => lines_of(text),
        None => Seq::<Seq<char>>::empty(),
    }
}

/// The text of the manifest as it stands: empty when there is no manifest.
pub open spec fn existing_text(existing: Option<Seq<char>>) -> Seq<char> {
    match existing {
        Some(text) => text,
        None => Seq::<char>::empty(),
    }
}

/// What merging `files` into the manifest gives: the text of the manifest
/// afterwards, and whether it differs from what was there. The manifest
/// changes exactly when some file has an entry that no existing line equals;
/// the new text then holds the existing lines, followed by those entries,
/// under the header.
pub open spec fn merge_result(
    existing: Option<Seq<char>>,
    files: Seq<Seq<char>>,
    root: Seq<char>,
    sep: char,
) -> (Seq<char>, bool) {
    let old = existing_lines(existing);
    let fresh = fresh_entries(old, entries_for(files, root, sep));
    if fresh.len() == 0 {
        (existing_text(existing), false)
    } else {
        (rendered(with_header(old + fresh)), true)
    }
}

/// The characters of the manifest text, where there is one.
pub open spec fn text_view(existing: Option<&str>) -> Option<Seq<char>> {
    match existing {
        Some(text) => Some(text@),
        None => None,
    }
}

/// What a merge found: the text the manifest should hold, and whether that
/// differs from what it holds now (only then is there anything to write).
pub struct MergeOutcome {
    pub text: String,
    pub changed: bool,
}

/// Tells whether a line starts with the comment marker.
pub fn starts_comment(line: &str) -> (b: bool)
    ensures
        b == is_comment(line@),
{
    line.unicode_len() > 0 && line.get_char(0) == '#'
}

/// The header, as lines.
pub fn header_lines() -> (out: Vec<String>)
    ensures
        views(out@) == header(),
{
    let mut out: Vec<String> = Vec::new();
    out.push(String::from_str("# .sotaignore file generated by sota staircase ReStepper/SideStepper"));
    out.push(String::from_str("# anything here either can't or shouldn't be uploaded to GitHub"));
    out.push(String::from_str("# unless you know what you're doing, don't edit this file! >:("));
    proof {
        assert(views(out@) == header());
    }
    out
}

/// Tells whether some line equals `entry`, character for character.
pub fn has_line(lines: &Vec<String>, entry: &String) -> (b: bool)
    ensures
        b == views(lines@).contains(entry@),
{
    let mut i: usize = 0;
    while i < lines.len()
        invariant
            i <= lines.len(),
            forall|j: int| 0 <= j < i ==> views(lines@)[j] != entry@,
        decreases lines.len() - i,
    {
        if lines[i] == *entry {
            proof {
                assert(views(lines@)[i as int] == entry@);
            }
            return true;
        }
        i += 1;
    }
    false
}

/// The manifest entries for `files`: see [`entries_for`].
pub fn normalize_entries(files: &Vec<String>, root: &str, sep: char) -> (out: Vec<String>)
    ensures
        views(out@) == entries_for(views(files@), root@, sep),
{
    let mut out: Vec<String> = Vec::new();
    let mut i: usize = 0;
    while i < files.len()
        invariant
            i <= files.len(),
            views(out@) == entries_for(views(files@).take(i as int), root@, sep),
        decreases files.len() - i,
    {
        proof {
            let upto = views(files@).take(i as int + 1);
            assert(upto.drop_last() == views(files@).take(i as int));
            assert(upto.last() == files@[i as int]@);
        }
        let ghost before = out@;
        match relative_path(files[i].as_str(), root, sep) {
            Some(rel) => {
                let entry = to_posix(rel.as_str(), sep);
                out.push(entry);
                proof {
                    assert(views(out@) == views(before).push(entry@));
                }
            },
            None => {},
        }
        i += 1;
    }
    proof {
        assert(views(files@).take(i as int) == views(files@));
    }
    out
}

/// The entries that no line of `old` equals, in their order.
pub fn select_fresh(old: &Vec<String>, entries: &Vec<String>) -> (out: Vec<String>)
    ensures
        views(out@) == fresh_entries(views(old@), views(entries@)),
{
    let ghost pred = |e: Seq<char>| !views(old@).contains(e);
    let mut out: Vec<String> = Vec::new();
    let mut i: usize = 0;
    proof {
        reveal(Seq::filter);
    }
    while i < entries.len()
        invariant
            i <= entries.len(),
            pred == |e: Seq<char>| !views(old@).contains(e),
            views(out@) == views(entries@).take(i as int).filter(pred),
        decreases entries.len() - i,
    {
        proof {
            reveal(Seq::filter);
            let upto = views(entries@).take(i as int + 1);
            assert(upto.drop_last() == views(entries@).take(i as int));
            assert(upto.last() == entries@[i as int]@);
        }
        let ghost before = out@;
        if !has_line(old, &entries[i]) {
            out.push(entries[i].clone());
            proof {
                assert(views(out@) == views(before).push(entries@[i as int]@));
            }
        }
        i += 1;
    }
    proof {
        assert(views(entries@).take(i as int) == views(entries@));
    }
    out
}

/// Merges the oversized files into the manifest. `existing` is the text of
/// the manifest, or `None` when there is none yet. Nothing is rejected: any
/// text is a manifest.
pub fn merge(existing: Option<&str>, large_files: &Vec<String>, root: &str, sep: char) -> (out:
    MergeOutcome)
    ensures
        out.text@ == merge_result(text_view(existing), views(large_files@), root@, sep).0,
        out.changed == merge_result(text_view(existing), views(large_files@), root@, sep).1,
{
    let mut lines: Vec<String> = match existing {
        Some(text) => split_lines(text),
        None => Vec::new(),
    };
    let entries = normalize_entries(large_files, root, sep);
    let mut fresh = select_fresh(&lines, &entries);
    proof {
        assert(views(lines@) == existing_lines(text_view(existing)));
        assert(views(fresh@).len() == fresh.len());
    }
    if fresh.len() == 0 {
        let text = match existing {
            Some(text) => String::from_str(text),
            None => String::new(),
        };
        return MergeOutcome { text, changed: false };
    }
    let ghost old = views(lines@);
    let ghost added = views(fresh@);
    lines.append(&mut fresh);
    proof {
        assert(views(lines@) == old + added);
    }
    if !starts_comment(lines[0].as_str()) {
        let mut all = header_lines();
        all.append(&mut lines);
        proof {
            assert(views(all@) == header() + (old + added));
        }
        lines = all;
    }
    MergeOutcome { text: render_lines(&lines), changed: true }
}

} // verus!
