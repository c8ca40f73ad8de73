//! Where the result of a run goes: into the manifest, or, for other
//! programs to read, out as plain lines that leave the manifest alone.

use vstd::prelude::*;
use crate::config::Behaviour;
use crate::manifest::{merge, merge_result, text_view};
use crate::paths::{lies_under, relative_path, relative_to};
use crate::text::views;

verus! {

/// What a run has to put out.
pub enum Output {
    /// Nothing: there is nothing new.
    Nothing,
    /// The manifest is to be overwritten with this text, whole.
    Manifest(String),
    /// These lines go to the primary output stream, one path each.
    Lines(Vec<String>),
}

/// What an output says, with its texts as characters.
pub enum Planned {
    Nothing,
    Manifest(Seq<char>),
    Lines(Seq<Seq<char>>),
}

impl View for Output {
    type V = Planned;

    open spec fn view(&self) -> Planned {
        match self {
            Output::Nothing => Planned::Nothing,
            Output::Manifest(text) => Planned::Manifest(text@),
            Output::Lines(lines) => Planned::Lines(views(lines@)),
        }
    }
}

/// The files that lie under `root`, in their order, each written relative
/// to `root` in the host's own form.
pub open spec fn native_entries(files: Seq<Seq<char>>, root: Seq<char>, sep: char) -> Seq<Seq<char>>
    decreases files.len(),
{
    if files.len() == 0 {
        Seq::<Seq<char>>::empty()
    } else {
        let before = native_entries(files.drop_last(), root, sep);
        match relative_to(files.last(), root, sep) {
            Some(rel) => before.push(rel),
            None => before,
        }
    }
}

/// What a run puts out. In plumbing mode the manifest plays no part: the
/// large files go out as lines, if there are any. Otherwise they are merged
/// into the manifest, which is written if that changes it.
pub open spec fn planned(
    plumbing: bool,
    existing: Option<Seq<char>>,
    files: Seq<Seq<char>>,
    root: Seq<char>,
    sep: char,
) -> Planned {
    if plumbing {
        let lines = native_entries(files, root, sep);
        if lines.len() == 0 {
            Planned::Nothing
        } else {
            Planned::Lines(lines)
        }
    } else {
        let merged = merge_result(existing, files, root, sep);
        if merged.1 {
            Planned::Manifest(merged.0)
        } else {
            Planned::Nothing
        }
    }
}

/// The lines for plumbing mode: see [`native_entries`].
pub fn plumbing_lines(files: &Vec<String>, root: &str, sep: char) -> (out: Vec<String>)
    ensures
        views(out@) == native_entries(views(files@), root@, sep),
{
    let mut out: Vec<String> = Vec::new();
    let mut i: usize = 0;
    while i < files.len()
        invariant
            i <= files.len(),
            views(out@) == native_entries(views(files@).take(i as int), root@, sep),
        decreases files.len() - i,
    {
        proof {
            let upto = views(files@).take(i as int + 1);
            assert(upto.drop_last() == views(files@).take(i as int));
            assert(upto.last() == files@[i as int]@);
        }
        let ghost before = out@;
        match relative_path(files[i].as_str(), root, sep) {
            Some(rel) => {
                out.push(rel);
                proof {
                    assert(views(out@) == views(before).push(rel@));
                }
            },
            None => {},
        }
        i += 1;
    }
    proof {
        assert(views(files@).take(i as int) == views(files@));
    }
    out
}

/// Decides what a run puts out for the large files it found. `existing` is
/// the text of the manifest, `None` when there is none; in plumbing mode it
/// is not looked at.
pub fn plan_output(behaviour: &Behaviour, existing: Option<&str>, large_files: &Vec<String>) -> (out:
    Output)
    ensures
        out@ == planned(
            behaviour.plumbing,
            text_view(existing),
            views(large_files@),
            behaviour.repo_dir_path@,
            behaviour.separator,
        ),
{
    if behaviour.plumbing {
        let lines = plumbing_lines(large_files, behaviour.repo_dir_path.as_str(), behaviour.separator);
        if lines.len() == 0 {
            Output::Nothing
        } else {
            Output::Lines(lines)
        }
    } else {
        let merged = merge(
            existing,
            large_files,
            behaviour.repo_dir_path.as_str(),
            behaviour.separator,
        );
        if merged.changed {
            Output::Manifest(merged.text)
        } else {
            Output::Nothing
        }
    }
}

/// Tells whether a run has put anything out.
pub fn has_changed(out: &Output) -> (changed: bool)
    ensures
        changed == !(out@ is Nothing),
{
    match out {
        Output::Nothing => false,
        _ => true,
    }
}

/// Plumbing mode gives one line for each file under the root, and no line
/// for any other: as many lines as there are such files.
pub proof fn lemma_one_line_per_file(files: Seq<Seq<char>>, root: Seq<char>, sep: char)
    ensures
        native_entries(files, root, sep).len() == files.filter(
            |f: Seq<char>| lies_under(f, root, sep),
        ).len(),
        (forall|i: int| 0 <= i < files.len() ==> lies_under(#[trigger] files[i], root, sep)) ==> {
            &&& native_entries(files, root, sep).len() == files.len()
            &&& forall|i: int|
                0 <= i < files.len() ==> Some(#[trigger] native_entries(files, root, sep)[i])
                    == relative_to(files[i], root, sep)
        },
    decreases files.len(),
{
    reveal(Seq::filter);
    if files.len() > 0 {
        let rest = files.drop_last();
        lemma_one_line_per_file(rest, root, sep);
        if forall|i: int| 0 <= i < files.len() ==> lies_under(#[trigger] files[i], root, sep) {
            assert forall|i: int| 0 <= i < rest.len() implies lies_under(
                #[trigger] rest[i],
                root,
                sep,
            ) by {
                assert(rest[i] == files[i]);
            }
            assert(lies_under(files[files.len() - 1], root, sep));
            assert forall|i: int| 0 <= i < files.len() implies Some(
                #[trigger] native_entries(files, root, sep)[i],
            ) == relative_to(files[i], root, sep) by {
                if i < rest.len() {
                    assert(native_entries(files, root, sep)[i] == native_entries(rest, root, sep)[i]);
                    assert(rest[i] == files[i]);
                }
            }
        }
    }
}

/// Plumbing mode leaves the manifest alone: what it puts out is never a
/// manifest to write, and does not depend on whether there is a manifest or
/// on what it holds.
pub proof fn lemma_plumbing_ignores_manifest(
    existing: Option<Seq<char>>,
    other: Option<Seq<char>>,
    files: Seq<Seq<char>>,
    root: Seq<char>,
    sep: char,
)
    ensures
        !(planned(true, existing, files, root, sep) is Manifest),
        planned(true, existing, files, root, sep) == planned(true, other, files, root, sep),
        planned(true, existing, files, root, sep) matches Planned::Lines(lines) ==> lines
            == native_entries(files, root, sep),
        !(planned(false, existing, files, root, sep) is Lines),
{
}

} // verus!
