//! Sorting files by size: a file is large when its length reaches the
//! threshold. A file whose length could not be read is left out.

use vstd::prelude::*;
use crate::text::views;

verus! {

/// A candidate file and its length in bytes, `None` when the length could
/// not be read.
pub struct SizeProbe {
    pub path: String,
    pub length: Option<u64>,
}

/// A file whose length is known, with the verdict on it.
pub struct ClassifiedFile {
    pub path: String,
    pub length: u64,
    pub is_large: bool,
}

/// What a classified file says, with its path as characters.
pub struct Classified {
    pub path: Seq<char>,
    pub length: u64,
    pub is_large: bool,
}

impl View for ClassifiedFile {
    type V = Classified;

    open spec fn view(&self) -> Classified {
        Classified { path: self.path@, length: self.length, is_large: self.is_large }
    }
}

/// A file is large when its length is the threshold or more.
pub open spec fn is_large(length: u64, threshold: u64) -> bool {
    length >= threshold
}

/// The large files among `probes`, in their order: those whose length is
/// known and reaches the threshold.
pub open spec fn large_among(probes: Seq<SizeProbe>, threshold: u64) -> Seq<Classified>
    decreases probes.len(),
{
    if probes.len() == 0 {
        Seq::<Classified>::empty()
    } else {
        let before = large_among(probes.drop_last(), threshold);
        match probes.last().length {
            Some(length) if is_large(length, threshold) => before.push(
                Classified { path: probes.last().path@, length, is_large: true },
            ),
            _ => before,
        }
    }
}

/// The views of classified files.
pub open spec fn classified_views(files: Seq<ClassifiedFile>) -> Seq<Classified> {
    files.map_values(|f: ClassifiedFile| f@)
}

/// The paths of classified files.
pub open spec fn classified_paths(files: Seq<Classified>) -> Seq<Seq<char>> {
    files.map_values(|f: Classified| f.path)
}

/// Annotates a file of known length with the verdict on it.
pub fn classify_file(path: &str, length: u64, threshold: u64) -> (out: ClassifiedFile)
    ensures
        out@ == (Classified { path: path@, length, is_large: is_large(length, threshold) }),
{
    ClassifiedFile { path: String::from_str(path), length, is_large: length >= threshold }
}

/// Picks the large files, in the order given. A probe without a length is
/// passed over; it is no error.
pub fn classify(probes: &Vec<SizeProbe>, threshold: u64) -> (out: Vec<ClassifiedFile>)
    ensures
        classified_views(out@) == large_among(probes@, threshold),
{
    let mut out: Vec<ClassifiedFile> = Vec::new();
    let mut i: usize = 0;
    while i < probes.len()
        invariant
            i <= probes.len(),
            classified_views(out@) == large_among(probes@.take(i as int), threshold),
        decreases probes.len() - i,
    {
        proof {
            assert(probes@.take(i as int + 1).drop_last() == probes@.take(i as int));
        }
        let ghost before = out@;
        match probes[i].length {
            Some(length) => {
                let file = classify_file(probes[i].path.as_str(), length, threshold);
                if file.is_large {
                    out.push(file);
                    proof {
                        assert(classified_views(out@) == classified_views(before).push(file@));
                    }
                }
            },
            None => {},
        }
        i += 1;
    }
    proof {
        assert(probes@.take(i as int) == probes@);
    }
    out
}

/// The paths of the given files, in their order.
pub fn paths_of(files: &Vec<ClassifiedFile>) -> (out: Vec<String>)
    ensures
        views(out@) == classified_paths(classified_views(files@)),
{
    let mut out: Vec<String> = Vec::new();
    let mut i: usize = 0;
    while i < files.len()
        invariant
            i <= files.len(),
            views(out@) == classified_paths(classified_views(files@)).take(i as int),
        decreases files.len() - i,
    {
        let ghost before = out@;
        let path = files[i].path.clone();
        out.push(path);
        proof {
            let all = classified_paths(classified_views(files@));
            assert(all[i as int] == files@[i as int].path@);
            assert(views(out@) == views(before).push(path@));
            assert(all.take(i as int + 1) == all.take(i as int).push(all[i as int]));
        }
        i += 1;
    }
    proof {
        let all = classified_paths(classified_views(files@));
        assert(all.take(i as int) == all);
    }
    out
}

/// The threshold is inclusive: a file of exactly the threshold is large, and
/// a file one byte short of it is not.
pub proof fn lemma_threshold_inclusive(threshold: u64)
    ensures
        is_large(threshold, threshold),
        threshold > 0 ==> !is_large((threshold - 1) as u64, threshold),
{
}

/// Every file that `classify` gives is large, has a length that reaches the
/// threshold, and was among the probes with that length.
pub proof fn lemma_large_are_large(probes: Seq<SizeProbe>, threshold: u64)
    ensures
        forall|j: int|
            0 <= j < large_among(probes, threshold).len() ==> {
                let f = #[trigger] large_among(probes, threshold)[j];
                &&& f.is_large
                &&& f.length >= threshold
                &&& exists|i: int|
                    0 <= i < probes.len() && probes[i].path@ == f.path && probes[i].length == Some(
                        f.length,
                    )
            },
    decreases probes.len(),
{
    if probes.len() > 0 {
        let rest = probes.drop_last();
        lemma_large_are_large(rest, threshold);
        let all = large_among(probes, threshold);
        let before = large_among(rest, threshold);
        assert forall|j: int| 0 <= j < all.len() implies {
            let f = #[trigger] all[j];
            &&& f.is_large
            &&& f.length >= threshold
            &&& exists|i: int|
                0 <= i < probes.len() && probes[i].path@ == f.path && probes[i].length == Some(
                    f.length,
                )
        } by {
            let f = all[j];
            if j < before.len() {
                assert(f == before[j]);
                let i = choose|i: int|
                    0 <= i < rest.len() && rest[i].path@ == f.path && rest[i].length == Some(
                        f.length,
                    );
                assert(probes[i] == rest[i]);
            } else {
                assert(probes[probes.len() - 1].path@ == f.path);
            }
        }
    }
}

} // verus!
