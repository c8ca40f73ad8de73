//! Walking a project tree under its ignore rules. The walker decides; its
//! caller reads the directories. The walker names a directory to read and is
//! fed what was found there: it prunes what the rules leave out, keeps the
//! regular files, and queues the directories that remain. Rule files are
//! layered as a stack: a directory's rules are pushed when it is entered and
//! dropped again when its subtree is done.

use vstd::prelude::*;
use crate::matcher::{layer_views, rule_lines_of, status_of, Layer, RuleLayer, Status};
use crate::paths::{
    child_path, join_child, lemma_child_stays_under, lemma_lies_under_itself, lies_under,
};
use crate::text::views;

verus! {

/// What kind of thing a directory entry is. A symbolic link is its own kind,
/// whatever it points to.
#[derive(Clone, Copy, Debug, PartialEq, Eq, Structural)]
pub enum EntryKind {
    File,
    Directory,
    Symlink,
    Other,
}

/// What looking at one directory entry gave: the entry, or nothing because
/// it could not be read.
pub enum Probe {
    Entry { name: String, kind: EntryKind },
    Unreadable,
}

/// What reading a directory gave: the text of its rule file, if it has one,
/// and its entries; or nothing because the directory could not be read.
pub enum Listing {
    Entries { rules: Option<String>, probes: Vec<Probe> },
    Unreadable,
}

/// What the walker wants next: a directory read, or nothing more.
pub enum Action {
    Read(String),
    Finished,
}

/// The state of a walk. `pending` holds the directories still to be read,
/// the next one last, each with the number of rule layers that apply to it.
pub struct WalkState {
    pub root: Seq<char>,
    pub sep: char,
    pub layers: Seq<Layer>,
    pub pending: Seq<Seq<char>>,
    pub depths: Seq<nat>,
    pub current: Option<Seq<char>>,
    pub found: Seq<Seq<char>>,
}

/// Holds of a path that the rules in force keep.
pub open spec fn admitted(layers: Seq<Layer>, root: Seq<char>, path: Seq<char>, is_dir: bool, sep: char) -> bool {
    status_of(layers, root, path, is_dir, sep) == Status::Included
}

/// Holds of a path that is not empty and lies under `root`.
pub open spec fn inside(path: Seq<char>, root: Seq<char>, sep: char) -> bool {
    path.len() > 0 && lies_under(path, root, sep)
}

/// The path of an entry of `dir` that the walk goes on with: a directory to
/// descend into (`dirs`), or a regular file to yield (not `dirs`), if the
/// rules keep it. Links, special files and unreadable entries give nothing.
pub open spec fn kept_child(
    layers: Seq<Layer>,
    root: Seq<char>,
    sep: char,
    dir: Seq<char>,
    probe: Probe,
    dirs: bool,
) -> Option<Seq<char>> {
    match probe {
        Probe::Entry { name, kind } => {
            let child = child_path(dir, name@, sep);
            let wanted = if dirs {
                kind == EntryKind::Directory
            } else {
                kind == EntryKind::File
            };
            if wanted && admitted(layers, root, child, dirs, sep) {
                Some(child)
            } else {
                None
            }
        },
        Probe::Unreadable => None,
    }
}

/// The entries of `dir` that the walk goes on with, in their order: see
/// [`kept_child`].
pub open spec fn survivors(
    layers: Seq<Layer>,
    root: Seq<char>,
    sep: char,
    dir: Seq<char>,
    probes: Seq<Probe>,
    dirs: bool,
) -> Seq<Seq<char>>
    decreases probes.len(),
{
    if probes.len() == 0 {
        Seq::<Seq<char>>::empty()
    } else {
        let before = survivors(layers, root, sep, dir, probes.drop_last(), dirs);
        match kept_child(layers, root, sep, dir, probes.last(), dirs) {
            Some(child) => before.push(child),
            None => before,
        }
    }
}

/// The state after the walker has picked the next directory: the last one
/// pending, with the rule layers cut back to those that apply to it.
pub open spec fn after_next(s: WalkState) -> WalkState {
    if s.pending.len() == 0 {
        WalkState { current: None, ..s }
    } else {
        WalkState {
            layers: if s.depths.last() <= s.layers.len() {
                s.layers.take(s.depths.last() as int)
            } else {
                s.layers
            },
            pending: s.pending.drop_last(),
            depths: s.depths.drop_last(),
            current: Some(s.pending.last()),
            ..s
        }
    }
}

/// The rule layers in force inside the directory `dir` that has the given
/// listing: those in force for `dir` itself, and above them the rules of
/// its own rule file.
pub open spec fn layers_inside(layers: Seq<Layer>, dir: Seq<char>, rules: Option<String>) -> Seq<Layer> {
    match rules {
        Some(text) => layers.push(Layer { base: dir, lines: rule_lines_of(text@) }),
        None => layers,
    }
}

/// The state after the walker was fed the listing of the directory it asked
/// for. With no directory asked for, the listing is ignored.
pub open spec fn after_feed(s: WalkState, listing: Listing) -> WalkState {
    match s.current {
        None => s,
        Some(dir) => match listing {
            Listing::Unreadable => WalkState { current: None, ..s },
            Listing::Entries { rules, probes } => {
                let layers = layers_inside(s.layers, dir, rules);
                let dirs = survivors(layers, s.root, s.sep, dir, probes@, true);
                let files = survivors(layers, s.root, s.sep, dir, probes@, false);
                WalkState {
                    layers,
                    pending: s.pending + dirs,
                    depths: s.depths + Seq::new(dirs.len(), |i: int| layers.len()),
                    current: None,
                    found: s.found + files,
                    ..s
                }
            },
        },
    }
}

/// What holds of every state of a walk. Each pending directory carries a
/// depth within the layer stack, and depths never fall towards the top, so
/// cutting the stack back for one directory keeps the layers of those below
/// it. Each pending directory but the root is kept by the rules that apply
/// to it. And with a root that is not empty, everything the walk touches
/// lies under the root.
pub open spec fn well_formed(s: WalkState) -> bool {
    &&& s.pending.len() == s.depths.len()
    &&& forall|k: int| 0 <= k < s.depths.len() ==> #[trigger] s.depths[k] <= s.layers.len()
    &&& forall|j: int, k: int| 0 <= j <= k < s.depths.len() ==> s.depths[j] <= s.depths[k]
    &&& forall|k: int|
        0 <= k < s.pending.len() ==> #[trigger] s.pending[k] == s.root || admitted(
            s.layers.take(s.depths[k] as int),
            s.root,
            s.pending[k],
            true,
            s.sep,
        )
    &&& s.root.len() > 0 ==> {
        &&& forall|k: int| 0 <= k < s.pending.len() ==> inside(#[trigger] s.pending[k], s.root, s.sep)
        &&& forall|k: int| 0 <= k < s.found.len() ==> inside(#[trigger] s.found[k], s.root, s.sep)
        &&& s.current matches Some(dir) ==> inside(dir, s.root, s.sep)
    }
}

/// The state in which a walk of `root` starts.
pub open spec fn start_state(root: Seq<char>, sep: char, layers: Seq<Layer>) -> WalkState {
    WalkState {
        root,
        sep,
        layers,
        pending: seq![root],
        depths: seq![layers.len()],
        current: None,
        found: Seq::<Seq<char>>::empty(),
    }
}

/// Every survivor is the path of an entry of the wanted kind that the rules
/// keep; and under a directory inside the root, it is inside the root.
pub proof fn lemma_survivors_are_kept(
    layers: Seq<Layer>,
    root: Seq<char>,
    sep: char,
    dir: Seq<char>,
    probes: Seq<Probe>,
    dirs: bool,
)
    ensures
        forall|j: int|
            0 <= j < survivors(layers, root, sep, dir, probes, dirs).len() ==> {
                let path = #[trigger] survivors(layers, root, sep, dir, probes, dirs)[j];
                &&& admitted(layers, root, path, dirs, sep)
                &&& inside(dir, root, sep) ==> inside(path, root, sep)
                &&& exists|i: int|
                    0 <= i < probes.len() && kept_child(layers, root, sep, dir, probes[i], dirs)
                        == Some(path)
            },
    decreases probes.len(),
{
    if probes.len() > 0 {
        let rest = probes.drop_last();
        lemma_survivors_are_kept(layers, root, sep, dir, rest, dirs);
        let all = survivors(layers, root, sep, dir, probes, dirs);
        let before = survivors(layers, root, sep, dir, rest, dirs);
        assert forall|j: int| 0 <= j < all.len() implies {
            let path = #[trigger] all[j];
            &&& admitted(layers, root, path, dirs, sep)
            &&& inside(dir, root, sep) ==> inside(path, root, sep)
            &&& exists|i: int|
                0 <= i < probes.len() && kept_child(layers, root, sep, dir, probes[i], dirs)
                    == Some(path)
        } by {
            let path = all[j];
            if j < before.len() {
                assert(path == before[j]);
                let i = choose|i: int|
                    0 <= i < rest.len() && kept_child(layers, root, sep, dir, rest[i], dirs)
                        == Some(path);
                assert(probes[i] == rest[i]);
            } else {
                let i = probes.len() - 1;
                assert(kept_child(layers, root, sep, dir, probes[i], dirs) == Some(path));
                if inside(dir, root, sep) {
                    match probes[i] {
                        Probe::Entry { name, kind } => {
                            lemma_child_stays_under(dir, name@, root, sep);
                        },
                        Probe::Unreadable => {},
                    }
                }
            }
        }
    }
}

/// An entry that the rules leave out is pruned: its path is not among the
/// directories to descend into (`dirs`), nor among the files to yield (not
/// `dirs`).
pub proof fn lemma_excluded_is_pruned(
    layers: Seq<Layer>,
    root: Seq<char>,
    sep: char,
    dir: Seq<char>,
    probes: Seq<Probe>,
    i: int,
    dirs: bool,
)
    requires
        0 <= i < probes.len(),
        probes[i] matches Probe::Entry { name, kind } && !admitted(
            layers,
            root,
            child_path(dir, name@, sep),
            dirs,
            sep,
        ),
    ensures
        probes[i] matches Probe::Entry { name, kind } && !survivors(
            layers,
            root,
            sep,
            dir,
            probes,
            dirs,
        ).contains(child_path(dir, name@, sep)),
{
    lemma_survivors_are_kept(layers, root, sep, dir, probes, dirs);
}

/// A walk starts well formed.
pub proof fn lemma_start_is_well_formed(root: Seq<char>, sep: char, layers: Seq<Layer>)
    ensures
        well_formed(start_state(root, sep, layers)),
{
    let s = start_state(root, sep, layers);
    if root.len() > 0 {
        lemma_lies_under_itself(root, sep);
        assert(inside(s.pending[0], root, sep));
    }
}

/// Picking the next directory keeps the state well formed, and the
/// directory picked is the root or one that the rules now in force keep:
/// a directory that the rules leave out is never read.
pub proof fn lemma_next_preserves(s: WalkState)
    requires
        well_formed(s),
    ensures
        well_formed(after_next(s)),
        after_next(s).current matches Some(dir) ==> dir == s.root || admitted(
            after_next(s).layers,
            s.root,
            dir,
            true,
            s.sep,
        ),
{
    let t = after_next(s);
    if s.pending.len() > 0 {
        let d = s.depths.last();
        assert(s.depths[s.depths.len() - 1] == d);
        assert(s.pending[s.pending.len() - 1] == s.pending.last());
        assert forall|k: int| 0 <= k < t.pending.len() implies #[trigger] t.pending[k] == t.root
            || admitted(t.layers.take(t.depths[k] as int), t.root, t.pending[k], true, t.sep) by {
            assert(t.pending[k] == s.pending[k]);
            assert(t.depths[k] == s.depths[k]);
            assert(s.depths[k] <= d);
            assert(t.layers.take(t.depths[k] as int) == s.layers.take(s.depths[k] as int));
        }
        assert forall|k: int| 0 <= k < t.depths.len() implies #[trigger] t.depths[k]
            <= t.layers.len() by {
            assert(t.depths[k] == s.depths[k]);
            assert(s.depths[k] <= d);
        }
        assert(s.layers.take(d as int).take(d as int) == s.layers.take(d as int));
        if s.root.len() > 0 {
            assert forall|k: int| 0 <= k < t.pending.len() implies inside(
                #[trigger] t.pending[k],
                t.root,
                t.sep,
            ) by {
                assert(t.pending[k] == s.pending[k]);
            }
        }
    }
}

/// Feeding a listing keeps the state well formed.
pub proof fn lemma_feed_preserves(s: WalkState, listing: Listing)
    requires
        well_formed(s),
    ensures
        well_formed(after_feed(s, listing)),
{
    let t = after_feed(s, listing);
    match s.current {
        None => {},
        Some(dir) => match listing {
            Listing::Unreadable => {},
            Listing::Entries { rules, probes } => {
                let layers = layers_inside(s.layers, dir, rules);
                let dirs = survivors(layers, s.root, s.sep, dir, probes@, true);
                let files = survivors(layers, s.root, s.sep, dir, probes@, false);
                lemma_survivors_are_kept(layers, s.root, s.sep, dir, probes@, true);
                lemma_survivors_are_kept(layers, s.root, s.sep, dir, probes@, false);
                let n = s.pending.len();
                assert forall|k: int| 0 <= k < t.depths.len() implies #[trigger] t.depths[k]
                    <= t.layers.len() by {
                    if k < n {
                        assert(t.depths[k] == s.depths[k]);
                    }
                }
                assert forall|j: int, k: int| 0 <= j <= k < t.depths.len() implies t.depths[j]
                    <= t.depths[k] by {
                    if k < n {
                        assert(t.depths[j] == s.depths[j] && t.depths[k] == s.depths[k]);
                    } else if j < n {
                        assert(t.depths[j] == s.depths[j]);
                    }
                }
                assert forall|k: int| 0 <= k < t.pending.len() implies #[trigger] t.pending[k]
                    == t.root || admitted(
                    t.layers.take(t.depths[k] as int),
                    t.root,
                    t.pending[k],
                    true,
                    t.sep,
                ) by {
                    if k < n {
                        assert(t.pending[k] == s.pending[k]);
                        assert(t.depths[k] == s.depths[k]);
                        assert(t.layers.take(t.depths[k] as int) == s.layers.take(
                            s.depths[k] as int,
                        ));
                    } else {
                        assert(t.pending[k] == dirs[k - n]);
                        assert(t.layers.take(t.depths[k] as int) == layers);
                    }
                }
                if s.root.len() > 0 {
                    assert forall|k: int| 0 <= k < t.pending.len() implies inside(
                        #[trigger] t.pending[k],
                        t.root,
                        t.sep,
                    ) by {
                        if k < n {
                            assert(t.pending[k] == s.pending[k]);
                        } else {
                            assert(t.pending[k] == dirs[k - n]);
                        }
                    }
                    assert forall|k: int| 0 <= k < t.found.len() implies inside(
                        #[trigger] t.found[k],
                        t.root,
                        t.sep,
                    ) by {
                        if k < s.found.len() {
                            assert(t.found[k] == s.found[k]);
                        } else {
                            assert(t.found[k] == files[k - s.found.len()]);
                        }
                    }
                }
            },
        },
    }
}

/// A directory still to be read, with the number of rule layers that
/// apply to it.
pub struct Pending {
    pub path: String,
    pub depth: usize,
}

/// The paths of pending directories.
pub open spec fn pending_paths(pending: Seq<Pending>) -> Seq<Seq<char>> {
    pending.map_values(|p: Pending| p.path@)
}

/// The depths of pending directories.
pub open spec fn pending_depths(pending: Seq<Pending>) -> Seq<nat> {
    pending.map_values(|p: Pending| p.depth as nat)
}

/// The path of the directory that was asked for, if one was.
pub open spec fn current_view(current: Option<String>) -> Option<Seq<char>> {
    match current {
        Some(dir) => Some(dir@),
        None => None,
    }
}

/// A walk in progress.
pub struct Walker {
    root: String,
    sep: char,
    layers: Vec<RuleLayer>,
    pending: Vec<Pending>,
    current: Option<String>,
    found: Vec<String>,
}

impl View for Walker {
    type V = WalkState;

    closed spec fn view(&self) -> WalkState {
        WalkState {
            root: self.root@,
            sep: self.sep,
            layers: layer_views(self.layers@),
            pending: pending_paths(self.pending@),
            depths: pending_depths(self.pending@),
            current: current_view(self.current),
            found: views(self.found@),
        }
    }
}

impl Walker {
    /// Starts a walk of the tree at `root`. `layers` are the rules that hold
    /// before any rule file of the tree is read, the weakest first.
    pub fn new(root: &str, sep: char, layers: Vec<RuleLayer>) -> (walker: Walker)
        ensures
            walker@ == start_state(root@, sep, layer_views(layers@)),
            well_formed(walker@),
    {
        let mut pending: Vec<Pending> = Vec::new();
        pending.push(Pending { path: String::from_str(root), depth: layers.len() });
        let walker = Walker {
            root: String::from_str(root),
            sep,
            layers,
            pending,
            current: None,
            found: Vec::new(),
        };
        proof {
            let s = start_state(root@, sep, layer_views(layers@));
            assert(walker@.pending == s.pending);
            assert(walker@.depths == s.depths);
            assert(walker@.found == s.found);
            lemma_start_is_well_formed(root@, sep, layer_views(layers@));
        }
        walker
    }

    /// Picks the directory to read next, or says that the walk is done. The
    /// directory picked is the root or one that the rules in force keep.
    pub fn next(&mut self) -> (action: Action)
        ensures
            final(self)@ == after_next(old(self)@),
            well_formed(old(self)@) ==> well_formed(final(self)@),
            match action {
                Action::Read(path) => old(self)@.pending.len() > 0 && final(self)@.current == Some(
                    path@,
                ),
                Action::Finished => old(self)@.pending.len() == 0,
            },
            well_formed(old(self)@) ==> (action matches Action::Read(path) ==> {
                let t = final(self)@;
                path@ == t.root || admitted(t.layers, t.root, path@, true, t.sep)
            }),
    {
        proof {
            if well_formed(self@) {
                lemma_next_preserves(self@);
            }
        }
        let ghost before = self@;
        if self.pending.len() == 0 {
            self.current = None;
            return Action::Finished;
        }
        let top = self.pending.pop().unwrap();
        self.layers.truncate(top.depth);
        let out = top.path.clone();
        self.current = Some(top.path);
        proof {
            let after = after_next(before);
            assert(self@.pending == after.pending);
            assert(self@.depths == after.depths);
            assert(before.depths.last() == top.depth as nat);
            assert(before.pending.last() == top.path@);
            assert(self@.layers == after.layers);
        }
        Action::Read(out)
    }

    /// Takes in what reading the directory picked by `next` gave.
    pub fn feed(&mut self, listing: &Listing)
        ensures
            final(self)@ == after_feed(old(self)@, *listing),
            well_formed(old(self)@) ==> well_formed(final(self)@),
    {
        proof {
            if well_formed(self@) {
                lemma_feed_preserves(self@, *listing);
            }
        }
        let ghost before = self@;
        let dir: String = match &self.current {
            Some(dir) => dir.clone(),
            None => {
                return ;
            },
        };
        self.current = None;
        match listing {
            Listing::Unreadable => {},
            Listing::Entries { rules, probes } => {
                match rules {
                    Some(text) => {
                        let layer = RuleLayer::from_text(dir.as_str(), text.as_str());
                        self.layers.push(layer);
                        proof {
                            assert(layer_views(self.layers@) == before.layers.push(layer@));
                        }
                    },
                    None => {},
                }
                let depth = self.layers.len();
                let ghost layers = layers_inside(before.layers, dir@, *rules);
                let mut i: usize = 0;
                while i < probes.len()
                    invariant
                        i <= probes.len(),
                        depth == layers.len(),
                        self.root@ == before.root,
                        self.sep == before.sep,
                        layer_views(self.layers@) == layers,
                        self.current is None,
                        pending_paths(self.pending@) == before.pending + survivors(
                            layers,
                            before.root,
                            before.sep,
                            dir@,
                            probes@.take(i as int),
                            true,
                        ),
                        pending_depths(self.pending@) == before.depths + Seq::new(
                            survivors(
                                layers,
                                before.root,
                                before.sep,
                                dir@,
                                probes@.take(i as int),
                                true,
                            ).len(),
                            |k: int| layers.len(),
                        ),
                        views(self.found@) == before.found + survivors(
                            layers,
                            before.root,
                            before.sep,
                            dir@,
                            probes@.take(i as int),
                            false,
                        ),
                    decreases probes.len() - i,
                {
                    proof {
                        assert(probes@.take(i as int + 1).drop_last() == probes@.take(i as int));
                        assert(probes@.take(i as int + 1).last() == probes@[i as int]);
                    }
                    let ghost pending_before = self.pending@;
                    let ghost found_before = self.found@;
                    match &probes[i] {
                        Probe::Entry { name, kind } => {
                            match kind {
                                EntryKind::Directory => {
                                    let child = join_child(dir.as_str(), name.as_str(), self.sep);
                                    let status = crate::matcher::matches(
                                        child.as_str(),
                                        true,
                                        &self.layers,
                                        self.root.as_str(),
                                        self.sep,
                                    );
                                    if status == Status::Included {
                                        let ghost path = child@;
                                        self.pending.push(Pending { path: child, depth });
                                        proof {
                                            assert(pending_paths(self.pending@) == pending_paths(
                                                pending_before,
                                            ).push(path));
                                            assert(pending_depths(self.pending@) == pending_depths(
                                                pending_before,
                                            ).push(depth as nat));
                                        }
                                    }
                                },
                                EntryKind::File => {
                                    let child = join_child(dir.as_str(), name.as_str(), self.sep);
                                    let status = crate::matcher::matches(
                                        child.as_str(),
                                        false,
                                        &self.layers,
                                        self.root.as_str(),
                                        self.sep,
                                    );
                                    if status == Status::Included {
                                        self.found.push(child);
                                        proof {
                                            assert(views(self.found@) == views(found_before).push(
                                                child@,
                                            ));
                                        }
                                    }
                                },
                                _ => {},
                            }
                        },
                        Probe::Unreadable => {},
                    }
                    i += 1;
                }
                proof {
                    assert(probes@.take(i as int) == probes@);
                }
            },
        }
    }

    /// Tells whether nothing is left to read.
    pub fn is_done(&self) -> (done: bool)
        ensures
            done == (self@.pending.len() == 0),
    {
        self.pending.len() == 0
    }

    /// The files found so far, in the order in which they were found.
    pub fn files(&self) -> (out: &Vec<String>)
        ensures
            views(out@) == self@.found,
    {
        &self.found
    }

    /// Ends the walk and hands out the files found.
    pub fn into_files(self) -> (out: Vec<String>)
        ensures
            views(out@) == self@.found,
    {
        self.found
    }
}

} // verus!
