//! Matching paths against layered ignore rules. Each layer holds the rules
//! of one rule file and applies to the paths under that file's directory.
//! Layers nearer to a path override those farther from it, and the
//! repository's metadata directory is excluded whatever the rules say.

use vstd::prelude::*;
use ignore::gitignore::{Gitignore, GitignoreBuilder};
use ignore::Match;
use crate::paths::{
    in_metadata, posix_form, relative_path, relative_to, to_posix, under_metadata,
};
use crate::text::{chars_of, lines_of, split_lines, string_of, views};

verus! {

/// `ignore::gitignore::GitignoreBuilder`: collects the rules of a rule file.
#[verifier::external_type_specification]
#[verifier::external_body]
pub struct ExGitignoreBuilder(GitignoreBuilder);

/// `ignore::gitignore::Gitignore`: the compiled rules of a rule file.
#[verifier::external_type_specification]
#[verifier::external_body]
pub struct ExGitignore(Gitignore);

/// The rule lines that were added to a builder, in their order. A line that
/// is a comment, blank or no valid pattern gives no rule, but it counts as a
/// line here.
pub uninterp spec fn added_lines(builder: GitignoreBuilder) -> Seq<Seq<char>>;

/// The rule lines that a matcher was compiled from, in their order.
pub uninterp spec fn compiled_lines(matcher: Gitignore) -> Seq<Seq<char>>;

/// What `Gitignore::matched` says of `path`, written relative to the rule
/// file's directory with forward slashes, for a matcher compiled from
/// `lines`: `None` where no rule matches, `Some(true)` where the last rule
/// that matches ignores the path, `Some(false)` where it re-admits it.
pub uninterp spec fn gitignore_verdict(lines: Seq<Seq<char>>, path: Seq<char>, is_dir: bool) -> Option<bool>;

/// `GitignoreBuilder::new`, for rules whose paths are already written
/// relative to the rule file's directory. The new builder has no lines.
#[verifier::external_body]
fn new_builder() -> (builder: GitignoreBuilder)
    ensures
        added_lines(builder) == Seq::<Seq<char>>::empty(),
{
    GitignoreBuilder::new("")
}

/// `GitignoreBuilder::add_line`. The builder takes the line as its next one.
/// Where the outside crate refuses the line as a pattern, the builder stays
/// as it was but for that record, and the refusal is dropped: one bad line
/// does not cost a rule file its other rules.
#[verifier::external_body]
fn add_rule_line(builder: &mut GitignoreBuilder, line: &str)
    ensures
        added_lines(*final(builder)) == added_lines(*old(builder)).push(line@),
{
    let _ = builder.add_line(None, line);
}

/// `GitignoreBuilder::build`. The matcher is compiled from the lines of the
/// builder. Where the outside crate fails to compile them, the matcher is
/// `Gitignore::empty()`, which matches nothing.
#[verifier::external_body]
fn build_matcher(builder: &GitignoreBuilder) -> (matcher: Gitignore)
    ensures
        compiled_lines(matcher) == added_lines(*builder),
{
    match builder.build() {
        Ok(matcher) => matcher,
        Err(_) => Gitignore::empty(),
    }
}

/// `Gitignore::matched`. The contract names the answer: it is the outside
/// crate's verdict for the lines of this matcher, the path and the flag.
/// Nothing is claimed of which paths a rule matches.
#[verifier::external_body]
fn matched_verdict(matcher: &Gitignore, path: &str, is_dir: bool) -> (v: Option<bool>)
    ensures
        v == gitignore_verdict(compiled_lines(*matcher), path@, is_dir),
{
    match matcher.matched(path, is_dir) {
        Match::None => None,
        Match::Ignore(_) => Some(true),
        Match::Whitelist(_) => Some(false),
    }
}

/// Compiles rule lines into a matcher.
fn compile_rules(lines: &Vec<String>) -> (matcher: Gitignore)
    ensures
        compiled_lines(matcher) == views(lines@),
{
    let mut builder = new_builder();
    let mut i: usize = 0;
    while i < lines.len()
        invariant
            i <= lines.len(),
            added_lines(builder) == views(lines@).take(i as int),
        decreases lines.len() - i,
    {
        add_rule_line(&mut builder, lines[i].as_str());
        proof {
            assert(views(lines@).take(i as int + 1) == views(lines@).take(i as int).push(
                lines@[i as int]@,
            ));
        }
        i += 1;
    }
    proof {
        assert(views(lines@).take(i as int) == views(lines@));
    }
    build_matcher(&builder)
}

/// Whether a path is kept or left out.
#[derive(Clone, Copy, Debug, PartialEq, Eq, Structural)]
pub enum Status {
    Included,
    Excluded,
}

/// What a rule layer is made of: the directory of its rule file, and the
/// lines of that file.
pub struct Layer {
    pub base: Seq<char>,
    pub lines: Seq<Seq<char>>,
}

/// The rules of one rule file, compiled, with the directory they apply to.
pub struct RuleLayer {
    base: String,
    matcher: Gitignore,
}

impl View for RuleLayer {
    type V = Layer;

    closed spec fn view(&self) -> Layer {
        Layer { base: self.base@, lines: compiled_lines(self.matcher) }
    }
}

/// The byte order mark, which may open a rule file.
pub open spec fn is_bom(c: char) -> bool {
    c == '\u{feff}'
}

/// `line` without the byte order marks at its start.
pub open spec fn strip_bom(line: Seq<char>) -> Seq<char>
    decreases line.len(),
{
    if line.len() > 0 && is_bom(line[0]) {
        strip_bom(line.skip(1))
    } else {
        line
    }
}

/// The rule lines of a rule file: its lines, the first one without byte
/// order marks at its start.
pub open spec fn rule_lines_of(text: Seq<char>) -> Seq<Seq<char>> {
    let lines = lines_of(text);
    if lines.len() == 0 {
        lines
    } else {
        lines.update(0, strip_bom(lines[0]))
    }
}

/// What one layer says of a path: nothing where the path does not lie under
/// the layer's directory, else the verdict of its rules on the path as seen
/// from that directory.
pub open spec fn layer_verdict(layer: Layer, path: Seq<char>, is_dir: bool, sep: char) -> Option<
    bool,
> {
    match relative_to(path, layer.base, sep) {
        Some(rel) => gitignore_verdict(layer.lines, posix_form(rel, sep), is_dir),
        None => None,
    }
}

/// What the layers say together. They are ordered from the farthest to the
/// nearest; the nearest layer that says anything decides.
pub open spec fn layered_verdict(layers: Seq<Layer>, path: Seq<char>, is_dir: bool, sep: char) -> Option<
    bool,
>
    decreases layers.len(),
{
    if layers.len() == 0 {
        None
    } else {
        match layer_verdict(layers.last(), path, is_dir, sep) {
            Some(v) => Some(v),
            None => layered_verdict(layers.drop_last(), path, is_dir, sep),
        }
    }
}

/// The status of a path: excluded when it is the metadata directory of the
/// repository at `root` or lies in it; otherwise excluded exactly when the
/// deciding rule ignores it. A path that no rule matches is kept, hidden or
/// not.
pub open spec fn status_of(
    layers: Seq<Layer>,
    root: Seq<char>,
    path: Seq<char>,
    is_dir: bool,
    sep: char,
) -> Status {
    if under_metadata(path, root, sep) {
        Status::Excluded
    } else if layered_verdict(layers, path, is_dir, sep) == Some(true) {
        Status::Excluded
    } else {
        Status::Included
    }
}

/// The views of rule layers.
pub open spec fn layer_views(layers: Seq<RuleLayer>) -> Seq<Layer> {
    layers.map_values(|l: RuleLayer| l@)
}

/// `line` without the byte order marks at its start.
pub fn without_bom(line: &str) -> (out: String)
    ensures
        out@ == strip_bom(line@),
{
    let chars = chars_of(line);
    let mut k: usize = 0;
    proof {
        assert(chars@.skip(0) == chars@);
    }
    while k < chars.len() && chars[k] == '\u{feff}'
        invariant
            k <= chars.len(),
            strip_bom(chars@) == strip_bom(chars@.skip(k as int)),
        decreases chars.len() - k,
    {
        proof {
            assert(chars@.skip(k as int).skip(1) == chars@.skip(k as int + 1));
        }
        k += 1;
    }
    let mut rest: Vec<char> = Vec::new();
    let mut i: usize = k;
    while i < chars.len()
        invariant
            k <= i <= chars.len(),
            rest@ == chars@.subrange(k as int, i as int),
        decreases chars.len() - i,
    {
        rest.push(chars[i]);
        i += 1;
    }
    proof {
        assert(rest@ == chars@.skip(k as int));
    }
    string_of(&rest)
}

/// The rule lines of a rule file, given its text.
pub fn rule_lines(text: &str) -> (out: Vec<String>)
    ensures
        views(out@) == rule_lines_of(text@),
{
    let mut lines = split_lines(text);
    if lines.len() > 0 {
        let ghost before = views(lines@);
        let first = without_bom(lines[0].as_str());
        lines.set(0, first);
        proof {
            assert(views(lines@) == before.update(0, strip_bom(before[0])));
        }
    }
    lines
}

impl RuleLayer {
    /// A layer of the given rule lines, for the paths under `base`.
    pub fn new(base: &str, lines: &Vec<String>) -> (layer: RuleLayer)
        ensures
            layer@ == (Layer { base: base@, lines: views(lines@) }),
    {
        RuleLayer { base: String::from_str(base), matcher: compile_rules(lines) }
    }

    /// A layer of the rules in the text of a rule file that stands in the
    /// directory `base`.
    pub fn from_text(base: &str, text: &str) -> (layer: RuleLayer)
        ensures
            layer@ == (Layer { base: base@, lines: rule_lines_of(text@) }),
    {
        let lines = rule_lines(text);
        RuleLayer::new(base, &lines)
    }

    /// What this layer says of `path`.
    pub fn verdict(&self, path: &str, is_dir: bool, sep: char) -> (v: Option<bool>)
        ensures
            v == layer_verdict(self@, path@, is_dir, sep),
    {
        match relative_path(path, self.base.as_str(), sep) {
            Some(rel) => {
                let seen = to_posix(rel.as_str(), sep);
                matched_verdict(&self.matcher, seen.as_str(), is_dir)
            },
            None => None,
        }
    }
}

/// The status that follows from what the rules say: a path is left out
/// exactly when the deciding rule ignores it.
pub fn decide(verdict: Option<bool>) -> (s: Status)
    ensures
        s == (if verdict == Some(true) {
            Status::Excluded
        } else {
            Status::Included
        }),
{
    match verdict {
        Some(true) => Status::Excluded,
        _ => Status::Included,
    }
}

/// What the layers say together of `path`: see [`layered_verdict`].
pub fn verdict_of(layers: &Vec<RuleLayer>, path: &str, is_dir: bool, sep: char) -> (v: Option<bool>)
    ensures
        v == layered_verdict(layer_views(layers@), path@, is_dir, sep),
{
    let mut i: usize = layers.len();
    proof {
        assert(layer_views(layers@).take(i as int) == layer_views(layers@));
    }
    while i > 0
        invariant
            i <= layers.len(),
            layered_verdict(layer_views(layers@), path@, is_dir, sep) == layered_verdict(
                layer_views(layers@).take(i as int),
                path@,
                is_dir,
                sep,
            ),
        decreases i,
    {
        proof {
            let upto = layer_views(layers@).take(i as int);
            assert(upto.drop_last() == layer_views(layers@).take(i as int - 1));
            assert(upto.last() == layers@[i as int - 1]@);
        }
        i -= 1;
        match layers[i].verdict(path, is_dir, sep) {
            Some(v) => {
                return Some(v);
            },
            None => {},
        }
    }
    None
}

/// The status of `path` under the given layers, for the repository at
/// `root`. The layers are ordered from the farthest to the nearest.
pub fn matches(path: &str, is_dir: bool, layers: &Vec<RuleLayer>, root: &str, sep: char) -> (s:
    Status)
    ensures
        s == status_of(layer_views(layers@), root@, path@, is_dir, sep),
{
    if in_metadata(path, root, sep) {
        Status::Excluded
    } else {
        decide(verdict_of(layers, path, is_dir, sep))
    }
}

/// The metadata directory and all in it are excluded, whatever the rules:
/// no rule can re-admit them.
pub proof fn lemma_metadata_always_excluded(
    layers: Seq<Layer>,
    root: Seq<char>,
    path: Seq<char>,
    is_dir: bool,
    sep: char,
)
    requires
        under_metadata(path, root, sep),
    ensures
        status_of(layers, root, path, is_dir, sep) == Status::Excluded,
{
}

/// A path outside the metadata directory that no rule matches is kept;
/// nothing is left out for its name alone.
pub proof fn lemma_unmatched_is_kept(
    layers: Seq<Layer>,
    root: Seq<char>,
    path: Seq<char>,
    is_dir: bool,
    sep: char,
)
    requires
        !under_metadata(path, root, sep),
        layered_verdict(layers, path, is_dir, sep) is None,
    ensures
        status_of(layers, root, path, is_dir, sep) == Status::Included,
{
}

/// The nearest layer takes precedence. Where it says something of a path,
/// that decides, whatever the layers farther away say: a nearer rule that
/// re-admits a path overrides a farther one that ignores it, and the other
/// way round. Where it says nothing, the path stands as it would without
/// that layer.
pub proof fn lemma_nearest_layer_decides(
    layers: Seq<Layer>,
    nearest: Layer,
    root: Seq<char>,
    path: Seq<char>,
    is_dir: bool,
    sep: char,
)
    ensures
        layer_verdict(nearest, path, is_dir, sep) matches Some(v) ==> layered_verdict(
            layers.push(nearest),
            path,
            is_dir,
            sep,
        ) == Some(v),
        layer_verdict(nearest, path, is_dir, sep) is None ==> status_of(
            layers.push(nearest),
            root,
            path,
            is_dir,
            sep,
        ) == status_of(layers, root, path, is_dir, sep),
        !under_metadata(path, root, sep) && layer_verdict(nearest, path, is_dir, sep) == Some(false)
            ==> status_of(layers.push(nearest), root, path, is_dir, sep) == Status::Included,
        layer_verdict(nearest, path, is_dir, sep) == Some(true) ==> status_of(
            layers.push(nearest),
            root,
            path,
            is_dir,
            sep,
        ) == Status::Excluded,
{
    assert(layers.push(nearest).drop_last() == layers);
    assert(layers.push(nearest).last() == nearest);
}

/// A layer says nothing of a path outside its directory.
pub proof fn lemma_layer_is_local(layer: Layer, path: Seq<char>, is_dir: bool, sep: char)
    requires
        !crate::paths::lies_under(path, layer.base, sep),
    ensures
        layer_verdict(layer, path, is_dir, sep) is None,
{
}

} // verus!
