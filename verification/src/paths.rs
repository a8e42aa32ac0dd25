//! The path resolver: from what a path selection yields to the set of
//! absolute, distinct paths inside the repository that a run works on.
//!
//! Reading a file, running a command and asking source control are the
//! caller's part. The resolver says what to fetch, and makes the set from
//! what was fetched. Paths are resolved by their text alone: `.` and empty
//! components are dropped, `..` leaves the directory it follows, and links
//! are not followed.

use vstd::prelude::*;
use crate::text::{
    chars_of,
    contains_text,
    lemma_pieces_hold_no_separator,
    nonempty_pieces,
    same_text,
    split_on,
    split_text,
};

verus! {

/// Whether a path starts at the root of the file system.
pub open spec fn is_absolute(path: Seq<char>) -> bool {
    path.len() > 0 && path[0] == '/'
}

/// The components that remain of `parts`: empty ones and `.` are dropped,
/// and `..` takes back the component before it, if there is one.
pub open spec fn normal_components(parts: Seq<Seq<char>>) -> Seq<Seq<char>>
    decreases parts.len(),
{
    if parts.len() == 0 {
        Seq::empty()
    } else {
        let before = normal_components(parts.drop_last());
        let part = parts.last();
        if part.len() == 0 || part == "."@ {
            before
        } else if part == ".."@ {
            if before.len() > 0 {
                before.drop_last()
            } else {
                before
            }
        } else {
            before.push(part)
        }
    }
}

/// The components, each after a slash.
pub open spec fn joined(components: Seq<Seq<char>>) -> Seq<char>
    decreases components.len(),
{
    if components.len() == 0 {
        Seq::empty()
    } else {
        joined(components.drop_last()) + "/"@ + components.last()
    }
}

/// The absolute path with the given components: the single slash where
/// there is none.
pub open spec fn absolute_text(components: Seq<Seq<char>>) -> Seq<char> {
    if components.len() == 0 {
        "/"@
    } else {
        joined(components)
    }
}

/// The components of the absolute form of `path`, which is taken from the
/// directory `base` where it is relative.
pub open spec fn resolved_components(base: Seq<char>, path: Seq<char>) -> Seq<Seq<char>> {
    if is_absolute(path) {
        normal_components(split_on(path, '/'))
    } else {
        normal_components(split_on(base, '/') + split_on(path, '/'))
    }
}

/// The absolute form of `path`.
pub open spec fn resolved_text(base: Seq<char>, path: Seq<char>) -> Seq<char> {
    absolute_text(resolved_components(base, path))
}

/// The components of the repository root.
pub open spec fn root_components(root: Seq<char>) -> Seq<Seq<char>> {
    normal_components(split_on(root, '/'))
}

/// Whether `prefix` is the beginning of `whole`.
pub open spec fn is_prefix<A>(prefix: Seq<A>, whole: Seq<A>) -> bool {
    prefix.len() <= whole.len() && whole.take(prefix.len() as int) == prefix
}

/// Whether `path`, taken from `base`, lies inside the repository `root`: the
/// components of the root are the first components of the path.
pub open spec fn lies_inside(root: Seq<char>, base: Seq<char>, path: Seq<char>) -> bool {
    is_prefix(root_components(root), resolved_components(base, path))
}

/// Whether a component is a name: not empty, not `.` or `..`, and without a
/// slash.
pub open spec fn is_name(part: Seq<char>) -> bool {
    part.len() > 0 && part != "."@ && part != ".."@ && !part.contains('/')
}

/// Whether all components are names.
pub open spec fn all_names(parts: Seq<Seq<char>>) -> bool {
    forall|i: int| 0 <= i < parts.len() ==> is_name(#[trigger] parts[i])
}

/// Whether a path is in normal form: the absolute path of components that
/// are names. Such a path says where it leads: nothing in it steps back or
/// stands still.
pub open spec fn is_normal(path: Seq<char>) -> bool {
    exists|parts: Seq<Seq<char>>| all_names(parts) && path == absolute_text(parts)
}

/// Whether the text `path` names the directory `dir` or something below it:
/// it is `dir`, or it goes on after `dir` with a slash.
pub open spec fn is_under(dir: Seq<char>, path: Seq<char>) -> bool {
    is_prefix(dir, path) && (path.len() == dir.len() || dir == "/"@ || path[dir.len() as int]
        == '/')
}

/// `paths` with each path once, at the place where it first occurs.
pub open spec fn deduped(paths: Seq<Seq<char>>) -> Seq<Seq<char>>
    decreases paths.len(),
{
    if paths.len() == 0 {
        Seq::empty()
    } else {
        let before = deduped(paths.drop_last());
        if before.contains(paths.last()) {
            before
        } else {
            before.push(paths.last())
        }
    }
}

/// The absolute forms of all of `raw`.
pub open spec fn resolved_all(base: Seq<char>, raw: Seq<Seq<char>>) -> Seq<Seq<char>> {
    raw.map_values(|p: Seq<char>| resolved_text(base, p))
}

/// The paths that a text lists: its lines, as they are, the empty ones left
/// out.
pub open spec fn listed_paths(text: Seq<char>) -> Seq<Seq<char>> {
    nonempty_pieces(split_on(text, '\n'))
}

/// What remains of components without a slash are names.
pub proof fn lemma_normal_components_are_names(parts: Seq<Seq<char>>)
    requires
        forall|i: int| 0 <= i < parts.len() ==> !(#[trigger] parts[i]).contains('/'),
    ensures
        all_names(normal_components(parts)),
    decreases parts.len(),
{
    if parts.len() > 0 {
        assert forall|i: int| 0 <= i < parts.drop_last().len() implies !(
        #[trigger] parts.drop_last()[i]).contains('/') by {
            assert(parts.drop_last()[i] == parts[i]);
        }
        lemma_normal_components_are_names(parts.drop_last());
        assert(parts.last() == parts[parts.len() - 1]);
    }
}

/// The absolute form of a path is in normal form.
pub proof fn lemma_resolved_is_normal(base: Seq<char>, path: Seq<char>)
    ensures
        all_names(resolved_components(base, path)),
        is_normal(resolved_text(base, path)),
{
    lemma_pieces_hold_no_separator(path, '/');
    lemma_pieces_hold_no_separator(base, '/');
    let own = split_on(path, '/');
    let all = split_on(base, '/') + own;
    assert forall|i: int| 0 <= i < all.len() implies !(#[trigger] all[i]).contains('/') by {
        if i >= split_on(base, '/').len() {
            assert(all[i] == own[i - split_on(base, '/').len()]);
        }
    }
    lemma_normal_components_are_names(own);
    lemma_normal_components_are_names(all);
}

/// Joining goes piece by piece.
pub proof fn lemma_joined_concat(a: Seq<Seq<char>>, b: Seq<Seq<char>>)
    ensures
        joined(a + b) == joined(a) + joined(b),
    decreases b.len(),
{
    if b.len() == 0 {
        assert(a + b =~= a);
        assert(joined(a) + joined(b) =~= joined(a));
    } else {
        lemma_joined_concat(a, b.drop_last());
        assert((a + b).drop_last() =~= a + b.drop_last());
        assert((a + b).last() == b.last());
        assert(joined(a + b) =~= joined(a) + joined(b));
    }
}

/// What is joined of at least one component starts with a slash.
pub proof fn lemma_joined_starts_with_slash(components: Seq<Seq<char>>)
    requires
        components.len() > 0,
    ensures
        joined(components).len() > 0,
        joined(components)[0] == '/',
    decreases components.len(),
{
    reveal_strlit("/");
    if components.len() == 1 {
        assert(components.drop_last() =~= Seq::<Seq<char>>::empty());
        assert(joined(components.drop_last()) =~= Seq::<char>::empty());
    } else {
        lemma_joined_starts_with_slash(components.drop_last());
    }
}

/// An absolute path whose components begin with those of a directory is, as
/// text, that directory or something below it.
pub proof fn lemma_inside_is_under(dir: Seq<Seq<char>>, components: Seq<Seq<char>>)
    requires
        is_prefix(dir, components),
    ensures
        is_absolute(absolute_text(components)),
        is_under(absolute_text(dir), absolute_text(components)),
{
    reveal_strlit("/");
    let rest = components.skip(dir.len() as int);
    assert(components =~= dir + rest);
    lemma_joined_concat(dir, rest);
    if components.len() > 0 {
        lemma_joined_starts_with_slash(components);
    }
    if dir.len() == 0 {
        assert(absolute_text(dir) == "/"@);
        assert(absolute_text(components).take(1) =~= "/"@);
    } else {
        assert(joined(components).take(joined(dir).len() as int) =~= joined(dir));
        if rest.len() > 0 {
            lemma_joined_starts_with_slash(rest);
        } else {
            assert(joined(rest) =~= Seq::<char>::empty());
        }
    }
}

/// Whether `path` starts at the root of the file system.
pub fn starts_at_root(path: &str) -> (absolute: bool)
    ensures
        absolute == is_absolute(path@),
{
    let chars = chars_of(path);
    chars.len() > 0 && chars[0] == '/'
}

/// The components that remain of `parts` once `.`, `..` and empty
/// components are resolved.
pub fn normalize(parts: &Vec<String>) -> (out: Vec<String>)
    ensures
        out.deep_view() == normal_components(parts.deep_view()),
{
    let dot = String::from_str(".");
    let dots = String::from_str("..");
    let mut out: Vec<String> = Vec::new();
    let mut i: usize = 0;
    assert(out.deep_view() =~= normal_components(parts.deep_view().take(0)));
    while i < parts.len()
        invariant
            i <= parts.len(),
            dot@ == "."@,
            dots@ == ".."@,
            out.deep_view() == normal_components(parts.deep_view().take(i as int)),
        decreases parts.len() - i,
    {
        assert(parts.deep_view().take(i + 1).drop_last() =~= parts.deep_view().take(i as int));
        assert(parts.deep_view().take(i + 1).last() == parts[i as int]@);
        let part = &parts[i];
        let ghost before = out.deep_view();
        if part.as_str().unicode_len() == 0 || same_text(part, &dot) {
        } else if same_text(part, &dots) {
            if out.len() > 0 {
                out.pop();
                assert(out.deep_view() =~= before.drop_last());
            }
        } else {
            out.push(part.clone());
            assert(out.deep_view() =~= before.push(part@));
        }
        i += 1;
    }
    assert(parts.deep_view().take(i as int) =~= parts.deep_view());
    out
}

/// The absolute path that has the given components.
pub fn join_components(components: &Vec<String>) -> (out: String)
    ensures
        out@ == absolute_text(components.deep_view()),
{
    if components.len() == 0 {
        return String::from_str("/");
    }
    let mut out = String::new();
    let mut i: usize = 0;
    assert(out@ =~= joined(components.deep_view().take(0)));
    while i < components.len()
        invariant
            i <= components.len(),
            out@ == joined(components.deep_view().take(i as int)),
        decreases components.len() - i,
    {
        assert(components.deep_view().take(i + 1).drop_last() =~= components.deep_view().take(
            i as int,
        ));
        assert(components.deep_view().take(i + 1).last() == components[i as int]@);
        out.append("/");
        out.append(components[i].as_str());
        i += 1;
    }
    assert(components.deep_view().take(i as int) =~= components.deep_view());
    out
}

/// Whether the components `prefix` are the first components of `whole`.
pub fn has_prefix(prefix: &Vec<String>, whole: &Vec<String>) -> (yes: bool)
    ensures
        yes == is_prefix(prefix.deep_view(), whole.deep_view()),
{
    if prefix.len() > whole.len() {
        return false;
    }
    let mut i: usize = 0;
    while i < prefix.len()
        invariant
            i <= prefix.len() <= whole.len(),
            forall|j: int| 0 <= j < i ==> whole.deep_view()[j] == prefix.deep_view()[j],
        decreases prefix.len() - i,
    {
        if !same_text(&prefix[i], &whole[i]) {
            assert(whole.deep_view().take(prefix.len() as int)[i as int] != prefix.deep_view()[i as int]);
            return false;
        }
        i += 1;
    }
    assert(whole.deep_view().take(prefix.len() as int) =~= prefix.deep_view());
    true
}

/// The components of the absolute form of `path`, taken from the directory
/// with the components `base_parts` where it is relative.
pub fn resolve_components(base_parts: &Vec<String>, path: &str) -> (out: Vec<String>)
    ensures
        is_absolute(path@) ==> out.deep_view() == normal_components(split_on(path@, '/')),
        !is_absolute(path@) ==> out.deep_view() == normal_components(
            base_parts.deep_view() + split_on(path@, '/'),
        ),
{
    let own = split_text(path, '/');
    if starts_at_root(path) {
        normalize(&own)
    } else {
        let mut all: Vec<String> = Vec::new();
        let mut i: usize = 0;
        while i < base_parts.len()
            invariant
                i <= base_parts.len(),
                all.deep_view() == base_parts.deep_view().take(i as int),
            decreases base_parts.len() - i,
        {
            let ghost before = all.deep_view();
            all.push(base_parts[i].clone());
            assert(all.deep_view() =~= before.push(base_parts[i as int]@));
            assert(base_parts.deep_view().take(i + 1) =~= before.push(base_parts[i as int]@));
            i += 1;
        }
        assert(base_parts.deep_view().take(i as int) =~= base_parts.deep_view());
        let mut j: usize = 0;
        while j < own.len()
            invariant
                j <= own.len(),
                all.deep_view() == base_parts.deep_view() + own.deep_view().take(j as int),
            decreases own.len() - j,
        {
            let ghost before = all.deep_view();
            all.push(own[j].clone());
            assert(all.deep_view() =~= before.push(own[j as int]@));
            assert(own.deep_view().take(j + 1) =~= own.deep_view().take(j as int).push(
                own[j as int]@,
            ));
            j += 1;
        }
        assert(own.deep_view().take(j as int) =~= own.deep_view());
        normalize(&all)
    }
}

/// The paths that `text` lists, one per line, as they are; empty lines are
/// left out.
pub fn list_paths(text: &str) -> (out: Vec<String>)
    ensures
        out.deep_view() == listed_paths(text@),
{
    let lines = split_text(text, '\n');
    let mut out: Vec<String> = Vec::new();
    let mut i: usize = 0;
    let ghost keep = |p: Seq<char>| p.len() > 0;
    proof {
        reveal(Seq::filter);
        assert(lines.deep_view().take(0).filter(keep) =~= Seq::<Seq<char>>::empty());
    }
    while i < lines.len()
        invariant
            i <= lines.len(),
            keep == |p: Seq<char>| p.len() > 0,
            out.deep_view() == lines.deep_view().take(i as int).filter(keep),
        decreases lines.len() - i,
    {
        proof {
            let done = lines.deep_view().take(i as int);
            assert(lines.deep_view().take(i + 1) =~= done.push(lines.deep_view()[i as int]));
            Seq::lemma_filter_push(done, lines.deep_view()[i as int], keep);
        }
        if lines[i].as_str().unicode_len() > 0 {
            let ghost before = out.deep_view();
            out.push(lines[i].clone());
            assert(out.deep_view() =~= before.push(lines.deep_view()[i as int]));
        }
        i += 1;
    }
    assert(lines.deep_view().take(i as int) =~= lines.deep_view());
    out
}

/// What holds of a set of target paths under the directory `root`: no path
/// occurs twice, and each is absolute, in normal form, and names `root` or
/// something below it.
pub open spec fn valid_targets(root: Seq<char>, paths: Seq<Seq<char>>) -> bool {
    &&& paths.no_duplicates()
    &&& forall|i: int|
        0 <= i < paths.len() ==> is_absolute(#[trigger] paths[i]) && is_normal(paths[i])
            && is_under(root, paths[i])
}

/// The set of files that one run works on: absolute paths inside the
/// repository, each once, in the order in which they were first named.
#[derive(Debug, PartialEq, Eq)]
pub struct TargetPathSet {
    root: String,
    paths: Vec<String>,
}

impl View for TargetPathSet {
    type V = Seq<Seq<char>>;

    closed spec fn view(&self) -> Seq<Seq<char>> {
        self.paths.deep_view()
    }
}

impl TargetPathSet {
    /// The root of the repository, in absolute form.
    pub closed spec fn root_text(&self) -> Seq<char> {
        self.root@
    }

    #[verifier::type_invariant]
    spec fn well_formed(&self) -> bool {
        valid_targets(self.root@, self.paths.deep_view())
    }

    /// The paths of the set. None occurs twice, and each is absolute, in
    /// normal form, and lies in the repository.
    pub fn paths(&self) -> (paths: &Vec<String>)
        ensures
            paths.deep_view() == self@,
            valid_targets(self.root_text(), self@),
    {
        proof {
            use_type_invariant(self);
        }
        &self.paths
    }

    /// The root of the repository, in absolute form.
    pub fn root(&self) -> (root: &String)
        ensures
            root@ == self.root_text(),
    {
        &self.root
    }

    /// How many paths the set holds.
    pub fn len(&self) -> (n: usize)
        ensures
            n == self@.len(),
    {
        self.paths.len()
    }
}

/// Why no set of target paths could be made from what was named.
#[derive(Debug, PartialEq, Eq)]
pub enum PathSourceError {
    /// The file that lists the paths could not be read.
    Unreadable,
    /// The command that lists the paths ended with this code, which is not 0.
    CommandFailed(i32),
    /// This path, as it was named, lies outside the repository.
    OutsideRoot(String),
    /// The repository root or the working directory is not an absolute path.
    NotAbsolute,
}

/// Whether every path of `raw` lies inside the repository.
pub open spec fn all_inside(root: Seq<char>, base: Seq<char>, raw: Seq<Seq<char>>) -> bool {
    forall|i: int| 0 <= i < raw.len() ==> lies_inside(root, base, #[trigger] raw[i])
}

/// Whether the path at `i` is the first of `raw` that lies outside the
/// repository.
pub open spec fn is_first_outside(
    root: Seq<char>,
    base: Seq<char>,
    raw: Seq<Seq<char>>,
    i: int,
) -> bool {
    &&& 0 <= i < raw.len()
    &&& !lies_inside(root, base, raw[i])
    &&& all_inside(root, base, raw.take(i))
}

/// Whether `out` is what resolving the paths `raw` gives: the set of their
/// absolute forms, each once, where root and base are absolute and every
/// path lies inside the repository; else the error that says which of these
/// does not hold, with the first path that lies outside.
pub open spec fn is_resolution(
    root: Seq<char>,
    base: Seq<char>,
    raw: Seq<Seq<char>>,
    out: Result<TargetPathSet, PathSourceError>,
) -> bool {
    match out {
        Ok(set) => {
            &&& is_absolute(root) && is_absolute(base)
            &&& all_inside(root, base, raw)
            &&& set@ == deduped(resolved_all(base, raw))
            &&& set.root_text() == absolute_text(root_components(root))
            &&& valid_targets(set.root_text(), set@)
        },
        Err(PathSourceError::NotAbsolute) => !is_absolute(root) || !is_absolute(base),
        Err(PathSourceError::OutsideRoot(path)) => {
            &&& is_absolute(root) && is_absolute(base)
            &&& exists|i: int| is_first_outside(root, base, raw, i) && raw[i] == path@
        },
        Err(_) => false,
    }
}

/// Makes the set of target paths from the paths `raw` as they were named.
/// Each is brought to absolute form, from the directory `base` where it is
/// relative, and each absolute path is kept once, where it first occurs.
///
/// This fails if `root` or `base` is not absolute, and if a path lies
/// outside the repository `root`: the error then holds the first such path.
pub fn resolve_paths(root: &str, base: &str, raw: &Vec<String>) -> (out: Result<
    TargetPathSet,
    PathSourceError,
>)
    ensures
        is_resolution(root@, base@, raw.deep_view(), out),
        out matches Ok(set) ==> valid_targets(set.root_text(), set@),
{
    if !starts_at_root(root) || !starts_at_root(base) {
        return Err(PathSourceError::NotAbsolute);
    }
    let root_parts = normalize(&split_text(root, '/'));
    let base_parts = split_text(base, '/');
    let root_text = join_components(&root_parts);
    let mut paths: Vec<String> = Vec::new();
    let mut i: usize = 0;
    assert(paths.deep_view() =~= deduped(resolved_all(base@, raw.deep_view().take(0))));
    while i < raw.len()
        invariant
            i <= raw.len(),
            is_absolute(root@),
            is_absolute(base@),
            root_parts.deep_view() == root_components(root@),
            base_parts.deep_view() == split_on(base@, '/'),
            root_text@ == absolute_text(root_components(root@)),
            all_inside(root@, base@, raw.deep_view().take(i as int)),
            paths.deep_view() == deduped(resolved_all(base@, raw.deep_view().take(i as int))),
            valid_targets(root_text@, paths.deep_view()),
        decreases raw.len() - i,
    {
        let parts = resolve_components(&base_parts, raw[i].as_str());
        assert(parts.deep_view() == resolved_components(base@, raw.deep_view()[i as int]));
        if !has_prefix(&root_parts, &parts) {
            let path = raw[i].clone();
            assert(is_first_outside(root@, base@, raw.deep_view(), i as int));
            assert(raw.deep_view()[i as int] == path@);
            return Err(PathSourceError::OutsideRoot(path));
        }
        let text = join_components(&parts);
        proof {
            lemma_resolved_is_normal(base@, raw.deep_view()[i as int]);
            lemma_inside_is_under(root_parts.deep_view(), parts.deep_view());
            let done = raw.deep_view().take(i as int);
            let next = raw.deep_view().take(i + 1);
            assert(next.drop_last() =~= done);
            assert(resolved_all(base@, next) =~= resolved_all(base@, done).push(text@));
            assert(resolved_all(base@, next).drop_last() =~= resolved_all(base@, done));
            assert forall|j: int| 0 <= j < next.len() implies lies_inside(
                root@,
                base@,
                #[trigger] next[j],
            ) by {
                if j < i {
                    assert(done[j] == next[j]);
                }
            }
        }
        if !contains_text(&paths, &text) {
            let ghost before = paths.deep_view();
            paths.push(text);
            assert(paths.deep_view() =~= before.push(text@));
        }
        i += 1;
    }
    assert(raw.deep_view().take(i as int) =~= raw.deep_view());
    Ok(TargetPathSet { root: root_text, paths })
}

/// How the files of a run are selected.
#[derive(Debug, PartialEq, Eq)]
pub enum PathSelector {
    /// The files that differ from a revision.
    AutomaticDefault,
    /// Every file that source control tracks.
    AllFiles,
    /// These paths.
    ExplicitList(Vec<String>),
    /// The paths that this file lists, one per line.
    FromFile(String),
    /// The paths that this shell command prints, one per line.
    FromShellCommand(String),
}

/// Against which revision the working tree is compared.
#[derive(Debug, PartialEq, Eq)]
pub enum RevisionSelector {
    /// The last commit.
    AtHead,
    /// This revision.
    AgainstRevision(String),
    /// The merge base of this revision and the last commit.
    AgainstMergeBaseWith(String),
}

/// What has to be fetched to learn the paths of a run.
#[derive(Debug, PartialEq, Eq)]
pub enum PathSource {
    /// Nothing: these are the paths.
    Given(Vec<String>),
    /// The content of this file.
    ReadFile(String),
    /// The output of this shell command.
    RunCommand(String),
    /// The list of all files that source control tracks.
    AllTracked,
    /// The list of the files that differ from the last commit.
    ChangedSinceHead,
    /// The list of the files that differ from this revision.
    ChangedSince(String),
    /// The list of the files that differ from the merge base of this
    /// revision and the last commit.
    ChangedSinceMergeBase(String),
}

/// The mathematical value of a [`PathSelector`].
pub ghost enum SelectorModel {
    AutomaticDefault,
    AllFiles,
    ExplicitList(Seq<Seq<char>>),
    FromFile(Seq<char>),
    FromShellCommand(Seq<char>),
}

/// The mathematical value of a [`RevisionSelector`].
pub ghost enum RevisionModel {
    AtHead,
    AgainstRevision(Seq<char>),
    AgainstMergeBaseWith(Seq<char>),
}

/// The mathematical value of a [`PathSource`].
pub ghost enum SourceModel {
    Given(Seq<Seq<char>>),
    ReadFile(Seq<char>),
    RunCommand(Seq<char>),
    AllTracked,
    ChangedSinceHead,
    ChangedSince(Seq<char>),
    ChangedSinceMergeBase(Seq<char>),
}

impl View for PathSelector {
    type V = SelectorModel;

    open spec fn view(&self) -> SelectorModel {
        match self {
            PathSelector::AutomaticDefault => SelectorModel::AutomaticDefault,
            PathSelector::AllFiles => SelectorModel::AllFiles,
            PathSelector::ExplicitList(paths) => SelectorModel::ExplicitList(paths.deep_view()),
            PathSelector::FromFile(file) => SelectorModel::FromFile(file@),
            PathSelector::FromShellCommand(command) => SelectorModel::FromShellCommand(command@),
        }
    }
}

impl View for RevisionSelector {
    type V = RevisionModel;

    open spec fn view(&self) -> RevisionModel {
        match self {
            RevisionSelector::AtHead => RevisionModel::AtHead,
            RevisionSelector::AgainstRevision(rev) => RevisionModel::AgainstRevision(rev@),
            RevisionSelector::AgainstMergeBaseWith(rev) => RevisionModel::AgainstMergeBaseWith(
                rev@,
            ),
        }
    }
}

impl DeepView for RevisionSelector {
    type V = RevisionModel;

    open spec fn deep_view(&self) -> RevisionModel {
        self@
    }
}

impl View for PathSource {
    type V = SourceModel;

    open spec fn view(&self) -> SourceModel {
        match self {
            PathSource::Given(paths) => SourceModel::Given(paths.deep_view()),
            PathSource::ReadFile(file) => SourceModel::ReadFile(file@),
            PathSource::RunCommand(command) => SourceModel::RunCommand(command@),
            PathSource::AllTracked => SourceModel::AllTracked,
            PathSource::ChangedSinceHead => SourceModel::ChangedSinceHead,
            PathSource::ChangedSince(rev) => SourceModel::ChangedSince(rev@),
            PathSource::ChangedSinceMergeBase(rev) => SourceModel::ChangedSinceMergeBase(rev@),
        }
    }
}

/// What has to be fetched for a selection. Paths that are given, listed in
/// a file or printed by a command are taken as they are, whatever revision
/// is named. Without any of these, the files that differ from a revision are
/// taken: from the revision that is named, from its merge base with the last
/// commit, or, where none is named, from the last commit.
pub open spec fn source_of(selector: SelectorModel, revision: Option<RevisionModel>) -> SourceModel {
    match selector {
        SelectorModel::ExplicitList(paths) => SourceModel::Given(paths),
        SelectorModel::FromFile(file) => SourceModel::ReadFile(file),
        SelectorModel::FromShellCommand(command) => SourceModel::RunCommand(command),
        SelectorModel::AllFiles => SourceModel::AllTracked,
        SelectorModel::AutomaticDefault => match revision {
            None => SourceModel::ChangedSinceHead,
            Some(RevisionModel::AtHead) => SourceModel::ChangedSinceHead,
            Some(RevisionModel::AgainstRevision(rev)) => SourceModel::ChangedSince(rev),
            Some(RevisionModel::AgainstMergeBaseWith(rev)) => SourceModel::ChangedSinceMergeBase(
                rev,
            ),
        },
    }
}

/// Says what has to be fetched for the selection: see [`source_of`].
pub fn path_source(selector: PathSelector, revision: Option<RevisionSelector>) -> (out: PathSource)
    ensures
        out@ == source_of(selector@, revision.deep_view()),
{
    match selector {
        PathSelector::ExplicitList(paths) => PathSource::Given(paths),
        PathSelector::FromFile(file) => PathSource::ReadFile(file),
        PathSelector::FromShellCommand(command) => PathSource::RunCommand(command),
        PathSelector::AllFiles => PathSource::AllTracked,
        PathSelector::AutomaticDefault => match revision {
            None => PathSource::ChangedSinceHead,
            Some(RevisionSelector::AtHead) => PathSource::ChangedSinceHead,
            Some(RevisionSelector::AgainstRevision(rev)) => PathSource::ChangedSince(rev),
            Some(RevisionSelector::AgainstMergeBaseWith(rev)) => PathSource::ChangedSinceMergeBase(
                rev,
            ),
        },
    }
}

/// What came of fetching a path source.
#[derive(Debug, PartialEq, Eq)]
pub enum Fetched {
    /// The paths were given.
    Given(Vec<String>),
    /// The content of the file that lists the paths.
    FileContent(String),
    /// The file that lists the paths could not be read.
    FileUnreadable,
    /// The command that lists the paths ended with this code, and printed
    /// this.
    CommandEnded { code: i32, output: String },
    /// What source control listed, one path per line, each taken from the
    /// root of the repository.
    Listing(String),
    /// Source control could not answer: the revision is unknown, or there is
    /// no repository. The text says why.
    ListingFailed(String),
}

/// The mathematical value of a [`Fetched`].
pub ghost enum FetchedModel {
    Given(Seq<Seq<char>>),
    FileContent(Seq<char>),
    FileUnreadable,
    CommandEnded { code: i32, output: Seq<char> },
    Listing(Seq<char>),
    ListingFailed(Seq<char>),
}

impl View for Fetched {
    type V = FetchedModel;

    open spec fn view(&self) -> FetchedModel {
        match self {
            Fetched::Given(paths) => FetchedModel::Given(paths.deep_view()),
            Fetched::FileContent(text) => FetchedModel::FileContent(text@),
            Fetched::FileUnreadable => FetchedModel::FileUnreadable,
            Fetched::CommandEnded { code, output } => FetchedModel::CommandEnded {
                code: *code,
                output: output@,
            },
            Fetched::Listing(text) => FetchedModel::Listing(text@),
            Fetched::ListingFailed(reason) => FetchedModel::ListingFailed(reason@),
        }
    }
}

/// Why the paths of a run could not be resolved. Either error ends the run
/// before any linter is started.
#[derive(Debug, PartialEq, Eq)]
pub enum ResolveError {
    PathSourceError(PathSourceError),
    RevisionResolutionError(String),
}

/// The paths that were fetched, as they were named; none where fetching
/// failed.
pub open spec fn named_paths(fetched: FetchedModel) -> Option<Seq<Seq<char>>> {
    match fetched {
        FetchedModel::Given(paths) => Some(paths),
        FetchedModel::FileContent(text) => Some(listed_paths(text)),
        FetchedModel::FileUnreadable => None,
        FetchedModel::CommandEnded { code, output } => if code == 0 {
            Some(listed_paths(output))
        } else {
            None
        },
        FetchedModel::Listing(text) => Some(listed_paths(text)),
        FetchedModel::ListingFailed(_) => None,
    }
}

/// The directory from which the relative ones of the fetched paths are
/// taken: the root of the repository for what source control lists, else the
/// working directory.
pub open spec fn base_of(fetched: FetchedModel, root: Seq<char>, cwd: Seq<char>) -> Seq<char> {
    if fetched is Listing {
        root
    } else {
        cwd
    }
}

/// Whether `out` is what resolving `fetched` gives.
pub open spec fn is_fetched_resolution(
    root: Seq<char>,
    cwd: Seq<char>,
    fetched: FetchedModel,
    out: Result<TargetPathSet, ResolveError>,
) -> bool {
    match named_paths(fetched) {
        Some(raw) => match out {
            Ok(set) => is_resolution(root, base_of(fetched, root, cwd), raw, Ok(set)),
            Err(ResolveError::PathSourceError(e)) => is_resolution(
                root,
                base_of(fetched, root, cwd),
                raw,
                Err(e),
            ),
            Err(_) => false,
        },
        None => match fetched {
            FetchedModel::FileUnreadable => out == Err::<TargetPathSet, ResolveError>(
                ResolveError::PathSourceError(PathSourceError::Unreadable),
            ),
            FetchedModel::CommandEnded { code, output } => out == Err::<
                TargetPathSet,
                ResolveError,
            >(ResolveError::PathSourceError(PathSourceError::CommandFailed(code))),
            FetchedModel::ListingFailed(reason) => match out {
                Err(ResolveError::RevisionResolutionError(text)) => text@ == reason,
                _ => false,
            },
            _ => false,
        },
    }
}

/// Makes the set of target paths from what was fetched. A file that could
/// not be read and a command that ended with a code other than 0 are path
/// source errors; a failure of source control is a revision resolution
/// error; in all other cases the paths that were named are resolved as
/// [`resolve_paths`] says. There is no partial set: any error is the whole
/// result.
pub fn resolve_fetched(root: &str, cwd: &str, fetched: &Fetched) -> (out: Result<
    TargetPathSet,
    ResolveError,
>)
    ensures
        is_fetched_resolution(root@, cwd@, fetched@, out),
        out matches Ok(set) ==> valid_targets(set.root_text(), set@),
{
    let resolved = match fetched {
        Fetched::Given(paths) => resolve_paths(root, cwd, paths),
        Fetched::FileContent(text) => resolve_paths(root, cwd, &list_paths(text.as_str())),
        Fetched::FileUnreadable => {
            return Err(ResolveError::PathSourceError(PathSourceError::Unreadable));
        },
        Fetched::CommandEnded { code, output } => {
            if *code != 0 {
                return Err(ResolveError::PathSourceError(PathSourceError::CommandFailed(*code)));
            }
            resolve_paths(root, cwd, &list_paths(output.as_str()))
        },
        Fetched::Listing(text) => resolve_paths(root, root, &list_paths(text.as_str())),
        Fetched::ListingFailed(reason) => {
            return Err(ResolveError::RevisionResolutionError(reason.clone()));
        },
    };
    match resolved {
        Ok(set) => Ok(set),
        Err(e) => Err(ResolveError::PathSourceError(e)),
    }
}

} // verus!
