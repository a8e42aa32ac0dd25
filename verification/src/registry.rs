//! The registry view: which of the configured linters take part in a run,
//! and on which of the target paths each of them works.

use vstd::prelude::*;
use crate::glob::{matches_any, matches_any_glob};
use crate::paths::TargetPathSet;
use crate::text::{chars_of, clone_texts, contains_text, same_text, split_on, split_text};

verus! {

/// One configured linter.
#[derive(Debug, PartialEq, Eq)]
pub struct LinterSpec {
    /// The name, by which the linter is skipped or taken.
    pub name: String,
    /// The shell command that runs the linter.
    pub command: String,
    /// The shell command that sets the linter up.
    pub init_command: String,
    /// Globs of the files that the linter works on; all files where empty.
    pub include_globs: Vec<String>,
    /// Globs of the files that the linter leaves alone.
    pub exclude_globs: Vec<String>,
    /// Whether the linter is a formatter.
    pub is_formatter: bool,
}

/// The mathematical value of a [`LinterSpec`].
pub ghost struct LinterModel {
    pub name: Seq<char>,
    pub command: Seq<char>,
    pub init_command: Seq<char>,
    pub include_globs: Seq<Seq<char>>,
    pub exclude_globs: Seq<Seq<char>>,
    pub is_formatter: bool,
}

impl View for LinterSpec {
    type V = LinterModel;

    open spec fn view(&self) -> LinterModel {
        LinterModel {
            name: self.name@,
            command: self.command@,
            init_command: self.init_command@,
            include_globs: self.include_globs.deep_view(),
            exclude_globs: self.exclude_globs.deep_view(),
            is_formatter: self.is_formatter,
        }
    }
}

impl DeepView for LinterSpec {
    type V = LinterModel;

    open spec fn deep_view(&self) -> LinterModel {
        self@
    }
}

impl Clone for LinterSpec {
    fn clone(&self) -> (out: Self)
        ensures
            out@ == self@,
    {
        LinterSpec {
            name: self.name.clone(),
            command: self.command.clone(),
            init_command: self.init_command.clone(),
            include_globs: clone_texts(&self.include_globs),
            exclude_globs: clone_texts(&self.exclude_globs),
            is_formatter: self.is_formatter,
        }
    }
}

/// The names that a list with commas between them holds.
pub fn parse_names(list: &str) -> (names: Vec<String>)
    ensures
        names.deep_view() == split_on(list@, ','),
{
    split_text(list, ',')
}

/// The linters among which a run chooses: for a run that only formats, the
/// formatters; else all.
pub open spec fn candidates_of(linters: Seq<LinterModel>, format_only: bool) -> Seq<LinterModel> {
    if format_only {
        linters.filter(|l: LinterModel| l.is_formatter)
    } else {
        linters
    }
}

/// Whether a linter of this name takes part: it is not among those to skip,
/// and where linters to take are named, it is among them. Skipping comes
/// first, so a name that is in both lists is left out.
pub open spec fn is_selected(
    name: Seq<char>,
    skip: Option<Seq<Seq<char>>>,
    take: Option<Seq<Seq<char>>>,
) -> bool {
    &&& skip is Some ==> !skip->0.contains(name)
    &&& take is Some ==> take->0.contains(name)
}

/// The linters that take part, in the order of their registration.
pub open spec fn selected_of(
    linters: Seq<LinterModel>,
    skip: Option<Seq<Seq<char>>>,
    take: Option<Seq<Seq<char>>>,
) -> Seq<LinterModel> {
    linters.filter(|l: LinterModel| is_selected(l.name, skip, take))
}

/// The path as the globs see it: what follows the root of the repository
/// and its slash.
pub open spec fn relative_text(root: Seq<char>, path: Seq<char>) -> Seq<char> {
    let cut = if root == "/"@ {
        1
    } else {
        root.len() + 1
    };
    if path.len() > cut {
        path.skip(cut as int)
    } else {
        Seq::empty()
    }
}

/// Whether the linter works on the file: the file matches one of the
/// include globs, or there are none, and it matches no exclude glob.
pub open spec fn works_on(linter: LinterModel, root: Seq<char>, path: Seq<char>) -> bool {
    &&& linter.include_globs.len() == 0 || matches_any(linter.include_globs, relative_text(root, path))
    &&& !matches_any(linter.exclude_globs, relative_text(root, path))
}

/// The paths among `targets` that the linter works on, in their order.
pub open spec fn inputs_of(linter: LinterModel, root: Seq<char>, targets: Seq<Seq<char>>) -> Seq<
    Seq<char>,
> {
    targets.filter(|p: Seq<char>| works_on(linter, root, p))
}

/// A linter together with the paths that it is run on.
#[derive(Debug, PartialEq, Eq)]
pub struct ScheduledLinter {
    pub linter: LinterSpec,
    pub paths: Vec<String>,
}

/// The mathematical value of a [`ScheduledLinter`].
pub ghost struct ScheduledModel {
    pub linter: LinterModel,
    pub paths: Seq<Seq<char>>,
}

impl View for ScheduledLinter {
    type V = ScheduledModel;

    open spec fn view(&self) -> ScheduledModel {
        ScheduledModel { linter: self.linter@, paths: self.paths.deep_view() }
    }
}

impl DeepView for ScheduledLinter {
    type V = ScheduledModel;

    open spec fn deep_view(&self) -> ScheduledModel {
        self@
    }
}

/// The linters to run, each with its paths, in the order of their
/// registration: those that have at least one path to work on.
pub open spec fn schedule_of(
    linters: Seq<LinterModel>,
    root: Seq<char>,
    targets: Seq<Seq<char>>,
) -> Seq<ScheduledModel>
    decreases linters.len(),
{
    if linters.len() == 0 {
        Seq::empty()
    } else {
        let before = schedule_of(linters.drop_last(), root, targets);
        let paths = inputs_of(linters.last(), root, targets);
        if paths.len() > 0 {
            before.push(ScheduledModel { linter: linters.last(), paths })
        } else {
            before
        }
    }
}

/// Two tests that agree on every item of a sequence keep the same items.
pub proof fn lemma_filter_agree<A>(s: Seq<A>, p: spec_fn(A) -> bool, q: spec_fn(A) -> bool)
    requires
        forall|i: int| 0 <= i < s.len() ==> p(#[trigger] s[i]) == q(s[i]),
    ensures
        s.filter(p) == s.filter(q),
    decreases s.len(),
{
    reveal(Seq::filter);
    if s.len() > 0 {
        assert forall|i: int| 0 <= i < s.drop_last().len() implies p(#[trigger] s.drop_last()[i])
            == q(s.drop_last()[i]) by {
            assert(s.drop_last()[i] == s[i]);
        }
        lemma_filter_agree(s.drop_last(), p, q);
        assert(s.last() == s[s.len() - 1]);
    }
}

/// Keeping by one test and then by another keeps what passes both.
pub proof fn lemma_filter_twice<A>(s: Seq<A>, p: spec_fn(A) -> bool, q: spec_fn(A) -> bool)
    ensures
        s.filter(p).filter(q) == s.filter(|x: A| p(x) && q(x)),
    decreases s.len(),
{
    reveal(Seq::filter);
    let both = |x: A| p(x) && q(x);
    if s.len() > 0 {
        lemma_filter_twice(s.drop_last(), p, q);
        if p(s.last()) {
            Seq::lemma_filter_push(s.drop_last().filter(p), s.last(), q);
        }
    } else {
        assert(s.filter(p) =~= Seq::<A>::empty());
    }
}

/// Taking narrows after skipping: with both lists given, the linters that
/// take part are those that remain after skipping and are then taken.
pub proof fn lemma_take_narrows_after_skip(
    linters: Seq<LinterModel>,
    skip: Seq<Seq<char>>,
    take: Seq<Seq<char>>,
)
    ensures
        selected_of(linters, Some(skip), Some(take)) == selected_of(
            selected_of(linters, Some(skip), None),
            None,
            Some(take),
        ),
{
    let skipping = |l: LinterModel| is_selected(l.name, Some(skip), None);
    let taking = |l: LinterModel| is_selected(l.name, None, Some(take));
    lemma_filter_twice(linters, skipping, taking);
    lemma_filter_agree(
        linters,
        |l: LinterModel| skipping(l) && taking(l),
        |l: LinterModel| is_selected(l.name, Some(skip), Some(take)),
    );
}

/// A name that no linter has changes nothing, whether it is skipped or
/// taken along with others.
pub proof fn lemma_unknown_name_changes_nothing(
    linters: Seq<LinterModel>,
    skip: Seq<Seq<char>>,
    take: Seq<Seq<char>>,
    name: Seq<char>,
)
    requires
        !is_known(linters, name),
    ensures
        selected_of(linters, Some(skip.push(name)), Some(take)) == selected_of(
            linters,
            Some(skip),
            Some(take),
        ),
        selected_of(linters, Some(skip), Some(take.push(name))) == selected_of(
            linters,
            Some(skip),
            Some(take),
        ),
        selected_of(linters, Some(skip.push(name)), None) == selected_of(
            linters,
            Some(skip),
            None,
        ),
{
    assert forall|i: int| 0 <= i < linters.len() implies (skip.push(name).contains(
        (#[trigger] linters[i]).name,
    ) == skip.contains(linters[i].name)) && (take.push(name).contains(linters[i].name)
        == take.contains(linters[i].name)) by {
        lemma_push_contains(skip, name, linters[i].name);
        lemma_push_contains(take, name, linters[i].name);
    }
    lemma_filter_agree(
        linters,
        |l: LinterModel| is_selected(l.name, Some(skip.push(name)), Some(take)),
        |l: LinterModel| is_selected(l.name, Some(skip), Some(take)),
    );
    lemma_filter_agree(
        linters,
        |l: LinterModel| is_selected(l.name, Some(skip), Some(take.push(name))),
        |l: LinterModel| is_selected(l.name, Some(skip), Some(take)),
    );
    lemma_filter_agree(
        linters,
        |l: LinterModel| is_selected(l.name, Some(skip.push(name)), None),
        |l: LinterModel| is_selected(l.name, Some(skip), None),
    );
}

proof fn lemma_push_contains(names: Seq<Seq<char>>, added: Seq<char>, name: Seq<char>)
    ensures
        names.push(added).contains(name) == (names.contains(name) || added == name),
{
    let more = names.push(added);
    if names.contains(name) {
        let i = choose|i: int| 0 <= i < names.len() && names[i] == name;
        assert(more[i] == name);
    }
    if added == name {
        assert(more[names.len() as int] == name);
    }
    if more.contains(name) {
        let i = choose|i: int| 0 <= i < more.len() && more[i] == name;
        if i < names.len() {
            assert(names[i] == name);
        }
    }
}

/// A linter without include globs works on every target path that matches
/// none of its exclude globs, and on no other.
pub proof fn lemma_empty_include_takes_all(
    linter: LinterModel,
    root: Seq<char>,
    targets: Seq<Seq<char>>,
)
    requires
        linter.include_globs.len() == 0,
    ensures
        inputs_of(linter, root, targets) == targets.filter(
            |p: Seq<char>| !matches_any(linter.exclude_globs, relative_text(root, p)),
        ),
{
    lemma_filter_agree(
        targets,
        |p: Seq<char>| works_on(linter, root, p),
        |p: Seq<char>| !matches_any(linter.exclude_globs, relative_text(root, p)),
    );
}

/// The linters among which a run chooses: see [`candidates_of`].
pub fn candidates(linters: &Vec<LinterSpec>, format_only: bool) -> (out: Vec<LinterSpec>)
    ensures
        out.deep_view() == candidates_of(linters.deep_view(), format_only),
{
    let mut out: Vec<LinterSpec> = Vec::new();
    let mut i: usize = 0;
    let ghost keep = |l: LinterModel| l.is_formatter;
    proof {
        reveal(Seq::filter);
        assert(linters.deep_view().take(0).filter(keep) =~= Seq::<LinterModel>::empty());
    }
    while i < linters.len()
        invariant
            i <= linters.len(),
            keep == |l: LinterModel| l.is_formatter,
            format_only ==> out.deep_view() == linters.deep_view().take(i as int).filter(keep),
            !format_only ==> out.deep_view() == linters.deep_view().take(i as int),
        decreases linters.len() - i,
    {
        proof {
            let done = linters.deep_view().take(i as int);
            assert(linters.deep_view().take(i + 1) =~= done.push(linters.deep_view()[i as int]));
            Seq::lemma_filter_push(done, linters.deep_view()[i as int], keep);
        }
        if !format_only || linters[i].is_formatter {
            let ghost before = out.deep_view();
            out.push(linters[i].clone());
            assert(out.deep_view() =~= before.push(linters.deep_view()[i as int]));
        }
        i += 1;
    }
    assert(linters.deep_view().take(i as int) =~= linters.deep_view());
    out
}

/// Whether a linter of this name takes part: see [`is_selected`].
pub fn selects(name: &String, skip: &Option<Vec<String>>, take: &Option<Vec<String>>) -> (yes: bool)
    ensures
        yes == is_selected(name@, skip.deep_view(), take.deep_view()),
{
    let skipped = match skip {
        Some(names) => contains_text(names, name),
        None => false,
    };
    let taken = match take {
        Some(names) => contains_text(names, name),
        None => true,
    };
    !skipped && taken
}

/// The linters that take part in the run, in the order of their
/// registration. A name to skip or to take that no linter has changes
/// nothing.
pub fn select_linters(
    linters: &Vec<LinterSpec>,
    skip: &Option<Vec<String>>,
    take: &Option<Vec<String>>,
) -> (out: Vec<LinterSpec>)
    ensures
        out.deep_view() == selected_of(linters.deep_view(), skip.deep_view(), take.deep_view()),
{
    let mut out: Vec<LinterSpec> = Vec::new();
    let mut i: usize = 0;
    let ghost keep = |l: LinterModel| is_selected(l.name, skip.deep_view(), take.deep_view());
    proof {
        reveal(Seq::filter);
        assert(linters.deep_view().take(0).filter(keep) =~= Seq::<LinterModel>::empty());
    }
    while i < linters.len()
        invariant
            i <= linters.len(),
            keep == |l: LinterModel| is_selected(l.name, skip.deep_view(), take.deep_view()),
            out.deep_view() == linters.deep_view().take(i as int).filter(keep),
        decreases linters.len() - i,
    {
        proof {
            let done = linters.deep_view().take(i as int);
            assert(linters.deep_view().take(i + 1) =~= done.push(linters.deep_view()[i as int]));
            Seq::lemma_filter_push(done, linters.deep_view()[i as int], keep);
        }
        if selects(&linters[i].name, skip, take) {
            let ghost before = out.deep_view();
            out.push(linters[i].clone());
            assert(out.deep_view() =~= before.push(linters.deep_view()[i as int]));
        }
        i += 1;
    }
    assert(linters.deep_view().take(i as int) =~= linters.deep_view());
    out
}

/// The path as the globs see it: see [`relative_text`].
pub fn relative_path(root: &String, path: &String) -> (out: String)
    ensures
        out@ == relative_text(root@, path@),
{
    let root_chars = chars_of(root.as_str());
    let chars = chars_of(path.as_str());
    let slash = String::from_str("/");
    proof {
        reveal_strlit("/");
    }
    let at_top = same_text(root, &slash);
    let mut out = String::new();
    if !at_top && root_chars.len() >= chars.len() {
        return out;
    }
    let cut: usize = if at_top {
        1
    } else {
        root_chars.len() + 1
    };
    if chars.len() <= cut {
        return out;
    }
    let mut i: usize = cut;
    assert(out@ =~= chars@.subrange(cut as int, i as int));
    while i < chars.len()
        invariant
            cut <= i <= chars.len(),
            out@ == chars@.subrange(cut as int, i as int),
        decreases chars.len() - i,
    {
        out.push(chars[i]);
        i += 1;
        assert(out@ =~= chars@.subrange(cut as int, i as int));
    }
    assert(out@ =~= chars@.skip(cut as int));
    out
}

/// The paths of `targets` that `linter` works on, in their order: those
/// that match one of its include globs, or all where it has none, and match
/// none of its exclude globs.
pub fn linter_inputs(linter: &LinterSpec, targets: &TargetPathSet) -> (out: Vec<String>)
    ensures
        out.deep_view() == inputs_of(linter@, targets.root_text(), targets@),
{
    let paths = targets.paths();
    let root = targets.root();
    let mut out: Vec<String> = Vec::new();
    let mut i: usize = 0;
    let ghost keep = |p: Seq<char>| works_on(linter@, targets.root_text(), p);
    proof {
        reveal(Seq::filter);
        assert(paths.deep_view().take(0).filter(keep) =~= Seq::<Seq<char>>::empty());
    }
    while i < paths.len()
        invariant
            i <= paths.len(),
            root@ == targets.root_text(),
            keep == |p: Seq<char>| works_on(linter@, targets.root_text(), p),
            out.deep_view() == paths.deep_view().take(i as int).filter(keep),
        decreases paths.len() - i,
    {
        proof {
            let done = paths.deep_view().take(i as int);
            assert(paths.deep_view().take(i + 1) =~= done.push(paths.deep_view()[i as int]));
            Seq::lemma_filter_push(done, paths.deep_view()[i as int], keep);
        }
        let relative = relative_path(root, &paths[i]);
        let included = linter.include_globs.len() == 0 || matches_any_glob(
            &linter.include_globs,
            relative.as_str(),
        );
        if included && !matches_any_glob(&linter.exclude_globs, relative.as_str()) {
            let ghost before = out.deep_view();
            out.push(paths[i].clone());
            assert(out.deep_view() =~= before.push(paths.deep_view()[i as int]));
        }
        i += 1;
    }
    assert(paths.deep_view().take(i as int) =~= paths.deep_view());
    out
}

/// The linters to run, each with the paths that it works on, in the order
/// of their registration. A linter that has no path to work on is not
/// scheduled.
pub fn schedule(linters: &Vec<LinterSpec>, targets: &TargetPathSet) -> (out: Vec<ScheduledLinter>)
    ensures
        out.deep_view() == schedule_of(linters.deep_view(), targets.root_text(), targets@),
        forall|k: int| 0 <= k < out.len() ==> (#[trigger] out.deep_view()[k]).paths.len() > 0,
{
    let mut out: Vec<ScheduledLinter> = Vec::new();
    let mut i: usize = 0;
    assert(out.deep_view() =~= schedule_of(
        linters.deep_view().take(0),
        targets.root_text(),
        targets@,
    ));
    while i < linters.len()
        invariant
            i <= linters.len(),
            out.deep_view() == schedule_of(
                linters.deep_view().take(i as int),
                targets.root_text(),
                targets@,
            ),
            forall|k: int| 0 <= k < out.len() ==> (#[trigger] out.deep_view()[k]).paths.len() > 0,
        decreases linters.len() - i,
    {
        assert(linters.deep_view().take(i + 1).drop_last() =~= linters.deep_view().take(i as int));
        assert(linters.deep_view().take(i + 1).last() == linters[i as int]@);
        let paths = linter_inputs(&linters[i], targets);
        if paths.len() > 0 {
            let ghost before = out.deep_view();
            let entry = ScheduledLinter { linter: linters[i].clone(), paths };
            out.push(entry);
            assert(out.deep_view() =~= before.push(entry@));
        }
        i += 1;
    }
    assert(linters.deep_view().take(i as int) =~= linters.deep_view());
    out
}

/// Whether a linter has this name.
pub open spec fn is_known(linters: Seq<LinterModel>, name: Seq<char>) -> bool {
    exists|i: int| 0 <= i < linters.len() && (#[trigger] linters[i]).name == name
}

/// Whether one of `linters` has the name `name`.
fn knows(linters: &Vec<LinterSpec>, name: &String) -> (found: bool)
    ensures
        found == is_known(linters.deep_view(), name@),
{
    let mut i: usize = 0;
    while i < linters.len()
        invariant
            i <= linters.len(),
            forall|j: int| 0 <= j < i ==> (#[trigger] linters.deep_view()[j]).name != name@,
        decreases linters.len() - i,
    {
        if same_text(&linters[i].name, name) {
            assert(linters.deep_view()[i as int].name == name@);
            return true;
        }
        i += 1;
    }
    false
}

/// The names among `names` that no linter has, in their order. Such a name
/// changes nothing when it is skipped or taken; it is worth a remark.
pub fn unknown_names(linters: &Vec<LinterSpec>, names: &Vec<String>) -> (out: Vec<String>)
    ensures
        out.deep_view() == names.deep_view().filter(
            |n: Seq<char>| !is_known(linters.deep_view(), n),
        ),
{
    let mut out: Vec<String> = Vec::new();
    let mut i: usize = 0;
    let ghost keep = |n: Seq<char>| !is_known(linters.deep_view(), n);
    proof {
        reveal(Seq::filter);
        assert(names.deep_view().take(0).filter(keep) =~= Seq::<Seq<char>>::empty());
    }
    while i < names.len()
        invariant
            i <= names.len(),
            keep == |n: Seq<char>| !is_known(linters.deep_view(), n),
            out.deep_view() == names.deep_view().take(i as int).filter(keep),
        decreases names.len() - i,
    {
        proof {
            let done = names.deep_view().take(i as int);
            assert(names.deep_view().take(i + 1) =~= done.push(names.deep_view()[i as int]));
            Seq::lemma_filter_push(done, names.deep_view()[i as int], keep);
        }
        if !knows(linters, &names[i]) {
            let ghost before = out.deep_view();
            out.push(names[i].clone());
            assert(out.deep_view() =~= before.push(names.deep_view()[i as int]));
        }
        i += 1;
    }
    assert(names.deep_view().take(i as int) =~= names.deep_view());
    out
}

/// The view of the registry for one run: of the configured linters, those
/// that are not skipped and, where linters to take are named, are taken,
/// each with the target paths that it works on, in the order of their
/// registration; a linter without any such path is left out.
pub fn registry_view(
    linters: &Vec<LinterSpec>,
    skip: &Option<Vec<String>>,
    take: &Option<Vec<String>>,
    targets: &TargetPathSet,
) -> (out: Vec<ScheduledLinter>)
    ensures
        out.deep_view() == schedule_of(
            selected_of(linters.deep_view(), skip.deep_view(), take.deep_view()),
            targets.root_text(),
            targets@,
        ),
        forall|k: int| 0 <= k < out.len() ==> (#[trigger] out.deep_view()[k]).paths.len() > 0,
{
    let active = select_linters(linters, skip, take);
    schedule(&active, targets)
}

} // verus!
