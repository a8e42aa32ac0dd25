//! The patch engine: which files are rewritten with which suggested
//! content, and which suggestions are set aside because another one came
//! first. The plan is made here; writing it to disk is the caller's part.

use vstd::prelude::*;
use crate::report::{EntryModel, ReportEntry};
use crate::text::same_text;

verus! {

/// One file to rewrite: its path, the new content, and the linter that
/// suggested it.
#[derive(Debug, PartialEq, Eq)]
pub struct PatchWrite {
    pub path: String,
    pub content: String,
    pub linter: String,
}

/// A suggestion that was not applied, because an earlier one for the same
/// file suggested other content.
#[derive(Debug, PartialEq, Eq)]
pub struct PatchConflictWarning {
    pub path: String,
    pub applied_linter: String,
    pub rejected_linter: String,
}

/// What the patch engine will do: the files to rewrite, in the order of
/// their first suggestion, and the warnings, in the order of the stream.
#[derive(Debug, PartialEq, Eq)]
pub struct PatchPlan {
    pub writes: Vec<PatchWrite>,
    pub conflicts: Vec<PatchConflictWarning>,
}

/// The mathematical value of a [`PatchWrite`].
pub ghost struct WriteModel {
    pub path: Seq<char>,
    pub content: Seq<char>,
    pub linter: Seq<char>,
}

/// The mathematical value of a [`PatchConflictWarning`].
pub ghost struct ConflictModel {
    pub path: Seq<char>,
    pub applied_linter: Seq<char>,
    pub rejected_linter: Seq<char>,
}

impl View for PatchWrite {
    type V = WriteModel;

    open spec fn view(&self) -> WriteModel {
        WriteModel { path: self.path@, content: self.content@, linter: self.linter@ }
    }
}

impl DeepView for PatchWrite {
    type V = WriteModel;

    open spec fn deep_view(&self) -> WriteModel {
        self@
    }
}

impl View for PatchConflictWarning {
    type V = ConflictModel;

    open spec fn view(&self) -> ConflictModel {
        ConflictModel {
            path: self.path@,
            applied_linter: self.applied_linter@,
            rejected_linter: self.rejected_linter@,
        }
    }
}

impl DeepView for PatchConflictWarning {
    type V = ConflictModel;

    open spec fn deep_view(&self) -> ConflictModel {
        self@
    }
}

/// The rewrite that an entry suggests: that of a finding that carries a
/// replacement for the whole of its file.
pub open spec fn suggestion(entry: EntryModel) -> Option<WriteModel> {
    match entry {
        EntryModel::Finding(issue) => match issue.replacement {
            Some(content) => Some(WriteModel { path: issue.path, content, linter: issue.linter }),
            None => None,
        },
        EntryModel::Failure { .. } => None,
    }
}

/// The write for `path` among `writes`, if there is one.
pub open spec fn find_write(writes: Seq<WriteModel>, path: Seq<char>) -> Option<WriteModel>
    decreases writes.len(),
{
    if writes.len() == 0 {
        None
    } else if writes.last().path == path {
        Some(writes.last())
    } else {
        find_write(writes.drop_last(), path)
    }
}

/// The files to rewrite: for each file that a suggestion names, the first
/// suggestion for it in the order of the stream.
pub open spec fn planned_writes(entries: Seq<EntryModel>) -> Seq<WriteModel>
    decreases entries.len(),
{
    if entries.len() == 0 {
        Seq::empty()
    } else {
        let before = planned_writes(entries.drop_last());
        match suggestion(entries.last()) {
            Some(s) => if find_write(before, s.path) is Some {
                before
            } else {
                before.push(s)
            },
            None => before,
        }
    }
}

/// The warning that the suggestion `s` calls for, where `first` was
/// suggested for the same file before it: none where both suggest the same
/// content.
pub open spec fn conflict_between(first: WriteModel, s: WriteModel) -> Option<ConflictModel> {
    if first.content != s.content {
        Some(ConflictModel { path: s.path, applied_linter: first.linter, rejected_linter: s.linter })
    } else {
        None
    }
}

/// The warnings: one for each suggestion that differs from the first
/// suggestion for its file, in the order of the stream.
pub open spec fn planned_conflicts(entries: Seq<EntryModel>) -> Seq<ConflictModel>
    decreases entries.len(),
{
    if entries.len() == 0 {
        Seq::empty()
    } else {
        let before = planned_conflicts(entries.drop_last());
        match suggestion(entries.last()) {
            Some(s) => match find_write(planned_writes(entries.drop_last()), s.path) {
                Some(first) => match conflict_between(first, s) {
                    Some(warning) => before.push(warning),
                    None => before,
                },
                None => before,
            },
            None => before,
        }
    }
}

/// No two writes are for the same file.
pub open spec fn distinct_paths(writes: Seq<WriteModel>) -> bool {
    forall|i: int, j: int|
        0 <= i < j < writes.len() ==> (#[trigger] writes[i]).path != (#[trigger] writes[j]).path
}

/// A write that is found is one of the writes, and it is for the path asked
/// for; where none is found, no write is for that path.
pub proof fn lemma_find_write(writes: Seq<WriteModel>, path: Seq<char>)
    ensures
        match find_write(writes, path) {
            Some(w) => w.path == path && writes.contains(w),
            None => forall|i: int| 0 <= i < writes.len() ==> (#[trigger] writes[i]).path != path,
        },
    decreases writes.len(),
{
    if writes.len() > 0 {
        if writes.last().path == path {
            assert(writes[writes.len() - 1] == writes.last());
        } else {
            lemma_find_write(writes.drop_last(), path);
            match find_write(writes.drop_last(), path) {
                Some(w) => {
                    let i = choose|i: int|
                        0 <= i < writes.drop_last().len() && writes.drop_last()[i] == w;
                    assert(writes[i] == w);
                },
                None => {
                    assert forall|i: int| 0 <= i < writes.len() implies (
                    #[trigger] writes[i]).path != path by {
                        if i < writes.len() - 1 {
                            assert(writes.drop_last()[i] == writes[i]);
                        }
                    }
                },
            }
        }
    }
}

/// Whether the entry suggests a rewrite of the file `path`.
pub open spec fn suggests_for(entry: EntryModel, path: Seq<char>) -> bool {
    suggestion(entry) is Some && suggestion(entry)->0.path == path
}

/// Whether the entry at `i` suggests the write `w`, and no entry before it
/// suggests anything for the same file.
pub open spec fn is_first_suggestion(entries: Seq<EntryModel>, i: int, w: WriteModel) -> bool {
    &&& 0 <= i < entries.len()
    &&& suggestion(entries[i]) == Some(w)
    &&& forall|j: int| 0 <= j < i ==> !suggests_for(#[trigger] entries[j], w.path)
}

/// Whether `w` is the first suggestion for its file in the stream.
pub open spec fn has_first_suggestion(entries: Seq<EntryModel>, w: WriteModel) -> bool {
    exists|i: int| is_first_suggestion(entries, i, w)
}

proof fn lemma_first_suggestion_extends(entries: Seq<EntryModel>, i: int, w: WriteModel)
    requires
        entries.len() > 0,
        is_first_suggestion(entries.drop_last(), i, w),
    ensures
        is_first_suggestion(entries, i, w),
{
    let front = entries.drop_last();
    assert(front[i] == entries[i]);
    assert forall|j: int| 0 <= j < i implies !suggests_for(#[trigger] entries[j], w.path) by {
        assert(front[j] == entries[j]);
    }
}

/// Each file is rewritten once at most, with the first content suggested
/// for it: the writes are for distinct files, each is the suggestion of an
/// entry before which no entry suggests anything for the same file, and
/// every file that a suggestion names is among them.
pub proof fn lemma_planned_writes(entries: Seq<EntryModel>)
    ensures
        distinct_paths(planned_writes(entries)),
        forall|k: int|
            0 <= k < planned_writes(entries).len() ==> has_first_suggestion(
                entries,
                #[trigger] planned_writes(entries)[k],
            ),
        forall|i: int, path: Seq<char>|
            0 <= i < entries.len() && suggests_for(#[trigger] entries[i], path) ==> (
            #[trigger] find_write(planned_writes(entries), path)) is Some,
    decreases entries.len(),
{
    if entries.len() > 0 {
        let front = entries.drop_last();
        let before = planned_writes(front);
        let after = planned_writes(entries);
        let n = entries.len() - 1;
        lemma_planned_writes(front);
        let grows = suggestion(entries.last()) is Some && find_write(
            before,
            suggestion(entries.last())->0.path,
        ) is None;
        if grows {
            let s = suggestion(entries.last())->0;
            lemma_find_write(before, s.path);
            assert(after == before.push(s));
            assert(after.drop_last() =~= before);
            assert(is_first_suggestion(entries, n, s)) by {
                assert forall|j: int| 0 <= j < n implies !suggests_for(
                    #[trigger] entries[j],
                    s.path,
                ) by {
                    assert(front[j] == entries[j]);
                    if suggests_for(front[j], s.path) {
                        assert(find_write(before, s.path) is Some);
                    }
                }
            }
        } else {
            assert(after == before);
        }
        assert forall|k: int| 0 <= k < after.len() implies has_first_suggestion(
            entries,
            #[trigger] after[k],
        ) by {
            if k < before.len() {
                assert(after[k] == before[k]);
                assert(has_first_suggestion(front, before[k]));
                let i = choose|i: int| is_first_suggestion(front, i, before[k]);
                lemma_first_suggestion_extends(entries, i, before[k]);
            } else {
                assert(is_first_suggestion(entries, n, after[k]));
            }
        }
        assert forall|i: int, path: Seq<char>|
            0 <= i < entries.len() && suggests_for(#[trigger] entries[i], path) implies (
        #[trigger] find_write(after, path)) is Some by {
            if i < n {
                assert(front[i] == entries[i]);
                assert(find_write(before, path) is Some);
            }
            if grows && find_write(before, path) is Some {
                assert(after.drop_last() =~= before);
            }
        }
    }
}

/// A warning that was called for stays: what the stream up to its position
/// `k` warns of, the whole stream warns of too.
pub proof fn lemma_conflicts_stay(entries: Seq<EntryModel>, k: int, warning: ConflictModel)
    requires
        0 <= k <= entries.len(),
        planned_conflicts(entries.take(k)).contains(warning),
    ensures
        planned_conflicts(entries).contains(warning),
    decreases entries.len() - k,
{
    if k == entries.len() {
        assert(entries.take(k) =~= entries);
    } else {
        let front = entries.drop_last();
        assert(front.take(k) =~= entries.take(k));
        lemma_conflicts_stay(front, k, warning);
        let before = planned_conflicts(front);
        let at = choose|at: int| 0 <= at < before.len() && before[at] == warning;
        let after = planned_conflicts(entries);
        if after != before {
            assert(after.drop_last() =~= before);
            assert(after[at] == before[at]);
        }
    }
}

/// The write for a file is its first suggestion, at every later point of
/// the stream.
proof fn lemma_first_suggestion_is_found(entries: Seq<EntryModel>, i: int, w: WriteModel)
    requires
        is_first_suggestion(entries, i, w),
    ensures
        find_write(planned_writes(entries), w.path) == Some(w),
{
    lemma_planned_writes(entries);
    let writes = planned_writes(entries);
    assert(suggests_for(entries[i], w.path));
    lemma_find_write(writes, w.path);
    let found = find_write(writes, w.path)->0;
    let k = choose|k: int| 0 <= k < writes.len() && writes[k] == found;
    assert(has_first_suggestion(entries, writes[k]));
    let other = choose|other: int| is_first_suggestion(entries, other, found);
    if other < i {
        assert(suggests_for(entries[other], w.path));
    } else if other > i {
        assert(suggests_for(entries[i], found.path));
    }
}

/// A conflict is never passed over in silence: where the entry at `j`
/// suggests other content for a file than the first suggestion for that
/// file, at `i`, the first suggestion is written and a warning names the
/// linter of each.
pub proof fn lemma_conflict_is_reported(entries: Seq<EntryModel>, i: int, j: int)
    requires
        0 <= i < j < entries.len(),
        suggestion(entries[i]) is Some,
        suggestion(entries[j]) is Some,
        is_first_suggestion(entries, i, suggestion(entries[i])->0),
        suggestion(entries[j])->0.path == suggestion(entries[i])->0.path,
        suggestion(entries[j])->0.content != suggestion(entries[i])->0.content,
    ensures
        planned_writes(entries).contains(suggestion(entries[i])->0),
        planned_conflicts(entries).contains(
            ConflictModel {
                path: suggestion(entries[i])->0.path,
                applied_linter: suggestion(entries[i])->0.linter,
                rejected_linter: suggestion(entries[j])->0.linter,
            },
        ),
{
    let a = suggestion(entries[i])->0;
    let b = suggestion(entries[j])->0;
    let warning = ConflictModel {
        path: a.path,
        applied_linter: a.linter,
        rejected_linter: b.linter,
    };
    lemma_first_suggestion_is_found(entries, i, a);
    lemma_find_write(planned_writes(entries), a.path);
    let upto = entries.take(j);
    assert(is_first_suggestion(upto, i, a)) by {
        assert(upto[i] == entries[i]);
        assert forall|k: int| 0 <= k < i implies !suggests_for(#[trigger] upto[k], a.path) by {
            assert(upto[k] == entries[k]);
        }
    }
    lemma_first_suggestion_is_found(upto, i, a);
    let next = entries.take(j + 1);
    assert(next.drop_last() =~= upto);
    assert(next.last() == entries[j]);
    let after = planned_conflicts(next);
    assert(after == planned_conflicts(upto).push(warning));
    assert(after[after.len() - 1] == warning);
    lemma_conflicts_stay(entries, j + 1, warning);
}

/// Two suggestions of different content for one file: the first one is
/// written, and one warning names both linters.
pub proof fn lemma_two_suggestions_conflict(first: EntryModel, second: EntryModel)
    requires
        suggestion(first) is Some,
        suggestion(second) is Some,
        suggestion(first)->0.path == suggestion(second)->0.path,
        suggestion(first)->0.content != suggestion(second)->0.content,
    ensures
        planned_writes(seq![first, second]) == seq![suggestion(first)->0],
        planned_conflicts(seq![first, second]) == seq![
            ConflictModel {
                path: suggestion(first)->0.path,
                applied_linter: suggestion(first)->0.linter,
                rejected_linter: suggestion(second)->0.linter,
            },
        ],
{
    let both = seq![first, second];
    let one = seq![first];
    let a = suggestion(first)->0;
    assert(both.drop_last() =~= one);
    assert(one.drop_last() =~= Seq::<EntryModel>::empty());
    assert(planned_writes(one.drop_last()) =~= Seq::<WriteModel>::empty());
    assert(planned_writes(one) =~= seq![a]);
    assert(seq![a].last() == a);
    assert(find_write(seq![a], a.path) == Some(a));
    assert(planned_writes(both) =~= seq![a]);
    assert(planned_conflicts(one.drop_last()) =~= Seq::<ConflictModel>::empty());
    assert(planned_conflicts(one) =~= Seq::<ConflictModel>::empty());
    assert(planned_conflicts(both) =~= seq![
        ConflictModel {
            path: a.path,
            applied_linter: a.linter,
            rejected_linter: suggestion(second)->0.linter,
        },
    ]);
}

/// The position of the write for `path` among `writes`.
fn position_of(writes: &Vec<PatchWrite>, path: &String) -> (found: Option<usize>)
    ensures
        match found {
            Some(i) => i < writes.len() && find_write(writes.deep_view(), path@) == Some(
                writes.deep_view()[i as int],
            ),
            None => find_write(writes.deep_view(), path@) is None,
        },
{
    let mut i: usize = writes.len();
    assert(writes.deep_view().take(i as int) =~= writes.deep_view());
    while i > 0
        invariant
            i <= writes.len(),
            find_write(writes.deep_view(), path@) == find_write(
                writes.deep_view().take(i as int),
                path@,
            ),
        decreases i,
    {
        assert(writes.deep_view().take(i as int).drop_last() =~= writes.deep_view().take(i - 1));
        if same_text(&writes[i - 1].path, path) {
            return Some(i - 1);
        }
        i -= 1;
    }
    None
}

/// Plans the patches for the stream `entries`. With `apply` set, every file
/// for which an entry carries a replacement is rewritten with the first
/// replacement suggested for it, and each later suggestion of other content
/// for the same file gives a warning that names the linter whose suggestion
/// is applied and the linter whose suggestion is set aside. Without `apply`
/// nothing is written and nothing is warned of.
pub fn plan_patches(entries: &Vec<ReportEntry>, apply: bool) -> (plan: PatchPlan)
    ensures
        apply ==> plan.writes.deep_view() == planned_writes(entries.deep_view()),
        apply ==> plan.conflicts.deep_view() == planned_conflicts(entries.deep_view()),
        !apply ==> plan.writes.len() == 0 && plan.conflicts.len() == 0,
{
    let mut writes: Vec<PatchWrite> = Vec::new();
    let mut conflicts: Vec<PatchConflictWarning> = Vec::new();
    if !apply {
        return PatchPlan { writes, conflicts };
    }
    let mut i: usize = 0;
    assert(writes.deep_view() =~= planned_writes(entries.deep_view().take(0)));
    assert(conflicts.deep_view() =~= planned_conflicts(entries.deep_view().take(0)));
    while i < entries.len()
        invariant
            i <= entries.len(),
            writes.deep_view() == planned_writes(entries.deep_view().take(i as int)),
            conflicts.deep_view() == planned_conflicts(entries.deep_view().take(i as int)),
        decreases entries.len() - i,
    {
        assert(entries.deep_view().take(i + 1).drop_last() =~= entries.deep_view().take(i as int));
        assert(entries.deep_view().take(i + 1).last() == entries.deep_view()[i as int]);
        match &entries[i] {
            ReportEntry::Finding(issue) => match &issue.replacement {
                Some(content) => {
                    match position_of(&writes, &issue.path) {
                        Some(at) => {
                            if !same_text(&writes[at].content, content) {
                                let ghost before = conflicts.deep_view();
                                let warning = PatchConflictWarning {
                                    path: issue.path.clone(),
                                    applied_linter: writes[at].linter.clone(),
                                    rejected_linter: issue.linter.clone(),
                                };
                                conflicts.push(warning);
                                assert(conflicts.deep_view() =~= before.push(warning@));
                            }
                        },
                        None => {
                            let ghost before = writes.deep_view();
                            let write = PatchWrite {
                                path: issue.path.clone(),
                                content: content.clone(),
                                linter: issue.linter.clone(),
                            };
                            writes.push(write);
                            assert(writes.deep_view() =~= before.push(write@));
                        },
                    }
                },
                None => {},
            },
            ReportEntry::Failure { .. } => {},
        }
        i += 1;
    }
    assert(entries.deep_view().take(i as int) =~= entries.deep_view());
    PatchPlan { writes, conflicts }
}

} // verus!
