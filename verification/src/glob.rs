//! Glob patterns, as the linters' include and exclude rules use them: `*`
//! stands for any run of characters, the slash among them, `?` for any one
//! character, and every other character for itself.

use vstd::prelude::*;
use crate::text::chars_of;

verus! {

/// Whether `text` as a whole matches `pattern`.
pub open spec fn glob_matches(pattern: Seq<char>, text: Seq<char>) -> bool
    decreases pattern.len(), text.len(),
{
    if pattern.len() == 0 {
        text.len() == 0
    } else if pattern[0] == '*' {
        glob_matches(pattern.drop_first(), text) || (text.len() > 0 && glob_matches(
            pattern,
            text.drop_first(),
        ))
    } else {
        text.len() > 0 && (pattern[0] == '?' || pattern[0] == text[0]) && glob_matches(
            pattern.drop_first(),
            text.drop_first(),
        )
    }
}

/// Whether `text` matches at least one of `patterns`.
pub open spec fn matches_any(patterns: Seq<Seq<char>>, text: Seq<char>) -> bool {
    exists|i: int| 0 <= i < patterns.len() && glob_matches(#[trigger] patterns[i], text)
}

/// The matches of the pattern from its position `i` on against the text from
/// each position `j` on, for all `j` up to the end of the text.
spec fn is_row(row: Seq<bool>, pattern: Seq<char>, text: Seq<char>, i: int) -> bool {
    &&& row.len() == text.len() + 1
    &&& forall|j: int|
        0 <= j <= text.len() ==> #[trigger] row[j] == glob_matches(pattern.skip(i), text.skip(j))
}

/// Whether `text` as a whole matches the glob `pattern`.
pub fn matches_glob(pattern: &str, text: &str) -> (yes: bool)
    ensures
        yes == glob_matches(pattern@, text@),
{
    let p = chars_of(pattern);
    let t = chars_of(text);
    let n = p.len();
    let m = t.len();
    // The row for the end of the pattern: only the end of the text matches.
    let mut row: Vec<bool> = Vec::new();
    let mut j: usize = 0;
    while j < m
        invariant
            j <= m,
            m == t.len(),
            row.len() == j,
            forall|k: int| 0 <= k < j ==> !row[k],
        decreases m - j,
    {
        row.push(false);
        j += 1;
    }
    row.push(true);
    assert(row.len() == m + 1);
    assert(is_row(row@, p@, t@, n as int)) by {
        assert forall|k: int| 0 <= k <= m implies #[trigger] row@[k] == glob_matches(
            p@.skip(n as int),
            t@.skip(k),
        ) by {
            assert(p@.skip(n as int).len() == 0);
            assert(t@.skip(k).len() == m - k);
        }
    }
    let mut i: usize = n;
    while i > 0
        invariant
            i <= n,
            n == p.len(),
            m == t.len(),
            p@ == pattern@,
            t@ == text@,
            m + 1 <= usize::MAX,
            is_row(row@, p@, t@, i as int),
        decreases i,
    {
        i -= 1;
        let c = p[i];
        let ghost old_row = row@;
        let ghost pat = p@.skip(i as int);
        assert(pat.len() > 0 && pat[0] == c);
        assert(pat.drop_first() =~= p@.skip(i + 1));
        // The end of the text matches where only stars are left.
        let last = c == '*' && row[m];
        assert(last == glob_matches(pat, t@.skip(m as int))) by {
            assert(t@.skip(m as int).len() == 0);
        }
        let mut next: Vec<bool> = Vec::new();
        let mut k: usize = 0;
        while k < m
            invariant
                k <= m,
                next.len() == k,
            decreases m - k,
        {
            next.push(false);
            k += 1;
        }
        next.push(last);
        let mut j: usize = m;
        while j > 0
            invariant
                j <= m,
                m == t.len(),
                next.len() == m + 1,
                old_row.len() == m + 1,
                row@ == old_row,
                pat == p@.skip(i as int),
                pat.len() > 0 && pat[0] == c,
                pat.drop_first() == p@.skip(i + 1),
                is_row(old_row, p@, t@, i + 1),
                forall|k: int|
                    j <= k <= m ==> #[trigger] next[k] == glob_matches(pat, t@.skip(k)),
            decreases j,
        {
            j -= 1;
            let ghost rest = t@.skip(j as int);
            assert(rest.len() > 0 && rest[0] == t@[j as int]);
            assert(rest.drop_first() =~= t@.skip(j + 1));
            let value = if c == '*' {
                row[j] || next[j + 1]
            } else {
                (c == '?' || c == t[j]) && row[j + 1]
            };
            assert(value == glob_matches(pat, rest));
            next.set(j, value);
        }
        row = next;
    }
    assert(p@.skip(0) =~= p@);
    assert(t@.skip(0) =~= t@);
    row[0]
}

/// Whether `text` matches at least one of the globs `patterns`.
pub fn matches_any_glob(patterns: &Vec<String>, text: &str) -> (yes: bool)
    ensures
        yes == matches_any(patterns.deep_view(), text@),
{
    let mut i: usize = 0;
    while i < patterns.len()
        invariant
            i <= patterns.len(),
            forall|k: int| 0 <= k < i ==> !glob_matches(#[trigger] patterns.deep_view()[k], text@),
        decreases patterns.len() - i,
    {
        if matches_glob(patterns[i].as_str(), text) {
            assert(glob_matches(patterns.deep_view()[i as int], text@));
            return true;
        }
        i += 1;
    }
    false
}

} // verus!
