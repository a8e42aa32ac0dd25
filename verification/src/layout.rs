//! The rendering for a reader at a terminal: the aggregated stream grouped
//! by file, laid out as pieces of text, each with its tone, and the pieces
//! painted in the style of their tone.
//!
//! The layout says what is shown and in which order. Painting leaves a
//! plain piece as it is and hands every other piece to the terminal
//! styling, so without colour the text is that of the pieces, one after the
//! other.

use vstd::prelude::*;
use crate::issue::{IssueModel, LintIssue, Severity};
use crate::render::{exit_text, push_exit_text};
use crate::report::{EntryModel, ReportEntry};
use crate::style::{styled, styled_text};
use crate::text::{decimal, push_decimal, same_text};

verus! {

/// How a piece of the layout is shown.
#[derive(Clone, Copy, Debug, PartialEq, Eq, Structural)]
pub enum Tone {
    /// As it is.
    Plain,
    /// As the title of a group.
    Title,
    /// As the severity advice.
    Advice,
    /// As the severity warning.
    Warning,
    /// As the severity error.
    Error,
}

/// One piece of the layout: a text and its tone.
#[derive(Debug, PartialEq, Eq)]
pub struct Piece {
    pub tone: Tone,
    pub text: String,
}

/// The mathematical value of a [`Piece`].
pub ghost struct PieceModel {
    pub tone: Tone,
    pub text: Seq<char>,
}

impl View for Piece {
    type V = PieceModel;

    open spec fn view(&self) -> PieceModel {
        PieceModel { tone: self.tone, text: self.text@ }
    }
}

impl DeepView for Piece {
    type V = PieceModel;

    open spec fn deep_view(&self) -> PieceModel {
        self@
    }
}

/// The group that an entry is shown in: that of its file, or, for a process
/// failure and for a finding that names no file, the general group.
pub open spec fn group_key(entry: EntryModel) -> Option<Seq<char>> {
    match entry {
        EntryModel::Finding(issue) => if issue.path.len() == 0 {
            None
        } else {
            Some(issue.path)
        },
        EntryModel::Failure { .. } => None,
    }
}

/// The groups of the stream, each once, in the order in which they first
/// occur.
pub open spec fn group_keys(entries: Seq<EntryModel>) -> Seq<Option<Seq<char>>>
    decreases entries.len(),
{
    if entries.len() == 0 {
        Seq::empty()
    } else {
        let keys = group_keys(entries.drop_last());
        if keys.contains(group_key(entries.last())) {
            keys
        } else {
            keys.push(group_key(entries.last()))
        }
    }
}

/// The severity that an entry is shown with: its own, or error for a
/// process failure.
pub open spec fn shown_severity(entry: EntryModel) -> Severity {
    match entry {
        EntryModel::Finding(issue) => issue.severity,
        EntryModel::Failure { .. } => Severity::Error,
    }
}

/// The tone of a severity.
pub open spec fn severity_tone(severity: Severity) -> Tone {
    match severity {
        Severity::Advice => Tone::Advice,
        Severity::Warning => Tone::Warning,
        Severity::Error => Tone::Error,
    }
}

/// The severity as it is shown to a reader.
pub open spec fn severity_label(severity: Severity) -> Seq<char> {
    match severity {
        Severity::Advice => "Advice"@,
        Severity::Warning => "Warning"@,
        Severity::Error => "Error"@,
    }
}

/// The title of a group.
pub open spec fn group_title(key: Option<Seq<char>>) -> Seq<char> {
    match key {
        Some(path) => ">>> Lint for "@ + path + ":"@,
        None => ">>> General linter failure:"@,
    }
}

/// Where in its file a finding is, in words.
pub open spec fn position_text(issue: IssueModel) -> Seq<char> {
    match issue.line {
        Some(line) => " at line "@ + decimal(line as nat) + match issue.column {
            Some(column) => ", column "@ + decimal(column as nat),
            None => Seq::empty(),
        },
        None => Seq::empty(),
    }
}

/// The code of a finding after a space, where it has one.
pub open spec fn code_text(code: Option<Seq<char>>) -> Seq<char> {
    match code {
        Some(c) => " "@ + c,
        None => Seq::empty(),
    }
}

/// What follows the severity of an entry: the linter in brackets and, for a
/// finding, its code and its position, for a process failure, how the
/// process ended; then, on a line of its own and indented, the message of
/// the finding or what the failed process wrote to its error stream.
pub open spec fn member_tail(entry: EntryModel) -> Seq<char> {
    match entry {
        EntryModel::Finding(issue) => " ("@ + issue.linter + ")"@ + code_text(issue.code)
            + position_text(issue) + "\n    "@ + issue.message + "\n"@,
        EntryModel::Failure { linter, exit_code, stderr } => " ("@ + linter + ") "@ + exit_text(
            exit_code,
        ) + "\n    "@ + stderr + "\n"@,
    }
}

/// One entry as it is laid out in its group: an indent, the severity in its
/// tone, and the rest.
pub open spec fn member_pieces(entry: EntryModel) -> Seq<PieceModel> {
    seq![
        PieceModel { tone: Tone::Plain, text: "  "@ },
        PieceModel {
            tone: severity_tone(shown_severity(entry)),
            text: severity_label(shown_severity(entry)),
        },
        PieceModel { tone: Tone::Plain, text: member_tail(entry) },
    ]
}

/// The entries of one group as they are laid out, in the order of the
/// stream.
pub open spec fn group_pieces(entries: Seq<EntryModel>, key: Option<Seq<char>>) -> Seq<PieceModel>
    decreases entries.len(),
{
    if entries.len() == 0 {
        Seq::empty()
    } else {
        group_pieces(entries.drop_last(), key) + if group_key(entries.last()) == key {
            member_pieces(entries.last())
        } else {
            Seq::empty()
        }
    }
}

/// The line that opens a group: its title, and a line feed.
pub open spec fn header_pieces(key: Option<Seq<char>>) -> Seq<PieceModel> {
    seq![
        PieceModel { tone: Tone::Title, text: group_title(key) },
        PieceModel { tone: Tone::Plain, text: "\n"@ },
    ]
}

/// The groups `keys` of the stream as they are laid out, one after the
/// other: each with its header and its entries, and an empty line after it.
pub open spec fn groups_pieces(entries: Seq<EntryModel>, keys: Seq<Option<Seq<char>>>) -> Seq<
    PieceModel,
>
    decreases keys.len(),
{
    if keys.len() == 0 {
        Seq::empty()
    } else {
        groups_pieces(entries, keys.drop_last()) + header_pieces(keys.last()) + group_pieces(
            entries,
            keys.last(),
        ) + seq![PieceModel { tone: Tone::Plain, text: "\n"@ }]
    }
}

/// The layout of the stream: grouped by file, the groups in the order in
/// which they first occur, the entries of a group in the order of the
/// stream.
pub open spec fn default_layout(entries: Seq<EntryModel>) -> Seq<PieceModel> {
    groups_pieces(entries, group_keys(entries))
}

/// The style of a tone, as a dotted description.
pub open spec fn tone_style(tone: Tone) -> Seq<char> {
    match tone {
        Tone::Plain => ""@,
        Tone::Title => "bold"@,
        Tone::Advice => "cyan.bold"@,
        Tone::Warning => "yellow.bold"@,
        Tone::Error => "red.bold"@,
    }
}

/// One piece as it is painted: a plain piece is its text; every other piece
/// is what the terminal styling makes of its text in the style of its tone.
pub open spec fn painted_piece(piece: PieceModel, color: bool) -> Seq<char> {
    if piece.tone == Tone::Plain {
        piece.text
    } else {
        styled_text(tone_style(piece.tone), piece.text, color)
    }
}

/// The pieces as they are painted, one after the other.
pub open spec fn painted(pieces: Seq<PieceModel>, color: bool) -> Seq<char>
    decreases pieces.len(),
{
    if pieces.len() == 0 {
        Seq::empty()
    } else {
        painted(pieces.drop_last(), color) + painted_piece(pieces.last(), color)
    }
}

/// The texts of the pieces, one after the other.
pub open spec fn plain_text(pieces: Seq<PieceModel>) -> Seq<char>
    decreases pieces.len(),
{
    if pieces.len() == 0 {
        Seq::empty()
    } else {
        plain_text(pieces.drop_last()) + pieces.last().text
    }
}

/// The stream for a reader at a terminal: its layout, painted.
pub open spec fn default_text(entries: Seq<EntryModel>, color: bool) -> Seq<char> {
    painted(default_layout(entries), color)
}

/// The group that `entry` is shown in.
fn entry_key(entry: &ReportEntry) -> (key: Option<String>)
    ensures
        key.deep_view() == group_key(entry@),
{
    match entry {
        ReportEntry::Finding(issue) => {
            if issue.path.as_str().unicode_len() == 0 {
                None
            } else {
                Some(issue.path.clone())
            }
        },
        ReportEntry::Failure { .. } => None,
    }
}

/// Whether two groups are the same.
fn same_key(a: &Option<String>, b: &Option<String>) -> (same: bool)
    ensures
        same == (a.deep_view() == b.deep_view()),
{
    match (a, b) {
        (Some(x), Some(y)) => same_text(x, y),
        (None, None) => true,
        _ => false,
    }
}

/// Whether `key` is among `keys`.
fn has_key(keys: &Vec<Option<String>>, key: &Option<String>) -> (found: bool)
    ensures
        found == keys.deep_view().contains(key.deep_view()),
{
    let mut i: usize = 0;
    while i < keys.len()
        invariant
            i <= keys.len(),
            forall|j: int| 0 <= j < i ==> keys.deep_view()[j] != key.deep_view(),
        decreases keys.len() - i,
    {
        if same_key(&keys[i], key) {
            assert(keys.deep_view()[i as int] == key.deep_view());
            return true;
        }
        i += 1;
    }
    false
}

/// The groups of the stream, each once, in the order of first occurrence.
fn collect_keys(entries: &Vec<ReportEntry>) -> (keys: Vec<Option<String>>)
    ensures
        keys.deep_view() == group_keys(entries.deep_view()),
{
    let mut keys: Vec<Option<String>> = Vec::new();
    let mut i: usize = 0;
    assert(keys.deep_view() =~= group_keys(entries.deep_view().take(0)));
    while i < entries.len()
        invariant
            i <= entries.len(),
            keys.deep_view() == group_keys(entries.deep_view().take(i as int)),
        decreases entries.len() - i,
    {
        assert(entries.deep_view().take(i + 1).drop_last() =~= entries.deep_view().take(i as int));
        let key = entry_key(&entries[i]);
        if !has_key(&keys, &key) {
            let ghost before = keys.deep_view();
            keys.push(key);
            assert(keys.deep_view() =~= before.push(group_key(entries.deep_view()[i as int])));
        }
        i += 1;
    }
    assert(entries.deep_view().take(i as int) =~= entries.deep_view());
    keys
}

/// The severity as it is shown to a reader, in its tone.
fn severity_piece(severity: Severity) -> (piece: Piece)
    ensures
        piece@ == (PieceModel { tone: severity_tone(severity), text: severity_label(severity) }),
{
    match severity {
        Severity::Advice => Piece { tone: Tone::Advice, text: String::from_str("Advice") },
        Severity::Warning => Piece { tone: Tone::Warning, text: String::from_str("Warning") },
        Severity::Error => Piece { tone: Tone::Error, text: String::from_str("Error") },
    }
}

/// Appends where in its file a finding is, in words.
fn push_position(out: &mut String, issue: &LintIssue)
    ensures
        final(out)@ == old(out)@ + position_text(issue@),
{
    match issue.line {
        Some(line) => {
            let mut text = String::from_str(" at line ");
            push_decimal(&mut text, line);
            match issue.column {
                Some(column) => {
                    text.append(", column ");
                    push_decimal(&mut text, column);
                },
                None => {},
            }
            assert(text@ =~= position_text(issue@));
            out.append(text.as_str());
        },
        None => {
            assert(old(out)@ + position_text(issue@) =~= old(out)@);
        },
    }
}

/// Appends the code of a finding after a space, where it has one.
fn push_code(out: &mut String, code: &Option<String>)
    ensures
        final(out)@ == old(out)@ + code_text(code.deep_view()),
{
    match code {
        Some(c) => {
            let mut text = String::from_str(" ");
            text.append(c.as_str());
            out.append(text.as_str());
        },
        None => {
            assert(old(out)@ + code_text(code.deep_view()) =~= old(out)@);
        },
    }
}

/// What follows the severity of an entry.
fn tail_of(entry: &ReportEntry) -> (tail: String)
    ensures
        tail@ == member_tail(entry@),
{
    let mut tail = String::from_str(" (");
    match entry {
        ReportEntry::Finding(issue) => {
            tail.append(issue.linter.as_str());
            tail.append(")");
            push_code(&mut tail, &issue.code);
            push_position(&mut tail, issue);
            tail.append("\n    ");
            tail.append(issue.message.as_str());
            tail.append("\n");
        },
        ReportEntry::Failure { linter, exit_code, stderr } => {
            tail.append(linter.as_str());
            tail.append(") ");
            push_exit_text(&mut tail, *exit_code);
            tail.append("\n    ");
            tail.append(stderr.as_str());
            tail.append("\n");
        },
    }
    tail
}

/// Appends one entry as it is laid out in its group.
fn push_member(out: &mut Vec<Piece>, entry: &ReportEntry)
    ensures
        final(out).deep_view() == old(out).deep_view() + member_pieces(entry@),
{
    let severity = match entry {
        ReportEntry::Finding(issue) => issue.severity,
        ReportEntry::Failure { .. } => Severity::Error,
    };
    let indent = Piece { tone: Tone::Plain, text: String::from_str("  ") };
    let badge = severity_piece(severity);
    let rest = Piece { tone: Tone::Plain, text: tail_of(entry) };
    let ghost before = out.deep_view();
    let ghost added = seq![indent@, badge@, rest@];
    out.push(indent);
    out.push(badge);
    out.push(rest);
    assert(out.deep_view() =~= before + added);
    assert(added =~= member_pieces(entry@));
}

/// Appends the entries of the group `key` as they are laid out.
fn push_group(out: &mut Vec<Piece>, entries: &Vec<ReportEntry>, key: &Option<String>)
    ensures
        final(out).deep_view() == old(out).deep_view() + group_pieces(
            entries.deep_view(),
            key.deep_view(),
        ),
{
    let mut i: usize = 0;
    assert(old(out).deep_view() + group_pieces(entries.deep_view().take(0), key.deep_view())
        =~= old(out).deep_view());
    while i < entries.len()
        invariant
            i <= entries.len(),
            out.deep_view() == old(out).deep_view() + group_pieces(
                entries.deep_view().take(i as int),
                key.deep_view(),
            ),
        decreases entries.len() - i,
    {
        assert(entries.deep_view().take(i + 1).drop_last() =~= entries.deep_view().take(i as int));
        let this = entry_key(&entries[i]);
        if same_key(&this, key) {
            push_member(out, &entries[i]);
        }
        i += 1;
        assert(out.deep_view() =~= old(out).deep_view() + group_pieces(
            entries.deep_view().take(i as int),
            key.deep_view(),
        ));
    }
    assert(entries.deep_view().take(i as int) =~= entries.deep_view());
}

/// The title of the group `key`.
fn title_of(key: &Option<String>) -> (title: String)
    ensures
        title@ == group_title(key.deep_view()),
{
    match key {
        Some(path) => {
            let mut title = String::from_str(">>> Lint for ");
            title.append(path.as_str());
            title.append(":");
            title
        },
        None => String::from_str(">>> General linter failure:"),
    }
}

/// Lays the stream out for a reader: grouped by file, each group under its
/// title, the groups in the order in which they first occur and the entries
/// of a group in the order of the stream.
pub fn layout_default(entries: &Vec<ReportEntry>) -> (out: Vec<Piece>)
    ensures
        out.deep_view() == default_layout(entries.deep_view()),
{
    let keys = collect_keys(entries);
    let mut out: Vec<Piece> = Vec::new();
    let mut k: usize = 0;
    assert(out.deep_view() =~= groups_pieces(entries.deep_view(), keys.deep_view().take(0)));
    while k < keys.len()
        invariant
            k <= keys.len(),
            out.deep_view() == groups_pieces(entries.deep_view(), keys.deep_view().take(k as int)),
        decreases keys.len() - k,
    {
        assert(keys.deep_view().take(k + 1).drop_last() =~= keys.deep_view().take(k as int));
        assert(keys.deep_view().take(k + 1).last() == keys.deep_view()[k as int]);
        let ghost before = out.deep_view();
        let title = Piece { tone: Tone::Title, text: title_of(&keys[k]) };
        let feed = Piece { tone: Tone::Plain, text: String::from_str("\n") };
        let ghost header = seq![title@, feed@];
        out.push(title);
        out.push(feed);
        assert(out.deep_view() =~= before + header);
        assert(header =~= header_pieces(keys.deep_view()[k as int]));
        push_group(&mut out, entries, &keys[k]);
        let ghost filled = out.deep_view();
        let gap = Piece { tone: Tone::Plain, text: String::from_str("\n") };
        out.push(gap);
        assert(out.deep_view() =~= filled + seq![gap@]);
        k += 1;
    }
    assert(keys.deep_view().take(k as int) =~= keys.deep_view());
    out
}

/// The style of `tone`, as a dotted description.
fn style_of(tone: Tone) -> (style: &'static str)
    ensures
        style@ == tone_style(tone),
{
    match tone {
        Tone::Plain => "",
        Tone::Title => "bold",
        Tone::Advice => "cyan.bold",
        Tone::Warning => "yellow.bold",
        Tone::Error => "red.bold",
    }
}

/// Paints the pieces, one after the other: a plain piece as it is, every
/// other piece in the style of its tone. Without `color` what comes out is
/// the text of the pieces and nothing else.
pub fn paint(pieces: &Vec<Piece>, color: bool) -> (out: String)
    ensures
        out@ == painted(pieces.deep_view(), color),
        !color ==> out@ == plain_text(pieces.deep_view()),
{
    let mut out = String::new();
    let mut i: usize = 0;
    while i < pieces.len()
        invariant
            i <= pieces.len(),
            out@ == painted(pieces.deep_view().take(i as int), color),
            !color ==> out@ == plain_text(pieces.deep_view().take(i as int)),
        decreases pieces.len() - i,
    {
        assert(pieces.deep_view().take(i + 1).drop_last() =~= pieces.deep_view().take(i as int));
        assert(pieces.deep_view().take(i + 1).last() == pieces[i as int]@);
        match pieces[i].tone {
            Tone::Plain => {
                out.append(pieces[i].text.as_str());
            },
            tone => {
                let shown = styled(style_of(tone), pieces[i].text.as_str(), color);
                out.append(shown.as_str());
            },
        }
        i += 1;
    }
    assert(pieces.deep_view().take(i as int) =~= pieces.deep_view());
    out
}

/// The stream for a reader at a terminal: laid out by [`layout_default`] and
/// painted by [`paint`].
pub fn render_default(entries: &Vec<ReportEntry>, color: bool) -> (out: String)
    ensures
        out@ == default_text(entries.deep_view(), color),
        !color ==> out@ == plain_text(default_layout(entries.deep_view())),
{
    let pieces = layout_default(entries);
    paint(&pieces, color)
}

} // verus!
