//! The renderer: the aggregated stream as text, in each of the three
//! formats. Each rendering is a function of the stream alone. The compact
//! format and JSON are made here; the format for a reader at a terminal is
//! laid out and painted in [`crate::layout`].

use vstd::prelude::*;
use crate::board::{distinct_ranks, lemma_completion_order, BoardModel, Completion};
use crate::issue::{IssueModel, LintIssue, Severity};
use crate::layout::{default_text, render_default};
use crate::report::{EntryModel, ReportEntry};
use crate::text::{chars_of, decimal, digit, push_decimal, push_signed_decimal, signed_decimal};

verus! {

/// The format of the rendering.
#[derive(Clone, Copy, Debug, PartialEq, Eq, Structural)]
pub enum RenderFormat {
    /// Grouped by file, styled for a terminal.
    Default,
    /// One JSON object per entry, one per line.
    Json,
    /// One compact line of text per entry.
    Oneline,
}

/// The severity in lower case.
pub open spec fn severity_word(severity: Severity) -> Seq<char> {
    match severity {
        Severity::Advice => "advice"@,
        Severity::Warning => "warning"@,
        Severity::Error => "error"@,
    }
}

/// What is said of a process failure: with which code the linter ended, or
/// that it did not start.
pub open spec fn exit_text(exit_code: Option<i32>) -> Seq<char> {
    match exit_code {
        Some(code) => "linter failed with exit code "@ + signed_decimal(code as int),
        None => "linter could not be started"@,
    }
}

/// The file of a finding, and its line and column where it has them.
pub open spec fn location_text(issue: IssueModel) -> Seq<char> {
    issue.path + match issue.line {
        Some(line) => ":"@ + decimal(line as nat) + match issue.column {
            Some(column) => ":"@ + decimal(column as nat),
            None => Seq::empty(),
        },
        None => Seq::empty(),
    }
}

/// The linter of a finding and its code, in square brackets.
pub open spec fn tag_text(issue: IssueModel) -> Seq<char> {
    "["@ + issue.linter + match issue.code {
        Some(code) => "/"@ + code,
        None => Seq::empty(),
    } + "]"@
}

/// The text of one entry in the compact format, before line breaks are
/// taken out of it.
pub open spec fn oneline_raw(entry: EntryModel) -> Seq<char> {
    match entry {
        EntryModel::Finding(issue) => location_text(issue) + ": "@ + severity_word(issue.severity)
            + " "@ + tag_text(issue) + " "@ + issue.message,
        EntryModel::Failure { linter, exit_code, stderr } => "error ["@ + linter + "] "@
            + exit_text(exit_code) + ": "@ + stderr,
    }
}

/// The character that stands for `c` on a single line: a space for a line
/// feed or a carriage return.
pub open spec fn unbroken_char(c: char) -> char {
    if c == '\n' || c == '\r' {
        ' '
    } else {
        c
    }
}

/// `text` with a space for every line feed and carriage return.
pub open spec fn unbroken(text: Seq<char>) -> Seq<char> {
    text.map_values(|c: char| unbroken_char(c))
}

/// One entry in the compact format: a single line, ended by a line feed.
pub open spec fn oneline_text(entry: EntryModel) -> Seq<char> {
    unbroken(oneline_raw(entry)).push('\n')
}

/// The stream in the compact format: one line per entry, in order.
pub open spec fn oneline_all(entries: Seq<EntryModel>) -> Seq<char>
    decreases entries.len(),
{
    if entries.len() == 0 {
        Seq::empty()
    } else {
        oneline_all(entries.drop_last()) + oneline_text(entries.last())
    }
}

/// The hexadecimal digit for `d`, which is below sixteen.
pub open spec fn hex_digit(d: nat) -> char {
    if d < 10 {
        digit(d)
    } else if d == 10 {
        'a'
    } else if d == 11 {
        'b'
    } else if d == 12 {
        'c'
    } else if d == 13 {
        'd'
    } else if d == 14 {
        'e'
    } else {
        'f'
    }
}

/// How one character stands inside a JSON string.
pub open spec fn escaped_char(c: char) -> Seq<char> {
    if c == '"' {
        seq!['\\', '"']
    } else if c == '\\' {
        seq!['\\', '\\']
    } else if c == '\n' {
        seq!['\\', 'n']
    } else if c == '\r' {
        seq!['\\', 'r']
    } else if c == '\t' {
        seq!['\\', 't']
    } else if (c as u32) < 32 {
        seq!['\\', 'u', '0', '0', hex_digit((c as u32 / 16) as nat), hex_digit((c as u32 % 16) as nat)]
    } else {
        seq![c]
    }
}

/// `text` as it stands inside a JSON string.
pub open spec fn escaped(text: Seq<char>) -> Seq<char>
    decreases text.len(),
{
    if text.len() == 0 {
        Seq::empty()
    } else {
        escaped(text.drop_last()) + escaped_char(text.last())
    }
}

/// `text` as a JSON string, quotes included.
pub open spec fn json_string(text: Seq<char>) -> Seq<char> {
    seq!['"'] + escaped(text) + seq!['"']
}

/// An optional text as a JSON string, or `null`.
pub open spec fn json_opt_string(text: Option<Seq<char>>) -> Seq<char> {
    match text {
        Some(t) => json_string(t),
        None => "null"@,
    }
}

/// An optional number as a JSON number, or `null`.
pub open spec fn json_opt_number(number: Option<u64>) -> Seq<char> {
    match number {
        Some(n) => decimal(n as nat),
        None => "null"@,
    }
}

/// An optional exit code as a JSON number, or `null`.
pub open spec fn json_opt_code(code: Option<i32>) -> Seq<char> {
    match code {
        Some(c) => signed_decimal(c as int),
        None => "null"@,
    }
}

/// The JSON object of one entry, up to its closing brace.
pub open spec fn json_fields(entry: EntryModel) -> Seq<char> {
    match entry {
        EntryModel::Finding(issue) => "{\"kind\":\"issue\",\"linter\":"@ + json_string(issue.linter)
            + ",\"severity\":"@ + json_string(severity_word(issue.severity)) + ",\"path\":"@
            + json_string(issue.path) + ",\"line\":"@ + json_opt_number(issue.line)
            + ",\"column\":"@ + json_opt_number(issue.column) + ",\"message\":"@ + json_string(
            issue.message,
        ) + ",\"code\":"@ + json_opt_string(issue.code) + ",\"replacement\":"@ + json_opt_string(
            issue.replacement,
        ),
        EntryModel::Failure { linter, exit_code, stderr } => "{\"kind\":\"failure\",\"linter\":"@
            + json_string(linter) + ",\"exit_code\":"@ + json_opt_code(exit_code)
            + ",\"stderr\":"@ + json_string(stderr),
    }
}

/// One entry as a JSON object on a line of its own.
pub open spec fn json_text(entry: EntryModel) -> Seq<char> {
    json_fields(entry) + "}\n"@
}

/// The stream as JSON: one object per entry, one per line, in order.
pub open spec fn json_all(entries: Seq<EntryModel>) -> Seq<char>
    decreases entries.len(),
{
    if entries.len() == 0 {
        Seq::empty()
    } else {
        json_all(entries.drop_last()) + json_text(entries.last())
    }
}

/// Appends `text` to `out` with a space for every line break.
fn push_unbroken(out: &mut String, text: &String)
    ensures
        final(out)@ == old(out)@ + unbroken(text@),
{
    let chars = chars_of(text.as_str());
    let mut i: usize = 0;
    assert(old(out)@ + unbroken(chars@.take(0)) =~= old(out)@);
    while i < chars.len()
        invariant
            i <= chars.len(),
            out@ == old(out)@ + unbroken(chars@.take(i as int)),
        decreases chars.len() - i,
    {
        let c = chars[i];
        if c == '\n' || c == '\r' {
            out.push(' ');
        } else {
            out.push(c);
        }
        assert(unbroken(chars@.take(i + 1)) =~= unbroken(chars@.take(i as int)).push(
            unbroken_char(c),
        ));
        i += 1;
        assert(out@ =~= old(out)@ + unbroken(chars@.take(i as int)));
    }
    assert(chars@.take(i as int) =~= chars@);
}

/// Appends what is said of a process failure.
pub(crate) fn push_exit_text(out: &mut String, exit_code: Option<i32>)
    ensures
        final(out)@ == old(out)@ + exit_text(exit_code),
{
    match exit_code {
        Some(code) => {
            let mut text = String::from_str("linter failed with exit code ");
            push_signed_decimal(&mut text, code);
            out.append(text.as_str());
        },
        None => {
            out.append("linter could not be started");
        },
    }
}

/// The file of a finding, and its line and column where it has them.
fn location_of(issue: &LintIssue) -> (out: String)
    ensures
        out@ == location_text(issue@),
{
    let mut out = issue.path.clone();
    match issue.line {
        Some(line) => {
            out.append(":");
            push_decimal(&mut out, line);
            match issue.column {
                Some(column) => {
                    out.append(":");
                    push_decimal(&mut out, column);
                },
                None => {},
            }
        },
        None => {},
    }
    assert(out@ =~= location_text(issue@));
    out
}

/// Appends the linter of a finding and its code, in square brackets.
fn push_tag(out: &mut String, issue: &LintIssue)
    ensures
        final(out)@ == old(out)@ + tag_text(issue@),
{
    let mut tag = String::from_str("[");
    tag.append(issue.linter.as_str());
    match &issue.code {
        Some(code) => {
            tag.append("/");
            tag.append(code.as_str());
        },
        None => {},
    }
    tag.append("]");
    assert(tag@ =~= tag_text(issue@));
    out.append(tag.as_str());
}

/// The text of one entry in the compact format, line breaks still in it.
fn oneline_raw_text(entry: &ReportEntry) -> (out: String)
    ensures
        out@ == oneline_raw(entry@),
{
    match entry {
        ReportEntry::Finding(issue) => {
            let mut out = location_of(issue);
            out.append(": ");
            out.append(word_of(issue.severity));
            out.append(" ");
            push_tag(&mut out, issue);
            out.append(" ");
            out.append(issue.message.as_str());
            out
        },
        ReportEntry::Failure { linter, exit_code, stderr } => {
            let mut out = String::from_str("error [");
            out.append(linter.as_str());
            out.append("] ");
            push_exit_text(&mut out, *exit_code);
            out.append(": ");
            out.append(stderr.as_str());
            out
        },
    }
}

/// The stream in the compact format: one line of text per entry, in the
/// order of the stream. A line break inside an entry becomes a space.
pub fn render_oneline(entries: &Vec<ReportEntry>) -> (out: String)
    ensures
        out@ == oneline_all(entries.deep_view()),
{
    let mut out = String::new();
    let mut i: usize = 0;
    while i < entries.len()
        invariant
            i <= entries.len(),
            out@ == oneline_all(entries.deep_view().take(i as int)),
        decreases entries.len() - i,
    {
        assert(entries.deep_view().take(i + 1).drop_last() =~= entries.deep_view().take(i as int));
        let raw = oneline_raw_text(&entries[i]);
        let ghost before = out@;
        push_unbroken(&mut out, &raw);
        out.push('\n');
        assert(out@ =~= before + oneline_text(entries.deep_view()[i as int]));
        i += 1;
    }
    assert(entries.deep_view().take(i as int) =~= entries.deep_view());
    out
}

fn hex_of(d: u32) -> (c: char)
    requires
        d < 16,
    ensures
        c == hex_digit(d as nat),
{
    if d == 0 {
        '0'
    } else if d == 1 {
        '1'
    } else if d == 2 {
        '2'
    } else if d == 3 {
        '3'
    } else if d == 4 {
        '4'
    } else if d == 5 {
        '5'
    } else if d == 6 {
        '6'
    } else if d == 7 {
        '7'
    } else if d == 8 {
        '8'
    } else if d == 9 {
        '9'
    } else if d == 10 {
        'a'
    } else if d == 11 {
        'b'
    } else if d == 12 {
        'c'
    } else if d == 13 {
        'd'
    } else if d == 14 {
        'e'
    } else {
        'f'
    }
}

/// Appends `c` as it stands inside a JSON string.
fn push_escaped_char(out: &mut String, c: char)
    ensures
        final(out)@ == old(out)@ + escaped_char(c),
{
    if c == '"' {
        out.push('\\');
        out.push('"');
    } else if c == '\\' {
        out.push('\\');
        out.push('\\');
    } else if c == '\n' {
        out.push('\\');
        out.push('n');
    } else if c == '\r' {
        out.push('\\');
        out.push('r');
    } else if c == '\t' {
        out.push('\\');
        out.push('t');
    } else if (c as u32) < 32 {
        out.push('\\');
        out.push('u');
        out.push('0');
        out.push('0');
        out.push(hex_of(c as u32 / 16));
        out.push(hex_of(c as u32 % 16));
    } else {
        out.push(c);
    }
    assert(out@ =~= old(out)@ + escaped_char(c));
}

/// Appends `text` as a JSON string, quotes included.
fn push_json_string(out: &mut String, text: &str)
    ensures
        final(out)@ == old(out)@ + json_string(text@),
{
    out.push('"');
    let ghost start = out@;
    let chars = chars_of(text);
    let mut i: usize = 0;
    assert(start + escaped(chars@.take(0)) =~= start);
    while i < chars.len()
        invariant
            i <= chars.len(),
            chars@ == text@,
            out@ == start + escaped(chars@.take(i as int)),
        decreases chars.len() - i,
    {
        assert(chars@.take(i + 1).drop_last() =~= chars@.take(i as int));
        push_escaped_char(out, chars[i]);
        i += 1;
        assert(out@ =~= start + escaped(chars@.take(i as int)));
    }
    assert(chars@.take(i as int) =~= chars@);
    out.push('"');
    assert(out@ =~= old(out)@ + json_string(text@));
}

/// Appends an optional text as a JSON string, or `null`.
fn push_json_opt_string(out: &mut String, text: &Option<String>)
    ensures
        final(out)@ == old(out)@ + json_opt_string(text.deep_view()),
{
    match text {
        Some(t) => push_json_string(out, t.as_str()),
        None => out.append("null"),
    }
}

/// Appends an optional number as a JSON number, or `null`.
fn push_json_opt_number(out: &mut String, number: Option<u64>)
    ensures
        final(out)@ == old(out)@ + json_opt_number(number),
{
    match number {
        Some(n) => push_decimal(out, n),
        None => out.append("null"),
    }
}

/// Appends an optional exit code as a JSON number, or `null`.
fn push_json_opt_code(out: &mut String, code: Option<i32>)
    ensures
        final(out)@ == old(out)@ + json_opt_code(code),
{
    match code {
        Some(c) => push_signed_decimal(out, c),
        None => out.append("null"),
    }
}

/// The severity in lower case.
fn word_of(severity: Severity) -> (word: &'static str)
    ensures
        word@ == severity_word(severity),
{
    match severity {
        Severity::Advice => "advice",
        Severity::Warning => "warning",
        Severity::Error => "error",
    }
}

/// One entry as a JSON object on a line of its own.
fn json_of(entry: &ReportEntry) -> (text: String)
    ensures
        text@ == json_text(entry@),
{
    match entry {
        ReportEntry::Finding(issue) => {
            let mut text = String::from_str("{\"kind\":\"issue\",\"linter\":");
            push_json_string(&mut text, issue.linter.as_str());
            text.append(",\"severity\":");
            push_json_string(&mut text, word_of(issue.severity));
            text.append(",\"path\":");
            push_json_string(&mut text, issue.path.as_str());
            text.append(",\"line\":");
            push_json_opt_number(&mut text, issue.line);
            text.append(",\"column\":");
            push_json_opt_number(&mut text, issue.column);
            text.append(",\"message\":");
            push_json_string(&mut text, issue.message.as_str());
            text.append(",\"code\":");
            push_json_opt_string(&mut text, &issue.code);
            text.append(",\"replacement\":");
            push_json_opt_string(&mut text, &issue.replacement);
            text.append("}\n");
            text
        },
        ReportEntry::Failure { linter, exit_code, stderr } => {
            let mut text = String::from_str("{\"kind\":\"failure\",\"linter\":");
            push_json_string(&mut text, linter.as_str());
            text.append(",\"exit_code\":");
            push_json_opt_code(&mut text, *exit_code);
            text.append(",\"stderr\":");
            push_json_string(&mut text, stderr.as_str());
            text.append("}\n");
            text
        },
    }
}

/// Appends one entry as a JSON object on a line of its own.
fn push_json_entry(out: &mut String, entry: &ReportEntry)
    ensures
        final(out)@ == old(out)@ + json_text(entry@),
{
    let text = json_of(entry);
    out.append(text.as_str());
}

/// The stream as JSON: one object per entry, each on a line of its own, in
/// the order of the stream.
pub fn render_json(entries: &Vec<ReportEntry>) -> (out: String)
    ensures
        out@ == json_all(entries.deep_view()),
{
    let mut out = String::new();
    let mut i: usize = 0;
    while i < entries.len()
        invariant
            i <= entries.len(),
            out@ == json_all(entries.deep_view().take(i as int)),
        decreases entries.len() - i,
    {
        assert(entries.deep_view().take(i + 1).drop_last() =~= entries.deep_view().take(i as int));
        push_json_entry(&mut out, &entries[i]);
        i += 1;
    }
    assert(entries.deep_view().take(i as int) =~= entries.deep_view());
    out
}

/// The stream in the format `format`.
pub open spec fn rendered(entries: Seq<EntryModel>, format: RenderFormat, color: bool) -> Seq<
    char,
> {
    match format {
        RenderFormat::Default => default_text(entries, color),
        RenderFormat::Json => json_all(entries),
        RenderFormat::Oneline => oneline_all(entries),
    }
}

/// The stream in the format `format`; `color` matters to the default format
/// only.
pub fn render(entries: &Vec<ReportEntry>, format: RenderFormat, color: bool) -> (out: String)
    ensures
        out@ == rendered(entries.deep_view(), format, color),
{
    match format {
        RenderFormat::Default => render_default(entries, color),
        RenderFormat::Json => render_json(entries),
        RenderFormat::Oneline => render_oneline(entries),
    }
}

/// What one run shows: the text for the terminal and, where a side file was
/// asked for, its path and the text for it.
#[derive(Debug, PartialEq, Eq)]
pub struct Rendering {
    pub terminal: String,
    pub side_file: Option<SideFile>,
}

/// A file beside the terminal, and what is written to it.
#[derive(Debug, PartialEq, Eq)]
pub struct SideFile {
    pub path: String,
    pub content: String,
}

/// Renders the stream for the terminal in the format `format`, and for the
/// side file `tee`, where one is given, as JSON, whatever the format of the
/// terminal is.
pub fn render_run(
    entries: &Vec<ReportEntry>,
    format: RenderFormat,
    color: bool,
    tee: Option<String>,
) -> (out: Rendering)
    ensures
        out.terminal@ == rendered(entries.deep_view(), format, color),
        match out.side_file {
            Some(side) => tee is Some && side.path@ == tee->0@ && side.content@ == json_all(
                entries.deep_view(),
            ),
            None => tee is None,
        },
{
    let terminal = render(entries, format, color);
    let side_file = match tee {
        Some(path) => Some(SideFile { path, content: render_json(entries) }),
        None => None,
    };
    Rendering { terminal, side_file }
}

/// Rendering is stable under the order of completion: the same outcomes, one
/// for each linter at most, give the same text in every format, in whatever
/// order they arrived.
pub proof fn lemma_rendering_is_order_stable(
    board: BoardModel,
    first: Seq<Completion>,
    second: Seq<Completion>,
    format: RenderFormat,
    color: bool,
)
    requires
        board.valid(),
        distinct_ranks(first),
        distinct_ranks(second),
        forall|c: Completion| first.contains(c) <==> second.contains(c),
    ensures
        rendered(board.recorded_all(first).stream(), format, color) == rendered(
            board.recorded_all(second).stream(),
            format,
            color,
        ),
{
    lemma_completion_order(board, first, second);
}

/// How many line feeds a text holds.
pub open spec fn line_feeds(text: Seq<char>) -> nat
    decreases text.len(),
{
    if text.len() == 0 {
        0
    } else {
        line_feeds(text.drop_last()) + if text.last() == '\n' {
            1nat
        } else {
            0nat
        }
    }
}

/// Whether a text holds no line feed.
pub open spec fn on_one_line(text: Seq<char>) -> bool {
    forall|i: int| 0 <= i < text.len() ==> text[i] != '\n'
}

proof fn lemma_line_feeds_concat(a: Seq<char>, b: Seq<char>)
    ensures
        line_feeds(a + b) == line_feeds(a) + line_feeds(b),
    decreases b.len(),
{
    if b.len() == 0 {
        assert(a + b =~= a);
    } else {
        lemma_line_feeds_concat(a, b.drop_last());
        assert((a + b).drop_last() =~= a + b.drop_last());
        assert((a + b).last() == b.last());
    }
}

proof fn lemma_one_line_has_no_feed(text: Seq<char>)
    requires
        on_one_line(text),
    ensures
        line_feeds(text) == 0,
    decreases text.len(),
{
    if text.len() > 0 {
        assert(text.last() == text[text.len() - 1]);
        assert forall|i: int| 0 <= i < text.drop_last().len() implies text.drop_last()[i]
            != '\n' by {
            assert(text.drop_last()[i] == text[i]);
        }
        lemma_one_line_has_no_feed(text.drop_last());
    }
}

proof fn lemma_one_line_concat(a: Seq<char>, b: Seq<char>)
    requires
        on_one_line(a),
        on_one_line(b),
    ensures
        on_one_line(a + b),
{
    assert forall|i: int| 0 <= i < (a + b).len() implies (a + b)[i] != '\n' by {
        if i < a.len() {
            assert((a + b)[i] == a[i]);
        } else {
            assert((a + b)[i] == b[i - a.len()]);
        }
    }
}

/// A text that ends with the one line feed it holds.
proof fn lemma_closed_line(body: Seq<char>)
    requires
        on_one_line(body),
    ensures
        line_feeds(body.push('\n')) == 1,
{
    lemma_one_line_has_no_feed(body);
    assert(body.push('\n').drop_last() =~= body);
}

/// In the compact format every entry is one line: the stream has as many
/// line feeds as entries.
pub proof fn lemma_oneline_line_count(entries: Seq<EntryModel>)
    ensures
        line_feeds(oneline_all(entries)) == entries.len(),
    decreases entries.len(),
{
    if entries.len() > 0 {
        lemma_oneline_line_count(entries.drop_last());
        let body = unbroken(oneline_raw(entries.last()));
        assert(on_one_line(body));
        lemma_closed_line(body);
        lemma_line_feeds_concat(oneline_all(entries.drop_last()), oneline_text(entries.last()));
    }
}

proof fn lemma_decimal_one_line(n: nat)
    ensures
        on_one_line(decimal(n)),
    decreases n,
{
    if n >= 10 {
        lemma_decimal_one_line(n / 10);
    }
}

proof fn lemma_signed_decimal_one_line(n: int)
    ensures
        on_one_line(signed_decimal(n)),
{
    if n < 0 {
        lemma_decimal_one_line((-n) as nat);
        lemma_one_line_concat(seq!['-'], decimal((-n) as nat));
    } else {
        lemma_decimal_one_line(n as nat);
    }
}

proof fn lemma_escaped_one_line(text: Seq<char>)
    ensures
        on_one_line(escaped(text)),
    decreases text.len(),
{
    if text.len() > 0 {
        lemma_escaped_one_line(text.drop_last());
        lemma_one_line_concat(escaped(text.drop_last()), escaped_char(text.last()));
    }
}

proof fn lemma_json_string_one_line(text: Seq<char>)
    ensures
        on_one_line(json_string(text)),
{
    lemma_escaped_one_line(text);
    lemma_one_line_concat(seq!['"'], escaped(text));
    lemma_one_line_concat(seq!['"'] + escaped(text), seq!['"']);
}

proof fn lemma_json_values_one_line(
    text: Option<Seq<char>>,
    number: Option<u64>,
    code: Option<i32>,
    severity: Severity,
)
    ensures
        on_one_line(json_opt_string(text)),
        on_one_line(json_opt_number(number)),
        on_one_line(json_opt_code(code)),
        on_one_line(json_string(severity_word(severity))),
{
    reveal_strlit("null");
    match text {
        Some(t) => lemma_json_string_one_line(t),
        None => {},
    }
    match number {
        Some(n) => lemma_decimal_one_line(n as nat),
        None => {},
    }
    match code {
        Some(c) => lemma_signed_decimal_one_line(c as int),
        None => {},
    }
    lemma_json_string_one_line(severity_word(severity));
}

proof fn lemma_json_names_one_line()
    ensures
        on_one_line("{\"kind\":\"issue\",\"linter\":"@),
        on_one_line(",\"severity\":"@),
        on_one_line(",\"path\":"@),
        on_one_line(",\"line\":"@),
        on_one_line(",\"column\":"@),
        on_one_line(",\"message\":"@),
        on_one_line(",\"code\":"@),
        on_one_line(",\"replacement\":"@),
        on_one_line("{\"kind\":\"failure\",\"linter\":"@),
        on_one_line(",\"exit_code\":"@),
        on_one_line(",\"stderr\":"@),
{
    reveal_strlit("{\"kind\":\"issue\",\"linter\":");
    reveal_strlit(",\"severity\":");
    reveal_strlit(",\"path\":");
    reveal_strlit(",\"line\":");
    reveal_strlit(",\"column\":");
    reveal_strlit(",\"message\":");
    reveal_strlit(",\"code\":");
    reveal_strlit(",\"replacement\":");
    reveal_strlit("{\"kind\":\"failure\",\"linter\":");
    reveal_strlit(",\"exit_code\":");
    reveal_strlit(",\"stderr\":");
}

proof fn lemma_json_fields_one_line(entry: EntryModel)
    ensures
        on_one_line(json_fields(entry)),
{
    lemma_json_names_one_line();
    match entry {
        EntryModel::Finding(issue) => {
            lemma_json_values_one_line(issue.code, issue.line, None, issue.severity);
            lemma_json_values_one_line(issue.replacement, issue.column, None, issue.severity);
            lemma_json_string_one_line(issue.linter);
            lemma_json_string_one_line(issue.path);
            lemma_json_string_one_line(issue.message);
            let t1 = "{\"kind\":\"issue\",\"linter\":"@ + json_string(issue.linter);
            lemma_one_line_concat("{\"kind\":\"issue\",\"linter\":"@, json_string(issue.linter));
            let t2 = t1 + ",\"severity\":"@;
            lemma_one_line_concat(t1, ",\"severity\":"@);
            let t3 = t2 + json_string(severity_word(issue.severity));
            lemma_one_line_concat(t2, json_string(severity_word(issue.severity)));
            let t4 = t3 + ",\"path\":"@;
            lemma_one_line_concat(t3, ",\"path\":"@);
            let t5 = t4 + json_string(issue.path);
            lemma_one_line_concat(t4, json_string(issue.path));
            let t6 = t5 + ",\"line\":"@;
            lemma_one_line_concat(t5, ",\"line\":"@);
            let t7 = t6 + json_opt_number(issue.line);
            lemma_one_line_concat(t6, json_opt_number(issue.line));
            let t8 = t7 + ",\"column\":"@;
            lemma_one_line_concat(t7, ",\"column\":"@);
            let t9 = t8 + json_opt_number(issue.column);
            lemma_one_line_concat(t8, json_opt_number(issue.column));
            let t10 = t9 + ",\"message\":"@;
            lemma_one_line_concat(t9, ",\"message\":"@);
            let t11 = t10 + json_string(issue.message);
            lemma_one_line_concat(t10, json_string(issue.message));
            let t12 = t11 + ",\"code\":"@;
            lemma_one_line_concat(t11, ",\"code\":"@);
            let t13 = t12 + json_opt_string(issue.code);
            lemma_one_line_concat(t12, json_opt_string(issue.code));
            let t14 = t13 + ",\"replacement\":"@;
            lemma_one_line_concat(t13, ",\"replacement\":"@);
            lemma_one_line_concat(t14, json_opt_string(issue.replacement));
        },
        EntryModel::Failure { linter, exit_code, stderr } => {
            lemma_json_values_one_line(None, None, exit_code, Severity::Error);
            lemma_json_string_one_line(linter);
            lemma_json_string_one_line(stderr);
            let t1 = "{\"kind\":\"failure\",\"linter\":"@ + json_string(linter);
            lemma_one_line_concat("{\"kind\":\"failure\",\"linter\":"@, json_string(linter));
            let t2 = t1 + ",\"exit_code\":"@;
            lemma_one_line_concat(t1, ",\"exit_code\":"@);
            let t3 = t2 + json_opt_code(exit_code);
            lemma_one_line_concat(t2, json_opt_code(exit_code));
            let t4 = t3 + ",\"stderr\":"@;
            lemma_one_line_concat(t3, ",\"stderr\":"@);
            lemma_one_line_concat(t4, json_string(stderr));
        },
    }
}

/// As JSON every entry is one line, whatever its texts hold: the stream has
/// as many line feeds as entries.
pub proof fn lemma_json_line_count(entries: Seq<EntryModel>)
    ensures
        line_feeds(json_all(entries)) == entries.len(),
    decreases entries.len(),
{
    if entries.len() > 0 {
        lemma_json_line_count(entries.drop_last());
        let fields = json_fields(entries.last());
        lemma_json_fields_one_line(entries.last());
        reveal_strlit("}\n");
        assert("}\n"@ =~= seq!['}'].push('\n'));
        lemma_one_line_concat(fields, seq!['}']);
        lemma_closed_line(fields + seq!['}']);
        assert(json_text(entries.last()) =~= (fields + seq!['}']).push('\n'));
        lemma_line_feeds_concat(json_all(entries.drop_last()), json_text(entries.last()));
    }
}

} // verus!
