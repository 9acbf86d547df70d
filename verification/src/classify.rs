//! The kinds of line of a chart, and the tests that tell them apart.
use vstd::prelude::*;
use vstd::string::*;
use crate::text::{chars_of, contains, find_char, find_text, matches_at, starts_with};

verus! {

/// Words that open a configuration line. One of them, `gantt`, opens the chart.
pub const MMD_GANTT_KWS: [&'static str; 23] = [
    "axisFormat",
    "barGap",
    "barHeight",
    "bottomMarginAdj",
    "dateFormat",
    "displayMode",
    "excludes",
    "fontSize",
    "gantt",
    "gridLineStartPadding",
    "leftPadding",
    "mirrorActor",
    "numberSectionStyles",
    "rightPadding",
    "sectionFontSize",
    "tickInterval",
    "title",
    "titleTopMargin",
    "todayMarker",
    "topAxis",
    "topPadding",
    "weekday",
    "weekend",
];

/// The status tags that a task may carry.
pub const TASK_TAGS: [&'static str; 4] = ["done", "active", "crit", "milestone"];

/// The configuration words, as character sequences.
pub open spec fn keywords() -> Seq<Seq<char>> {
    MMD_GANTT_KWS.deep_view()
}

/// The status tags, as character sequences.
pub open spec fn task_tags() -> Seq<Seq<char>> {
    TASK_TAGS.deep_view()
}

/// `s` begins with one of `words`.
pub open spec fn starts_with_any(s: Seq<char>, words: Seq<Seq<char>>) -> bool {
    exists|k: int| 0 <= k < words.len() && starts_with(s, #[trigger] words[k])
}

/// The line opens the chart.
pub open spec fn is_title(s: Seq<char>) -> bool {
    starts_with(s, "gantt"@)
}

/// The line begins with a configuration word.
pub open spec fn is_keyword(s: Seq<char>) -> bool {
    starts_with_any(s, keywords())
}

/// The line is a comment that holds a section header.
pub open spec fn is_commented_section(s: Seq<char>) -> bool {
    starts_with(s, "%%"@) && contains(s, "section"@)
}

/// The line is a comment that holds no task.
pub open spec fn is_comment(s: Seq<char>) -> bool {
    starts_with(s, "%%"@) && !s.contains(':')
}

/// The line separates a title from metadata.
pub open spec fn is_task(s: Seq<char>) -> bool {
    s.contains(':')
}

/// A section header stands in the line after line `idx` of `lines`.
pub open spec fn section_follows(lines: Seq<Seq<char>>, idx: int) -> bool {
    0 <= idx && idx + 1 < lines.len() && contains(lines[idx + 1], "section"@)
}

/// What a line is, which decides how it is laid out.
#[derive(Clone, Copy, Debug, PartialEq, Eq, Structural)]
pub enum LineKind {
    /// The line that opens the chart: kept as it is.
    Title,
    /// A configuration line: indented by two blanks.
    Keyword,
    /// A section header inside a comment: kept, after an empty line.
    CommentedSection,
    /// A comment: kept as it is.
    Comment,
    /// An empty line in front of a section header: left out.
    Skipped,
    /// A section header: indented by two blanks, after an empty line.
    Section,
    /// A task: laid out in columns.
    Task,
    /// Any other text: kept as it is.
    Other,
    /// An empty line: kept.
    Blank,
}

/// The kind of the trimmed line `s`, given whether a section header stands in the line
/// after it; the first test that holds decides.
pub open spec fn line_kind(s: Seq<char>, before_section: bool) -> LineKind {
    if is_title(s) {
        LineKind::Title
    } else if is_keyword(s) {
        LineKind::Keyword
    } else if is_commented_section(s) {
        LineKind::CommentedSection
    } else if is_comment(s) {
        LineKind::Comment
    } else if s.len() == 0 && before_section {
        LineKind::Skipped
    } else if contains(s, "section"@) {
        LineKind::Section
    } else if is_task(s) {
        LineKind::Task
    } else if s.len() > 0 {
        LineKind::Other
    } else {
        LineKind::Blank
    }
}

/// The kind of line `idx` of `lines`, which are trimmed.
pub open spec fn kind_of(lines: Seq<Seq<char>>, idx: int) -> LineKind
    recommends
        0 <= idx < lines.len(),
{
    line_kind(lines[idx], section_follows(lines, idx))
}

/// Tells whether `s` begins with `pat`.
pub fn str_starts_with(s: &str, pat: &str) -> (r: bool)
    ensures
        r == starts_with(s@, pat@),
{
    let cs = chars_of(s);
    let ps = chars_of(pat);
    matches_at(&cs, &ps, 0)
}

/// Tells whether `pat` stands somewhere in `s`.
pub fn str_contains(s: &str, pat: &str) -> (r: bool)
    ensures
        r == contains(s@, pat@),
{
    let cs = chars_of(s);
    let ps = chars_of(pat);
    find_text(&cs, &ps).is_some()
}

/// Tells whether `c` stands somewhere in `s`.
pub fn str_contains_char(s: &str, c: char) -> (r: bool)
    ensures
        r == s@.contains(c),
{
    let cs = chars_of(s);
    let i = find_char(&cs, c, 0, cs.len());
    i < cs.len()
}

/// Tells whether the line opens the chart.
pub fn line_is_title(line: &str) -> (r: bool)
    ensures
        r == is_title(line@),
{
    str_starts_with(line, "gantt")
}

/// Tells whether the line begins with a configuration word.
pub fn line_is_keyword(line: &str) -> (r: bool)
    ensures
        r == is_keyword(line@),
{
    let cs = chars_of(line);
    let mut k: usize = 0;
    while k < 23
        invariant
            k <= 23,
            cs@ == line@,
            forall|j: int| 0 <= j < k ==> !starts_with(line@, #[trigger] keywords()[j]),
        decreases 23 - k,
    {
        let word = chars_of(MMD_GANTT_KWS[k]);
        if matches_at(&cs, &word, 0) {
            assert(starts_with(line@, keywords()[k as int]));
            return true;
        }
        k += 1;
    }
    false
}

/// Tells whether the line separates a title from metadata.
pub fn line_is_task(line: &str) -> (r: bool)
    ensures
        r == is_task(line@),
{
    str_contains_char(line, ':')
}

/// Tells whether the line is a comment that holds a section header.
pub fn line_is_commented_section(line: &str) -> (r: bool)
    ensures
        r == is_commented_section(line@),
{
    str_starts_with(line, "%%") && str_contains(line, "section")
}

/// Tells whether the line is a comment that holds no task.
pub fn line_is_comment(line: &str) -> (r: bool)
    ensures
        r == is_comment(line@),
{
    str_starts_with(line, "%%") && !str_contains_char(line, ':')
}

/// Tells whether `line` is empty and a section header stands in the line after line `idx`
/// of `lines`.
pub fn line_is_empty_before_section(line: &str, idx: usize, lines: &Vec<&str>) -> (r: bool)
    ensures
        r == (line@.len() == 0 && section_follows(lines.deep_view(), idx as int)),
{
    if idx < lines.len() && idx + 1 < lines.len() {
        line.unicode_len() == 0 && str_contains(lines[idx + 1], "section")
    } else {
        false
    }
}

/// The kind of line `idx` of `lines`.
pub fn classify_line(lines: &Vec<&str>, idx: usize) -> (r: LineKind)
    requires
        idx < lines.len(),
    ensures
        r == kind_of(lines.deep_view(), idx as int),
{
    let line = lines[idx];
    if line_is_title(line) {
        LineKind::Title
    } else if line_is_keyword(line) {
        LineKind::Keyword
    } else if line_is_commented_section(line) {
        LineKind::CommentedSection
    } else if line_is_comment(line) {
        LineKind::Comment
    } else if line_is_empty_before_section(line, idx, lines) {
        LineKind::Skipped
    } else if str_contains(line, "section") {
        LineKind::Section
    } else if line_is_task(line) {
        LineKind::Task
    } else if line.unicode_len() > 0 {
        LineKind::Other
    } else {
        LineKind::Blank
    }
}

} // verus!
