//! The layout of single lines: padding, the tag block, the item block, task lines and
//! section headers.
use vstd::prelude::*;
use vstd::string::*;
use crate::classify::{str_starts_with, task_tags, TASK_TAGS};
use crate::meta::{split_meta_tags, tags_of, udis_of};
use crate::text::{
    chars_of, contains, find_from, find_text, spaces, starts_with, str_eq, trim, trim_bounds,
};
use crate::widths::{
    cell, column_width, split_task_line, task_meta, task_title, Column, ColumnWidths, Widths,
};

verus! {

/// `s`, filled up with blanks on the right to `width` characters; `s` itself if it is
/// that long already.
pub open spec fn pad(s: Seq<char>, width: nat) -> Seq<char> {
    if s.len() < width {
        s + spaces((width - s.len()) as nat)
    } else {
        s
    }
}

/// The first column of the tag block, 9 characters wide: `active` goes before `done`.
pub open spec fn status_cell(tags: Seq<Seq<char>>) -> Seq<char> {
    if tags.contains("active"@) {
        "active,  "@
    } else if tags.contains("done"@) {
        "done  ,  "@
    } else {
        spaces(9)
    }
}

/// The second column of the tag block, 7 characters wide.
pub open spec fn crit_cell(tags: Seq<Seq<char>>) -> Seq<char> {
    if tags.contains("crit"@) {
        "crit,  "@
    } else {
        spaces(7)
    }
}

/// The third column of the tag block, 12 characters wide.
pub open spec fn milestone_cell(tags: Seq<Seq<char>>) -> Seq<char> {
    if tags.contains("milestone"@) {
        "milestone,  "@
    } else {
        spaces(12)
    }
}

/// The three columns of status tags, 9, 7 and 12 characters wide. `active` and `done`
/// share the first one.
pub open spec fn tag_block(tags: Seq<Seq<char>>) -> Seq<char> {
    status_cell(tags) + crit_cell(tags) + milestone_cell(tags)
}

/// The columns of identifier, start and end. One item is the end, two are start and end,
/// three are all of them; a column without an item is left blank, and any other number
/// of items gives nothing.
pub open spec fn item_block(udis: Seq<Seq<char>>, w: Widths) -> Seq<char> {
    if udis.len() == 3 {
        pad(udis[0], w.id) + ",  "@ + pad(udis[1], w.start) + ",  "@ + pad(udis[2], w.end)
    } else if udis.len() == 2 {
        spaces(w.id) + "   "@ + pad(udis[0], w.start) + ",  "@ + pad(udis[1], w.end)
    } else if udis.len() == 1 {
        spaces(w.id) + "   "@ + spaces(w.start) + "   "@ + pad(udis[0], w.end)
    } else {
        Seq::empty()
    }
}

/// What stands in front of a task: the comment mark if the line has one, else the indent.
pub open spec fn task_lead(line: Seq<char>) -> Seq<char> {
    if starts_with(line, "%%"@) {
        "%%  "@
    } else {
        "    "@
    }
}

/// A task line, laid out: lead, padded title, separator, tag block, item block.
pub open spec fn task_line(line: Seq<char>, w: Widths, vocab: Seq<Seq<char>>) -> Seq<char> {
    task_lead(line) + (pad(task_title(line), w.title) + "  : "@ + tag_block(
        tags_of(task_meta(line), vocab),
    ) + item_block(udis_of(task_meta(line), vocab), w))
}

/// Where the colon of a task line stands.
pub open spec fn colon_column(w: Widths) -> int {
    4 + w.title as int + 2
}

/// Where the column of identifiers begins.
pub open spec fn id_column(w: Widths) -> int {
    colon_column(w) + 2 + 28
}

/// Where the column of starts begins.
pub open spec fn start_column(w: Widths) -> int {
    id_column(w) + w.id + 3
}

/// Where the column of ends begins.
pub open spec fn end_column(w: Widths) -> int {
    start_column(w) + w.start + 3
}

/// Where a column begins.
pub open spec fn column_start(w: Widths, col: Column) -> int {
    match col {
        Column::Title => 4,
        Column::Id => id_column(w),
        Column::Start => start_column(w),
        Column::End => end_column(w),
    }
}

/// No entry of the task line is longer than its column.
pub open spec fn fits(line: Seq<char>, w: Widths, vocab: Seq<Seq<char>>) -> bool {
    forall|col: Column|
        (#[trigger] cell(line, vocab, col)) is Some ==> cell(line, vocab, col)->0.len()
            <= column_width(w, col)
}

/// The title of a section: what follows the first `section` in the line, trimmed.
pub open spec fn section_title(line: Seq<char>) -> Seq<char> {
    trim(
        line.subrange(find_from(line, "section"@, 0) + "section"@.len(), line.len() as int),
    )
}

/// A section header, laid out.
pub open spec fn section_line(line: Seq<char>) -> Seq<char> {
    "  section "@ + section_title(line)
}

/// `n` blanks.
pub fn blanks(n: usize) -> (r: String)
    ensures
        r@ == spaces(n as nat),
{
    let mut r = String::new();
    let mut k: usize = 0;
    assert(r@ =~= spaces(0));
    while k < n
        invariant
            k <= n,
            r@ == spaces(k as nat),
        decreases n - k,
    {
        proof {
            reveal_strlit(" ");
            assert(spaces(k as nat) + " "@ =~= spaces((k + 1) as nat));
        }
        r.append(" ");
        k += 1;
    }
    r
}

/// Fills `string` up with blanks on the right to `max_length` characters.
pub fn pad_string(string: String, max_length: usize) -> (r: String)
    ensures
        r@ == pad(string@, max_length as nat),
{
    let len = string.as_str().unicode_len();
    if len < max_length {
        let fill = blanks(max_length - len);
        string.concat(fill.as_str())
    } else {
        string
    }
}

/// Tells whether `word` is one of `words`.
pub fn has_word(words: &Vec<&str>, word: &str) -> (r: bool)
    ensures
        r == words.deep_view().contains(word@),
{
    let mut k: usize = 0;
    while k < words.len()
        invariant
            k <= words.len(),
            forall|j: int| 0 <= j < k ==> #[trigger] words.deep_view()[j] != word@,
        decreases words.len() - k,
    {
        if str_eq(words[k], word) {
            assert(words.deep_view()[k as int] == word@);
            return true;
        }
        k += 1;
    }
    false
}

/// Appends the tag block to `task_line`.
pub fn push_tags_to_task_line(task_line: String, task_tags: &Vec<&str>) -> (r: String)
    ensures
        r@ == task_line@ + tag_block(task_tags.deep_view()),
        r@.len() == task_line@.len() + 28,
{
    let ghost start = task_line@;
    let ghost tags = task_tags.deep_view();
    let mut line = task_line;
    if has_word(task_tags, "active") {
        line.append("active,  ");
    } else if has_word(task_tags, "done") {
        line.append("done  ,  ");
    } else {
        line.append(blanks(9).as_str());
    }
    let ghost first = line@;
    if has_word(task_tags, "crit") {
        line.append("crit,  ");
    } else {
        line.append(blanks(7).as_str());
    }
    let ghost second = line@;
    if has_word(task_tags, "milestone") {
        line.append("milestone,  ");
    } else {
        line.append(blanks(12).as_str());
    }
    proof {
        reveal_strlit("active,  ");
        reveal_strlit("done  ,  ");
        reveal_strlit("crit,  ");
        reveal_strlit("milestone,  ");
    }
    assert(line@ =~= start + tag_block(tags));
    line
}

/// Appends the item block to `task_line`.
pub fn push_udis_to_task_line(task_line: String, task_udis: &Vec<&str>, widths: ColumnWidths) -> (r:
    String)
    ensures
        r@ == task_line@ + item_block(task_udis.deep_view(), widths@),
{
    let ghost start = task_line@;
    let ghost udis = task_udis.deep_view();
    let mut line = task_line;
    if task_udis.len() == 3 {
        let task_id = pad_string(String::from_str(task_udis[0]), widths.id);
        let from = pad_string(String::from_str(task_udis[1]), widths.start);
        let to = pad_string(String::from_str(task_udis[2]), widths.end);
        line.append(task_id.as_str());
        line.append(",  ");
        line.append(from.as_str());
        line.append(",  ");
        line.append(to.as_str());
        assert(udis[0] == task_udis[0]@ && udis[1] == task_udis[1]@ && udis[2] == task_udis[2]@);
        assert(line@ =~= start + item_block(udis, widths@));
    } else if task_udis.len() == 2 {
        let from = pad_string(String::from_str(task_udis[0]), widths.start);
        let to = pad_string(String::from_str(task_udis[1]), widths.end);
        line.append(blanks(widths.id).as_str());
        line.append("   ");
        line.append(from.as_str());
        line.append(",  ");
        line.append(to.as_str());
        assert(udis[0] == task_udis[0]@ && udis[1] == task_udis[1]@);
        assert(line@ =~= start + item_block(udis, widths@));
    } else if task_udis.len() == 1 {
        let to = pad_string(String::from_str(task_udis[0]), widths.end);
        line.append(blanks(widths.id).as_str());
        line.append("   ");
        line.append(blanks(widths.start).as_str());
        line.append("   ");
        line.append(to.as_str());
        assert(udis[0] == task_udis[0]@);
        assert(line@ =~= start + item_block(udis, widths@));
    } else {
        assert(line@ =~= start + item_block(udis, widths@));
    }
    line
}

/// Appends to `new_lines` the task `line`, laid out for the widths given.
pub fn push_task_line(line: &str, widths: &ColumnWidths, new_lines: Vec<String>) -> (r: Vec<
    String,
>)
    ensures
        r.deep_view() == new_lines.deep_view().push(task_line(line@, widths@, task_tags())),
{
    let ghost before = new_lines.deep_view();
    let (title, metadata) = split_task_line(line);
    let mut text = pad_string(String::from_str(title), widths.title);
    text.append("  : ");
    let meta_items = split_meta_tags(TASK_TAGS, metadata);
    text = push_tags_to_task_line(text, &meta_items.tags);
    text = push_udis_to_task_line(text, &meta_items.udis, *widths);
    let lead = if str_starts_with(line, "%%") {
        "%%  "
    } else {
        "    "
    };
    let full = String::from_str(lead).concat(text.as_str());
    assert(full@ =~= task_line(line@, widths@, task_tags()));
    let mut lines = new_lines;
    lines.push(full);
    assert(lines.deep_view() =~= before.push(full@));
    lines
}

/// Appends to `new_lines` an empty line and the section header `line`, laid out.
pub fn push_section_line(line: &str, new_lines: Vec<String>) -> (r: Vec<String>)
    requires
        contains(line@, "section"@),
    ensures
        r.deep_view() == new_lines.deep_view().push(Seq::empty()).push(section_line(line@)),
{
    let ghost before = new_lines.deep_view();
    let cs = chars_of(line);
    let word = chars_of("section");
    let at: usize = match find_text(&cs, &word) {
        Some(i) => i,
        None => 0,
    };
    let from = at + word.len();
    let (a, b) = trim_bounds(&cs, from, cs.len());
    let title = line.substring_char(a, b);
    let header = String::from_str("  section ").concat(title);
    let mut lines = new_lines;
    lines.push(String::new());
    lines.push(header);
    assert(lines.deep_view() =~= before.push(Seq::empty()).push(section_line(line@)));
    lines
}

} // verus!
