//! The widths of the four columns of a chart's task lines.
use vstd::prelude::*;
use vstd::string::*;
use crate::classify::{
    is_commented_section, is_keyword, line_is_commented_section, line_is_keyword,
    str_contains_char,
};
use crate::meta::{split_meta_tags, udis_of};
use crate::text::{chars_of, find_char, index_of, starts_with, trim, trim_bounds, trim_str};

verus! {

/// The widths of the four columns as numbers without a bound: what `ColumnWidths` stands
/// for in contracts.
pub struct Widths {
    /// The width of the column of titles.
    pub title: nat,
    /// The width of the column of identifiers.
    pub id: nat,
    /// The width of the column of starts.
    pub start: nat,
    /// The width of the column of ends.
    pub end: nat,
}

/// The widths of the columns of one chart, in characters.
#[derive(Clone, Copy, Debug, PartialEq, Eq, Structural)]
pub struct ColumnWidths {
    /// The longest task title.
    pub title: usize,
    /// The longest task identifier.
    pub id: usize,
    /// The longest start of a task.
    pub start: usize,
    /// The longest end of a task.
    pub end: usize,
}

impl View for ColumnWidths {
    type V = Widths;

    open spec fn view(&self) -> Widths {
        Widths {
            title: self.title as nat,
            id: self.id as nat,
            start: self.start as nat,
            end: self.end as nat,
        }
    }
}

/// One of the four columns.
pub enum Column {
    /// The title of a task.
    Title,
    /// The identifier of a task.
    Id,
    /// Where a task starts: a date, or the task that it follows.
    Start,
    /// Where a task ends: a date or a duration.
    End,
}

/// A task line without its comment mark, if it has one.
pub open spec fn task_body(line: Seq<char>) -> Seq<char> {
    if starts_with(line, "%%"@) {
        line.subrange("%%"@.len() as int, line.len() as int)
    } else {
        line
    }
}

/// The title of a task line: what stands before the first colon, trimmed.
pub open spec fn task_title(line: Seq<char>) -> Seq<char> {
    let body = task_body(line);
    trim(body.subrange(0, index_of(body, ':')))
}

/// The metadata of a task line: what stands after the first colon.
pub open spec fn task_meta(line: Seq<char>) -> Seq<char> {
    let body = task_body(line);
    let i = index_of(body, ':');
    if 0 <= i < body.len() {
        body.subrange(i + 1, body.len() as int)
    } else {
        Seq::empty()
    }
}

/// What the items of a task are, by their number: one is the end, two are start and end,
/// three are identifier, start and end.
pub open spec fn cell_of(udis: Seq<Seq<char>>, col: Column) -> Option<Seq<char>> {
    match col {
        Column::Title => None,
        Column::Id => if udis.len() == 3 {
            Some(udis[0])
        } else {
            None
        },
        Column::Start => if udis.len() == 3 {
            Some(udis[1])
        } else if udis.len() == 2 {
            Some(udis[0])
        } else {
            None
        },
        Column::End => if udis.len() == 3 {
            Some(udis[2])
        } else if udis.len() == 2 {
            Some(udis[1])
        } else if udis.len() == 1 {
            Some(udis[0])
        } else {
            None
        },
    }
}

/// What a task line holds in a column, if anything.
pub open spec fn cell(line: Seq<char>, vocab: Seq<Seq<char>>, col: Column) -> Option<
    Seq<char>,
> {
    match col {
        Column::Title => Some(task_title(line)),
        _ => cell_of(udis_of(task_meta(line), vocab), col),
    }
}

/// A trimmed line counts for the widths: it holds a colon and is neither a configuration
/// line nor a commented section header.
pub open spec fn is_measured(line: Seq<char>) -> bool {
    !is_keyword(line) && !is_commented_section(line) && line.contains(':')
}

/// The lines that count for the widths, trimmed, in order.
pub open spec fn task_lines(lines: Seq<Seq<char>>) -> Seq<Seq<char>>
    decreases lines.len(),
{
    if lines.len() == 0 {
        Seq::empty()
    } else {
        let rest = task_lines(lines.drop_last());
        let line = trim(lines.last());
        if is_measured(line) {
            rest.push(line)
        } else {
            rest
        }
    }
}

/// What the task lines hold in a column, in order.
pub open spec fn column(tasks: Seq<Seq<char>>, vocab: Seq<Seq<char>>, col: Column) -> Seq<
    Seq<char>,
>
    decreases tasks.len(),
{
    if tasks.len() == 0 {
        Seq::empty()
    } else {
        let rest = column(tasks.drop_last(), vocab, col);
        match cell(tasks.last(), vocab, col) {
            Some(c) => rest.push(c),
            None => rest,
        }
    }
}

/// The greatest length among `strs`; 0 if there is none.
pub open spec fn longest(strs: Seq<Seq<char>>) -> nat
    decreases strs.len(),
{
    if strs.len() == 0 {
        0
    } else {
        let rest = longest(strs.drop_last());
        if strs.last().len() > rest {
            strs.last().len()
        } else {
            rest
        }
    }
}

/// The index of the first of `strs` that has the greatest length.
pub open spec fn first_longest(strs: Seq<Seq<char>>) -> int
    decreases strs.len(),
{
    if strs.len() <= 1 {
        0
    } else {
        let i = first_longest(strs.drop_last());
        if strs.last().len() > strs[i].len() {
            strs.len() - 1
        } else {
            i
        }
    }
}

/// The widths of the columns of a chart: the longest entry of each column among the
/// lines that count.
pub open spec fn widths_of(lines: Seq<Seq<char>>, vocab: Seq<Seq<char>>) -> Widths {
    let tasks = task_lines(lines);
    Widths {
        title: longest(column(tasks, vocab, Column::Title)),
        id: longest(column(tasks, vocab, Column::Id)),
        start: longest(column(tasks, vocab, Column::Start)),
        end: longest(column(tasks, vocab, Column::End)),
    }
}

/// The first longest string is in range and has the greatest length.
pub proof fn lemma_first_longest(strs: Seq<Seq<char>>)
    requires
        strs.len() > 0,
    ensures
        0 <= first_longest(strs) < strs.len(),
        strs[first_longest(strs)].len() == longest(strs),
        forall|j: int| 0 <= j < strs.len() ==> (#[trigger] strs[j]).len() <= longest(strs),
        forall|j: int|
            0 <= j < first_longest(strs) ==> (#[trigger] strs[j]).len() < longest(strs),
    decreases strs.len(),
{
    if strs.len() > 1 {
        let front = strs.drop_last();
        lemma_first_longest(front);
        assert(front[first_longest(front)] == strs[first_longest(front)]);
        assert forall|j: int| 0 <= j < strs.len() implies (#[trigger] strs[j]).len() <= longest(
            strs,
        ) by {
            if j < front.len() {
                assert(front[j] == strs[j]);
            }
        }
        assert forall|j: int| 0 <= j < first_longest(strs) implies (#[trigger] strs[j]).len()
            < longest(strs) by {
            assert(front[j] == strs[j]);
        }
    } else {
        assert(strs.drop_last().len() == 0);
        assert(longest(strs.drop_last()) == 0);
        assert(strs.last() == strs[0]);
    }
}

/// What a trimmed line adds to a column: its entry, if the line counts and has one.
pub open spec fn entry(line: Seq<char>, vocab: Seq<Seq<char>>, col: Column) -> Seq<Seq<char>> {
    if is_measured(line) && cell(line, vocab, col) is Some {
        seq![cell(line, vocab, col)->0]
    } else {
        Seq::empty()
    }
}

/// The entries of a column of a chart.
pub open spec fn entries(lines: Seq<Seq<char>>, vocab: Seq<Seq<char>>, col: Column) -> Seq<
    Seq<char>,
> {
    column(task_lines(lines), vocab, col)
}

/// The entries of a column of a chart are those of its lines but the last, and what the
/// last line adds.
pub proof fn lemma_entries_push(
    lines: Seq<Seq<char>>,
    last: Seq<char>,
    vocab: Seq<Seq<char>>,
    col: Column,
)
    ensures
        entries(lines.push(last), vocab, col) == entries(lines, vocab, col) + entry(
            trim(last),
            vocab,
            col,
        ),
{
    let all = lines.push(last);
    assert(all.drop_last() =~= lines);
    assert(all.last() == last);
    let rest = task_lines(lines);
    let line = trim(last);
    if is_measured(line) {
        assert(rest.push(line).drop_last() =~= rest);
        assert(rest.push(line).last() == line);
        if cell(line, vocab, col) is Some {
            assert(column(rest, vocab, col).push(cell(line, vocab, col)->0) =~= column(
                rest,
                vocab,
                col,
            ) + entry(line, vocab, col));
        } else {
            assert(column(rest, vocab, col) + entry(line, vocab, col) =~= column(
                rest,
                vocab,
                col,
            ));
        }
    } else {
        assert(column(rest, vocab, col) + entry(line, vocab, col) =~= column(rest, vocab, col));
    }
}

/// The entries of a column of two charts put together are those of the one and those of
/// the other.
pub proof fn lemma_entries_concat(
    a: Seq<Seq<char>>,
    b: Seq<Seq<char>>,
    vocab: Seq<Seq<char>>,
    col: Column,
)
    ensures
        entries(a + b, vocab, col) == entries(a, vocab, col) + entries(b, vocab, col),
    decreases b.len(),
{
    if b.len() == 0 {
        assert(a + b =~= a);
        assert(entries(a, vocab, col) + entries(b, vocab, col) =~= entries(a, vocab, col));
    } else {
        let front = b.drop_last();
        lemma_entries_concat(a, front, vocab, col);
        lemma_entries_push(a + front, b.last(), vocab, col);
        lemma_entries_push(front, b.last(), vocab, col);
        assert((a + front).push(b.last()) =~= a + b);
        assert(front.push(b.last()) =~= b);
        let e = entry(trim(b.last()), vocab, col);
        assert(entries(a, vocab, col) + entries(front, vocab, col) + e =~= entries(a, vocab, col)
            + (entries(front, vocab, col) + e));
    }
}

/// A line that counts is among the task lines.
pub proof fn lemma_task_lines_has(lines: Seq<Seq<char>>, i: int)
    requires
        0 <= i < lines.len(),
        is_measured(trim(lines[i])),
    ensures
        task_lines(lines).contains(trim(lines[i])),
    decreases lines.len(),
{
    let front = lines.drop_last();
    let rest = task_lines(front);
    if i == lines.len() - 1 {
        assert(rest.push(trim(lines[i])).last() == trim(lines[i]));
    } else {
        lemma_task_lines_has(front, i);
        let k = choose|k: int| 0 <= k < rest.len() && rest[k] == trim(front[i]);
        assert(task_lines(lines)[k] == trim(lines[i]));
    }
}

/// What a task line holds in a column is among the entries of the column.
pub proof fn lemma_column_has(tasks: Seq<Seq<char>>, vocab: Seq<Seq<char>>, col: Column, k: int)
    requires
        0 <= k < tasks.len(),
        cell(tasks[k], vocab, col) is Some,
    ensures
        column(tasks, vocab, col).contains(cell(tasks[k], vocab, col)->0),
    decreases tasks.len(),
{
    let front = tasks.drop_last();
    let rest = column(front, vocab, col);
    let c = cell(tasks[k], vocab, col)->0;
    if k == tasks.len() - 1 {
        assert(rest.push(c).last() == c);
    } else {
        lemma_column_has(front, vocab, col, k);
        let j = choose|j: int| 0 <= j < rest.len() && rest[j] == c;
        assert(column(tasks, vocab, col)[j] == c);
    }
}

/// Every task line is a line of the chart that counts, trimmed.
pub proof fn lemma_task_lines_from(lines: Seq<Seq<char>>, k: int) -> (i: int)
    requires
        0 <= k < task_lines(lines).len(),
    ensures
        0 <= i < lines.len(),
        is_measured(trim(lines[i])),
        task_lines(lines)[k] == trim(lines[i]),
    decreases lines.len(),
{
    let front = lines.drop_last();
    let rest = task_lines(front);
    if k < rest.len() {
        let i = lemma_task_lines_from(front, k);
        assert(front[i] == lines[i]);
        i
    } else {
        lines.len() - 1
    }
}

/// Every entry of a column is what one of the task lines holds in the column.
pub proof fn lemma_column_from(
    tasks: Seq<Seq<char>>,
    vocab: Seq<Seq<char>>,
    col: Column,
    j: int,
) -> (k: int)
    requires
        0 <= j < column(tasks, vocab, col).len(),
    ensures
        0 <= k < tasks.len(),
        cell(tasks[k], vocab, col) == Some(column(tasks, vocab, col)[j]),
    decreases tasks.len(),
{
    let front = tasks.drop_last();
    let rest = column(front, vocab, col);
    if j < rest.len() {
        let k = lemma_column_from(front, vocab, col, j);
        assert(front[k] == tasks[k]);
        k
    } else {
        tasks.len() - 1
    }
}

/// The width of a column of a chart.
pub open spec fn column_width(w: Widths, col: Column) -> nat {
    match col {
        Column::Title => w.title,
        Column::Id => w.id,
        Column::Start => w.start,
        Column::End => w.end,
    }
}

/// No entry of a line that counts is longer than the width of its column.
pub proof fn lemma_measured_cell_fits(
    lines: Seq<Seq<char>>,
    vocab: Seq<Seq<char>>,
    i: int,
    col: Column,
)
    requires
        0 <= i < lines.len(),
        is_measured(trim(lines[i])),
        cell(trim(lines[i]), vocab, col) is Some,
    ensures
        cell(trim(lines[i]), vocab, col)->0.len() <= column_width(widths_of(lines, vocab), col),
{
    let tasks = task_lines(lines);
    lemma_task_lines_has(lines, i);
    let k = choose|k: int| 0 <= k < tasks.len() && tasks[k] == trim(lines[i]);
    lemma_column_has(tasks, vocab, col, k);
    let entries = column(tasks, vocab, col);
    let c = cell(trim(lines[i]), vocab, col)->0;
    let j = choose|j: int| 0 <= j < entries.len() && entries[j] == c;
    lemma_first_longest(entries);
}

/// The first of the longest among `strings`, by the number of characters; `None` if
/// there is no string.
pub fn find_longest_string<'a>(strings: &'a [&'a str]) -> (r: Option<&'a str>)
    ensures
        r is None <==> strings.len() == 0,
        r is Some ==> r->0@ == strings.deep_view()[first_longest(strings.deep_view())],
        r is Some ==> r->0@.len() == longest(strings.deep_view()),
{
    if strings.len() == 0 {
        return None;
    }
    let ghost strs = strings.deep_view();
    let mut best: usize = 0;
    let mut best_len: usize = strings[0].unicode_len();
    let mut k: usize = 1;
    proof {
        assert(strs.take(1).len() == 1);
    }
    while k < strings.len()
        invariant
            strs == strings.deep_view(),
            1 <= k <= strings.len(),
            best == first_longest(strs.take(k as int)),
            best < k,
            best_len == strs[best as int].len(),
        decreases strings.len() - k,
    {
        let len = strings[k].unicode_len();
        proof {
            assert(strs.take(k + 1).drop_last() =~= strs.take(k as int));
            assert(strs.take(k + 1).last() == strs[k as int]);
            assert(strs.take(k + 1)[best as int] == strs[best as int]);
        }
        if len > best_len {
            best = k;
            best_len = len;
        }
        k += 1;
    }
    proof {
        assert(strs.take(k as int) =~= strs);
        lemma_first_longest(strs);
    }
    Some(strings[best])
}

/// The lines that count for the widths, trimmed, in order.
pub fn get_task_lines<'a>(lines: &Vec<&'a str>) -> (r: Vec<&'a str>)
    ensures
        r.deep_view() == task_lines(lines.deep_view()),
{
    let mut found: Vec<&'a str> = Vec::new();
    let ghost all = lines.deep_view();
    let mut k: usize = 0;
    assert(found.deep_view() =~= task_lines(all.take(0)));
    while k < lines.len()
        invariant
            all == lines.deep_view(),
            k <= lines.len(),
            found.deep_view() == task_lines(all.take(k as int)),
        decreases lines.len() - k,
    {
        let line = trim_str(lines[k]);
        proof {
            assert(all.take(k + 1).drop_last() =~= all.take(k as int));
            assert(all.take(k + 1).last() == lines[k as int]@);
        }
        if !line_is_keyword(line) && !line_is_commented_section(line) && str_contains_char(
            line,
            ':',
        ) {
            let ghost before = found.deep_view();
            found.push(line);
            assert(found.deep_view() =~= before.push(line@));
        }
        k += 1;
    }
    assert(all.take(k as int) =~= all);
    found
}

/// A task line, split at its first colon: the title, trimmed, and the metadata. A comment
/// mark in front of the line belongs to neither.
pub fn split_task_line<'a>(line: &'a str) -> (r: (&'a str, &'a str))
    ensures
        r.0@ == task_title(line@),
        r.1@ == task_meta(line@),
{
    let cs = chars_of(line);
    let n = cs.len();
    let mark = chars_of("%%");
    proof {
        reveal_strlit("%%");
    }
    let from: usize = if crate::text::matches_at(&cs, &mark, 0) {
        2
    } else {
        0
    };
    let ghost body = task_body(line@);
    assert(body =~= cs@.subrange(from as int, n as int));
    let colon = find_char(&cs, ':', from, n);
    let (a, b) = trim_bounds(&cs, from, colon);
    assert(body.subrange(0, colon - from) =~= cs@.subrange(from as int, colon as int));
    let title = line.substring_char(a, b);
    let meta = if colon < n {
        assert(body.subrange(colon - from + 1, body.len() as int) =~= cs@.subrange(
            colon + 1,
            n as int,
        ));
        line.substring_char(colon + 1, n)
    } else {
        assert(cs@.subrange(n as int, n as int) =~= Seq::<char>::empty());
        line.substring_char(n, n)
    };
    (title, meta)
}

/// The length of the longest of `strings`, in characters; 0 if there is none.
pub fn longest_length(strings: &Vec<&str>) -> (r: usize)
    ensures
        r == longest(strings.deep_view()),
{
    let all = strings.as_slice();
    assert(all.deep_view() =~= strings.deep_view());
    match find_longest_string(all) {
        Some(s) => s.unicode_len(),
        None => {
            assert(strings.deep_view().len() == 0);
            0
        },
    }
}

/// The widths of the columns of a chart: for each column the length, in characters, of
/// its longest entry among the lines that count; 0 for a column without an entry.
pub fn get_max_item_lengths<'a>(tags: [&str; 4], lines: &Vec<&'a str>) -> (r: ColumnWidths)
    ensures
        r@ == widths_of(lines.deep_view(), tags.deep_view()),
{
    let mut titles: Vec<&'a str> = Vec::new();
    let mut ids: Vec<&'a str> = Vec::new();
    let mut starts: Vec<&'a str> = Vec::new();
    let mut ends: Vec<&'a str> = Vec::new();
    let tasks = get_task_lines(lines);
    let ghost all = tasks.deep_view();
    let ghost vocab = tags.deep_view();
    let mut k: usize = 0;
    proof {
        assert(titles.deep_view() =~= column(all.take(0), vocab, Column::Title));
        assert(ids.deep_view() =~= column(all.take(0), vocab, Column::Id));
        assert(starts.deep_view() =~= column(all.take(0), vocab, Column::Start));
        assert(ends.deep_view() =~= column(all.take(0), vocab, Column::End));
    }
    while k < tasks.len()
        invariant
            all == tasks.deep_view(),
            vocab == tags.deep_view(),
            k <= tasks.len(),
            titles.deep_view() == column(all.take(k as int), vocab, Column::Title),
            ids.deep_view() == column(all.take(k as int), vocab, Column::Id),
            starts.deep_view() == column(all.take(k as int), vocab, Column::Start),
            ends.deep_view() == column(all.take(k as int), vocab, Column::End),
        decreases tasks.len() - k,
    {
        let (title, metadata) = split_task_line(tasks[k]);
        let meta_items = split_meta_tags(tags, metadata);
        let task_udis = &meta_items.udis;
        let ghost old_titles = titles.deep_view();
        let ghost old_ids = ids.deep_view();
        let ghost old_starts = starts.deep_view();
        let ghost old_ends = ends.deep_view();
        let ghost udis = task_udis.deep_view();
        proof {
            assert(all.take(k + 1).drop_last() =~= all.take(k as int));
            assert(all.take(k + 1).last() == tasks[k as int]@);
            assert(udis == udis_of(task_meta(tasks[k as int]@), vocab));
        }
        titles.push(title);
        assert(titles.deep_view() =~= old_titles.push(title@));
        if task_udis.len() == 3 {
            ids.push(task_udis[0]);
            starts.push(task_udis[1]);
            ends.push(task_udis[2]);
            assert(ids.deep_view() =~= old_ids.push(udis[0]));
            assert(starts.deep_view() =~= old_starts.push(udis[1]));
            assert(ends.deep_view() =~= old_ends.push(udis[2]));
        } else if task_udis.len() == 2 {
            starts.push(task_udis[0]);
            ends.push(task_udis[1]);
            assert(starts.deep_view() =~= old_starts.push(udis[0]));
            assert(ends.deep_view() =~= old_ends.push(udis[1]));
        } else if task_udis.len() == 1 {
            ends.push(task_udis[0]);
            assert(ends.deep_view() =~= old_ends.push(udis[0]));
        }
        k += 1;
    }
    assert(all.take(k as int) =~= all);
    ColumnWidths {
        title: longest_length(&titles),
        id: longest_length(&ids),
        start: longest_length(&starts),
        end: longest_length(&ends),
    }
}

} // verus!
