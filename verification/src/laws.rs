//! What holds of every chart that is formatted.
use vstd::prelude::*;
use crate::classify::{kind_of, line_kind, task_tags, LineKind};
use crate::content::{
    all_shown, contents, lemma_empty_says_nothing, lemma_rendered_says_the_same, said, said_upto,
    Content,
};
use crate::format::{
    formatted, formatted_text, laid_out, lemma_rendered_upto_grows, lemma_text_lines_lack_feed,
    lemma_text_lines_of_joined, rendered, rendered_upto, text_lines, trimmed,
};
use crate::meta::{lemma_select_members, tags_of, tokens, udis_of};
use crate::render::{
    colon_column, column_start, fits, id_column, item_block, pad, section_line, section_title,
    tag_block, task_lead, task_line,
};
use crate::roundtrip::{
    lemma_shown_tags, lemma_task_line_meta, lemma_task_line_reads_back, shown_udis,
};
use crate::stable::{
    all_keep_widths, empty_lines_stay, lemma_rendered_again, lemma_rendered_lines,
    lemma_section_line_again, lemma_task_lines_trimmed, lemma_trimmed_lines, lemma_widths_again,
};
use crate::text::{index_of, is_trimmed, lemma_scan_char, spaces, starts_with, trim};
use crate::widths::{
    cell, column, column_width, first_longest, is_measured, lemma_column_from, lemma_first_longest,
    lemma_measured_cell_fits, lemma_task_lines_from, longest, task_lines, task_meta, task_title,
    widths_of, Column, Widths,
};

verus! {

/// The tag block is 28 characters wide, whatever tags a task carries.
pub proof fn tag_block_width(tags: Seq<Seq<char>>)
    ensures
        tag_block(tags).len() == 28,
{
    reveal_strlit("active,  ");
    reveal_strlit("done  ,  ");
    reveal_strlit("crit,  ");
    reveal_strlit("milestone,  ");
}

/// In a task line whose entries fit their columns, every part stands at a place that the
/// widths alone decide: the title after the lead, the first colon of the line, the tag
/// block, and each item at the start of its column. So these places are the same in all
/// such lines of a chart.
pub proof fn task_line_columns(line: Seq<char>, w: Widths, vocab: Seq<Seq<char>>)
    requires
        fits(line, w, vocab),
    ensures
        ({
            let out = task_line(line, w, vocab);
            let title = task_title(line);
            &&& out.subrange(0, 4) == task_lead(line)
            &&& out.subrange(4, 4 + title.len() as int) == title
            &&& index_of(out, ':') == colon_column(w)
            &&& out[colon_column(w)] == ':'
            &&& out.subrange(colon_column(w) + 2, id_column(w)) == tag_block(
                tags_of(task_meta(line), vocab),
            )
            &&& forall|col: Column|
                col != Column::Title && (#[trigger] cell(line, vocab, col)) is Some ==> {
                    let c = cell(line, vocab, col)->0;
                    let at = column_start(w, col);
                    out.subrange(at, at + c.len()) == c
                }
        }),
{
    reveal_strlit("%%  ");
    reveal_strlit("    ");
    reveal_strlit("  : ");
    reveal_strlit(",  ");
    reveal_strlit("   ");
    let out = task_line(line, w, vocab);
    let title = task_title(line);
    let tags = tags_of(task_meta(line), vocab);
    let udis = udis_of(task_meta(line), vocab);
    tag_block_width(tags);
    assert(cell(line, vocab, Column::Title) is Some);
    assert(title.len() <= w.title);
    let head = task_lead(line) + pad(title, w.title) + "  : "@;
    assert(head.len() == 4 + w.title + 4);
    let items = item_block(udis, w);
    assert(out =~= head + tag_block(tags) + items);
    assert(out.subrange(0, 4) =~= task_lead(line));
    assert(out.subrange(4, 4 + title.len() as int) =~= title);
    assert(out[colon_column(w)] == ':');
    assert(index_of(out, ':') == colon_column(w)) by {
        crate::roundtrip::lemma_title(line);
        assert forall|m: int| 0 <= m < colon_column(w) implies #[trigger] out[m] != ':' by {
            if m < 4 {
                assert(out[m] == task_lead(line)[m]);
            } else if m < 4 + title.len() {
                assert(out[m] == title[m - 4]);
            } else {
                assert(out[m] == ' ');
            }
        }
        lemma_scan_char(out, ':', 0, colon_column(w));
    }
    assert(out.subrange(colon_column(w) + 2, id_column(w)) =~= tag_block(tags));
    assert forall|col: Column|
        col != Column::Title && (#[trigger] cell(line, vocab, col)) is Some implies {
        let c = cell(line, vocab, col)->0;
        let at = column_start(w, col);
        out.subrange(at, at + c.len()) == c
    } by {
        let c = cell(line, vocab, col)->0;
        let at = column_start(w, col);
        assert(c.len() <= column_width(w, col));
        let id = cell(line, vocab, Column::Id);
        let from = cell(line, vocab, Column::Start);
        let to = cell(line, vocab, Column::End);
        assert(id is Some ==> pad(id->0, w.id).len() == w.id);
        assert(from is Some ==> pad(from->0, w.start).len() == w.start);
        assert(to is Some ==> pad(to->0, w.end).len() == w.end);
        assert(items.subrange(at - id_column(w), at - id_column(w) + c.len()) =~= c);
        assert(out.subrange(at, at + c.len()) =~= items.subrange(
            at - id_column(w),
            at - id_column(w) + c.len(),
        ));
    }
}

/// Every line that counts for the widths of a chart fits the columns of that chart.
pub proof fn measured_lines_fit(lines: Seq<Seq<char>>, vocab: Seq<Seq<char>>, i: int)
    requires
        0 <= i < lines.len(),
        is_measured(trim(lines[i])),
    ensures
        fits(trim(lines[i]), widths_of(lines, vocab), vocab),
{
    let line = trim(lines[i]);
    let w = widths_of(lines, vocab);
    assert forall|col: Column| (#[trigger] cell(line, vocab, col)) is Some implies cell(
        line,
        vocab,
        col,
    )->0.len() <= column_width(w, col) by {
        lemma_measured_cell_fits(lines, vocab, i, col);
    }
}

/// The width of a column is the length of an entry of the column: where it is not 0,
/// a line that counts holds an entry of that length in the column. With
/// `measured_lines_fit`, the width is the greatest length among the entries, and 0
/// where the column has none.
pub proof fn widths_are_attained(lines: Seq<Seq<char>>, vocab: Seq<Seq<char>>, col: Column) -> (i:
    int)
    requires
        column_width(widths_of(lines, vocab), col) > 0,
    ensures
        0 <= i < lines.len(),
        is_measured(trim(lines[i])),
        cell(trim(lines[i]), vocab, col) is Some,
        cell(trim(lines[i]), vocab, col)->0.len() == column_width(widths_of(lines, vocab), col),
{
    let tasks = task_lines(lines);
    let found = column(tasks, vocab, col);
    assert(column_width(widths_of(lines, vocab), col) == longest(found));
    assert(found.len() > 0);
    lemma_first_longest(found);
    let j = first_longest(found);
    let k = lemma_column_from(tasks, vocab, col, j);
    lemma_task_lines_from(lines, k)
}

/// In a formatted chart every task line, commented or not, has its first colon, its tag
/// block and its items at the places that the widths of the chart decide: the colon of
/// each stands six characters behind the width of the titles.
pub proof fn chart_task_lines_are_aligned(lines: Seq<Seq<char>>, idx: int)
    requires
        0 <= idx < lines.len(),
        kind_of(trimmed(lines), idx) == LineKind::Task,
    ensures
        ({
            let t = trimmed(lines);
            let w = widths_of(lines, task_tags());
            let at = rendered_upto(t, idx, w).len() as int;
            let out = formatted(lines)[at];
            &&& at + 1 < formatted(lines).len()
            &&& out == task_line(t[idx], w, task_tags())
            &&& fits(t[idx], w, task_tags())
            &&& index_of(out, ':') == w.title + 6
            &&& out.subrange(colon_column(w) + 2, id_column(w)) == tag_block(
                tags_of(task_meta(t[idx]), task_tags()),
            )
            &&& forall|col: Column|
                col != Column::Title && (#[trigger] cell(t[idx], task_tags(), col)) is Some ==> {
                    let c = cell(t[idx], task_tags(), col)->0;
                    out.subrange(column_start(w, col), column_start(w, col) + c.len()) == c
                }
        }),
{
    let t = trimmed(lines);
    let w = widths_of(lines, task_tags());
    let n = t.len() as int;
    crate::format::lemma_rendered_at(t, idx, n, w, 0);
    crate::stable::lemma_task_is_measured(t[idx], crate::classify::section_follows(t, idx));
    measured_lines_fit(lines, task_tags(), idx);
    task_line_columns(t[idx], w, task_tags());
}

/// A line that is neither left out nor empty becomes one or two lines, the last of which
/// is not empty.
pub proof fn lemma_rendered_ends_with_text(lines: Seq<Seq<char>>, idx: int, w: Widths)
    requires
        0 <= idx < lines.len(),
        kind_of(lines, idx) != LineKind::Skipped,
        kind_of(lines, idx) != LineKind::Blank,
    ensures
        rendered(lines, idx, w).len() >= 1,
        rendered(lines, idx, w).last().len() > 0,
{
    reveal_strlit("gantt");
    reveal_strlit("  ");
    reveal_strlit("%%");
    reveal_strlit("  section ");
    reveal_strlit("%%  ");
    reveal_strlit("    ");
    reveal_strlit("  : ");
}

/// A formatted chart ends with an empty line. It is the only one at the end unless the
/// chart itself ends with an empty line, which is kept.
pub proof fn ends_with_one_empty_line(lines: Seq<Seq<char>>)
    ensures
        formatted(lines).len() >= 1,
        formatted(lines).last().len() == 0,
        lines.len() == 0 ==> formatted(lines).len() == 1,
        lines.len() > 0 && trim(lines.last()).len() > 0 ==> formatted(lines).len() >= 2
            && formatted(lines)[formatted(lines).len() - 2].len() > 0,
{
    let t = trimmed(lines);
    let w = widths_of(lines, task_tags());
    let n = t.len() as int;
    if n > 0 && trim(lines.last()).len() > 0 {
        assert(t[n - 1] == trim(lines.last()));
        lemma_rendered_ends_with_text(t, n - 1, w);
        let body = rendered_upto(t, n, w);
        assert(body.last() == rendered(t, n - 1, w).last());
    }
}

/// In a formatted chart an empty line stands before every section header. The line
/// before that one is not empty, unless the chart had two empty lines before the
/// header, of which one is kept.
pub proof fn one_empty_line_before_section(lines: Seq<Seq<char>>, idx: int)
    requires
        0 <= idx < lines.len(),
        kind_of(trimmed(lines), idx) == LineKind::Section,
    ensures
        ({
            let t = trimmed(lines);
            let out = formatted(lines);
            let at = rendered_upto(t, idx, widths_of(lines, task_tags())).len() as int;
            &&& at + 2 < out.len()
            &&& out[at].len() == 0
            &&& out[at + 1] == section_line(t[idx])
            &&& at > 0 && !(idx >= 2 && t[idx - 1].len() == 0 && t[idx - 2].len() == 0)
                ==> out[at - 1].len() > 0
        }),
{
    let t = trimmed(lines);
    let w = widths_of(lines, task_tags());
    let out = formatted(lines);
    let n = t.len() as int;
    let before = rendered_upto(t, idx, w);
    let at = before.len() as int;
    let upto = rendered_upto(t, idx + 1, w);
    lemma_rendered_upto_grows(t, idx + 1, n, w);
    assert(upto == before + rendered(t, idx, w));
    let body = rendered_upto(t, n, w);
    assert(body.subrange(0, upto.len() as int)[at] == upto[at]);
    assert(body.subrange(0, upto.len() as int)[at + 1] == upto[at + 1]);
    if at > 0 && !(idx >= 2 && t[idx - 1].len() == 0 && t[idx - 2].len() == 0) {
        assert(body.subrange(0, upto.len() as int)[at - 1] == upto[at - 1]);
        assert(idx >= 1);
        assert(before == rendered_upto(t, idx - 1, w) + rendered(t, idx - 1, w));
        if kind_of(t, idx - 1) == LineKind::Skipped {
            assert(idx >= 2);
            assert(rendered_upto(t, idx - 1, w) == rendered_upto(t, idx - 2, w) + rendered(
                t,
                idx - 2,
                w,
            ));
            lemma_rendered_ends_with_text(t, idx - 2, w);
        } else {
            lemma_rendered_ends_with_text(t, idx - 1, w);
        }
    }
}

/// A task line that was laid out says what the task line said: read again, it is a
/// comment if and only if the line was one, it has the same title, the same tags but for
/// `done` beside `active`, of which `active` alone is shown, and the same items, which
/// are shown if they are at most three.
pub proof fn task_content_is_kept(line: Seq<char>, w: Widths)
    requires
        is_trimmed(line),
    ensures
        ({
            let x = trim(task_line(line, w, task_tags()));
            let tags = tags_of(task_meta(line), task_tags());
            let udis = udis_of(task_meta(line), task_tags());
            &&& starts_with(x, "%%"@) == starts_with(line, "%%"@)
            &&& task_title(x) == task_title(line)
            &&& forall|t: Seq<char>|
                #[trigger] tags_of(task_meta(x), task_tags()).contains(t) <==> tags.contains(t)
                    && !(t == "done"@ && tags.contains("active"@))
            &&& udis_of(task_meta(x), task_tags()) == if udis.len() <= 3 {
                udis
            } else {
                Seq::empty()
            }
        }),
{
    let x = trim(task_line(line, w, task_tags()));
    let tags = tags_of(task_meta(line), task_tags());
    let udis = udis_of(task_meta(line), task_tags());
    lemma_task_line_reads_back(line, w);
    lemma_task_line_meta(line, w);
    lemma_shown_tags(tags);
    lemma_select_members(tokens(task_meta(line)), task_tags(), true);
    assert(shown_udis(udis) =~= if udis.len() <= 3 {
        udis
    } else {
        Seq::empty()
    });
}

/// The other lines that are laid out say what they said: a section header has, read
/// again, the title that it had, and every other line is, once trimmed, the line itself.
pub proof fn line_content_is_kept(line: Seq<char>, before_section: bool, w: Widths)
    requires
        is_trimmed(line),
        line_kind(line, before_section) != LineKind::Task,
        line_kind(line, before_section) != LineKind::Skipped,
    ensures
        ({
            let out = laid_out(line, before_section, w);
            &&& out.len() >= 1
            &&& line_kind(line, before_section) == LineKind::Section ==> section_title(
                trim(out.last()),
            ) == section_title(line)
            &&& line_kind(line, before_section) != LineKind::Section ==> trim(out.last()) == line
        }),
{
    reveal_strlit("  ");
    let none = Seq::<char>::empty();
    crate::stable::lemma_trimmed_stays(line);
    crate::stable::lemma_trimmed_stays(none);
    lemma_section_line_again(line, false);
    if line_kind(line, before_section) == LineKind::Keyword {
        assert("  "@ =~= spaces(2));
        crate::text::lemma_trim_of_padded(spaces(2), line, none);
        assert(spaces(2) + line + none =~= "  "@ + line);
    }
    if line_kind(line, before_section) == LineKind::Section {
        crate::stable::lemma_section_line_trimmed(line);
        crate::stable::lemma_section_title_again(line);
    }
}

/// A formatted chart says what the chart said, line by line in the order of the chart:
/// the same title, configuration lines, comments and other text, the same section titles,
/// and for every task the same title, the same status tags and the same items in order.
/// Only white space and empty lines differ.
///
/// This holds of every chart in which each task shows all that it says: a task with
/// more than three items shows none of them, and of `active` and `done` on one task
/// `done` is not shown. What stands before the word `section` in a section header is
/// no part of its title.
pub proof fn chart_content_is_kept(lines: Seq<Seq<char>>)
    requires
        all_shown(trimmed(lines)),
    ensures
        contents(formatted(lines)) == contents(lines),
{
    let t = trimmed(lines);
    let n = t.len() as int;
    let w = widths_of(lines, task_tags());
    let out = rendered_upto(t, n, w);
    let all = formatted(lines);
    let again = trimmed(all);
    let none = Seq::<char>::empty();
    lemma_trimmed_lines(lines);
    assert forall|p: int| 0 <= p < out.len() implies #[trigger] again[p] == trim(out[p]) by {
        assert(all[p] == out[p]);
    }
    lemma_rendered_says_the_same(t, w, again, n);
    let last = out.len() as int;
    assert(all[last] == none);
    crate::stable::lemma_trimmed_stays(none);
    lemma_empty_says_nothing(crate::classify::section_follows(again, last));
    assert(said_upto(again, last + 1) == said_upto(again, last) + said(
        again[last],
        crate::classify::section_follows(again, last),
    ));
    assert(said_upto(again, last) + Seq::<Content>::empty() =~= said_upto(again, last));
}

/// Formatting a formatted chart changes nothing: the lines that a chart was formatted
/// to, without the empty line at the end, are formatted to themselves and that line.
///
/// This holds of every chart but those in which formatting changes what counts for the
/// widths or which empty lines are left out: a section header that holds a colon must be
/// laid out as it stands, and no title or configuration line that holds the word
/// `section` may follow two empty lines.
pub proof fn formatting_twice_changes_nothing(lines: Seq<Seq<char>>)
    requires
        all_keep_widths(trimmed(lines)),
        empty_lines_stay(trimmed(lines)),
    ensures
        formatted(formatted(lines).drop_last()) == formatted(lines),
{
    let t = trimmed(lines);
    let n = t.len() as int;
    let w = widths_of(lines, task_tags());
    let out = rendered_upto(t, n, w);
    lemma_trimmed_lines(lines);
    lemma_task_lines_trimmed(lines);
    assert(widths_of(t, task_tags()) == w);
    assert(formatted(lines).drop_last() =~= out);
    lemma_widths_again(t, w);
    lemma_rendered_again(t, w, w, n);
    assert(trimmed(out).len() == out.len());
}

/// Formatting the text of a formatted chart changes nothing, for every text whose lines
/// are such a chart as `formatting_twice_changes_nothing` speaks of.
pub proof fn formatting_text_twice_changes_nothing(text: Seq<char>)
    requires
        all_keep_widths(trimmed(text_lines(text))),
        empty_lines_stay(trimmed(text_lines(text))),
    ensures
        formatted_text(formatted_text(text)) == formatted_text(text),
{
    let lines = text_lines(text);
    let t = trimmed(lines);
    let n = t.len() as int;
    let w = widths_of(lines, task_tags());
    let out = rendered_upto(t, n, w);
    lemma_trimmed_lines(lines);
    lemma_text_lines_lack_feed(text);
    assert forall|k: int| 0 <= k < t.len() implies !(#[trigger] t[k]).contains('\n') by {
        if t[k].contains('\n') {
            crate::text::lemma_has_trim(lines[k], '\n');
        }
    }
    lemma_rendered_lines(t, w, n);
    lemma_text_lines_of_joined(out);
    formatting_twice_changes_nothing(lines);
    assert(formatted(lines).drop_last() =~= out);
}

} // verus!
