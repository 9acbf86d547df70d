//! A whole chart: every line laid out in turn, and the text put together again.
use vstd::prelude::*;
use vstd::string::*;
use crate::classify::{classify_line, line_kind, section_follows, task_tags, TASK_TAGS, LineKind};
use crate::render::{push_section_line, push_task_line, section_line, task_line};
use crate::text::{chars_of, find_char, index_of, trim, trim_str};
use crate::widths::{get_max_item_lengths, widths_of, Widths};

verus! {

/// Every line of `lines`, trimmed.
pub open spec fn trimmed(lines: Seq<Seq<char>>) -> Seq<Seq<char>> {
    Seq::new(lines.len(), |i: int| trim(lines[i]))
}

/// What a trimmed line becomes, given whether a section header stands in the line after
/// it: no line, one line, or an empty line and one line.
pub open spec fn laid_out(line: Seq<char>, before_section: bool, w: Widths) -> Seq<Seq<char>> {
    match line_kind(line, before_section) {
        LineKind::Title => seq![line],
        LineKind::Keyword => seq!["  "@ + line],
        LineKind::CommentedSection => seq![Seq::empty(), line],
        LineKind::Comment => seq![line],
        LineKind::Skipped => Seq::empty(),
        LineKind::Section => seq![Seq::empty(), section_line(line)],
        LineKind::Task => seq![task_line(line, w, task_tags())],
        LineKind::Other => seq![line],
        LineKind::Blank => seq![Seq::empty()],
    }
}

/// What line `idx` of the trimmed `lines` becomes.
pub open spec fn rendered(lines: Seq<Seq<char>>, idx: int, w: Widths) -> Seq<Seq<char>>
    recommends
        0 <= idx < lines.len(),
{
    laid_out(lines[idx], section_follows(lines, idx), w)
}

/// What the first `n` of the trimmed `lines` become, in order.
pub open spec fn rendered_upto(lines: Seq<Seq<char>>, n: int, w: Widths) -> Seq<Seq<char>>
    decreases n,
{
    if n <= 0 {
        Seq::empty()
    } else {
        rendered_upto(lines, n - 1, w) + rendered(lines, n - 1, w)
    }
}

/// The chart `lines`, formatted: every line laid out with the widths of the whole chart,
/// and one empty line at the end.
pub open spec fn formatted(lines: Seq<Seq<char>>) -> Seq<Seq<char>> {
    let t = trimmed(lines);
    rendered_upto(t, t.len() as int, widths_of(lines, task_tags())).push(Seq::empty())
}

/// `s` without one carriage return at its end.
pub open spec fn strip_cr(s: Seq<char>) -> Seq<char> {
    if s.len() > 0 && s.last() == '\r' {
        s.drop_last()
    } else {
        s
    }
}

/// The lines of a text. A line ends at a line feed, or at a carriage return followed by
/// a line feed; what follows the last line feed is a line if it is not empty.
pub open spec fn text_lines(s: Seq<char>) -> Seq<Seq<char>>
    decreases s.len(),
{
    if s.len() == 0 {
        Seq::empty()
    } else {
        let i = index_of(s, '\n');
        if 0 <= i < s.len() {
            seq![strip_cr(s.subrange(0, i))] + text_lines(s.subrange(i + 1, s.len() as int))
        } else {
            seq![s]
        }
    }
}

/// The lines, with a line feed between each two.
pub open spec fn joined(lines: Seq<Seq<char>>) -> Seq<char>
    decreases lines.len(),
{
    if lines.len() == 0 {
        Seq::empty()
    } else if lines.len() == 1 {
        lines[0]
    } else {
        joined(lines.drop_last()) + seq!['\n'] + lines.last()
    }
}

/// A chart's text, formatted.
pub open spec fn formatted_text(s: Seq<char>) -> Seq<char> {
    joined(formatted(text_lines(s)))
}

/// What the first lines of a chart become is the beginning of what more of them become.
pub proof fn lemma_rendered_upto_grows(lines: Seq<Seq<char>>, a: int, b: int, w: Widths)
    requires
        0 <= a <= b,
    ensures
        rendered_upto(lines, a, w).len() <= rendered_upto(lines, b, w).len(),
        rendered_upto(lines, b, w).subrange(0, rendered_upto(lines, a, w).len() as int)
            == rendered_upto(lines, a, w),
    decreases b - a,
{
    if a < b {
        lemma_rendered_upto_grows(lines, a, b - 1, w);
        let n = rendered_upto(lines, a, w).len() as int;
        assert(rendered_upto(lines, b, w).subrange(0, n) =~= rendered_upto(
            lines,
            b - 1,
            w,
        ).subrange(0, n));
    } else {
        assert(rendered_upto(lines, b, w).subrange(0, rendered_upto(lines, a, w).len() as int)
            =~= rendered_upto(lines, a, w));
    }
}

/// Where what a line becomes stands in what the chart becomes.
pub proof fn lemma_rendered_at(lines: Seq<Seq<char>>, idx: int, n: int, w: Widths, m: int)
    requires
        0 <= idx < n,
        0 <= m < rendered(lines, idx, w).len(),
    ensures
        rendered_upto(lines, idx, w).len() + m < rendered_upto(lines, n, w).len(),
        rendered_upto(lines, n, w)[rendered_upto(lines, idx, w).len() + m] == rendered(
            lines,
            idx,
            w,
        )[m],
{
    let at = rendered_upto(lines, idx, w).len() as int;
    let next = rendered_upto(lines, idx + 1, w);
    lemma_rendered_upto_grows(lines, idx + 1, n, w);
    assert(rendered_upto(lines, n, w).subrange(0, next.len() as int)[at + m] == next[at + m]);
}

/// A text that can be a line of a text: it holds no line feed and does not end with a
/// carriage return.
pub open spec fn is_line(s: Seq<char>) -> bool {
    !s.contains('\n') && (s.len() == 0 || s.last() != '\r')
}

/// All of `lines` can be lines of a text.
pub open spec fn all_lines(lines: Seq<Seq<char>>) -> bool {
    forall|i: int| 0 <= i < lines.len() ==> is_line(#[trigger] lines[i])
}

/// No line of a text holds a line feed.
pub proof fn lemma_text_lines_lack_feed(s: Seq<char>)
    ensures
        forall|k: int| 0 <= k < text_lines(s).len() ==> !(#[trigger] text_lines(s)[k]).contains(
            '\n',
        ),
    decreases s.len(),
{
    if s.len() > 0 {
        let i = index_of(s, '\n');
        crate::text::lemma_scan_char_stops(s, '\n', 0);
        if i < s.len() {
            let head = s.subrange(0, i);
            let rest = s.subrange(i + 1, s.len() as int);
            lemma_text_lines_lack_feed(rest);
            let first = strip_cr(head);
            assert(!first.contains('\n')) by {
                if first.contains('\n') {
                    let m = choose|m: int| 0 <= m < first.len() && first[m] == '\n';
                    assert(first[m] == s[m]);
                }
            }
            assert forall|k: int| 0 <= k < text_lines(s).len() implies !(
            #[trigger] text_lines(s)[k]).contains('\n') by {
                if k > 0 {
                    assert(text_lines(s)[k] == text_lines(rest)[k - 1]);
                }
            }
        } else {
            assert(text_lines(s) =~= seq![s]);
        }
    }
}

/// Lines joined begin with the first line, a line feed, and the other lines joined.
pub proof fn lemma_joined_first(first: Seq<char>, rest: Seq<Seq<char>>)
    requires
        rest.len() > 0,
    ensures
        joined(seq![first] + rest) == first + seq!['\n'] + joined(rest),
    decreases rest.len(),
{
    let all = seq![first] + rest;
    assert(all.drop_last() =~= seq![first] + rest.drop_last());
    assert(all.last() == rest.last());
    if rest.len() == 1 {
        assert(all.drop_last() =~= seq![first]);
        assert(joined(all.drop_last()) == first);
        assert(joined(rest) == rest[0]);
    } else {
        lemma_joined_first(first, rest.drop_last());
        assert(first + seq!['\n'] + joined(rest.drop_last()) + seq!['\n'] + rest.last() =~= first
            + seq!['\n'] + (joined(rest.drop_last()) + seq!['\n'] + rest.last()));
    }
}

/// The lines of the text that lines are joined to, with an empty line after them, are
/// those lines.
pub proof fn lemma_text_lines_of_joined(lines: Seq<Seq<char>>)
    requires
        all_lines(lines),
    ensures
        text_lines(joined(lines.push(Seq::empty()))) == lines,
    decreases lines.len(),
{
    let none = Seq::<char>::empty();
    if lines.len() == 0 {
        assert(lines.push(none)[0] == none);
        assert(lines =~= Seq::<Seq<char>>::empty());
    } else {
        let first = lines[0];
        let rest = lines.subrange(1, lines.len() as int);
        assert(lines.push(none) =~= seq![first] + rest.push(none));
        lemma_joined_first(first, rest.push(none));
        lemma_text_lines_of_joined(rest);
        let tail = joined(rest.push(none));
        let text = first + seq!['\n'] + tail;
        assert forall|m: int| 0 <= m < first.len() implies #[trigger] text[m] != '\n' by {
            assert(text[m] == first[m]);
        }
        crate::text::lemma_scan_char(text, '\n', 0, first.len() as int);
        assert(text.subrange(0, first.len() as int) =~= first);
        assert(text.subrange(first.len() as int + 1, text.len() as int) =~= tail);
        assert(lines =~= seq![first] + rest);
    }
}

/// Formats the chart `lines`: trims every line, lays each out by its kind with the column
/// widths of the whole chart, and ends with one empty line.
pub fn generate_new_lines(lines: &Vec<&str>) -> (r: Vec<String>)
    ensures
        r.deep_view() == formatted(lines.deep_view()),
        r.len() >= 1,
        r[r.len() - 1]@.len() == 0,
{
    let mut new_lines: Vec<String> = Vec::new();
    let widths = get_max_item_lengths(TASK_TAGS, lines);
    let ghost w = widths@;
    let n = lines.len();
    let mut map_lines: Vec<&str> = Vec::new();
    let mut k: usize = 0;
    while k < n
        invariant
            n == lines.len(),
            k <= n,
            map_lines.len() == k,
            forall|j: int| 0 <= j < k ==> (#[trigger] map_lines[j])@ == trim(lines[j]@),
        decreases n - k,
    {
        map_lines.push(trim_str(lines[k]));
        k += 1;
    }
    let ghost t = map_lines.deep_view();
    assert(t =~= trimmed(lines.deep_view()));
    let mut idx: usize = 0;
    assert(new_lines.deep_view() =~= rendered_upto(t, 0, w));
    while idx < n
        invariant
            n == map_lines.len(),
            idx <= n,
            t == map_lines.deep_view(),
            w == widths@,
            new_lines.deep_view() == rendered_upto(t, idx as int, w),
        decreases n - idx,
    {
        let line = map_lines[idx];
        let ghost before = new_lines.deep_view();
        assert(t[idx as int] == line@);
        match classify_line(&map_lines, idx) {
            LineKind::Title | LineKind::Comment | LineKind::Other => {
                new_lines.push(String::from_str(line));
                assert(new_lines.deep_view() =~= before + seq![line@]);
            },
            LineKind::Keyword => {
                new_lines.push(String::from_str("  ").concat(line));
                assert(new_lines.deep_view() =~= before + seq!["  "@ + line@]);
            },
            LineKind::CommentedSection => {
                new_lines.push(String::new());
                new_lines.push(String::from_str(line));
                assert(new_lines.deep_view() =~= before + seq![Seq::empty(), line@]);
            },
            LineKind::Skipped => {
                assert(new_lines.deep_view() =~= before + Seq::<Seq<char>>::empty());
            },
            LineKind::Section => {
                new_lines = push_section_line(line, new_lines);
                assert(new_lines.deep_view() =~= before + seq![
                    Seq::empty(),
                    section_line(line@),
                ]);
            },
            LineKind::Task => {
                new_lines = push_task_line(line, &widths, new_lines);
                assert(new_lines.deep_view() =~= before + seq![task_line(line@, w, task_tags())]);
            },
            LineKind::Blank => {
                new_lines.push(String::new());
                assert(new_lines.deep_view() =~= before + seq![Seq::<char>::empty()]);
            },
        }
        idx += 1;
    }
    let ghost body = new_lines.deep_view();
    new_lines.push(String::new());
    assert(new_lines.deep_view() =~= body.push(Seq::empty()));
    assert(new_lines[new_lines.len() - 1]@ =~= Seq::<char>::empty());
    new_lines
}

/// The lines of `text`.
pub fn split_lines<'a>(text: &'a str) -> (r: Vec<&'a str>)
    ensures
        r.deep_view() == text_lines(text@),
{
    let cs = chars_of(text);
    let n = cs.len();
    let mut lines: Vec<&'a str> = Vec::new();
    let mut i: usize = 0;
    proof {
        assert(cs@.subrange(0, n as int) =~= cs@);
        assert(lines.deep_view() + text_lines(cs@) =~= text_lines(cs@));
    }
    while i < n
        invariant
            n == cs.len(),
            cs@ == text@,
            i <= n,
            lines.deep_view() + text_lines(cs@.subrange(i as int, n as int)) == text_lines(cs@),
        decreases n - i,
    {
        let j = find_char(&cs, '\n', i, n);
        let ghost rest = cs@.subrange(i as int, n as int);
        let ghost before = lines.deep_view();
        if j < n {
            let end: usize = if j > i && cs[j - 1] == '\r' {
                j - 1
            } else {
                j
            };
            let piece = text.substring_char(i, end);
            lines.push(piece);
            proof {
                let head = rest.subrange(0, j - i);
                assert(head =~= cs@.subrange(i as int, j as int));
                assert(piece@ =~= strip_cr(head));
                assert(rest.subrange(j - i + 1, rest.len() as int) =~= cs@.subrange(
                    j + 1,
                    n as int,
                ));
                let tail = text_lines(cs@.subrange(j + 1, n as int));
                assert(lines.deep_view() =~= before.push(piece@));
                assert(before.push(piece@) + tail =~= before + (seq![piece@] + tail));
            }
            i = j + 1;
        } else {
            let piece = text.substring_char(i, n);
            lines.push(piece);
            proof {
                assert(lines.deep_view() =~= before.push(piece@));
                assert(cs@.subrange(n as int, n as int) =~= Seq::<char>::empty());
                assert(before.push(piece@) + Seq::<Seq<char>>::empty() =~= before + seq![rest]);
            }
            i = n;
        }
    }
    proof {
        assert(cs@.subrange(n as int, n as int) =~= Seq::<char>::empty());
        assert(lines.deep_view() + Seq::<Seq<char>>::empty() =~= lines.deep_view());
    }
    lines
}

/// The lines, with a line feed between each two.
pub fn join_lines(lines: &Vec<String>) -> (r: String)
    ensures
        r@ == joined(lines.deep_view()),
{
    let mut text = String::new();
    let ghost all = lines.deep_view();
    let mut k: usize = 0;
    assert(all.take(0) =~= Seq::<Seq<char>>::empty());
    while k < lines.len()
        invariant
            all == lines.deep_view(),
            k <= lines.len(),
            text@ == joined(all.take(k as int)),
        decreases lines.len() - k,
    {
        proof {
            reveal_strlit("\n");
            assert(all.take(k + 1).drop_last() =~= all.take(k as int));
            assert(all.take(k + 1).last() == lines[k as int]@);
            assert("\n"@ =~= seq!['\n']);
            if k == 0 {
                assert(text@ + lines[0]@ =~= lines[0]@);
            }
        }
        if k > 0 {
            text.append("\n");
        }
        text.append(lines[k].as_str());
        k += 1;
    }
    assert(all.take(k as int) =~= all);
    text
}

/// Formats the text of a chart: its lines are formatted as `generate_new_lines` does and
/// put together again, so that the result ends with a line feed unless the text is empty.
pub fn format_document(text: &str) -> (r: String)
    ensures
        r@ == formatted_text(text@),
{
    let lines = split_lines(text);
    let new_lines = generate_new_lines(&lines);
    join_lines(&new_lines)
}

} // verus!
