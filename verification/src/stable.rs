//! What a line was laid out as reads back, line by line, as that line: the ground on
//! which formatting twice is formatting once.
use vstd::prelude::*;
use crate::classify::{
    is_keyword, is_title, keywords, kind_of, line_kind, section_follows, task_tags, LineKind,
};
use crate::format::{
    all_lines, is_line, laid_out, lemma_rendered_at, rendered, rendered_upto, trimmed,
};
use crate::meta::{is_token, lemma_select_members, lemma_tokens_lack, tags_of, tokens, udis_of};
use crate::render::{
    crit_cell, item_block, milestone_cell, pad, section_line, section_title, status_cell,
    tag_block, task_lead, task_line,
};
use crate::roundtrip::{
    lemma_pad_is, lemma_task_line_again, lemma_task_line_kind, lemma_task_line_parts,
    lemma_udis_are_tokens,
};
use crate::text::{
    contains, find_from, index_of, is_trimmed, lemma_find_from, lemma_find_from_stops,
    lemma_has_concat, lemma_has_part, lemma_has_trim, lemma_occurs_chars, lemma_scan_char_stops,
    lemma_trim_of_padded, lemma_trim_part, occurs_at, spaces, starts_with, trim,
};
use crate::widths::{
    entries, entry, is_measured, lemma_entries_concat, lemma_entries_push, task_body, task_lines,
    task_meta, task_title, widths_of, Column, Widths,
};
use crate::words::{is_key_word, lemma_keywords};

verus! {

/// A section header that was laid out, trimmed: the word `section`, and after a blank
/// the title if there is one.
pub proof fn lemma_section_line_trimmed(line: Seq<char>)
    ensures
        ({
            let title = section_title(line);
            trim(section_line(line)) == "section"@ + (if title.len() > 0 {
                spaces(1) + title
            } else {
                Seq::empty()
            })
        }),
        is_trimmed(section_title(line)),
{
    reveal_strlit("  section ");
    reveal_strlit("section");
    let title = section_title(line);
    let word = "section"@;
    let none = Seq::<char>::empty();
    let from = find_from(line, word, 0) + word.len();
    let _ = lemma_trim_part(line.subrange(from, line.len() as int));
    assert("  section "@ =~= spaces(2) + word + spaces(1));
    if title.len() > 0 {
        let core = word + spaces(1) + title;
        assert(is_trimmed(core)) by {
            assert(core[0] == word[0]);
            assert(core[core.len() - 1] == title[title.len() - 1]);
        }
        lemma_trim_of_padded(spaces(2), core, none);
        assert(section_line(line) =~= spaces(2) + core + none);
    } else {
        assert(is_trimmed(word)) by {
            assert(word[0] == 's');
            assert(word[6] == 'n');
        }
        lemma_trim_of_padded(spaces(2), word, spaces(1));
        assert(section_line(line) =~= spaces(2) + word + spaces(1));
    }
}

/// A section header that was laid out is, once trimmed, a section header with the same
/// title, whatever follows; and it holds a colon only if the header held one.
pub proof fn lemma_section_line_again(line: Seq<char>, after: bool)
    ensures
        ({
            let x = trim(section_line(line));
            &&& line_kind(x, after) == LineKind::Section
            &&& section_line(x) == section_line(line)
            &&& x.contains(':') ==> section_title(line).contains(':')
            &&& !starts_with(x, "%%"@)
        }),
{
    reveal_strlit("section");
    reveal_strlit("gantt");
    reveal_strlit("%%");
    let title = section_title(line);
    let word = "section"@;
    let none = Seq::<char>::empty();
    let x = trim(section_line(line));
    lemma_section_line_trimmed(line);
    let tail = if title.len() > 0 {
        spaces(1) + title
    } else {
        none
    };
    assert(x == word + tail);
    assert(forall|m: int| 0 <= m < 7 ==> x[m] == word[m]);
    assert(x.subrange(0, 7) =~= word);
    assert(occurs_at(x, word, 0));
    assert(contains(x, word));
    lemma_keywords();
    assert(!is_title(x)) by {
        if is_title(x) {
            lemma_occurs_chars(x, "gantt"@, 0);
            assert(x[0 + 0int] == "gantt"@[0]);
        }
    }
    assert(!is_keyword(x)) by {
        if is_keyword(x) {
            let k = choose|k: int|
                0 <= k < keywords().len() && starts_with(x, #[trigger] keywords()[k]);
            let kw = keywords()[k];
            assert(is_key_word(kw));
            lemma_occurs_chars(x, kw, 0);
            if kw.len() > 7 {
                assert(x[0 + 7int] == kw[7]);
                assert(x[7] == ' ');
                assert(crate::text::is_letter(kw[7]));
                assert(false);
            }
            assert(word.subrange(0, kw.len() as int) =~= kw) by {
                assert forall|m: int| 0 <= m < kw.len() implies word[m] == kw[m] by {
                    assert(x[0 + m] == kw[m]);
                }
            }
            assert(occurs_at(word, kw, 0));
            assert(false);
        }
    }
    assert(!starts_with(x, "%%"@)) by {
        if starts_with(x, "%%"@) {
            lemma_occurs_chars(x, "%%"@, 0);
            assert(x[0 + 0int] == "%%"@[0]);
        }
    }
    lemma_find_from(x, word, 0, 0);
    assert(x.subrange(7, x.len() as int) =~= tail);
    if title.len() > 0 {
        lemma_trim_of_padded(spaces(1), title, none);
        assert(spaces(1) + title + none =~= tail);
    } else {
        lemma_trim_of_padded(none, none, none);
        assert(none + none + none =~= tail);
    }
    assert(section_title(x) == title);
    if x.contains(':') {
        let i = choose|i: int| 0 <= i < x.len() && x[i] == ':';
        assert(i >= 8);
        assert(title[i - 8] == ':');
    }
}

/// A section header that was laid out has, read again, the title that it had.
pub proof fn lemma_section_title_again(line: Seq<char>)
    ensures
        section_title(trim(section_line(line))) == section_title(line),
{
    reveal_strlit("section");
    let title = section_title(line);
    let word = "section"@;
    let none = Seq::<char>::empty();
    let x = trim(section_line(line));
    lemma_section_line_trimmed(line);
    let tail = if title.len() > 0 {
        spaces(1) + title
    } else {
        none
    };
    assert(x.subrange(0, 7) =~= word);
    lemma_find_from(x, word, 0, 0);
    assert(x.subrange(7, x.len() as int) =~= tail);
    if title.len() > 0 {
        lemma_trim_of_padded(spaces(1), title, none);
        assert(spaces(1) + title + none =~= tail);
    } else {
        lemma_trim_of_padded(none, none, none);
        assert(none + none + none =~= tail);
    }
}

/// Trimming a trimmed text changes nothing.
pub proof fn lemma_trimmed_stays(s: Seq<char>)
    requires
        is_trimmed(s),
    ensures
        trim(s) == s,
{
    let none = Seq::<char>::empty();
    lemma_trim_of_padded(none, s, none);
    assert(none + s + none =~= s);
}

/// An empty line in front of a section header is left out; elsewhere it is kept.
pub proof fn lemma_empty_line(before_section: bool, w: Widths)
    ensures
        laid_out(Seq::empty(), before_section, w) == if before_section {
            Seq::<Seq<char>>::empty()
        } else {
            seq![Seq::<char>::empty()]
        },
        line_kind(Seq::empty(), before_section) == if before_section {
            LineKind::Skipped
        } else {
            LineKind::Blank
        },
        trim(Seq::empty()) == Seq::<char>::empty(),
        !contains(Seq::empty(), "section"@),
{
    reveal_strlit("gantt");
    reveal_strlit("%%");
    reveal_strlit("section");
    let none = Seq::<char>::empty();
    lemma_keywords();
    lemma_trimmed_stays(none);
    assert(!is_keyword(none)) by {
        if is_keyword(none) {
            let k = choose|k: int|
                0 <= k < keywords().len() && starts_with(none, #[trigger] keywords()[k]);
            assert(is_key_word(keywords()[k]));
        }
    }
    assert(!contains(none, "section"@)) by {
        if contains(none, "section"@) {
            let i = choose|i: int| occurs_at(none, "section"@, i);
        }
    }
}

/// What a trimmed line was laid out as reads back as that line. Of one line laid out,
/// the trimmed line is laid out again as the line is, for any widths; only an empty line
/// must not have come to stand before a section header. Of two lines laid out, the first
/// is empty, the second holds a section header and is laid out again as the line is.
/// And the first line laid out holds a section header only where the line is a title or
/// a configuration line that holds one.
pub proof fn lemma_laid_out_again(
    s: Seq<char>,
    before: bool,
    w: Widths,
    again: Widths,
    after: bool,
)
    requires
        is_trimmed(s),
    ensures
        ({
            let c = laid_out(s, before, w);
            let k = line_kind(s, before);
            &&& c.len() <= 2
            &&& c.len() == 0 <==> k == LineKind::Skipped
            &&& c.len() == 1 && (k != LineKind::Blank || !after) ==> laid_out(
                trim(c[0]),
                after,
                again,
            ) == laid_out(s, before, again)
            &&& c.len() == 2 ==> c[0].len() == 0 && contains(trim(c[1]), "section"@) && laid_out(
                trim(c[1]),
                after,
                again,
            ) == laid_out(s, before, again)
            &&& c.len() >= 1 && contains(trim(c[0]), "section"@) ==> (k == LineKind::Title || k
                == LineKind::Keyword) && contains(s, "section"@)
        }),
{
    reveal_strlit("  ");
    let none = Seq::<char>::empty();
    let k = line_kind(s, before);
    lemma_trimmed_stays(s);
    lemma_empty_line(after, again);
    match k {
        LineKind::Title => {},
        LineKind::Keyword => {
            assert("  "@ =~= spaces(2));
            lemma_trim_of_padded(spaces(2), s, none);
            assert(spaces(2) + s + none =~= "  "@ + s);
        },
        LineKind::CommentedSection => {},
        LineKind::Comment => {},
        LineKind::Skipped => {},
        LineKind::Section => {
            lemma_section_line_again(s, after);
        },
        LineKind::Task => {
            lemma_task_line_kind(s, w, before, after);
            lemma_task_line_again(s, w, again);
        },
        LineKind::Other => {},
        LineKind::Blank => {
            assert(s =~= none);
        },
    }
}

/// Every line is trimmed.
pub open spec fn all_trimmed(lines: Seq<Seq<char>>) -> bool {
    forall|i: int| 0 <= i < lines.len() ==> is_trimmed(#[trigger] lines[i])
}

/// No title or configuration line that holds a section header follows two empty lines.
/// Of such two lines the first is kept and the second left out, and formatted again the
/// first would be left out too.
pub open spec fn empty_lines_stay(lines: Seq<Seq<char>>) -> bool {
    forall|i: int|
        0 <= i && i + 2 < lines.len() && (#[trigger] lines[i]).len() == 0 && lines[i + 1].len()
            == 0 && contains(lines[i + 2], "section"@) ==> !is_title(lines[i + 2])
            && !is_keyword(lines[i + 2])
}

/// Trimmed lines are trimmed.
pub proof fn lemma_trimmed_lines(lines: Seq<Seq<char>>)
    ensures
        all_trimmed(trimmed(lines)),
        trimmed(lines).len() == lines.len(),
{
    assert forall|i: int| 0 <= i < lines.len() implies is_trimmed(
        #[trigger] trimmed(lines)[i],
    ) by {
        let _ = lemma_trim_part(lines[i]);
    }
}

/// In a formatted chart no section header stands in the line after an empty line that
/// was kept.
pub proof fn lemma_kept_empty_line(t: Seq<Seq<char>>, w: Widths, i: int)
    requires
        all_trimmed(t),
        empty_lines_stay(t),
        0 <= i < t.len(),
        kind_of(t, i) == LineKind::Blank,
    ensures
        !section_follows(
            trimmed(rendered_upto(t, t.len() as int, w)),
            rendered_upto(t, i, w).len() as int,
        ),
{
    reveal_strlit("section");
    let n = t.len() as int;
    let out = rendered_upto(t, n, w);
    let t2 = trimmed(out);
    let at = rendered_upto(t, i, w).len() as int;
    let word = "section"@;
    assert(rendered_upto(t, i + 1, w).len() == at + 1);
    if section_follows(t2, at) {
        assert(at + 1 < out.len());
        assert(t2[at + 1] == trim(out[at + 1]));
        if i + 1 >= n {
            assert(false);
        }
        let c1 = rendered(t, i + 1, w);
        lemma_laid_out_again(t[i + 1], section_follows(t, i + 1), w, w, false);
        if c1.len() >= 1 {
            lemma_rendered_at(t, i + 1, n, w, 0);
            assert(out[at + 1] == c1[0]);
            assert(contains(t[i + 1], word));
            assert(false);
        } else {
            assert(kind_of(t, i + 1) == LineKind::Skipped);
            assert(t[i + 1].len() == 0);
            assert(section_follows(t, i + 1));
            assert(rendered_upto(t, i + 2, w).len() == at + 1);
            let c2 = rendered(t, i + 2, w);
            lemma_laid_out_again(t[i + 2], section_follows(t, i + 2), w, w, false);
            let third = t[i + 2];
            assert(third.len() > 0) by {
                let j = choose|j: int| occurs_at(third, word, j);
            }
            assert(kind_of(t, i + 2) != LineKind::Skipped);
            lemma_rendered_at(t, i + 2, n, w, 0);
            assert(out[at + 1] == c2[0]);
            assert(t[i].len() == 0);
            assert(false);
        }
    }
}

/// The lines that the first lines of a chart were laid out as are laid out again, for
/// any widths, as those first lines are laid out for these widths.
pub proof fn lemma_rendered_again(t: Seq<Seq<char>>, w: Widths, again: Widths, i: int)
    requires
        all_trimmed(t),
        empty_lines_stay(t),
        0 <= i <= t.len(),
    ensures
        rendered_upto(
            trimmed(rendered_upto(t, t.len() as int, w)),
            rendered_upto(t, i, w).len() as int,
            again,
        ) == rendered_upto(t, i, again),
    decreases i,
{
    if i > 0 {
        let n = t.len() as int;
        let out = rendered_upto(t, n, w);
        let t2 = trimmed(out);
        let j = i - 1;
        lemma_rendered_again(t, w, again, j);
        let at = rendered_upto(t, j, w).len() as int;
        let c = rendered(t, j, w);
        let before = section_follows(t, j);
        let s = t[j];
        assert(rendered_upto(t, i, w) == rendered_upto(t, j, w) + c);
        assert(rendered_upto(t, i, again) == rendered_upto(t, j, again) + laid_out(
            s,
            before,
            again,
        ));
        let done = rendered_upto(t2, at, again);
        if c.len() == 0 {
            lemma_laid_out_again(s, before, w, again, false);
            lemma_laid_out_again(s, before, again, again, false);
        } else if c.len() == 1 {
            lemma_rendered_at(t, j, n, w, 0);
            assert(t2[at] == trim(c[0]));
            let after = section_follows(t2, at);
            if kind_of(t, j) == LineKind::Blank {
                lemma_kept_empty_line(t, w, j);
            }
            lemma_laid_out_again(s, before, w, again, after);
            assert(rendered_upto(t2, at + 1, again) == done + rendered(t2, at, again));
        } else {
            lemma_laid_out_again(s, before, w, again, false);
            lemma_rendered_at(t, j, n, w, 0);
            lemma_rendered_at(t, j, n, w, 1);
            assert(t2[at] == trim(c[0]));
            assert(t2[at + 1] == trim(c[1]));
            let after = section_follows(t2, at + 1);
            lemma_laid_out_again(s, before, w, again, after);
            lemma_empty_line(true, again);
            assert(c[0] =~= Seq::<char>::empty());
            assert(section_follows(t2, at));
            assert(rendered(t2, at, again) == Seq::<Seq<char>>::empty());
            assert(rendered_upto(t2, at + 1, again) == done + rendered(t2, at, again));
            assert(rendered_upto(t2, at + 2, again) == rendered_upto(t2, at + 1, again)
                + rendered(t2, at + 1, again));
            assert(done + Seq::<Seq<char>>::empty() =~= done);
        }
    }
}

/// Laying the line out does not change what counts for the widths: if it is a section
/// header that holds a colon, it is, once laid out and trimmed, the line itself. Every
/// other line counts the same before and after.
pub open spec fn keeps_widths(line: Seq<char>, before_section: bool) -> bool {
    line_kind(line, before_section) == LineKind::Section && line.contains(':') ==> trim(
        section_line(line),
    ) == line
}

/// Every line of the trimmed chart is laid out without a change to what counts for the
/// widths.
pub open spec fn all_keep_widths(lines: Seq<Seq<char>>) -> bool {
    forall|i: int|
        0 <= i < lines.len() ==> keeps_widths(#[trigger] lines[i], section_follows(lines, i))
}

/// Every task line counts for the widths.
pub proof fn lemma_task_is_measured(line: Seq<char>, before_section: bool)
    requires
        line_kind(line, before_section) == LineKind::Task,
    ensures
        is_measured(line),
{
}

/// What a chart of one line adds to a column.
pub proof fn lemma_entries_one(y: Seq<char>, col: Column)
    ensures
        entries(seq![y], task_tags(), col) == entry(trim(y), task_tags(), col),
        entries(Seq::empty(), task_tags(), col) == Seq::<Seq<char>>::empty(),
{
    let none = Seq::<Seq<char>>::empty();
    lemma_entries_push(none, y, task_tags(), col);
    assert(none.push(y) =~= seq![y]);
    assert(none + entry(trim(y), task_tags(), col) =~= entry(trim(y), task_tags(), col));
}

/// What a line was laid out as adds to a column what the line adds.
pub proof fn lemma_laid_out_entries(s: Seq<char>, before: bool, w: Widths, col: Column)
    requires
        is_trimmed(s),
        keeps_widths(s, before),
    ensures
        entries(laid_out(s, before, w), task_tags(), col) == entry(s, task_tags(), col),
{
    reveal_strlit("  ");
    let vocab = task_tags();
    let none = Seq::<char>::empty();
    let nothing = Seq::<Seq<char>>::empty();
    let c = laid_out(s, before, w);
    lemma_trimmed_stays(s);
    lemma_trimmed_stays(none);
    lemma_empty_line(false, w);
    assert(entry(none, vocab, col) =~= nothing);
    if c.len() == 2 {
        lemma_entries_one(c[0], col);
        lemma_entries_push(seq![c[0]], c[1], vocab, col);
        assert(seq![c[0]].push(c[1]) =~= c);
        assert(nothing + entry(trim(c[1]), vocab, col) =~= entry(trim(c[1]), vocab, col));
    } else if c.len() == 1 {
        lemma_entries_one(c[0], col);
        assert(seq![c[0]] =~= c);
    } else {
        lemma_entries_one(none, col);
        assert(c =~= nothing);
    }
    match line_kind(s, before) {
        LineKind::Keyword => {
            assert("  "@ =~= spaces(2));
            lemma_trim_of_padded(spaces(2), s, none);
            assert(spaces(2) + s + none =~= "  "@ + s);
        },
        LineKind::Section => {
            lemma_section_line_again(s, false);
            let word = "section"@;
            let from = find_from(s, word, 0) + word.len();
            lemma_find_from_stops(s, word, 0);
            let tail = s.subrange(from, s.len() as int);
            let (lo, hi) = lemma_trim_part(tail);
            let title = section_title(s);
            if !s.contains(':') && title.contains(':') {
                let i = choose|i: int| 0 <= i < title.len() && title[i] == ':';
                assert(title[i] == tail[lo + i]);
                assert(tail[lo + i] == s[from + lo + i]);
                assert(false);
            }
        },
        LineKind::Task => {
            lemma_task_line_kind(s, w, before, false);
            lemma_task_is_measured(s, before);
            lemma_task_is_measured(trim(task_line(s, w, task_tags())), false);
            lemma_task_line_again(s, w, w);
        },
        LineKind::Skipped => {
            assert(s =~= none);
        },
        _ => {},
    }
}

/// Whether lines are trimmed before or not, the same count for the widths.
pub proof fn lemma_task_lines_trimmed(lines: Seq<Seq<char>>)
    ensures
        task_lines(trimmed(lines)) == task_lines(lines),
    decreases lines.len(),
{
    if lines.len() > 0 {
        lemma_task_lines_trimmed(lines.drop_last());
        assert(trimmed(lines).drop_last() =~= trimmed(lines.drop_last()));
        crate::text::lemma_trim_again(lines.last());
    } else {
        assert(trimmed(lines) =~= lines);
    }
}

/// What the first lines of a chart were laid out as add to a column what those lines
/// add.
pub proof fn lemma_rendered_entries(t: Seq<Seq<char>>, w: Widths, col: Column, i: int)
    requires
        all_trimmed(t),
        all_keep_widths(t),
        0 <= i <= t.len(),
    ensures
        entries(rendered_upto(t, i, w), task_tags(), col) == entries(t.take(i), task_tags(), col),
    decreases i,
{
    let vocab = task_tags();
    if i > 0 {
        let j = i - 1;
        lemma_rendered_entries(t, w, col, j);
        let s = t[j];
        lemma_laid_out_entries(s, section_follows(t, j), w, col);
        lemma_entries_concat(rendered_upto(t, j, w), rendered(t, j, w), vocab, col);
        lemma_entries_push(t.take(j), s, vocab, col);
        assert(t.take(j).push(s) =~= t.take(i));
        lemma_trimmed_stays(s);
    } else {
        assert(t.take(0) =~= Seq::<Seq<char>>::empty());
    }
}

/// A chart whose lines all keep what counts for the widths has, once formatted, the
/// widths that it had.
pub proof fn lemma_widths_again(t: Seq<Seq<char>>, w: Widths)
    requires
        all_trimmed(t),
        all_keep_widths(t),
    ensures
        widths_of(rendered_upto(t, t.len() as int, w), task_tags()) == widths_of(t, task_tags()),
{
    let n = t.len() as int;
    assert(t.take(n) =~= t);
    lemma_rendered_entries(t, w, Column::Title, n);
    lemma_rendered_entries(t, w, Column::Id, n);
    lemma_rendered_entries(t, w, Column::Start, n);
    lemma_rendered_entries(t, w, Column::End, n);
}

/// A padded token holds a line feed only if the token holds one, and does not end with
/// a carriage return.
pub proof fn lemma_pad_is_line(t: Seq<char>, width: nat)
    requires
        is_token(t),
        !t.contains('\n'),
    ensures
        is_line(pad(t, width)),
        pad(t, width).len() > 0,
{
    let k = lemma_pad_is(t, width);
    lemma_has_concat(t, spaces(k), '\n');
    let p = pad(t, width);
    if k > 0 {
        assert(p.last() == ' ');
    } else {
        assert(p.last() == t[t.len() - 1]);
    }
}

/// An item block whose items hold no line feed holds none, and does not end with a
/// carriage return.
pub proof fn lemma_item_block_is_line(udis: Seq<Seq<char>>, w: Widths)
    requires
        forall|k: int| 0 <= k < udis.len() ==> is_token(#[trigger] udis[k]) && !udis[k].contains(
            '\n',
        ),
    ensures
        is_line(item_block(udis, w)),
{
    reveal_strlit("   ");
    reveal_strlit(",  ");
    let gap = "   "@;
    let comma = ",  "@;
    let feed = '\n';
    if udis.len() == 3 {
        let a = pad(udis[0], w.id);
        let b = pad(udis[1], w.start);
        let c = pad(udis[2], w.end);
        lemma_pad_is_line(udis[0], w.id);
        lemma_pad_is_line(udis[1], w.start);
        lemma_pad_is_line(udis[2], w.end);
        lemma_has_concat(a, comma, feed);
        lemma_has_concat(a + comma, b, feed);
        lemma_has_concat(a + comma + b, comma, feed);
        lemma_has_concat(a + comma + b + comma, c, feed);
        assert(item_block(udis, w).last() == c.last());
    } else if udis.len() == 2 {
        let b = pad(udis[0], w.start);
        let c = pad(udis[1], w.end);
        lemma_pad_is_line(udis[0], w.start);
        lemma_pad_is_line(udis[1], w.end);
        lemma_has_concat(spaces(w.id), gap, feed);
        lemma_has_concat(spaces(w.id) + gap, b, feed);
        lemma_has_concat(spaces(w.id) + gap + b, comma, feed);
        lemma_has_concat(spaces(w.id) + gap + b + comma, c, feed);
        assert(item_block(udis, w).last() == c.last());
    } else if udis.len() == 1 {
        let c = pad(udis[0], w.end);
        lemma_pad_is_line(udis[0], w.end);
        lemma_has_concat(spaces(w.id), gap, feed);
        lemma_has_concat(spaces(w.id) + gap, spaces(w.start), feed);
        lemma_has_concat(spaces(w.id) + gap + spaces(w.start), gap, feed);
        lemma_has_concat(spaces(w.id) + gap + spaces(w.start) + gap, c, feed);
        assert(item_block(udis, w).last() == c.last());
    }
}

/// A tag block holds no line feed and ends with a blank.
pub proof fn lemma_tag_block_is_line(tags: Seq<Seq<char>>)
    ensures
        !tag_block(tags).contains('\n'),
        tag_block(tags).len() == 28,
        tag_block(tags).last() == ' ',
{
    reveal_strlit("active,  ");
    reveal_strlit("done  ,  ");
    reveal_strlit("crit,  ");
    reveal_strlit("milestone,  ");
    let feed = '\n';
    let a = status_cell(tags);
    let b = crit_cell(tags);
    let c = milestone_cell(tags);
    assert(!a.contains(feed));
    assert(!b.contains(feed));
    assert(!c.contains(feed) && c.len() == 12 && c[11] == ' ');
    lemma_has_concat(a, b, feed);
    lemma_has_concat(a + b, c, feed);
    assert(tag_block(tags).last() == c[11]);
}

/// A task line without a line feed is laid out as a line of a text.
pub proof fn lemma_task_line_is_line(line: Seq<char>, w: Widths)
    requires
        !line.contains('\n'),
    ensures
        is_line(task_line(line, w, task_tags())),
{
    reveal_strlit("%%  ");
    reveal_strlit("    ");
    reveal_strlit("%%");
    let feed = '\n';
    let vocab = task_tags();
    let out = task_line(line, w, vocab);
    let title = task_title(line);
    let meta = task_meta(line);
    let tags = tags_of(meta, vocab);
    let udis = udis_of(meta, vocab);
    let (k, at) = lemma_task_line_parts(line, w);
    let body = task_body(line);
    assert(!body.contains(feed)) by {
        if body.contains(feed) {
            if starts_with(line, "%%"@) {
                lemma_has_part(line, 2, line.len() as int, feed);
            }
        }
    }
    let i = index_of(body, ':');
    lemma_scan_char_stops(body, ':', 0);
    assert(!title.contains(feed)) by {
        if title.contains(feed) {
            lemma_has_trim(body.subrange(0, i), feed);
            lemma_has_part(body, 0, i, feed);
        }
    }
    assert(!meta.contains(feed)) by {
        if meta.contains(feed) {
            lemma_has_part(body, i + 1, body.len() as int, feed);
        }
    }
    lemma_tokens_lack(meta, feed);
    lemma_udis_are_tokens(meta, vocab);
    lemma_select_members(tokens(meta), vocab, false);
    assert forall|j: int| 0 <= j < udis.len() implies is_token(#[trigger] udis[j])
        && !udis[j].contains(feed) by {
        assert(udis.contains(udis[j]));
        let m = choose|m: int| 0 <= m < tokens(meta).len() && tokens(meta)[m] == udis[j];
    }
    lemma_tag_block_is_line(tags);
    lemma_item_block_is_line(udis, w);
    let lead = task_lead(line);
    let tb = tag_block(tags);
    let ib = item_block(udis, w);
    let head = lead + title + spaces(k + 2) + seq![':'] + spaces(1);
    assert(!lead.contains(feed));
    lemma_has_concat(lead, title, feed);
    lemma_has_concat(lead + title, spaces(k + 2), feed);
    lemma_has_concat(lead + title + spaces(k + 2), seq![':'], feed);
    lemma_has_concat(lead + title + spaces(k + 2) + seq![':'], spaces(1), feed);
    lemma_has_concat(head, tb, feed);
    lemma_has_concat(head + tb, ib, feed);
    assert(out =~= head + tb + ib);
    if ib.len() > 0 {
        assert(out.last() == ib.last());
    } else {
        assert(out.last() == tb.last());
    }
}

/// A trimmed line without a line feed is laid out as lines of a text.
pub proof fn lemma_laid_out_lines(s: Seq<char>, before: bool, w: Widths)
    requires
        is_trimmed(s),
        !s.contains('\n'),
    ensures
        all_lines(laid_out(s, before, w)),
{
    reveal_strlit("  ");
    reveal_strlit("  section ");
    let feed = '\n';
    let none = Seq::<char>::empty();
    let c = laid_out(s, before, w);
    assert(is_line(none));
    assert(is_line(s));
    match line_kind(s, before) {
        LineKind::Keyword => {
            lemma_has_concat("  "@, s, feed);
            if s.len() > 0 {
                assert(("  "@ + s).last() == s.last());
            }
        },
        LineKind::Section => {
            let word = "section"@;
            let from = find_from(s, word, 0) + word.len();
            lemma_find_from_stops(s, word, 0);
            let title = section_title(s);
            let _ = lemma_trim_part(s.subrange(from, s.len() as int));
            if title.contains(feed) {
                lemma_has_trim(s.subrange(from, s.len() as int), feed);
                lemma_has_part(s, from, s.len() as int, feed);
            }
            lemma_has_concat("  section "@, title, feed);
            if title.len() > 0 {
                assert(section_line(s).last() == title.last());
            } else {
                assert(section_line(s) =~= "  section "@);
            }
        },
        LineKind::Task => {
            lemma_task_line_is_line(s, w);
        },
        _ => {},
    }
}

/// A chart of trimmed lines without line feeds is laid out as lines of a text.
pub proof fn lemma_rendered_lines(t: Seq<Seq<char>>, w: Widths, i: int)
    requires
        all_trimmed(t),
        forall|k: int| 0 <= k < t.len() ==> !(#[trigger] t[k]).contains('\n'),
        0 <= i <= t.len(),
    ensures
        all_lines(rendered_upto(t, i, w)),
    decreases i,
{
    if i > 0 {
        lemma_rendered_lines(t, w, i - 1);
        lemma_laid_out_lines(t[i - 1], section_follows(t, i - 1), w);
        let a = rendered_upto(t, i - 1, w);
        let b = rendered(t, i - 1, w);
        assert forall|k: int| 0 <= k < (a + b).len() implies is_line(#[trigger] (a + b)[k]) by {
            if k < a.len() {
                assert((a + b)[k] == a[k]);
            } else {
                assert((a + b)[k] == b[k - a.len()]);
            }
        }
    }
}

} // verus!
