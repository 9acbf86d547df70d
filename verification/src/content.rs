//! What a chart says, apart from white space and empty lines.
use vstd::prelude::*;
use crate::classify::{line_kind, section_follows, task_tags, LineKind};
use crate::format::{laid_out, lemma_rendered_at, rendered, rendered_upto};
use crate::meta::{lemma_select_members, tags_of, tokens, udis_of};
use crate::render::{section_title, task_line};
use crate::roundtrip::{
    lemma_shown_tags, lemma_task_line_kind, lemma_task_line_meta, lemma_task_line_reads_back,
    shown_udis,
};
use crate::stable::{
    all_trimmed, lemma_empty_line, lemma_section_line_again, lemma_section_title_again,
    lemma_trimmed_stays,
};
use crate::text::{is_trimmed, lemma_trim_of_padded, spaces, starts_with, trim};
use crate::widths::{task_meta, task_title, Widths};

verus! {

/// What one line says.
pub enum Content {
    /// The line that opens the chart.
    Title(Seq<char>),
    /// A configuration line.
    Keyword(Seq<char>),
    /// A comment that holds a section header.
    CommentedSection(Seq<char>),
    /// A comment.
    Comment(Seq<char>),
    /// A section header, by its title.
    Section(Seq<char>),
    /// A task: whether it is a comment, its title, its status tags and its items in order.
    Task { commented: bool, title: Seq<char>, tags: Set<Seq<char>>, items: Seq<Seq<char>> },
    /// Any other text.
    Other(Seq<char>),
}

/// What a trimmed line says: nothing if it is empty, else one thing by its kind.
pub open spec fn said(line: Seq<char>, before_section: bool) -> Seq<Content> {
    match line_kind(line, before_section) {
        LineKind::Title => seq![Content::Title(line)],
        LineKind::Keyword => seq![Content::Keyword(line)],
        LineKind::CommentedSection => seq![Content::CommentedSection(line)],
        LineKind::Comment => seq![Content::Comment(line)],
        LineKind::Skipped => Seq::empty(),
        LineKind::Section => seq![Content::Section(section_title(line))],
        LineKind::Task => seq![
            Content::Task {
                commented: starts_with(line, "%%"@),
                title: task_title(line),
                tags: tags_of(task_meta(line), task_tags()).to_set(),
                items: udis_of(task_meta(line), task_tags()),
            },
        ],
        LineKind::Other => seq![Content::Other(line)],
        LineKind::Blank => Seq::empty(),
    }
}

/// What the first `n` of the trimmed `lines` say, in order.
pub open spec fn said_upto(lines: Seq<Seq<char>>, n: int) -> Seq<Content>
    decreases n,
{
    if n <= 0 {
        Seq::empty()
    } else {
        said_upto(lines, n - 1) + said(lines[n - 1], section_follows(lines, n - 1))
    }
}

/// What a chart says: what its lines say once they are trimmed, in order.
pub open spec fn contents(lines: Seq<Seq<char>>) -> Seq<Content> {
    said_upto(crate::format::trimmed(lines), lines.len() as int)
}

/// A task line shows all that it says: it has at most three items, and not both `active`
/// and `done`.
pub open spec fn shows_all(line: Seq<char>) -> bool {
    let tags = tags_of(task_meta(line), task_tags());
    udis_of(task_meta(line), task_tags()).len() <= 3 && !(tags.contains("active"@)
        && tags.contains("done"@))
}

/// Every task line of the trimmed chart shows all that it says.
pub open spec fn all_shown(lines: Seq<Seq<char>>) -> bool {
    forall|i: int|
        0 <= i < lines.len() && line_kind(#[trigger] lines[i], section_follows(lines, i))
            == LineKind::Task ==> shows_all(lines[i])
}

/// A task line that shows all that it says says, once laid out and trimmed, what it said.
pub proof fn lemma_task_says_the_same(line: Seq<char>, w: Widths, before: bool, after: bool)
    requires
        is_trimmed(line),
        line_kind(line, before) == LineKind::Task,
        shows_all(line),
    ensures
        said(trim(task_line(line, w, task_tags())), after) == said(line, before),
{
    let x = trim(task_line(line, w, task_tags()));
    let tags = tags_of(task_meta(line), task_tags());
    let udis = udis_of(task_meta(line), task_tags());
    lemma_task_line_kind(line, w, before, after);
    lemma_task_line_reads_back(line, w);
    lemma_task_line_meta(line, w);
    lemma_shown_tags(tags);
    lemma_select_members(tokens(task_meta(line)), task_tags(), true);
    assert(shown_udis(udis) =~= udis);
    let again = tags_of(task_meta(x), task_tags());
    assert(again.to_set() =~= tags.to_set()) by {
        assert forall|t: Seq<char>| again.contains(t) <==> tags.contains(t) by {
            if again.contains(t) {
                assert(tags.contains(t));
            }
            if tags.contains(t) {
                assert(task_tags().contains(t));
                assert(again.contains(t));
            }
        }
    }
}

/// An empty line says nothing.
pub proof fn lemma_empty_says_nothing(before: bool)
    ensures
        said(Seq::empty(), before) == Seq::<Content>::empty(),
{
    lemma_empty_line(before, Widths { title: 0, id: 0, start: 0, end: 0 });
}

/// The lines that a trimmed line was laid out as say, once trimmed, what the line said:
/// the last of them says it, and a line before it is empty.
pub proof fn lemma_laid_out_says_the_same(s: Seq<char>, before: bool, w: Widths, after: bool)
    requires
        is_trimmed(s),
        line_kind(s, before) == LineKind::Task ==> shows_all(s),
    ensures
        ({
            let c = laid_out(s, before, w);
            &&& c.len() <= 2
            &&& c.len() == 0 ==> said(s, before) == Seq::<Content>::empty()
            &&& c.len() >= 1 ==> said(trim(c.last()), after) == said(s, before)
            &&& c.len() == 2 ==> c[0].len() == 0
        }),
{
    reveal_strlit("  ");
    let none = Seq::<char>::empty();
    lemma_trimmed_stays(s);
    lemma_empty_says_nothing(after);
    lemma_empty_says_nothing(before);
    match line_kind(s, before) {
        LineKind::Keyword => {
            assert("  "@ =~= spaces(2));
            lemma_trim_of_padded(spaces(2), s, none);
            assert(spaces(2) + s + none =~= "  "@ + s);
        },
        LineKind::Section => {
            lemma_section_line_again(s, after);
            lemma_section_title_again(s);
        },
        LineKind::Task => {
            lemma_task_says_the_same(s, w, before, after);
        },
        LineKind::Blank => {
            assert(s =~= none);
            lemma_trimmed_stays(none);
        },
        _ => {},
    }
}

/// The lines that the first lines of a chart were laid out as say, once trimmed, what
/// those first lines said.
pub proof fn lemma_rendered_says_the_same(
    t: Seq<Seq<char>>,
    w: Widths,
    again: Seq<Seq<char>>,
    i: int,
)
    requires
        all_trimmed(t),
        all_shown(t),
        0 <= i <= t.len(),
        again.len() >= rendered_upto(t, t.len() as int, w).len(),
        forall|p: int|
            0 <= p < rendered_upto(t, t.len() as int, w).len() ==> #[trigger] again[p] == trim(
                rendered_upto(t, t.len() as int, w)[p],
            ),
    ensures
        said_upto(again, rendered_upto(t, i, w).len() as int) == said_upto(t, i),
    decreases i,
{
    if i > 0 {
        let n = t.len() as int;
        let j = i - 1;
        lemma_rendered_says_the_same(t, w, again, j);
        let at = rendered_upto(t, j, w).len() as int;
        let c = rendered(t, j, w);
        let before = section_follows(t, j);
        let s = t[j];
        let done = said_upto(again, at);
        assert(rendered_upto(t, i, w) == rendered_upto(t, j, w) + c);
        if c.len() == 0 {
            lemma_laid_out_says_the_same(s, before, w, false);
            assert(done + Seq::<Content>::empty() =~= done);
        } else if c.len() == 1 {
            lemma_rendered_at(t, j, n, w, 0);
            lemma_laid_out_says_the_same(s, before, w, section_follows(again, at));
            assert(again[at] == trim(c[0]));
        } else {
            lemma_rendered_at(t, j, n, w, 0);
            lemma_rendered_at(t, j, n, w, 1);
            lemma_laid_out_says_the_same(s, before, w, section_follows(again, at + 1));
            assert(again[at] == trim(c[0]));
            assert(again[at + 1] == trim(c[1]));
            assert(c[0] =~= Seq::<char>::empty());
            lemma_trimmed_stays(c[0]);
            lemma_empty_says_nothing(section_follows(again, at));
            assert(said_upto(again, at + 1) == done + said(
                again[at],
                section_follows(again, at),
            ));
            assert(said_upto(again, at + 2) == said_upto(again, at + 1) + said(
                again[at + 1],
                section_follows(again, at + 1),
            ));
            assert(done + Seq::<Content>::empty() =~= done);
        }
    }
}

} // verus!
