//! A task line that was laid out reads back as the task it was laid out from.
use vstd::prelude::*;
use crate::classify::{is_keyword, is_title, keywords, line_kind, task_tags, LineKind};
use crate::meta::{
    all_tokens, any_contains, is_token, lemma_contains_tokens, lemma_select_all_or_none,
    lemma_select_concat, lemma_select_members, lemma_tokens_are_tokens, lemma_tokens_around,
    lemma_tokens_last, lemma_tokens_spaces, lemma_tokens_word, tags_of, tokens, udis_of,
};
use crate::render::{
    crit_cell, item_block, milestone_cell, pad, status_cell, tag_block, task_lead, task_line,
};
use crate::text::{
    all_space, contains, index_of, is_letter, is_space, is_trimmed, is_word, lemma_contains_apart,
    lemma_contains_trim, lemma_no_letter_no_word, lemma_occurs_chars, lemma_scan_char,
    lemma_scan_char_stops, lemma_trim_of_padded, lemma_trim_part, no_letters, spaces, starts_with,
    trim,
};
use crate::widths::{cell, cell_of, task_body, task_meta, task_title, Column, Widths};
use crate::words::{is_free_word, lemma_keywords};

verus! {

/// The tag that the first column of the tag block shows, if any.
pub open spec fn shown_status(tags: Seq<Seq<char>>) -> Seq<Seq<char>> {
    if tags.contains("active"@) {
        seq!["active"@]
    } else if tags.contains("done"@) {
        seq!["done"@]
    } else {
        Seq::empty()
    }
}

/// The tag that the second column of the tag block shows, if any.
pub open spec fn shown_crit(tags: Seq<Seq<char>>) -> Seq<Seq<char>> {
    if tags.contains("crit"@) {
        seq!["crit"@]
    } else {
        Seq::empty()
    }
}

/// The tag that the third column of the tag block shows, if any.
pub open spec fn shown_milestone(tags: Seq<Seq<char>>) -> Seq<Seq<char>> {
    if tags.contains("milestone"@) {
        seq!["milestone"@]
    } else {
        Seq::empty()
    }
}

/// The tags that the tag block shows, in the order of its columns.
pub open spec fn shown_tags(tags: Seq<Seq<char>>) -> Seq<Seq<char>> {
    shown_status(tags) + shown_crit(tags) + shown_milestone(tags)
}

/// The items that the item block shows: all of them if they are one, two or three.
pub open spec fn shown_udis(udis: Seq<Seq<char>>) -> Seq<Seq<char>> {
    if 1 <= udis.len() <= 3 {
        udis
    } else {
        Seq::empty()
    }
}

/// A tag in its column: the word, blanks, a comma and two blanks.
pub open spec fn tag_cell(word: Seq<char>, gap: nat) -> Seq<char> {
    word + spaces(gap) + seq![','] + spaces(2)
}

/// A padded text is the text and blanks.
pub proof fn lemma_pad_is(s: Seq<char>, width: nat) -> (k: nat)
    ensures
        pad(s, width) == s + spaces(k),
        k == if s.len() < width { width - s.len() } else { 0 },
{
    if s.len() < width {
        (width - s.len()) as nat
    } else {
        assert(s + spaces(0) =~= s);
        0
    }
}

/// The four tags are tokens, and the texts of the tag block are made of them.
pub proof fn lemma_tag_words()
    ensures
        is_token("active"@),
        is_token("done"@),
        is_token("crit"@),
        is_token("milestone"@),
        "active,  "@ == tag_cell("active"@, 0),
        "done  ,  "@ == tag_cell("done"@, 2),
        "crit,  "@ == tag_cell("crit"@, 0),
        "milestone,  "@ == tag_cell("milestone"@, 0),
        "active"@ != "done"@,
        "active"@ != "crit"@,
        "active"@ != "milestone"@,
        "done"@ != "crit"@,
        "done"@ != "milestone"@,
        "crit"@ != "milestone"@,
        task_tags() == seq!["done"@, "active"@, "crit"@, "milestone"@],
{
    reveal_strlit("active");
    reveal_strlit("done");
    reveal_strlit("crit");
    reveal_strlit("milestone");
    reveal_strlit("active,  ");
    reveal_strlit("done  ,  ");
    reveal_strlit("crit,  ");
    reveal_strlit("milestone,  ");
    assert("active,  "@ =~= tag_cell("active"@, 0));
    assert("done  ,  "@ =~= tag_cell("done"@, 2));
    assert("crit,  "@ =~= tag_cell("crit"@, 0));
    assert("milestone,  "@ =~= tag_cell("milestone"@, 0));
    assert(task_tags() =~= seq!["done"@, "active"@, "crit"@, "milestone"@]);
}

/// A tag in its column, and more text: the tokens are the tag and those of the text.
pub proof fn lemma_tokens_tag_cell(word: Seq<char>, gap: nat, rest: Seq<char>)
    requires
        is_token(word),
    ensures
        tokens(tag_cell(word, gap) + rest) == seq![word] + tokens(rest),
{
    let none = Seq::<char>::empty();
    lemma_tokens_word(word, spaces(gap), spaces(2) + rest);
    lemma_tokens_around(spaces(2), rest, none);
    assert(spaces(2) + rest + none =~= spaces(2) + rest);
    assert(tag_cell(word, gap) + rest =~= word + spaces(gap) + seq![','] + (spaces(2) + rest));
}

/// Blanks and more text: the tokens are those of the text.
pub proof fn lemma_tokens_blank_cell(n: nat, rest: Seq<char>)
    ensures
        tokens(spaces(n) + rest) == tokens(rest),
{
    let none = Seq::<char>::empty();
    lemma_tokens_around(spaces(n), rest, none);
    assert(spaces(n) + rest + none =~= spaces(n) + rest);
}

/// The tokens of the first column of the tag block and more text.
pub proof fn lemma_tokens_status_cell(tags: Seq<Seq<char>>, rest: Seq<char>)
    ensures
        tokens(status_cell(tags) + rest) == shown_status(tags) + tokens(rest),
{
    lemma_tag_words();
    if tags.contains("active"@) {
        lemma_tokens_tag_cell("active"@, 0, rest);
    } else if tags.contains("done"@) {
        lemma_tokens_tag_cell("done"@, 2, rest);
    } else {
        lemma_tokens_blank_cell(9, rest);
        assert(Seq::<Seq<char>>::empty() + tokens(rest) =~= tokens(rest));
    }
}

/// The tokens of the second column of the tag block and more text.
pub proof fn lemma_tokens_crit_cell(tags: Seq<Seq<char>>, rest: Seq<char>)
    ensures
        tokens(crit_cell(tags) + rest) == shown_crit(tags) + tokens(rest),
{
    lemma_tag_words();
    if tags.contains("crit"@) {
        lemma_tokens_tag_cell("crit"@, 0, rest);
    } else {
        lemma_tokens_blank_cell(7, rest);
        assert(Seq::<Seq<char>>::empty() + tokens(rest) =~= tokens(rest));
    }
}

/// The tokens of the third column of the tag block and more text.
pub proof fn lemma_tokens_milestone_cell(tags: Seq<Seq<char>>, rest: Seq<char>)
    ensures
        tokens(milestone_cell(tags) + rest) == shown_milestone(tags) + tokens(rest),
{
    lemma_tag_words();
    if tags.contains("milestone"@) {
        lemma_tokens_tag_cell("milestone"@, 0, rest);
    } else {
        lemma_tokens_blank_cell(12, rest);
        assert(Seq::<Seq<char>>::empty() + tokens(rest) =~= tokens(rest));
    }
}

/// The tokens of a tag block and more text: the tags shown and the tokens of the text.
pub proof fn lemma_tokens_tag_block(tags: Seq<Seq<char>>, rest: Seq<char>)
    ensures
        tokens(tag_block(tags) + rest) == shown_tags(tags) + tokens(rest),
{
    let first = status_cell(tags);
    let second = crit_cell(tags);
    let third = milestone_cell(tags);
    lemma_tokens_milestone_cell(tags, rest);
    lemma_tokens_crit_cell(tags, third + rest);
    lemma_tokens_status_cell(tags, second + (third + rest));
    assert(tag_block(tags) + rest =~= first + (second + (third + rest)));
    assert(shown_tags(tags) + tokens(rest) =~= shown_status(tags) + (shown_crit(tags) + (
        shown_milestone(tags) + tokens(rest))));
}

/// A padded token, a comma, two blanks and more text: the tokens are that token and those
/// of the text.
pub proof fn lemma_tokens_item_cell(t: Seq<char>, width: nat, rest: Seq<char>)
    requires
        is_token(t),
    ensures
        tokens(pad(t, width) + ",  "@ + rest) == seq![t] + tokens(rest),
{
    reveal_strlit(",  ");
    let k = lemma_pad_is(t, width);
    lemma_tokens_tag_cell(t, k, rest);
    assert(pad(t, width) + ",  "@ + rest =~= tag_cell(t, k) + rest);
}

/// The tokens of three padded items with commas between them are the three items.
pub proof fn lemma_tokens_three(a: Seq<char>, b: Seq<char>, c: Seq<char>, w: Widths)
    requires
        is_token(a),
        is_token(b),
        is_token(c),
    ensures
        tokens(pad(a, w.id) + ",  "@ + pad(b, w.start) + ",  "@ + pad(c, w.end)) == seq![a, b, c],
{
    let k = lemma_pad_is(c, w.end);
    lemma_tokens_last(c, spaces(k));
    let tail = pad(c, w.end);
    lemma_tokens_item_cell(b, w.start, tail);
    let mid = pad(b, w.start) + ",  "@ + tail;
    lemma_tokens_item_cell(a, w.id, mid);
    assert(pad(a, w.id) + ",  "@ + pad(b, w.start) + ",  "@ + pad(c, w.end) =~= pad(a, w.id)
        + ",  "@ + mid);
    assert(seq![a, b, c] =~= seq![a] + (seq![b] + seq![c]));
}

/// The tokens of blanks and two padded items with a comma between them are the two items.
pub proof fn lemma_tokens_two(b: Seq<char>, c: Seq<char>, w: Widths)
    requires
        is_token(b),
        is_token(c),
    ensures
        tokens(spaces(w.id) + "   "@ + pad(b, w.start) + ",  "@ + pad(c, w.end)) == seq![b, c],
{
    reveal_strlit("   ");
    let gap = "   "@;
    assert(gap =~= spaces(3));
    let k = lemma_pad_is(c, w.end);
    lemma_tokens_last(c, spaces(k));
    let tail = pad(c, w.end);
    lemma_tokens_item_cell(b, w.start, tail);
    let mid = pad(b, w.start) + ",  "@ + tail;
    lemma_tokens_blank_cell(3, mid);
    lemma_tokens_blank_cell(w.id, gap + mid);
    assert(spaces(w.id) + "   "@ + pad(b, w.start) + ",  "@ + pad(c, w.end) =~= spaces(w.id) + (
        gap + mid));
    assert(seq![b, c] =~= seq![b] + seq![c]);
}

/// The tokens of blanks and one padded item are the item.
pub proof fn lemma_tokens_one(c: Seq<char>, w: Widths)
    requires
        is_token(c),
    ensures
        tokens(spaces(w.id) + "   "@ + spaces(w.start) + "   "@ + pad(c, w.end)) == seq![c],
{
    reveal_strlit("   ");
    let gap = "   "@;
    assert(gap =~= spaces(3));
    let k = lemma_pad_is(c, w.end);
    lemma_tokens_last(c, spaces(k));
    let tail = pad(c, w.end);
    lemma_tokens_blank_cell(3, tail);
    lemma_tokens_blank_cell(w.start, gap + tail);
    lemma_tokens_blank_cell(3, spaces(w.start) + (gap + tail));
    lemma_tokens_blank_cell(w.id, gap + (spaces(w.start) + (gap + tail)));
    assert(spaces(w.id) + "   "@ + spaces(w.start) + "   "@ + pad(c, w.end) =~= spaces(w.id) + (
        gap + (spaces(w.start) + (gap + tail))));
}

/// The tokens of an item block are the items shown.
pub proof fn lemma_tokens_item_block(udis: Seq<Seq<char>>, w: Widths)
    requires
        all_tokens(udis),
    ensures
        tokens(item_block(udis, w)) == shown_udis(udis),
{
    if udis.len() == 3 {
        lemma_tokens_three(udis[0], udis[1], udis[2], w);
        assert(udis =~= seq![udis[0], udis[1], udis[2]]);
    } else if udis.len() == 2 {
        lemma_tokens_two(udis[0], udis[1], w);
        assert(udis =~= seq![udis[0], udis[1]]);
    } else if udis.len() == 1 {
        lemma_tokens_one(udis[0], w);
        assert(udis =~= seq![udis[0]]);
    } else {
        lemma_tokens_spaces(Seq::empty());
    }
}

/// The title of a task line is trimmed and holds no colon. Where the line is trimmed and
/// no comment, the line begins with the title.
pub proof fn lemma_title(line: Seq<char>)
    ensures
        is_trimmed(task_title(line)),
        !task_title(line).contains(':'),
        is_trimmed(line) && !starts_with(line, "%%"@) ==> task_title(line).len() <= line.len()
            && line.subrange(0, task_title(line).len() as int) == task_title(line),
{
    let body = task_body(line);
    let i = index_of(body, ':');
    lemma_scan_char_stops(body, ':', 0);
    let p = body.subrange(0, i);
    let (lo, hi) = lemma_trim_part(p);
    let title = task_title(line);
    assert forall|m: int| 0 <= m < title.len() implies title[m] != ':' by {
        assert(title[m] == p[lo + m]);
        assert(p[lo + m] == body[lo + m]);
    }
    if is_trimmed(line) && !starts_with(line, "%%"@) && title.len() > 0 {
        assert(p[0] == line[0]);
        assert(lo == 0);
        assert(line.subrange(0, title.len() as int) =~= title);
    }
    if title.len() == 0 {
        assert(line.subrange(0, 0) =~= title);
    }
}

/// The items of a task are tokens.
pub proof fn lemma_udis_are_tokens(meta: Seq<char>, vocab: Seq<Seq<char>>)
    ensures
        all_tokens(udis_of(meta, vocab)),
        all_tokens(tags_of(meta, vocab)),
{
    let ts = tokens(meta);
    lemma_tokens_are_tokens(meta);
    lemma_select_members(ts, vocab, false);
    lemma_select_members(ts, vocab, true);
    let udis = udis_of(meta, vocab);
    assert forall|k: int| 0 <= k < udis.len() implies is_token(#[trigger] udis[k]) by {
        assert(udis.contains(udis[k]));
        assert(ts.contains(udis[k]));
    }
    let tags = tags_of(meta, vocab);
    assert forall|k: int| 0 <= k < tags.len() implies is_token(#[trigger] tags[k]) by {
        assert(tags.contains(tags[k]));
        assert(ts.contains(tags[k]));
    }
}

/// The parts of a laid-out task line, and where its colon stands.
pub proof fn lemma_task_line_parts(line: Seq<char>, w: Widths) -> (r: (nat, int))
    ensures
        ({
            let out = task_line(line, w, task_tags());
            let title = task_title(line);
            let meta = task_meta(line);
            let shown = tag_block(tags_of(meta, task_tags())) + item_block(
                udis_of(meta, task_tags()),
                w,
            );
            &&& pad(title, w.title) == title + spaces(r.0)
            &&& r.1 == 4 + title.len() + r.0 + 2
            &&& out == task_lead(line) + title + spaces(r.0 + 2) + seq![':'] + (spaces(1) + shown)
            &&& task_lead(line).len() == 4
            &&& out[r.1] == ':'
            &&& forall|m: int| 0 <= m < r.1 ==> #[trigger] out[m] != ':'
            &&& forall|m: int| 4 + title.len() <= m < r.1 ==> is_space(#[trigger] out[m])
            &&& out.subrange(4, 4 + title.len() as int) == title
            &&& out.subrange(r.1 + 1, out.len() as int) == spaces(1) + shown
        }),
{
    reveal_strlit("%%  ");
    reveal_strlit("    ");
    reveal_strlit("  : ");
    let out = task_line(line, w, task_tags());
    let title = task_title(line);
    let meta = task_meta(line);
    let shown = tag_block(tags_of(meta, task_tags())) + item_block(udis_of(meta, task_tags()), w);
    let k = lemma_pad_is(title, w.title);
    let at = (4 + title.len() + k + 2) as int;
    lemma_title(line);
    let lead = task_lead(line);
    assert("  : "@ =~= spaces(2) + seq![':'] + spaces(1));
    assert(out =~= lead + title + spaces(k + 2) + seq![':'] + (spaces(1) + shown));
    assert forall|m: int| 0 <= m < at implies #[trigger] out[m] != ':' by {
        if m < 4 {
            assert(out[m] == lead[m]);
        } else if m < 4 + title.len() {
            assert(out[m] == title[m - 4]);
        } else {
            assert(out[m] == ' ');
        }
    }
    assert forall|m: int| 4 + title.len() <= m < at implies is_space(#[trigger] out[m]) by {
        assert(out[m] == ' ');
    }
    assert(out.subrange(4, 4 + title.len() as int) =~= title);
    assert(out.subrange(at + 1, out.len() as int) =~= spaces(1) + shown);
    (k, at)
}

/// A lead, a title, blanks, a colon and more text.
#[verifier::opaque]
pub open spec fn layout(commented: bool, title: Seq<char>, gap: nat, after: Seq<char>) -> Seq<
    char,
> {
    (if commented {
        "%%  "@
    } else {
        "    "@
    }) + title + spaces(gap) + seq![':'] + after
}

/// Where the colon of such a line stands.
pub open spec fn layout_colon(title: Seq<char>, gap: nat) -> int {
    4 + title.len() as int + gap as int
}

/// Where such a line begins once it is trimmed.
pub open spec fn layout_start(commented: bool, title: Seq<char>, gap: nat) -> int {
    if commented {
        0
    } else if title.len() > 0 {
        4
    } else {
        layout_colon(title, gap)
    }
}

/// The characters of such a line, place by place.
pub proof fn lemma_layout_chars(commented: bool, title: Seq<char>, gap: nat, after: Seq<char>)
    ensures
        ({
            let out = layout(commented, title, gap, after);
            let at = layout_colon(title, gap);
            &&& out.len() == at + 1 + after.len()
            &&& out[at] == ':'
            &&& commented ==> out[0] == '%' && out[1] == '%' && out[2] == ' ' && out[3] == ' '
            &&& !commented ==> forall|m: int| 0 <= m < 4 ==> out[m] == ' '
            &&& forall|m: int| 0 <= m < title.len() ==> out[4 + m] == #[trigger] title[m]
            &&& forall|m: int| 4 + title.len() <= m < at ==> #[trigger] out[m] == ' '
            &&& forall|m: int| 0 <= m < after.len() ==> out[at + 1 + m] == #[trigger] after[m]
        }),
{
    reveal(layout);
    reveal_strlit("%%  ");
    reveal_strlit("    ");
}

/// Such a line, trimmed, begins at its mark, else at its title, else at its colon, and
/// ends behind the colon.
pub proof fn lemma_layout_trim(commented: bool, title: Seq<char>, gap: nat, after: Seq<char>) -> (r:
    (int, int))
    requires
        is_trimmed(title),
    ensures
        ({
            let out = layout(commented, title, gap, after);
            &&& r.0 == layout_start(commented, title, gap)
            &&& layout_colon(title, gap) < r.1 <= out.len()
            &&& trim(out) == out.subrange(r.0, r.1)
            &&& forall|m: int| r.1 <= m < out.len() ==> is_space(#[trigger] out[m])
        }),
{
    let out = layout(commented, title, gap, after);
    let at = layout_colon(title, gap);
    lemma_layout_chars(commented, title, gap, after);
    let (lo, hi) = lemma_trim_part(out);
    if at < lo || hi <= at {
        assert(is_space(out[at]));
    }
    let from = layout_start(commented, title, gap);
    if lo < from {
        if lo < 4 {
            assert(out[lo] == ' ');
        } else {
            assert(out[lo] == ' ');
        }
        assert(false);
    }
    if lo > from {
        assert(is_space(out[from]));
        if !commented && title.len() > 0 {
            assert(out[4 + 0int] == title[0]);
        }
        assert(false);
    }
    (lo, hi)
}

/// Such a line, trimmed, has the comment mark if and only if it was laid out with one.
pub proof fn lemma_layout_mark(commented: bool, title: Seq<char>, gap: nat, after: Seq<char>)
    requires
        is_trimmed(title),
        gap >= 1,
        !commented ==> !starts_with(title, "%%"@),
    ensures
        starts_with(trim(layout(commented, title, gap, after)), "%%"@) == commented,
{
    reveal_strlit("%%");
    let out = layout(commented, title, gap, after);
    let at = layout_colon(title, gap);
    lemma_layout_chars(commented, title, gap, after);
    let (lo, hi) = lemma_layout_trim(commented, title, gap, after);
    let x = trim(out);
    if commented {
        assert(x.subrange(0, 2) =~= "%%"@);
    } else if starts_with(x, "%%"@) {
        assert(x.subrange(0, 2)[0] == x[0]);
        assert(x.subrange(0, 2)[1] == x[1]);
        if title.len() >= 2 {
            assert(out[4 + 0int] == title[0]);
            assert(out[4 + 1int] == title[1]);
            assert(title.subrange(0, 2) =~= "%%"@);
        } else if title.len() == 1 {
            assert(out[5] == ' ');
        }
        assert(false);
    }
}

/// Such a line, trimmed, has the title it was laid out with.
pub proof fn lemma_layout_title(commented: bool, title: Seq<char>, gap: nat, after: Seq<char>)
    requires
        is_trimmed(title),
        !title.contains(':'),
        gap >= 1,
        !commented ==> !starts_with(title, "%%"@),
    ensures
        ({
            let x = trim(layout(commented, title, gap, after));
            let body = task_body(x);
            &&& task_title(x) == title
            &&& index_of(body, ':') < body.len()
            &&& exists|rest: Seq<char>|
                all_space(rest) && #[trigger] (task_meta(x) + rest) == after
        }),
{
    reveal_strlit("%%");
    let out = layout(commented, title, gap, after);
    let at = layout_colon(title, gap);
    lemma_layout_chars(commented, title, gap, after);
    let (lo, hi) = lemma_layout_trim(commented, title, gap, after);
    lemma_layout_mark(commented, title, gap, after);
    let x = trim(out);
    let none = Seq::<char>::empty();
    let skip: int = if commented {
        2
    } else {
        0
    };
    let body = task_body(x);
    assert(body =~= out.subrange(lo + skip, hi));
    let colon = at - lo - skip;
    assert forall|m: int| 0 <= m < colon implies #[trigger] body[m] != ':' by {
        let j = m + lo + skip;
        assert(body[m] == out[j]);
        if 4 <= j < 4 + title.len() {
            assert(out[4 + (j - 4)] == title[j - 4]);
        }
    }
    assert(body[colon] == out[at]);
    lemma_scan_char(body, ':', 0, colon);
    let before = body.subrange(0, colon);
    if commented {
        let padded = spaces(2) + title + spaces(gap);
        assert(before =~= padded) by {
            assert forall|m: int| 0 <= m < before.len() implies before[m] == padded[m] by {
                assert(before[m] == out[m + 2]);
                if 2 <= m < 2 + title.len() {
                    assert(out[4 + (m - 2)] == title[m - 2]);
                }
            }
        }
        lemma_trim_of_padded(spaces(2), title, spaces(gap));
    } else if title.len() > 0 {
        let padded = none + title + spaces(gap);
        assert(before =~= padded) by {
            assert forall|m: int| 0 <= m < before.len() implies before[m] == padded[m] by {
                assert(before[m] == out[m + 4]);
                if m < title.len() {
                    assert(out[4 + m] == title[m]);
                }
            }
        }
        lemma_trim_of_padded(none, title, spaces(gap));
    } else {
        assert(before =~= none + title + none);
        lemma_trim_of_padded(none, title, none);
    }
    let rest = out.subrange(hi, out.len() as int);
    let meta_x = task_meta(x);
    assert(meta_x =~= out.subrange(at + 1, hi));
    assert(meta_x + rest =~= after) by {
        assert forall|m: int| 0 <= m < after.len() implies (meta_x + rest)[m] == after[m] by {
            assert(out[at + 1 + m] == after[m]);
        }
    }
    assert(all_space(rest));
}

/// A laid-out task line is a lead, the title, blanks, a colon, a blank and the two blocks.
pub proof fn lemma_task_line_layout(line: Seq<char>, w: Widths) -> (gap: nat)
    requires
        is_trimmed(line),
    ensures
        gap >= 2,
        ({
            let meta = task_meta(line);
            let shown = tag_block(tags_of(meta, task_tags())) + item_block(
                udis_of(meta, task_tags()),
                w,
            );
            task_line(line, w, task_tags()) == layout(
                starts_with(line, "%%"@),
                task_title(line),
                gap,
                spaces(1) + shown,
            )
        }),
        !starts_with(line, "%%"@) ==> !starts_with(task_title(line), "%%"@),
{
    reveal(layout);
    reveal_strlit("%%");
    let (k, at) = lemma_task_line_parts(line, w);
    lemma_title(line);
    let title = task_title(line);
    if !starts_with(line, "%%"@) && starts_with(title, "%%"@) {
        assert(line.subrange(0, 2) =~= title.subrange(0, 2)) by {
            assert(line.subrange(0, title.len() as int).subrange(0, 2) =~= line.subrange(0, 2));
        }
        assert(false);
    }
    k + 2
}

/// What a laid-out task line reads back as, once trimmed: a task line with the same
/// comment mark or none, the same title, and for metadata the tags and items shown.
pub proof fn lemma_task_line_reads_back(line: Seq<char>, w: Widths)
    requires
        is_trimmed(line),
    ensures
        ({
            let x = trim(task_line(line, w, task_tags()));
            let meta = task_meta(line);
            &&& x.contains(':')
            &&& starts_with(x, "%%"@) == starts_with(line, "%%"@)
            &&& task_title(x) == task_title(line)
            &&& tokens(task_meta(x)) == shown_tags(tags_of(meta, task_tags())) + shown_udis(
                udis_of(meta, task_tags()),
            )
        }),
{
    let out = task_line(line, w, task_tags());
    let title = task_title(line);
    let meta = task_meta(line);
    let tags = tags_of(meta, task_tags());
    let udis = udis_of(meta, task_tags());
    let shown = tag_block(tags) + item_block(udis, w);
    let commented = starts_with(line, "%%"@);
    let gap = lemma_task_line_layout(line, w);
    lemma_title(line);
    lemma_layout_mark(commented, title, gap, spaces(1) + shown);
    lemma_layout_title(commented, title, gap, spaces(1) + shown);
    let x = trim(out);
    let meta_x = task_meta(x);
    let rest = choose|rest: Seq<char>|
        all_space(rest) && #[trigger] (meta_x + rest) == spaces(1) + shown;
    let none = Seq::<char>::empty();
    lemma_tokens_around(none, meta_x, rest);
    assert(none + meta_x + rest =~= meta_x + rest);
    lemma_tokens_blank_cell(1, shown);
    lemma_tokens_tag_block(tags, item_block(udis, w));
    lemma_udis_are_tokens(meta, task_tags());
    lemma_tokens_item_block(udis, w);
    assert(x.contains(':')) by {
        let body = task_body(x);
        let i = index_of(body, ':');
        lemma_scan_char_stops(body, ':', 0);
        reveal_strlit("%%");
        if starts_with(x, "%%"@) {
            assert(x[i + 2] == body[i]);
        } else {
            assert(x[i] == ':');
        }
    }
}

/// The tags shown are tags, and give the same tag block as the tags they were taken from.
pub proof fn lemma_shown_tags(tags: Seq<Seq<char>>)
    ensures
        forall|k: int|
            0 <= k < shown_tags(tags).len() ==> task_tags().contains(
                #[trigger] shown_tags(tags)[k],
            ),
        tag_block(shown_tags(tags)) == tag_block(tags),
        forall|t: Seq<char>|
            #[trigger] shown_tags(tags).contains(t) ==> tags.contains(t),
        forall|t: Seq<char>|
            #[trigger] tags.contains(t) && task_tags().contains(t) && !(t == "done"@
                && tags.contains("active"@)) ==> shown_tags(tags).contains(t),
        shown_tags(tags).contains("done"@) ==> !tags.contains("active"@),
{
    lemma_tag_words();
    let shown = shown_tags(tags);
    let vocab = task_tags();
    assert(vocab[0] == "done"@ && vocab[1] == "active"@ && vocab[2] == "crit"@ && vocab[3]
        == "milestone"@);
    let first = shown_status(tags);
    let second = shown_crit(tags);
    let third = shown_milestone(tags);
    assert(shown == first + second + third);
    assert forall|t: Seq<char>| #[trigger] shown.contains(t) implies tags.contains(t)
        && vocab.contains(t) && (t == "active"@ || t == "done"@ || t == "crit"@ || t
        == "milestone"@) && !(t == "done"@ && tags.contains("active"@)) by {
        let k = choose|k: int| 0 <= k < shown.len() && shown[k] == t;
        if k < first.len() {
            assert(shown[k] == first[k]);
        } else if k < first.len() + second.len() {
            assert(shown[k] == second[k - first.len()]);
        } else {
            assert(shown[k] == third[k - first.len() - second.len()]);
        }
    }
    assert forall|k: int| 0 <= k < shown.len() implies vocab.contains(#[trigger] shown[k]) by {
        assert(shown.contains(shown[k]));
    }
    assert(tags.contains("active"@) ==> shown.contains("active"@)) by {
        if tags.contains("active"@) {
            assert(shown[0] == "active"@);
        }
    }
    assert(tags.contains("done"@) && !tags.contains("active"@) ==> shown.contains("done"@)) by {
        if tags.contains("done"@) && !tags.contains("active"@) {
            assert(shown[0] == "done"@);
        }
    }
    assert(tags.contains("crit"@) ==> shown.contains("crit"@)) by {
        if tags.contains("crit"@) {
            assert(shown[first.len() as int] == "crit"@);
        }
    }
    assert(tags.contains("milestone"@) ==> shown.contains("milestone"@)) by {
        if tags.contains("milestone"@) {
            assert(shown[(first.len() + second.len()) as int] == "milestone"@);
        }
    }
    assert(shown.contains("done"@) ==> !tags.contains("active"@));
    assert forall|t: Seq<char>|
        #[trigger] tags.contains(t) && vocab.contains(t) && !(t == "done"@ && tags.contains(
            "active"@,
        )) implies shown.contains(t) by {
        let k = choose|k: int| 0 <= k < vocab.len() && vocab[k] == t;
    }
}

/// What the items shown hold in a column is what the items hold.
pub proof fn lemma_shown_udis(udis: Seq<Seq<char>>, w: Widths)
    ensures
        item_block(shown_udis(udis), w) == item_block(udis, w),
        forall|col: Column| cell_of(shown_udis(udis), col) == cell_of(udis, col),
{
}

/// The tags and items of a laid-out task line are the tags and items shown.
pub proof fn lemma_task_line_meta(line: Seq<char>, w: Widths)
    requires
        is_trimmed(line),
    ensures
        ({
            let x = trim(task_line(line, w, task_tags()));
            let meta = task_meta(line);
            &&& tags_of(task_meta(x), task_tags()) == shown_tags(tags_of(meta, task_tags()))
            &&& udis_of(task_meta(x), task_tags()) == shown_udis(udis_of(meta, task_tags()))
        }),
{
    let vocab = task_tags();
    let x = trim(task_line(line, w, vocab));
    let meta = task_meta(line);
    let tags = tags_of(meta, vocab);
    let udis = udis_of(meta, vocab);
    lemma_task_line_reads_back(line, w);
    lemma_shown_tags(tags);
    lemma_select_members(tokens(meta), vocab, false);
    let st = shown_tags(tags);
    let su = shown_udis(udis);
    assert forall|k: int| 0 <= k < su.len() implies !vocab.contains(#[trigger] su[k]) by {
        assert(udis.contains(udis[k]));
    }
    lemma_select_concat(st, su, vocab, true);
    lemma_select_concat(st, su, vocab, false);
    lemma_select_all_or_none(st, vocab, true);
    lemma_select_all_or_none(st, vocab, false);
    lemma_select_all_or_none(su, vocab, true);
    lemma_select_all_or_none(su, vocab, false);
    assert(st + Seq::<Seq<char>>::empty() =~= st);
    assert(Seq::<Seq<char>>::empty() + su =~= su);
}

/// A laid-out task line, trimmed and laid out again for any widths, is the line laid out
/// for those widths; and it holds in every column what the line holds.
pub proof fn lemma_task_line_again(line: Seq<char>, w: Widths, again: Widths)
    requires
        is_trimmed(line),
    ensures
        ({
            let x = trim(task_line(line, w, task_tags()));
            &&& task_line(x, again, task_tags()) == task_line(line, again, task_tags())
            &&& forall|col: Column| cell(x, task_tags(), col) == cell(line, task_tags(), col)
        }),
{
    let vocab = task_tags();
    let meta = task_meta(line);
    lemma_task_line_reads_back(line, w);
    lemma_task_line_meta(line, w);
    lemma_shown_tags(tags_of(meta, vocab));
    lemma_shown_udis(udis_of(meta, vocab), again);
}

/// A word that does not stand in a tag does not stand in the tag in its column, which
/// ends with a blank.
pub proof fn lemma_tag_cell_no_word(word: Seq<char>, gap: nat, pat: Seq<char>)
    requires
        is_word(pat),
        !contains(word, pat),
    ensures
        !contains(tag_cell(word, gap), pat),
        tag_cell(word, gap).len() == word.len() + gap + 3,
        tag_cell(word, gap).last() == ' ',
{
    let none = Seq::<char>::empty();
    let sep = spaces(gap) + seq![','] + spaces(2);
    assert(no_letters(sep));
    lemma_contains_apart(word, sep, none, pat);
    assert(word + sep + none =~= tag_cell(word, gap));
    assert(no_letters(none));
    lemma_no_letter_no_word(none, pat);
}

/// No word stands in blanks.
pub proof fn lemma_spaces_no_word(n: nat, pat: Seq<char>)
    requires
        is_word(pat),
    ensures
        !contains(spaces(n), pat),
        no_letters(spaces(n)),
{
    assert(no_letters(spaces(n)));
    lemma_no_letter_no_word(spaces(n), pat);
}

/// A word that stands in no status tag stands in no tag block.
pub proof fn lemma_tag_block_no_word(tags: Seq<Seq<char>>, pat: Seq<char>)
    requires
        is_free_word(pat),
    ensures
        !contains(tag_block(tags), pat),
        tag_block(tags).len() == 28,
        tag_block(tags).last() == ' ',
{
    lemma_tag_words();
    reveal_strlit("active");
    reveal_strlit("done");
    reveal_strlit("crit");
    reveal_strlit("milestone");
    let vocab = task_tags();
    assert(!contains(vocab[0], pat) && !contains(vocab[1], pat) && !contains(vocab[2], pat)
        && !contains(vocab[3], pat));
    let first = status_cell(tags);
    let second = crit_cell(tags);
    let third = milestone_cell(tags);
    lemma_tag_cell_no_word("active"@, 0, pat);
    lemma_tag_cell_no_word("done"@, 2, pat);
    lemma_tag_cell_no_word("crit"@, 0, pat);
    lemma_tag_cell_no_word("milestone"@, 0, pat);
    lemma_spaces_no_word(9, pat);
    lemma_spaces_no_word(7, pat);
    lemma_spaces_no_word(12, pat);
    assert(!contains(first, pat) && first.len() == 9 && first.last() == ' ');
    assert(!contains(second, pat) && second.len() == 7 && second.last() == ' ');
    assert(!contains(third, pat) && third.len() == 12 && third.last() == ' ');
    crate::text::lemma_contains_concat(first, second, pat);
    assert((first + second).last() == second.last());
    crate::text::lemma_contains_concat(first + second, third, pat);
    assert(tag_block(tags) == first + second + third);
    assert(tag_block(tags).last() == third.last());
}

/// A word stands in a padded text if and only if it stands in the text.
pub proof fn lemma_pad_words(s: Seq<char>, width: nat, pat: Seq<char>)
    requires
        is_word(pat),
    ensures
        contains(pad(s, width), pat) == contains(s, pat),
{
    let k = lemma_pad_is(s, width);
    let none = Seq::<char>::empty();
    lemma_spaces_no_word(k, pat);
    lemma_contains_apart(s, spaces(k), none, pat);
    assert(s + spaces(k) + none =~= s + spaces(k));
    assert(no_letters(none));
    lemma_no_letter_no_word(none, pat);
}

/// A word stands in an item block if and only if it stands in one of the items shown.
pub proof fn lemma_item_block_words(udis: Seq<Seq<char>>, w: Widths, pat: Seq<char>)
    requires
        is_word(pat),
    ensures
        contains(item_block(udis, w), pat) == any_contains(shown_udis(udis), pat),
{
    reveal_strlit("   ");
    reveal_strlit(",  ");
    let gap = "   "@;
    let comma = ",  "@;
    let none = Seq::<char>::empty();
    assert(no_letters(gap));
    assert(no_letters(comma));
    assert(no_letters(none));
    lemma_no_letter_no_word(none, pat);
    lemma_no_letter_no_word(gap, pat);
    lemma_spaces_no_word(w.id, pat);
    lemma_spaces_no_word(w.start, pat);
    let shown = shown_udis(udis);
    if udis.len() == 3 {
        let a = pad(udis[0], w.id);
        let b = pad(udis[1], w.start);
        let c = pad(udis[2], w.end);
        lemma_pad_words(udis[0], w.id, pat);
        lemma_pad_words(udis[1], w.start, pat);
        lemma_pad_words(udis[2], w.end, pat);
        lemma_contains_apart(b, comma, c, pat);
        lemma_contains_apart(a, comma, b + comma + c, pat);
        assert(item_block(udis, w) =~= a + comma + (b + comma + c));
        if any_contains(shown, pat) {
            let k = choose|k: int| 0 <= k < shown.len() && contains(#[trigger] shown[k], pat);
            assert(k == 0 || k == 1 || k == 2);
        }
        if contains(udis[0], pat) || contains(udis[1], pat) || contains(udis[2], pat) {
            assert(contains(shown[0], pat) || contains(shown[1], pat) || contains(shown[2], pat));
        }
    } else if udis.len() == 2 {
        let b = pad(udis[0], w.start);
        let c = pad(udis[1], w.end);
        lemma_pad_words(udis[0], w.start, pat);
        lemma_pad_words(udis[1], w.end, pat);
        lemma_contains_apart(b, comma, c, pat);
        lemma_contains_apart(spaces(w.id), gap, b + comma + c, pat);
        assert(item_block(udis, w) =~= spaces(w.id) + gap + (b + comma + c));
        if any_contains(shown, pat) {
            let k = choose|k: int| 0 <= k < shown.len() && contains(#[trigger] shown[k], pat);
            assert(k == 0 || k == 1);
        }
        if contains(udis[0], pat) || contains(udis[1], pat) {
            assert(contains(shown[0], pat) || contains(shown[1], pat));
        }
    } else if udis.len() == 1 {
        let c = pad(udis[0], w.end);
        lemma_pad_words(udis[0], w.end, pat);
        lemma_contains_apart(spaces(w.start), gap, c, pat);
        lemma_contains_apart(spaces(w.id), gap, spaces(w.start) + gap + c, pat);
        assert(item_block(udis, w) =~= spaces(w.id) + gap + (spaces(w.start) + gap + c));
        if any_contains(shown, pat) {
            let k = choose|k: int| 0 <= k < shown.len() && contains(#[trigger] shown[k], pat);
            assert(k == 0);
        }
        if contains(udis[0], pat) {
            assert(contains(shown[0], pat));
        }
    } else {
        assert(item_block(udis, w) =~= none);
    }
}

/// A word that stands in no status tag stands in a laid-out task line, trimmed, if and
/// only if it stands in the title or in one of the items shown.
pub proof fn lemma_task_line_words(line: Seq<char>, w: Widths, pat: Seq<char>)
    requires
        is_free_word(pat),
    ensures
        contains(trim(task_line(line, w, task_tags())), pat) == (contains(task_title(line), pat)
            || any_contains(shown_udis(udis_of(task_meta(line), task_tags())), pat)),
{
    reveal_strlit("%%  ");
    reveal_strlit("    ");
    reveal_strlit("  : ");
    let out = task_line(line, w, task_tags());
    let title = task_title(line);
    let meta = task_meta(line);
    let tags = tags_of(meta, task_tags());
    let udis = udis_of(meta, task_tags());
    let lead = task_lead(line);
    let sep = "  : "@;
    let none = Seq::<char>::empty();
    lemma_contains_trim(out, pat);
    lemma_pad_words(title, w.title, pat);
    lemma_tag_block_no_word(tags, pat);
    lemma_item_block_words(udis, w, pat);
    assert(no_letters(lead));
    assert(no_letters(sep));
    assert(no_letters(none));
    lemma_no_letter_no_word(none, pat);
    let tb = tag_block(tags);
    let ib = item_block(udis, w);
    let padded = pad(title, w.title);
    crate::text::lemma_contains_concat(tb, ib, pat);
    lemma_contains_apart(padded, sep, tb + ib, pat);
    lemma_contains_apart(none, lead, padded + sep + (tb + ib), pat);
    assert(out =~= none + lead + (padded + sep + (tb + ib)));
}

/// A word that stands in no status tag stands in a task line if and only if it stands in
/// the title or in one of the items.
pub proof fn lemma_line_words(line: Seq<char>, pat: Seq<char>)
    requires
        is_free_word(pat),
    ensures
        contains(line, pat) == (contains(task_title(line), pat) || any_contains(
            udis_of(task_meta(line), task_tags()),
            pat,
        )),
{
    reveal_strlit("%%");
    let vocab = task_tags();
    let body = task_body(line);
    let mark = "%%"@;
    let none = Seq::<char>::empty();
    assert(no_letters(mark));
    assert(no_letters(none));
    lemma_no_letter_no_word(none, pat);
    assert(contains(line, pat) == contains(body, pat)) by {
        if starts_with(line, mark) {
            lemma_contains_apart(none, mark, body, pat);
            assert(line =~= none + mark + body);
        }
    }
    let i = index_of(body, ':');
    lemma_scan_char_stops(body, ':', 0);
    let before = body.subrange(0, i);
    let meta = task_meta(line);
    lemma_contains_trim(before, pat);
    let colon = seq![':'];
    assert(no_letters(colon));
    if i < body.len() {
        lemma_contains_apart(before, colon, meta, pat);
        assert(body =~= before + colon + meta);
    } else {
        assert(body =~= before);
        assert(meta =~= none);
    }
    lemma_contains_tokens(meta, pat);
    let ts = tokens(meta);
    let udis = udis_of(meta, vocab);
    lemma_select_members(ts, vocab, false);
    if any_contains(ts, pat) {
        let k = choose|k: int| 0 <= k < ts.len() && contains(#[trigger] ts[k], pat);
        if vocab.contains(ts[k]) {
            let j = choose|j: int| 0 <= j < vocab.len() && vocab[j] == ts[k];
            assert(!contains(vocab[j], pat));
        }
        assert(ts.contains(ts[k]));
        assert(udis.contains(ts[k]));
        let m = choose|m: int| 0 <= m < udis.len() && udis[m] == ts[k];
        assert(contains(udis[m], pat));
    }
    if any_contains(udis, pat) {
        let m = choose|m: int| 0 <= m < udis.len() && contains(#[trigger] udis[m], pat);
        assert(udis.contains(udis[m]));
        assert(ts.contains(udis[m]));
        let k = choose|k: int| 0 <= k < ts.len() && ts[k] == udis[m];
        assert(contains(ts[k], pat));
    }
}

/// A word with which a laid-out task line begins, once trimmed, is a word with which
/// the line began.
pub proof fn lemma_task_line_starts(line: Seq<char>, w: Widths, pat: Seq<char>)
    requires
        is_trimmed(line),
        is_word(pat),
        starts_with(trim(task_line(line, w, task_tags())), pat),
    ensures
        starts_with(line, pat),
{
    let title = task_title(line);
    let meta = task_meta(line);
    let shown = tag_block(tags_of(meta, task_tags())) + item_block(udis_of(meta, task_tags()), w);
    let commented = starts_with(line, "%%"@);
    let gap = lemma_task_line_layout(line, w);
    lemma_title(line);
    let after = spaces(1) + shown;
    let out = layout(commented, title, gap, after);
    lemma_layout_chars(commented, title, gap, after);
    let (lo, hi) = lemma_layout_trim(commented, title, gap, after);
    let x = trim(out);
    lemma_occurs_chars(x, pat, 0);
    assert(x[0int + 0] == pat[0]);
    assert(is_letter(pat[0]));
    if commented {
        assert(x[0] == '%');
        assert(false);
    } else if title.len() == 0 {
        assert(x[0] == ':');
        assert(false);
    } else {
        if pat.len() > title.len() {
            let n = title.len() as int;
            assert(x[0 + n] == pat[n]);
            assert(x[n] == out[4 + n]);
            assert(is_letter(pat[n]));
            assert(false);
        }
        assert(line.subrange(0, pat.len() as int) =~= pat) by {
            assert forall|m: int| 0 <= m < pat.len() implies line[m] == pat[m] by {
                assert(x[0 + m] == pat[m]);
                assert(x[m] == out[4 + m]);
                assert(out[4 + m] == title[m]);
                assert(line.subrange(0, title.len() as int)[m] == line[m]);
            }
        }
    }
}

/// A task line that was laid out is, once trimmed, a task line again, whatever follows.
pub proof fn lemma_task_line_kind(line: Seq<char>, w: Widths, before: bool, after: bool)
    requires
        is_trimmed(line),
        line_kind(line, before) == LineKind::Task,
    ensures
        line_kind(trim(task_line(line, w, task_tags())), after) == LineKind::Task,
{
    let x = trim(task_line(line, w, task_tags()));
    lemma_keywords();
    lemma_task_line_reads_back(line, w);
    if is_title(x) {
        lemma_task_line_starts(line, w, "gantt"@);
    }
    if is_keyword(x) {
        let k = choose|k: int|
            0 <= k < keywords().len() && starts_with(x, #[trigger] keywords()[k]);
        lemma_task_line_starts(line, w, keywords()[k]);
        assert(is_keyword(line));
    }
    lemma_task_line_words(line, w, "section"@);
    lemma_line_words(line, "section"@);
    let udis = udis_of(task_meta(line), task_tags());
    if any_contains(shown_udis(udis), "section"@) {
        assert(any_contains(udis, "section"@));
    }
}

} // verus!
