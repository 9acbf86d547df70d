//! The metadata of a task: what follows the colon, split at commas into status tags and
//! items that the author chose.
use vstd::prelude::*;
use vstd::string::*;
use crate::text::{
    all_space, chars_of, contains, find_char, index_of, is_trimmed, is_word, lemma_contains_concat,
    lemma_contains_trim, lemma_scan_char, lemma_scan_char_stops, lemma_trim_around,
    lemma_trim_of_padded, lemma_trim_part, str_eq, trim, trim_bounds,
};

verus! {

/// The pieces of `s` between commas, each trimmed, without the empty ones, in order.
pub open spec fn tokens(s: Seq<char>) -> Seq<Seq<char>>
    decreases s.len(),
{
    let i = index_of(s, ',');
    let head = trim(s.subrange(0, i));
    let first = if head.len() > 0 {
        seq![head]
    } else {
        Seq::empty()
    };
    if 0 <= i < s.len() {
        first + tokens(s.subrange(i + 1, s.len() as int))
    } else {
        first
    }
}

/// Those of `ts` that are in `vocab` (`tagged`), or those that are not; in order.
pub open spec fn select(ts: Seq<Seq<char>>, vocab: Seq<Seq<char>>, tagged: bool) -> Seq<
    Seq<char>,
>
    decreases ts.len(),
{
    if ts.len() == 0 {
        Seq::empty()
    } else {
        let rest = select(ts.drop_last(), vocab, tagged);
        if vocab.contains(ts.last()) == tagged {
            rest.push(ts.last())
        } else {
            rest
        }
    }
}

/// The status tags among the metadata `s`.
pub open spec fn tags_of(s: Seq<char>, vocab: Seq<Seq<char>>) -> Seq<Seq<char>> {
    select(tokens(s), vocab, true)
}

/// The items of the metadata `s` that are no status tags.
pub open spec fn udis_of(s: Seq<char>, vocab: Seq<Seq<char>>) -> Seq<Seq<char>> {
    select(tokens(s), vocab, false)
}

/// What a piece between commas gives: itself, trimmed, unless nothing is left of it.
pub open spec fn piece_token(p: Seq<char>) -> Seq<Seq<char>> {
    if trim(p).len() > 0 {
        seq![trim(p)]
    } else {
        Seq::empty()
    }
}

/// What a token is: trimmed, not empty, and without a comma.
pub open spec fn is_token(t: Seq<char>) -> bool {
    t.len() > 0 && is_trimmed(t) && !t.contains(',')
}

/// All of `ts` are tokens.
pub open spec fn all_tokens(ts: Seq<Seq<char>>) -> bool {
    forall|k: int| 0 <= k < ts.len() ==> is_token(#[trigger] ts[k])
}

/// `pat` stands in one of `ts`.
pub open spec fn any_contains(ts: Seq<Seq<char>>, pat: Seq<char>) -> bool {
    exists|k: int| 0 <= k < ts.len() && contains(#[trigger] ts[k], pat)
}

/// The tokens of a text without a comma.
pub proof fn lemma_tokens_piece(p: Seq<char>)
    requires
        !p.contains(','),
    ensures
        tokens(p) == piece_token(p),
{
    lemma_scan_char(p, ',', 0, p.len() as int);
    assert(p.subrange(0, p.len() as int) =~= p);
}

/// The tokens of a text are those before its first comma and those after it.
pub proof fn lemma_tokens_cons(p: Seq<char>, rest: Seq<char>)
    requires
        !p.contains(','),
    ensures
        tokens(p + seq![','] + rest) == piece_token(p) + tokens(rest),
{
    let s = p + seq![','] + rest;
    let n = p.len() as int;
    assert forall|m: int| 0 <= m < n implies #[trigger] s[m] != ',' by {
        assert(s[m] == p[m]);
    }
    lemma_scan_char(s, ',', 0, n);
    assert(s.subrange(0, n) =~= p);
    assert(s.subrange(n + 1, s.len() as int) =~= rest);
}

/// The first comma of a text parts it into a piece without a comma and the rest.
pub proof fn lemma_split_at_comma(s: Seq<char>) -> (i: int)
    ensures
        i == index_of(s, ','),
        0 <= i <= s.len(),
        !s.subrange(0, i).contains(','),
        i < s.len() ==> s == s.subrange(0, i) + seq![','] + s.subrange(i + 1, s.len() as int),
        i == s.len() ==> !s.contains(','),
{
    let i = index_of(s, ',');
    lemma_scan_char_stops(s, ',', 0);
    let p = s.subrange(0, i);
    assert forall|m: int| 0 <= m < p.len() implies p[m] != ',' by {
        assert(p[m] == s[m]);
    }
    if i < s.len() {
        assert(s =~= p + seq![','] + s.subrange(i + 1, s.len() as int));
    }
    i
}

/// Every token is trimmed, not empty, and without a comma.
pub proof fn lemma_tokens_are_tokens(s: Seq<char>)
    ensures
        all_tokens(tokens(s)),
    decreases s.len(),
{
    let i = lemma_split_at_comma(s);
    let p = s.subrange(0, i);
    let (lo, hi) = lemma_trim_part(p);
    let t = trim(p);
    assert forall|m: int| 0 <= m < t.len() implies t[m] != ',' by {
        assert(t[m] == p[lo + m]);
    }
    if i < s.len() {
        let rest = s.subrange(i + 1, s.len() as int);
        lemma_tokens_are_tokens(rest);
        assert forall|k: int| 0 <= k < tokens(s).len() implies is_token(
            #[trigger] tokens(s)[k],
        ) by {
            if k >= piece_token(p).len() {
                assert(tokens(s)[k] == tokens(rest)[k - piece_token(p).len()]);
            }
        }
    }
}

/// A character that does not occur in a text occurs in none of its tokens.
pub proof fn lemma_tokens_lack(s: Seq<char>, c: char)
    requires
        !s.contains(c),
    ensures
        forall|k: int| 0 <= k < tokens(s).len() ==> !(#[trigger] tokens(s)[k]).contains(c),
    decreases s.len(),
{
    let i = lemma_split_at_comma(s);
    let p = s.subrange(0, i);
    let (lo, hi) = lemma_trim_part(p);
    let t = trim(p);
    assert(!t.contains(c)) by {
        if t.contains(c) {
            let m = choose|m: int| 0 <= m < t.len() && t[m] == c;
            assert(t[m] == p[lo + m]);
            assert(s[lo + m] == c);
        }
    }
    if i < s.len() {
        let rest = s.subrange(i + 1, s.len() as int);
        assert(!rest.contains(c)) by {
            if rest.contains(c) {
                let m = choose|m: int| 0 <= m < rest.len() && rest[m] == c;
                assert(s[i + 1 + m] == c);
            }
        }
        lemma_tokens_lack(rest, c);
        assert forall|k: int| 0 <= k < tokens(s).len() implies !(#[trigger] tokens(s)[k]).contains(
            c,
        ) by {
            if k >= piece_token(p).len() {
                assert(tokens(s)[k] == tokens(rest)[k - piece_token(p).len()]);
            }
        }
    }
}

/// A word stands in a text if and only if it stands in one of its tokens.
pub proof fn lemma_contains_tokens(s: Seq<char>, pat: Seq<char>)
    requires
        is_word(pat),
    ensures
        contains(s, pat) == any_contains(tokens(s), pat),
    decreases s.len(),
{
    let i = lemma_split_at_comma(s);
    let p = s.subrange(0, i);
    lemma_contains_trim(p, pat);
    let first = piece_token(p);
    if trim(p).len() == 0 {
        assert(!contains(trim(p), pat));
    }
    assert(any_contains(first, pat) == contains(p, pat)) by {
        if contains(p, pat) {
            assert(contains(first[0], pat));
        }
    }
    if i < s.len() {
        let rest = s.subrange(i + 1, s.len() as int);
        lemma_contains_tokens(rest, pat);
        let comma = seq![','];
        assert(!contains(comma, pat)) by {
            assert(crate::text::no_letters(comma));
            crate::text::lemma_no_letter_no_word(comma, pat);
        }
        lemma_contains_concat(p, comma, pat);
        lemma_contains_concat(p + comma, rest, pat);
        assert((p + comma).last() == ',');
        let ts = tokens(s);
        assert(ts == first + tokens(rest));
        if any_contains(ts, pat) {
            let k = choose|k: int| 0 <= k < ts.len() && contains(#[trigger] ts[k], pat);
            if k < first.len() {
                assert(contains(first[k], pat));
            } else {
                assert(contains(tokens(rest)[k - first.len()], pat));
            }
        }
        if any_contains(first, pat) {
            assert(contains(ts[0], pat));
        }
        if any_contains(tokens(rest), pat) {
            let k = choose|k: int|
                0 <= k < tokens(rest).len() && contains(#[trigger] tokens(rest)[k], pat);
            assert(contains(ts[k + first.len()], pat));
        }
    } else {
        assert(p =~= s);
    }
}

/// White space holds no comma.
pub proof fn lemma_space_no_comma(ws: Seq<char>)
    requires
        all_space(ws),
    ensures
        !ws.contains(','),
{
    if ws.contains(',') {
        let k = choose|k: int| 0 <= k < ws.len() && ws[k] == ',';
        assert(crate::text::is_space(ws[k]));
    }
}

/// White space at the two ends of a text does not change its tokens.
pub proof fn lemma_tokens_around(a: Seq<char>, s: Seq<char>, b: Seq<char>)
    requires
        all_space(a),
        all_space(b),
    ensures
        tokens(a + s + b) == tokens(s),
    decreases s.len(),
{
    let i = lemma_split_at_comma(s);
    let p = s.subrange(0, i);
    lemma_space_no_comma(a);
    lemma_space_no_comma(b);
    if i < s.len() {
        let rest = s.subrange(i + 1, s.len() as int);
        let none = Seq::<char>::empty();
        lemma_tokens_around(none, rest, b);
        assert(none + rest + b =~= rest + b);
        assert(a + s + b =~= (a + p) + seq![','] + (rest + b));
        assert(!(a + p).contains(',')) by {
            if (a + p).contains(',') {
                let k = choose|k: int| 0 <= k < (a + p).len() && (a + p)[k] == ',';
                if k < a.len() {
                    assert(a[k] == ',');
                } else {
                    assert(p[k - a.len()] == ',');
                }
            }
        }
        lemma_tokens_cons(a + p, rest + b);
        lemma_tokens_cons(p, rest);
        lemma_trim_around(a, p, none);
        assert(a + p + none =~= a + p);
    } else {
        assert(p =~= s);
        assert(!(a + s + b).contains(',')) by {
            let x = a + s + b;
            if x.contains(',') {
                let k = choose|k: int| 0 <= k < x.len() && x[k] == ',';
                if k < a.len() {
                    assert(a[k] == ',');
                } else if k < a.len() + s.len() {
                    assert(s[k - a.len()] == ',');
                } else {
                    assert(b[k - a.len() - s.len()] == ',');
                }
            }
        }
        lemma_tokens_piece(a + s + b);
        lemma_tokens_piece(s);
        lemma_trim_around(a, s, b);
    }
}

/// A token, white space, a comma and more text: the tokens are that token and those of
/// the text.
pub proof fn lemma_tokens_word(t: Seq<char>, ws: Seq<char>, rest: Seq<char>)
    requires
        is_token(t),
        all_space(ws),
    ensures
        tokens(t + ws + seq![','] + rest) == seq![t] + tokens(rest),
{
    lemma_space_no_comma(ws);
    assert(!(t + ws).contains(',')) by {
        if (t + ws).contains(',') {
            let k = choose|k: int| 0 <= k < (t + ws).len() && (t + ws)[k] == ',';
            if k < t.len() {
                assert(t[k] == ',');
            } else {
                assert(ws[k - t.len()] == ',');
            }
        }
    }
    lemma_tokens_cons(t + ws, rest);
    lemma_trim_of_padded(Seq::empty(), t, ws);
    assert(Seq::<char>::empty() + t + ws =~= t + ws);
}

/// A token and white space: the one token.
pub proof fn lemma_tokens_last(t: Seq<char>, ws: Seq<char>)
    requires
        is_token(t),
        all_space(ws),
    ensures
        tokens(t + ws) == seq![t],
{
    let none = Seq::<char>::empty();
    lemma_tokens_around(none, t, ws);
    assert(none + t + ws =~= t + ws);
    lemma_tokens_piece(t);
    lemma_trim_of_padded(none, t, none);
    assert(none + t + none =~= t);
}

/// White space has no tokens.
pub proof fn lemma_tokens_spaces(ws: Seq<char>)
    requires
        all_space(ws),
    ensures
        tokens(ws) == Seq::<Seq<char>>::empty(),
{
    let none = Seq::<char>::empty();
    lemma_space_no_comma(ws);
    lemma_tokens_piece(ws);
    lemma_trim_of_padded(ws, none, none);
    assert(ws + none + none =~= ws);
}

/// Selecting from two sequences put together selects from each.
pub proof fn lemma_select_concat(
    a: Seq<Seq<char>>,
    b: Seq<Seq<char>>,
    vocab: Seq<Seq<char>>,
    tagged: bool,
)
    ensures
        select(a + b, vocab, tagged) == select(a, vocab, tagged) + select(b, vocab, tagged),
    decreases b.len(),
{
    if b.len() == 0 {
        assert(a + b =~= a);
        assert(select(a, vocab, tagged) + select(b, vocab, tagged) =~= select(a, vocab, tagged));
    } else {
        lemma_select_concat(a, b.drop_last(), vocab, tagged);
        assert((a + b).drop_last() =~= a + b.drop_last());
        assert((a + b).last() == b.last());
        let front = select(a, vocab, tagged) + select(b.drop_last(), vocab, tagged);
        if vocab.contains(b.last()) == tagged {
            assert(front.push(b.last()) =~= select(a, vocab, tagged) + select(
                b.drop_last(),
                vocab,
                tagged,
            ).push(b.last()));
        }
    }
}

/// Where every token is on the chosen side of the vocabulary, all are selected; where
/// none is, none.
pub proof fn lemma_select_all_or_none(ts: Seq<Seq<char>>, vocab: Seq<Seq<char>>, tagged: bool)
    ensures
        (forall|k: int| 0 <= k < ts.len() ==> vocab.contains(#[trigger] ts[k]) == tagged)
            ==> select(ts, vocab, tagged) == ts,
        (forall|k: int| 0 <= k < ts.len() ==> vocab.contains(#[trigger] ts[k]) != tagged)
            ==> select(ts, vocab, tagged) == Seq::<Seq<char>>::empty(),
    decreases ts.len(),
{
    if ts.len() > 0 {
        let front = ts.drop_last();
        lemma_select_all_or_none(front, vocab, tagged);
        if forall|k: int| 0 <= k < ts.len() ==> vocab.contains(#[trigger] ts[k]) == tagged {
            assert forall|k: int| 0 <= k < front.len() implies vocab.contains(
                #[trigger] front[k],
            ) == tagged by {
                assert(front[k] == ts[k]);
            }
            assert(vocab.contains(ts[ts.len() - 1]) == tagged);
            assert(front.push(ts.last()) =~= ts);
        }
        if forall|k: int| 0 <= k < ts.len() ==> vocab.contains(#[trigger] ts[k]) != tagged {
            assert forall|k: int| 0 <= k < front.len() implies vocab.contains(
                #[trigger] front[k],
            ) != tagged by {
                assert(front[k] == ts[k]);
            }
            assert(vocab.contains(ts[ts.len() - 1]) != tagged);
        }
    } else {
        assert(ts =~= Seq::<Seq<char>>::empty());
    }
}

/// What is selected is among the tokens, on the chosen side of the vocabulary; and every
/// token on that side is selected.
pub proof fn lemma_select_members(ts: Seq<Seq<char>>, vocab: Seq<Seq<char>>, tagged: bool)
    ensures
        forall|t: Seq<char>|
            #[trigger] select(ts, vocab, tagged).contains(t) <==> ts.contains(t)
                && vocab.contains(t) == tagged,
        select(ts, vocab, tagged).len() <= ts.len(),
    decreases ts.len(),
{
    let sel = select(ts, vocab, tagged);
    if ts.len() > 0 {
        let front = ts.drop_last();
        lemma_select_members(front, vocab, tagged);
        let rest = select(front, vocab, tagged);
        assert forall|t: Seq<char>|
            #[trigger] sel.contains(t) <==> ts.contains(t) && vocab.contains(t) == tagged by {
            if sel.contains(t) {
                let k = choose|k: int| 0 <= k < sel.len() && sel[k] == t;
                if k < rest.len() {
                    assert(rest[k] == t);
                    assert(rest.contains(t));
                    let j = choose|j: int| 0 <= j < front.len() && front[j] == t;
                    assert(ts[j] == t);
                } else {
                    assert(ts[ts.len() - 1] == t);
                }
            }
            if ts.contains(t) && vocab.contains(t) == tagged {
                let j = choose|j: int| 0 <= j < ts.len() && ts[j] == t;
                if j < front.len() {
                    assert(front[j] == t);
                    assert(rest.contains(t));
                    let k = choose|k: int| 0 <= k < rest.len() && rest[k] == t;
                    assert(sel[k] == t);
                } else {
                    assert(sel[sel.len() - 1] == t);
                }
            }
        }
    }
}

/// The metadata of one task, split.
pub struct MetaItems<'a> {
    /// The status tags, as they stand in the line.
    pub tags: Vec<&'a str>,
    /// The other items, as they stand in the line.
    pub udis: Vec<&'a str>,
}

/// Tells whether `word` is one of `vocab`.
pub fn in_vocabulary(vocab: &[&str; 4], word: &str) -> (r: bool)
    ensures
        r == vocab.deep_view().contains(word@),
{
    let mut k: usize = 0;
    while k < 4
        invariant
            k <= 4,
            forall|j: int| 0 <= j < k ==> #[trigger] vocab.deep_view()[j] != word@,
        decreases 4 - k,
    {
        if str_eq(vocab[k], word) {
            assert(vocab.deep_view()[k as int] == word@);
            return true;
        }
        k += 1;
    }
    false
}

/// Splits the metadata of a task at its commas. A piece that is one of `tags` is a status
/// tag wherever it stands; every other piece that is not empty is an item.
pub fn split_meta_tags<'a>(tags: [&str; 4], metadata: &'a str) -> (r: MetaItems<'a>)
    ensures
        r.tags.deep_view() == tags_of(metadata@, tags.deep_view()),
        r.udis.deep_view() == udis_of(metadata@, tags.deep_view()),
{
    let cs = chars_of(metadata);
    let n = cs.len();
    let mut task_tags: Vec<&'a str> = Vec::new();
    let mut task_udis: Vec<&'a str> = Vec::new();
    let ghost vocab = tags.deep_view();
    let ghost mut seen: Seq<Seq<char>> = Seq::empty();
    let mut i: usize = 0;
    proof {
        assert(cs@.subrange(0, n as int) =~= cs@);
        assert(seen + tokens(cs@) =~= tokens(cs@));
        assert(task_tags.deep_view() =~= select(seen, vocab, true));
        assert(task_udis.deep_view() =~= select(seen, vocab, false));
    }
    loop
        invariant_except_break
            seen + tokens(cs@.subrange(i as int, n as int)) == tokens(cs@),
        invariant
            n == cs.len(),
            cs@ == metadata@,
            vocab == tags.deep_view(),
            i <= n,
            task_tags.deep_view() == select(seen, vocab, true),
            task_udis.deep_view() == select(seen, vocab, false),
        ensures
            seen == tokens(cs@),
            task_tags.deep_view() == select(seen, vocab, true),
            task_udis.deep_view() == select(seen, vocab, false),
        decreases n - i,
    {
        let j = find_char(&cs, ',', i, n);
        let (a, b) = trim_bounds(&cs, i, j);
        let ghost rest = cs@.subrange(i as int, n as int);
        let ghost before = seen;
        proof {
            assert(rest.subrange(0, j - i) =~= cs@.subrange(i as int, j as int));
            assert(index_of(rest, ',') == j - i) by {
                crate::text::lemma_scan_char(rest, ',', 0, j - i);
            }
        }
        if a < b {
            let word = metadata.substring_char(a, b);
            proof {
                seen = seen.push(word@);
                assert(seen.drop_last() =~= before);
            }
            if in_vocabulary(&tags, word) {
                let ghost old_tags = task_tags.deep_view();
                task_tags.push(word);
                assert(task_tags.deep_view() =~= old_tags.push(word@));
            } else {
                let ghost old_udis = task_udis.deep_view();
                task_udis.push(word);
                assert(task_udis.deep_view() =~= old_udis.push(word@));
            }
        }
        if j == n {
            proof {
                assert(before + Seq::<Seq<char>>::empty() =~= before);
                if a < b {
                    assert(before + seq![seen.last()] =~= seen);
                }
            }
            break;
        }
        proof {
            assert(rest.subrange(j - i + 1, rest.len() as int) =~= cs@.subrange(
                j + 1,
                n as int,
            ));
            let tail = tokens(cs@.subrange(j + 1, n as int));
            if a < b {
                assert(before + (seq![seen.last()] + tail) =~= seen + tail);
            }
        }
        i = j + 1;
    }
    MetaItems { tags: task_tags, udis: task_udis }
}

} // verus!
