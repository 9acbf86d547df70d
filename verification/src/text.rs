//! Characters and character sequences: white space, trimming, searching.
use vstd::prelude::*;
use vstd::string::*;

verus! {

/// White space as Unicode defines it (the property `White_Space`).
pub open spec fn is_space(c: char) -> bool {
    let n = c as u32;
    (0x09 <= n <= 0x0D) || n == 0x20 || n == 0x85 || n == 0xA0 || n == 0x1680 || (0x2000 <= n
        <= 0x200A) || n == 0x2028 || n == 0x2029 || n == 0x202F || n == 0x205F || n == 0x3000
}

/// The first index at or after `i` that holds no white space; the length if there is none.
pub open spec fn skip_spaces(s: Seq<char>, i: int) -> int
    decreases s.len() - i,
{
    if 0 <= i < s.len() && is_space(s[i]) {
        skip_spaces(s, i + 1)
    } else {
        i
    }
}

/// The end of `s` once the white space before index `j` is dropped, never below `lo`.
pub open spec fn drop_spaces(s: Seq<char>, lo: int, j: int) -> int
    decreases j,
{
    if 0 <= lo < j <= s.len() && is_space(s[j - 1]) {
        drop_spaces(s, lo, j - 1)
    } else {
        j
    }
}

/// `s` without the white space at its two ends.
pub open spec fn trim(s: Seq<char>) -> Seq<char> {
    let lo = skip_spaces(s, 0);
    s.subrange(lo, drop_spaces(s, lo, s.len() as int))
}

/// Every character of `s` is white space.
pub open spec fn all_space(s: Seq<char>) -> bool {
    forall|i: int| 0 <= i < s.len() ==> is_space(#[trigger] s[i])
}

/// `s` neither begins nor ends with white space.
pub open spec fn is_trimmed(s: Seq<char>) -> bool {
    s.len() == 0 || (!is_space(s[0]) && !is_space(s[s.len() - 1]))
}

/// `pat` stands in `s` at index `i`.
pub open spec fn occurs_at(s: Seq<char>, pat: Seq<char>, i: int) -> bool {
    0 <= i && i + pat.len() <= s.len() && s.subrange(i, i + pat.len()) == pat
}

/// `pat` stands somewhere in `s`.
pub open spec fn contains(s: Seq<char>, pat: Seq<char>) -> bool {
    exists|i: int| occurs_at(s, pat, i)
}

/// `s` begins with `pat`.
pub open spec fn starts_with(s: Seq<char>, pat: Seq<char>) -> bool {
    occurs_at(s, pat, 0)
}

/// The first index at or after `i` where `pat` stands in `s`; if there is none, the first
/// index from which `pat` no longer fits.
pub open spec fn find_from(s: Seq<char>, pat: Seq<char>, i: int) -> int
    decreases s.len() + 1 - i,
{
    if 0 <= i && i + pat.len() <= s.len() && !occurs_at(s, pat, i) {
        find_from(s, pat, i + 1)
    } else {
        i
    }
}

/// The index of the first `c` in `s` at or after `i`; the length if there is none.
pub open spec fn scan_char(s: Seq<char>, c: char, i: int) -> int
    decreases s.len() - i,
{
    if 0 <= i < s.len() && s[i] != c {
        scan_char(s, c, i + 1)
    } else {
        i
    }
}

/// The index of the first `c` in `s`; the length if there is none.
pub open spec fn index_of(s: Seq<char>, c: char) -> int {
    scan_char(s, c, 0)
}

/// A letter of the Latin alphabet, without accents.
pub open spec fn is_letter(c: char) -> bool {
    let n = c as u32;
    (0x41 <= n <= 0x5A) || (0x61 <= n <= 0x7A)
}

/// A word: at least one letter, and letters only.
pub open spec fn is_word(s: Seq<char>) -> bool {
    s.len() > 0 && forall|i: int| 0 <= i < s.len() ==> is_letter(#[trigger] s[i])
}

/// `s` holds no letter.
pub open spec fn no_letters(s: Seq<char>) -> bool {
    forall|i: int| 0 <= i < s.len() ==> !is_letter(#[trigger] s[i])
}

/// `n` blanks.
pub open spec fn spaces(n: nat) -> Seq<char> {
    Seq::new(n, |i: int| ' ')
}

pub proof fn lemma_skip_spaces(s: Seq<char>, i: int, k: int)
    requires
        0 <= i <= k <= s.len(),
        forall|m: int| i <= m < k ==> is_space(#[trigger] s[m]),
        k == s.len() || !is_space(s[k]),
    ensures
        skip_spaces(s, i) == k,
    decreases k - i,
{
    if i < k {
        lemma_skip_spaces(s, i + 1, k);
    }
}

pub proof fn lemma_drop_spaces(s: Seq<char>, lo: int, j: int, k: int)
    requires
        0 <= lo <= k <= j <= s.len(),
        forall|m: int| k <= m < j ==> is_space(#[trigger] s[m]),
        k == lo || !is_space(s[k - 1]),
    ensures
        drop_spaces(s, lo, j) == k,
    decreases j - k,
{
    if k < j {
        lemma_drop_spaces(s, lo, j - 1, k);
    }
}

/// What `trim` returns, told by the two ends of the part that stays.
pub proof fn lemma_trim_is(s: Seq<char>, a: int, b: int)
    requires
        0 <= a <= b <= s.len(),
        forall|m: int| 0 <= m < a ==> is_space(#[trigger] s[m]),
        forall|m: int| b <= m < s.len() ==> is_space(#[trigger] s[m]),
        a == b || (!is_space(s[a]) && !is_space(s[b - 1])),
    ensures
        trim(s) == s.subrange(a, b),
{
    if a == b {
        lemma_skip_spaces(s, 0, s.len() as int);
        assert(drop_spaces(s, s.len() as int, s.len() as int) == s.len());
        assert(s.subrange(s.len() as int, s.len() as int) =~= s.subrange(a, b));
    } else {
        lemma_skip_spaces(s, 0, a);
        lemma_drop_spaces(s, a, s.len() as int, b);
    }
}

pub proof fn lemma_scan_char(s: Seq<char>, c: char, i: int, k: int)
    requires
        0 <= i <= k <= s.len(),
        forall|m: int| i <= m < k ==> #[trigger] s[m] != c,
        k == s.len() || s[k] == c,
    ensures
        scan_char(s, c, i) == k,
    decreases k - i,
{
    if i < k {
        lemma_scan_char(s, c, i + 1, k);
    }
}

pub proof fn lemma_find_from(s: Seq<char>, pat: Seq<char>, i: int, k: int)
    requires
        0 <= i <= k,
        forall|m: int| i <= m < k ==> !occurs_at(s, pat, m),
        k + pat.len() > s.len() || occurs_at(s, pat, k),
        k <= i || k + pat.len() <= s.len() + 1,
    ensures
        find_from(s, pat, i) == k,
    decreases k - i,
{
    if i < k {
        lemma_find_from(s, pat, i + 1, k);
    }
}

/// Where `skip_spaces` stops: only white space lies before, and none stands there.
pub proof fn lemma_skip_spaces_stops(s: Seq<char>, i: int)
    requires
        0 <= i <= s.len(),
    ensures
        i <= skip_spaces(s, i) <= s.len(),
        forall|m: int| i <= m < skip_spaces(s, i) ==> is_space(#[trigger] s[m]),
        skip_spaces(s, i) == s.len() || !is_space(s[skip_spaces(s, i)]),
    decreases s.len() - i,
{
    if i < s.len() && is_space(s[i]) {
        lemma_skip_spaces_stops(s, i + 1);
    }
}

/// Where `drop_spaces` stops: only white space lies behind, and none stands just before.
pub proof fn lemma_drop_spaces_stops(s: Seq<char>, lo: int, j: int)
    requires
        0 <= lo <= j <= s.len(),
    ensures
        lo <= drop_spaces(s, lo, j) <= j,
        forall|m: int| drop_spaces(s, lo, j) <= m < j ==> is_space(#[trigger] s[m]),
        drop_spaces(s, lo, j) == lo || !is_space(s[drop_spaces(s, lo, j) - 1]),
    decreases j,
{
    if lo < j && is_space(s[j - 1]) {
        lemma_drop_spaces_stops(s, lo, j - 1);
    }
}

/// The trimmed text is a part of the text, with white space alone on either side, and
/// has none at its own ends.
pub proof fn lemma_trim_part(s: Seq<char>) -> (r: (int, int))
    ensures
        0 <= r.0 <= r.1 <= s.len(),
        trim(s) == s.subrange(r.0, r.1),
        forall|m: int| 0 <= m < r.0 ==> is_space(#[trigger] s[m]),
        forall|m: int| r.1 <= m < s.len() ==> is_space(#[trigger] s[m]),
        is_trimmed(trim(s)),
        trim(s).len() > 0 ==> !is_space(s[r.0]) && !is_space(s[r.1 - 1]),
{
    let lo = skip_spaces(s, 0);
    lemma_skip_spaces_stops(s, 0);
    let hi = drop_spaces(s, lo, s.len() as int);
    lemma_drop_spaces_stops(s, lo, s.len() as int);
    (lo, hi)
}

/// Where `scan_char` stops: the character does not occur before, and stands there.
pub proof fn lemma_scan_char_stops(s: Seq<char>, c: char, i: int)
    requires
        0 <= i <= s.len(),
    ensures
        i <= scan_char(s, c, i) <= s.len(),
        forall|m: int| i <= m < scan_char(s, c, i) ==> #[trigger] s[m] != c,
        scan_char(s, c, i) == s.len() || s[scan_char(s, c, i)] == c,
    decreases s.len() - i,
{
    if i < s.len() && s[i] != c {
        lemma_scan_char_stops(s, c, i + 1);
    }
}

/// Where `find_from` stops: the pattern does not stand before, and stands there or no
/// longer fits.
pub proof fn lemma_find_from_stops(s: Seq<char>, pat: Seq<char>, i: int)
    requires
        0 <= i,
    ensures
        i <= find_from(s, pat, i),
        forall|m: int| i <= m < find_from(s, pat, i) ==> !occurs_at(s, pat, m),
        occurs_at(s, pat, find_from(s, pat, i)) || find_from(s, pat, i) + pat.len() > s.len(),
    decreases s.len() + 1 - i,
{
    if i + pat.len() <= s.len() && !occurs_at(s, pat, i) {
        lemma_find_from_stops(s, pat, i + 1);
    }
}

/// Text that has white space alone around it is what trimming leaves.
pub proof fn lemma_trim_of_padded(a: Seq<char>, t: Seq<char>, b: Seq<char>)
    requires
        all_space(a),
        all_space(b),
        is_trimmed(t),
    ensures
        trim(a + t + b) == t,
{
    let s = a + t + b;
    let lo = a.len() as int;
    let hi = lo + t.len();
    assert forall|m: int| 0 <= m < lo implies is_space(#[trigger] s[m]) by {
        assert(s[m] == a[m]);
    }
    assert forall|m: int| hi <= m < s.len() implies is_space(#[trigger] s[m]) by {
        assert(s[m] == b[m - hi]);
    }
    if t.len() > 0 {
        assert(s[lo] == t[0]);
        assert(s[hi - 1] == t[t.len() - 1]);
    }
    lemma_trim_is(s, lo, hi);
    assert(s.subrange(lo, hi) =~= t);
}

/// White space around a text does not change what trimming leaves of it.
pub proof fn lemma_trim_around(a: Seq<char>, p: Seq<char>, b: Seq<char>)
    requires
        all_space(a),
        all_space(b),
    ensures
        trim(a + p + b) == trim(p),
{
    let (lo, hi) = lemma_trim_part(p);
    let pa = p.subrange(0, lo);
    let pb = p.subrange(hi, p.len() as int);
    assert(a + p + b =~= (a + pa) + trim(p) + (pb + b));
    lemma_trim_of_padded(a + pa, trim(p), pb + b);
}

/// Trimming what is trimmed changes nothing.
pub proof fn lemma_trim_again(s: Seq<char>)
    ensures
        trim(trim(s)) == trim(s),
{
    let t = trim(s);
    let _ = lemma_trim_part(s);
    lemma_trim_of_padded(Seq::empty(), t, Seq::empty());
    assert(Seq::<char>::empty() + t + Seq::<char>::empty() =~= t);
}

/// Where a pattern stands, the text holds the characters of the pattern.
pub proof fn lemma_occurs_chars(s: Seq<char>, pat: Seq<char>, i: int)
    requires
        occurs_at(s, pat, i),
    ensures
        forall|m: int| 0 <= m < pat.len() ==> s[i + m] == #[trigger] pat[m],
{
    assert forall|m: int| 0 <= m < pat.len() implies s[i + m] == #[trigger] pat[m] by {
        assert(s.subrange(i, i + pat.len())[m] == s[i + m]);
    }
}

/// A word stands in two texts put together if it stands in one of them, and only then,
/// as long as no letter ends the first or none begins the second.
pub proof fn lemma_contains_concat(x: Seq<char>, y: Seq<char>, pat: Seq<char>)
    requires
        is_word(pat),
        x.len() > 0 && y.len() > 0 ==> !is_letter(x.last()) || !is_letter(y[0]),
    ensures
        contains(x + y, pat) == (contains(x, pat) || contains(y, pat)),
{
    let s = x + y;
    let n = pat.len() as int;
    if contains(s, pat) {
        let i = choose|i: int| occurs_at(s, pat, i);
        lemma_occurs_chars(s, pat, i);
        if i + n <= x.len() {
            assert(x.subrange(i, i + n) =~= s.subrange(i, i + n));
            assert(occurs_at(x, pat, i));
        } else if i >= x.len() {
            assert(y.subrange(i - x.len(), i - x.len() + n) =~= s.subrange(i, i + n));
            assert(occurs_at(y, pat, i - x.len()));
        } else {
            assert(s[x.len() - 1] == pat[x.len() - 1 - i]);
            assert(s[x.len() as int] == pat[x.len() - i]);
            assert(s[x.len() - 1] == x.last());
            assert(s[x.len() as int] == y[0]);
            assert(false);
        }
    }
    if contains(x, pat) {
        let i = choose|i: int| occurs_at(x, pat, i);
        assert(x.subrange(i, i + n) =~= s.subrange(i, i + n));
        assert(occurs_at(s, pat, i));
    }
    if contains(y, pat) {
        let i = choose|i: int| occurs_at(y, pat, i);
        assert(y.subrange(i, i + n) =~= s.subrange(i + x.len(), i + x.len() + n));
        assert(occurs_at(s, pat, i + x.len()));
    }
}

/// No word stands in a text without letters.
pub proof fn lemma_no_letter_no_word(s: Seq<char>, pat: Seq<char>)
    requires
        is_word(pat),
        no_letters(s),
    ensures
        !contains(s, pat),
{
    if contains(s, pat) {
        let i = choose|i: int| occurs_at(s, pat, i);
        lemma_occurs_chars(s, pat, i);
        assert(s[i + 0] == pat[0]);
    }
}

/// A word stands in two texts with something without letters between them if it stands
/// in one of the two, and only then.
pub proof fn lemma_contains_apart(x: Seq<char>, sep: Seq<char>, y: Seq<char>, pat: Seq<char>)
    requires
        is_word(pat),
        no_letters(sep),
        sep.len() > 0 || x.len() == 0 || y.len() == 0,
    ensures
        contains(x + sep + y, pat) == (contains(x, pat) || contains(y, pat)),
{
    lemma_no_letter_no_word(sep, pat);
    if sep.len() > 0 {
        assert(sep[0] == sep.first());
        assert(!is_letter(sep[sep.len() - 1]));
        lemma_contains_concat(x, sep, pat);
        assert((x + sep).last() == sep.last());
        lemma_contains_concat(x + sep, y, pat);
    } else {
        assert(x + sep =~= x);
        lemma_contains_concat(x, y, pat);
    }
}

/// A word stands in a text if and only if it stands in the trimmed text.
pub proof fn lemma_contains_trim(s: Seq<char>, pat: Seq<char>)
    requires
        is_word(pat),
    ensures
        contains(trim(s), pat) == contains(s, pat),
{
    let (lo, hi) = lemma_trim_part(s);
    let a = s.subrange(0, lo);
    let t = trim(s);
    let b = s.subrange(hi, s.len() as int);
    assert(s =~= a + t + b);
    assert(no_letters(a));
    assert(no_letters(b));
    lemma_no_letter_no_word(a, pat);
    lemma_no_letter_no_word(b, pat);
    lemma_contains_concat(a, t, pat);
    lemma_contains_concat(a + t, b, pat);
}

/// A character occurs in two texts put together if and only if it occurs in one of them.
pub proof fn lemma_has_concat(a: Seq<char>, b: Seq<char>, c: char)
    ensures
        (a + b).contains(c) == (a.contains(c) || b.contains(c)),
{
    let s = a + b;
    if s.contains(c) {
        let m = choose|m: int| 0 <= m < s.len() && s[m] == c;
        if m < a.len() {
            assert(a[m] == c);
        } else {
            assert(b[m - a.len()] == c);
        }
    }
    if a.contains(c) {
        let m = choose|m: int| 0 <= m < a.len() && a[m] == c;
        assert(s[m] == c);
    }
    if b.contains(c) {
        let m = choose|m: int| 0 <= m < b.len() && b[m] == c;
        assert(s[m + a.len()] == c);
    }
}

/// A character that occurs in a part of a text occurs in the text.
pub proof fn lemma_has_part(s: Seq<char>, from: int, to: int, c: char)
    requires
        0 <= from <= to <= s.len(),
        s.subrange(from, to).contains(c),
    ensures
        s.contains(c),
{
    let p = s.subrange(from, to);
    let m = choose|m: int| 0 <= m < p.len() && p[m] == c;
    assert(s[from + m] == c);
}

/// A character that occurs in the trimmed text occurs in the text.
pub proof fn lemma_has_trim(s: Seq<char>, c: char)
    requires
        trim(s).contains(c),
    ensures
        s.contains(c),
{
    let (lo, hi) = lemma_trim_part(s);
    lemma_has_part(s, lo, hi, c);
}

/// The characters of `s`, one by one.
pub fn chars_of(s: &str) -> (v: Vec<char>)
    ensures
        v@ == s@,
{
    let mut v: Vec<char> = Vec::new();
    let all = s.chars();
    for c in it: all
        invariant
            it.seq() == s@,
            v@ == s@.take(it.index() as int),
    {
        v.push(c);
        assert(s@.take(it.index() + 1) =~= s@.take(it.index() as int).push(c));
    }
    assert(s@.take(s@.len() as int) =~= s@);
    v
}

/// Tells whether `c` is white space.
pub fn char_is_space(c: char) -> (r: bool)
    ensures
        r == is_space(c),
{
    let n: u32 = c as u32;
    (0x09 <= n && n <= 0x0D) || n == 0x20 || n == 0x85 || n == 0xA0 || n == 0x1680 || (0x2000
        <= n && n <= 0x200A) || n == 0x2028 || n == 0x2029 || n == 0x202F || n == 0x205F || n
        == 0x3000
}

/// The bounds of the trimmed part of `s[lo..hi]`, as indices into `s`.
pub fn trim_bounds(s: &Vec<char>, lo: usize, hi: usize) -> (r: (usize, usize))
    requires
        lo <= hi <= s.len(),
    ensures
        lo <= r.0 <= r.1 <= hi,
        s@.subrange(r.0 as int, r.1 as int) == trim(s@.subrange(lo as int, hi as int)),
{
    let mut a: usize = lo;
    while a < hi && char_is_space(s[a])
        invariant
            lo <= a <= hi <= s.len(),
            forall|m: int| lo <= m < a ==> is_space(#[trigger] s@[m]),
        decreases hi - a,
    {
        a += 1;
    }
    let mut b: usize = hi;
    while b > a && char_is_space(s[b - 1])
        invariant
            a <= b <= hi <= s.len(),
            forall|m: int| b <= m < hi ==> is_space(#[trigger] s@[m]),
        decreases b,
    {
        b -= 1;
    }
    proof {
        let t = s@.subrange(lo as int, hi as int);
        assert forall|m: int| 0 <= m < a - lo implies is_space(#[trigger] t[m]) by {
            assert(t[m] == s@[m + lo]);
        }
        assert forall|m: int| b - lo <= m < t.len() implies is_space(#[trigger] t[m]) by {
            assert(t[m] == s@[m + lo]);
        }
        lemma_trim_is(t, a - lo, b - lo);
        assert(t.subrange(a - lo, b - lo) =~= s@.subrange(a as int, b as int));
    }
    (a, b)
}

/// The index of the first `c` in `s[from..to]`, as an index into `s`; `to` if there is none.
pub fn find_char(s: &Vec<char>, c: char, from: usize, to: usize) -> (r: usize)
    requires
        from <= to <= s.len(),
    ensures
        from <= r <= to,
        r - from == index_of(s@.subrange(from as int, to as int), c),
        r < to ==> s@[r as int] == c,
        forall|m: int| from <= m < r ==> #[trigger] s@[m] != c,
{
    let mut i: usize = from;
    while i < to && s[i] != c
        invariant
            from <= i <= to <= s.len(),
            forall|m: int| from <= m < i ==> #[trigger] s@[m] != c,
        decreases to - i,
    {
        i += 1;
    }
    proof {
        let t = s@.subrange(from as int, to as int);
        assert forall|m: int| 0 <= m < i - from implies #[trigger] t[m] != c by {
            assert(t[m] == s@[m + from]);
        }
        lemma_scan_char(t, c, 0, i - from);
    }
    i
}

/// Tells whether `pat` stands in `s` at index `i`.
pub fn matches_at(s: &Vec<char>, pat: &Vec<char>, i: usize) -> (r: bool)
    ensures
        r == occurs_at(s@, pat@, i as int),
{
    if pat.len() > s.len() || i > s.len() - pat.len() {
        return false;
    }
    let mut k: usize = 0;
    while k < pat.len()
        invariant
            k <= pat.len(),
            i + pat.len() <= s.len(),
            forall|m: int| 0 <= m < k ==> s@[i + m] == #[trigger] pat@[m],
        decreases pat.len() - k,
    {
        if s[i + k] != pat[k] {
            proof {
                assert(s@.subrange(i as int, i + pat.len())[k as int] == s@[i + k]);
            }
            return false;
        }
        k += 1;
    }
    assert(s@.subrange(i as int, i + pat.len()) =~= pat@);
    true
}

/// The first index where `pat` stands in `s`, if it stands anywhere.
pub fn find_text(s: &Vec<char>, pat: &Vec<char>) -> (r: Option<usize>)
    ensures
        r is Some <==> contains(s@, pat@),
        r is Some ==> occurs_at(s@, pat@, r->0 as int) && find_from(s@, pat@, 0) == r->0,
        r is None ==> find_from(s@, pat@, 0) + pat@.len() > s@.len(),
{
    if pat.len() > s.len() {
        proof {
            lemma_find_from(s@, pat@, 0, 0);
        }
        return None;
    }
    let last: usize = s.len() - pat.len();
    let mut i: usize = 0;
    loop
        invariant
            last == s.len() - pat.len(),
            i <= last,
            forall|m: int| 0 <= m < i ==> !occurs_at(s@, pat@, m),
        decreases last - i,
    {
        if matches_at(s, pat, i) {
            proof {
                lemma_find_from(s@, pat@, 0, i as int);
            }
            return Some(i);
        }
        if i == last {
            proof {
                lemma_find_from(s@, pat@, 0, i + 1);
            }
            return None;
        }
        i += 1;
    }
}

/// Tells whether `a` and `b` hold the same characters.
pub fn str_eq(a: &str, b: &str) -> (r: bool)
    ensures
        r == (a@ == b@),
{
    let x = chars_of(a);
    let y = chars_of(b);
    if x.len() != y.len() {
        return false;
    }
    let r = matches_at(&x, &y, 0);
    assert(x@.subrange(0, y@.len() as int) =~= x@);
    r
}

/// `s` without the white space at its two ends.
pub fn trim_str<'a>(s: &'a str) -> (r: &'a str)
    ensures
        r@ == trim(s@),
{
    let cs = chars_of(s);
    let (a, b) = trim_bounds(&cs, 0, cs.len());
    assert(cs@.subrange(0, cs.len() as int) =~= cs@);
    s.substring_char(a, b)
}

} // verus!
