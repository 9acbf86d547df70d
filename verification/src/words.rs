//! What holds of the fixed words: the configuration words, the status tags, and the word
//! that opens a section.
use vstd::prelude::*;
use crate::classify::{keywords, task_tags};
use crate::text::{contains, is_word, lemma_occurs_chars, occurs_at};

verus! {

/// `pat` stands in none of the status tags.
pub open spec fn tag_free(pat: Seq<char>) -> bool {
    forall|k: int| 0 <= k < task_tags().len() ==> !contains(#[trigger] task_tags()[k], pat)
}

/// A word that is made of letters and stands in no status tag.
pub open spec fn is_free_word(pat: Seq<char>) -> bool {
    is_word(pat) && tag_free(pat)
}

/// A letter of the word `section`.
pub open spec fn is_section_letter(c: char) -> bool {
    c == 's' || c == 'e' || c == 'c' || c == 't' || c == 'i' || c == 'o' || c == 'n'
}

/// A word that is made of letters and does not stand in the word `section`.
pub open spec fn is_key_word(pat: Seq<char>) -> bool {
    is_word(pat) && !contains("section"@, pat)
}

/// The word `section` is made of letters and stands in no status tag.
pub proof fn lemma_section_is_free()
    ensures
        is_free_word("section"@),
{
    reveal_strlit("done");
    reveal_strlit("active");
    reveal_strlit("crit");
    reveal_strlit("milestone");
    reveal_strlit("section");
    let t = task_tags();
    assert(t[0] == "done"@ && t[1] == "active"@ && t[2] == "crit"@ && t[3] == "milestone"@);
    assert(is_word("section"@));
    assert forall|k: int| 0 <= k < t.len() implies !contains(#[trigger] t[k], "section"@) by {
        let s = t[k];
        if contains(s, "section"@) {
            let i = choose|i: int| occurs_at(s, "section"@, i);
            lemma_occurs_chars(s, "section"@, i);
            assert(s[i + 0] == "section"@[0]);
            assert(s[i + 1] == "section"@[1]);
            assert(false);
        }
    }
}

/// A word with a letter that does not occur in `section` does not stand in it.
pub proof fn lemma_no_part_by_letter(pat: Seq<char>, j: int)
    requires
        0 <= j < pat.len(),
        !is_section_letter(pat[j]),
    ensures
        !contains("section"@, pat),
{
    reveal_strlit("section");
    if contains("section"@, pat) {
        let i = choose|i: int| occurs_at("section"@, pat, i);
        lemma_occurs_chars("section"@, pat, i);
        assert("section"@[i + j] == pat[j]);
        assert(false);
    }
}

/// The first six of the configuration words are made of letters and do not stand in the word
/// `section`.
pub proof fn lemma_keywords_first()
    ensures
        is_key_word("axisFormat"@),
        is_key_word("barGap"@),
        is_key_word("barHeight"@),
        is_key_word("bottomMarginAdj"@),
        is_key_word("dateFormat"@),
        is_key_word("displayMode"@),
{
    reveal_strlit("axisFormat");
    reveal_strlit("barGap");
    reveal_strlit("barHeight");
    reveal_strlit("bottomMarginAdj");
    reveal_strlit("dateFormat");
    reveal_strlit("displayMode");
    assert(is_word("axisFormat"@));
    lemma_no_part_by_letter("axisFormat"@, 0);
    assert(is_word("barGap"@));
    lemma_no_part_by_letter("barGap"@, 0);
    assert(is_word("barHeight"@));
    lemma_no_part_by_letter("barHeight"@, 0);
    assert(is_word("bottomMarginAdj"@));
    lemma_no_part_by_letter("bottomMarginAdj"@, 0);
    assert(is_word("dateFormat"@));
    lemma_no_part_by_letter("dateFormat"@, 0);
    assert(is_word("displayMode"@));
    lemma_no_part_by_letter("displayMode"@, 0);
}

/// The next six of the configuration words are made of letters and do not stand in the word
/// `section`.
pub proof fn lemma_keywords_second()
    ensures
        is_key_word("excludes"@),
        is_key_word("fontSize"@),
        is_key_word("gantt"@),
        is_key_word("gridLineStartPadding"@),
        is_key_word("leftPadding"@),
        is_key_word("mirrorActor"@),
{
    reveal_strlit("excludes");
    reveal_strlit("fontSize");
    reveal_strlit("gantt");
    reveal_strlit("gridLineStartPadding");
    reveal_strlit("leftPadding");
    reveal_strlit("mirrorActor");
    assert(is_word("excludes"@));
    lemma_no_part_by_letter("excludes"@, 1);
    assert(is_word("fontSize"@));
    lemma_no_part_by_letter("fontSize"@, 0);
    assert(is_word("gantt"@));
    lemma_no_part_by_letter("gantt"@, 0);
    assert(is_word("gridLineStartPadding"@));
    lemma_no_part_by_letter("gridLineStartPadding"@, 0);
    assert(is_word("leftPadding"@));
    lemma_no_part_by_letter("leftPadding"@, 0);
    assert(is_word("mirrorActor"@));
    lemma_no_part_by_letter("mirrorActor"@, 0);
}

/// The six after those of the configuration words are made of letters and do not stand in the word
/// `section`.
pub proof fn lemma_keywords_third()
    ensures
        is_key_word("numberSectionStyles"@),
        is_key_word("rightPadding"@),
        is_key_word("sectionFontSize"@),
        is_key_word("tickInterval"@),
        is_key_word("title"@),
        is_key_word("titleTopMargin"@),
{
    reveal_strlit("numberSectionStyles");
    reveal_strlit("rightPadding");
    reveal_strlit("sectionFontSize");
    reveal_strlit("tickInterval");
    reveal_strlit("title");
    reveal_strlit("titleTopMargin");
    assert(is_word("numberSectionStyles"@));
    lemma_no_part_by_letter("numberSectionStyles"@, 1);
    assert(is_word("rightPadding"@));
    lemma_no_part_by_letter("rightPadding"@, 0);
    assert(is_word("sectionFontSize"@));
    lemma_no_part_by_letter("sectionFontSize"@, 7);
    assert(is_word("tickInterval"@));
    lemma_no_part_by_letter("tickInterval"@, 3);
    assert(is_word("title"@));
    lemma_no_part_by_letter("title"@, 3);
    assert(is_word("titleTopMargin"@));
    lemma_no_part_by_letter("titleTopMargin"@, 3);
}

/// The last five of the configuration words are made of letters and do not stand in the word
/// `section`.
pub proof fn lemma_keywords_fourth()
    ensures
        is_key_word("todayMarker"@),
        is_key_word("topAxis"@),
        is_key_word("topPadding"@),
        is_key_word("weekday"@),
        is_key_word("weekend"@),
{
    reveal_strlit("todayMarker");
    reveal_strlit("topAxis");
    reveal_strlit("topPadding");
    reveal_strlit("weekday");
    reveal_strlit("weekend");
    assert(is_word("todayMarker"@));
    lemma_no_part_by_letter("todayMarker"@, 2);
    assert(is_word("topAxis"@));
    lemma_no_part_by_letter("topAxis"@, 2);
    assert(is_word("topPadding"@));
    lemma_no_part_by_letter("topPadding"@, 2);
    assert(is_word("weekday"@));
    lemma_no_part_by_letter("weekday"@, 0);
    assert(is_word("weekend"@));
    lemma_no_part_by_letter("weekend"@, 0);
}

/// Every configuration word is made of letters and does not stand in the word `section`.
pub proof fn lemma_keywords()
    ensures
        keywords().len() == 23,
        forall|k: int| 0 <= k < 23 ==> is_key_word(#[trigger] keywords()[k]),
        is_key_word("gantt"@),
        is_free_word("section"@),
{
    lemma_keywords_first();
    lemma_keywords_second();
    lemma_keywords_third();
    lemma_keywords_fourth();
    lemma_section_is_free();
    let w = keywords();
    assert(w[0] == "axisFormat"@);
    assert(w[1] == "barGap"@);
    assert(w[2] == "barHeight"@);
    assert(w[3] == "bottomMarginAdj"@);
    assert(w[4] == "dateFormat"@);
    assert(w[5] == "displayMode"@);
    assert(w[6] == "excludes"@);
    assert(w[7] == "fontSize"@);
    assert(w[8] == "gantt"@);
    assert(w[9] == "gridLineStartPadding"@);
    assert(w[10] == "leftPadding"@);
    assert(w[11] == "mirrorActor"@);
    assert(w[12] == "numberSectionStyles"@);
    assert(w[13] == "rightPadding"@);
    assert(w[14] == "sectionFontSize"@);
    assert(w[15] == "tickInterval"@);
    assert(w[16] == "title"@);
    assert(w[17] == "titleTopMargin"@);
    assert(w[18] == "todayMarker"@);
    assert(w[19] == "topAxis"@);
    assert(w[20] == "topPadding"@);
    assert(w[21] == "weekday"@);
    assert(w[22] == "weekend"@);
}

} // verus!
