use gantt_format::classify::{
    classify_line, line_is_comment, line_is_commented_section, line_is_empty_before_section,
    line_is_keyword, line_is_task, line_is_title, LineKind, TASK_TAGS,
};
use gantt_format::meta::split_meta_tags;
use gantt_format::render::{
    blanks, pad_string, push_section_line, push_tags_to_task_line, push_udis_to_task_line,
};
use gantt_format::text::{char_is_space, trim_str};
use gantt_format::widths::{find_longest_string, get_task_lines, split_task_line, ColumnWidths};

#[test]
fn tags_are_told_from_items_wherever_they_stand() {
    let meta = split_meta_tags(TASK_TAGS, " a1 , done,, 2014-01-01 ,crit , 30d,");
    assert_eq!(meta.tags, vec!["done", "crit"]);
    assert_eq!(meta.udis, vec!["a1", "2014-01-01", "30d"]);
}

#[test]
fn tag_match_is_exact() {
    let meta = split_meta_tags(TASK_TAGS, "Done, active2, milestone");
    assert_eq!(meta.tags, vec!["milestone"]);
    assert_eq!(meta.udis, vec!["Done", "active2"]);
}

#[test]
fn empty_metadata_has_nothing() {
    let meta = split_meta_tags(TASK_TAGS, "  , ,");
    assert!(meta.tags.is_empty());
    assert!(meta.udis.is_empty());
    let meta = split_meta_tags(TASK_TAGS, "");
    assert!(meta.tags.is_empty());
    assert!(meta.udis.is_empty());
}

#[test]
fn vocabulary_is_a_parameter() {
    let meta = split_meta_tags(["a", "b", "c", "d"], "a, done, d");
    assert_eq!(meta.tags, vec!["a", "d"]);
    assert_eq!(meta.udis, vec!["done"]);
}

#[test]
fn tag_block_is_28_wide() {
    let all: Vec<Vec<&str>> = vec![
        vec![],
        vec!["done"],
        vec!["active"],
        vec!["crit"],
        vec!["milestone"],
        vec!["done", "crit", "milestone"],
        vec!["active", "done", "crit", "milestone"],
    ];
    for tags in &all {
        let block = push_tags_to_task_line(String::new(), tags);
        assert_eq!(block.chars().count(), 28);
    }
}

#[test]
fn tag_block_columns() {
    assert_eq!(
        push_tags_to_task_line(String::from("x"), &vec!["done", "crit", "milestone"]),
        "xdone  ,  crit,  milestone,  "
    );
    assert_eq!(
        push_tags_to_task_line(String::new(), &vec!["active"]),
        "active,                     "
    );
    assert_eq!(
        push_tags_to_task_line(String::new(), &vec!["milestone"]),
        "                milestone,  "
    );
    assert_eq!(push_tags_to_task_line(String::new(), &vec![]), " ".repeat(28));
}

#[test]
fn active_goes_before_done() {
    assert_eq!(
        push_tags_to_task_line(String::new(), &vec!["done", "active"]),
        "active,                     "
    );
}

#[test]
fn three_items_are_id_start_end() {
    let w = ColumnWidths { title: 0, id: 4, start: 5, end: 3 };
    assert_eq!(
        push_udis_to_task_line(String::from(">"), &vec!["a", "b", "c"], w),
        ">a   ,  b    ,  c  "
    );
}

#[test]
fn two_items_are_start_end() {
    let w = ColumnWidths { title: 0, id: 4, start: 5, end: 3 };
    assert_eq!(push_udis_to_task_line(String::from(">"), &vec!["b", "c"], w), ">       b    ,  c  ");
}

#[test]
fn one_item_is_end() {
    let w = ColumnWidths { title: 0, id: 4, start: 5, end: 3 };
    assert_eq!(push_udis_to_task_line(String::from(">"), &vec!["c"], w), ">               c  ");
}

#[test]
fn no_item_or_more_than_three_give_nothing() {
    let w = ColumnWidths { title: 0, id: 4, start: 5, end: 3 };
    assert_eq!(push_udis_to_task_line(String::from(">"), &vec![], w), ">");
    assert_eq!(push_udis_to_task_line(String::from(">"), &vec!["a", "b", "c", "d"], w), ">");
}

#[test]
fn item_longer_than_its_column_is_kept_whole() {
    let w = ColumnWidths { title: 0, id: 1, start: 1, end: 1 };
    assert_eq!(push_udis_to_task_line(String::new(), &vec!["aaa", "bb", "c"], w), "aaa,  bb,  c");
}

#[test]
fn padding_fills_to_the_width() {
    assert_eq!(pad_string(String::from("ab"), 5), "ab   ");
    assert_eq!(pad_string(String::from("ab"), 2), "ab");
    assert_eq!(pad_string(String::from("abc"), 2), "abc");
    assert_eq!(pad_string(String::new(), 3), "   ");
    assert_eq!(pad_string(String::from("é"), 3), "é  ");
    assert_eq!(blanks(0), "");
    assert_eq!(blanks(4), "    ");
}

#[test]
fn longest_string_is_the_first_of_the_longest() {
    assert_eq!(find_longest_string(&[]), None);
    assert_eq!(find_longest_string(&["a"]), Some("a"));
    assert_eq!(find_longest_string(&["ab", "cde", "fgh", "i"]), Some("cde"));
    assert_eq!(find_longest_string(&["ééé", "abcd"]), Some("abcd"));
}

#[test]
fn task_lines_are_those_with_a_colon_but_configuration_and_commented_sections() {
    let lines = vec![
        "gantt",
        "  title T: x",
        "  a task : 1d  ",
        "%% b : 2d",
        "%% section old : 2d",
        "section S",
        "section T: u",
        "no colon",
        "with excludes word : 3d",
        "c:",
    ];
    assert_eq!(
        get_task_lines(&lines),
        vec!["a task : 1d", "%% b : 2d", "section T: u", "with excludes word : 3d", "c:"]
    );
    assert_eq!(get_task_lines(&vec!["Write title page : 3d"]), vec!["Write title page : 3d"]);
}

#[test]
fn task_line_splits_at_the_first_colon() {
    assert_eq!(split_task_line("  a b  : c : d "), ("a b", " c : d "));
    assert_eq!(split_task_line("%% a b  : c"), ("a b", " c"));
    assert_eq!(split_task_line("no colon "), ("no colon", ""));
    assert_eq!(split_task_line(":x"), ("", "x"));
}

#[test]
fn section_header_is_indented_after_an_empty_line() {
    assert_eq!(
        push_section_line("section   My Part ", vec![String::from("x")]),
        vec!["x", "", "  section My Part"]
    );
    assert_eq!(push_section_line("section", Vec::new()), vec!["", "  section "]);
}

#[test]
fn kinds_of_line() {
    assert!(line_is_title("gantt"));
    assert!(line_is_title("gantt chart"));
    assert!(!line_is_title(" gantt"));
    assert!(line_is_keyword("dateFormat YYYY"));
    assert!(line_is_keyword("weekend friday"));
    assert!(line_is_keyword("gantt"));
    assert!(!line_is_keyword("my title"));
    assert!(line_is_task("a : b"));
    assert!(!line_is_task("a b"));
    assert!(line_is_commented_section("%% section A"));
    assert!(!line_is_commented_section("section A"));
    assert!(!line_is_commented_section("%% sect A"));
    assert!(line_is_comment("%% note"));
    assert!(!line_is_comment("%% a : b"));
    assert!(!line_is_comment("note"));
}

#[test]
fn empty_line_before_section_is_seen() {
    let lines = vec!["", "section A", "", "x", ""];
    assert!(line_is_empty_before_section(lines[0], 0, &lines));
    assert!(!line_is_empty_before_section(lines[1], 1, &lines));
    assert!(!line_is_empty_before_section(lines[2], 2, &lines));
    assert!(!line_is_empty_before_section(lines[4], 4, &lines));
}

#[test]
fn first_rule_that_holds_decides_the_kind() {
    let lines = vec![
        "gantt",
        "title a: b",
        "%% section x: y",
        "%% note",
        "",
        "section s: t",
        "%% task : 1d",
        "task : 1d",
        "words",
        "",
    ];
    let kinds: Vec<LineKind> = (0..lines.len()).map(|i| classify_line(&lines, i)).collect();
    assert_eq!(
        kinds,
        vec![
            LineKind::Title,
            LineKind::Keyword,
            LineKind::CommentedSection,
            LineKind::Comment,
            LineKind::Skipped,
            LineKind::Section,
            LineKind::Task,
            LineKind::Task,
            LineKind::Other,
            LineKind::Blank,
        ]
    );
}

#[test]
fn white_space_is_unicode_white_space() {
    for c in [' ', '\t', '\n', '\r', '\u{0B}', '\u{0C}', '\u{85}', '\u{A0}', '\u{1680}', '\u{2000}', '\u{200A}', '\u{2028}', '\u{2029}', '\u{202F}', '\u{205F}', '\u{3000}'] {
        assert!(char_is_space(c));
    }
    for c in ['a', ':', ',', '%', '\u{200B}', '\u{180E}', '\u{FEFF}', '0'] {
        assert!(!char_is_space(c));
    }
}

#[test]
fn white_space_agrees_with_the_standard_library() {
    let mut n: u32 = 0;
    while n <= 0x10FFFF {
        if let Some(c) = char::from_u32(n) {
            assert_eq!(char_is_space(c), c.is_whitespace());
        }
        n += 1;
    }
}

#[test]
fn trimming_drops_white_space_at_both_ends() {
    assert_eq!(trim_str("  a b \t\r\n"), "a b");
    assert_eq!(trim_str("\u{3000}x\u{A0}"), "x");
    assert_eq!(trim_str("   "), "");
    assert_eq!(trim_str(""), "");
    assert_eq!(trim_str("x"), "x");
}
