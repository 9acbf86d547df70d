use gantt_format::classify::TASK_TAGS;
use gantt_format::format::{format_document, generate_new_lines, join_lines, split_lines};
use gantt_format::meta::split_meta_tags;
use gantt_format::render::push_task_line;
use gantt_format::widths::{get_max_item_lengths, split_task_line, ColumnWidths};

fn sample() -> Vec<&'static str> {
    vec![
        "gantt",
        "    title A Gantt Diagram",
        "    dateFormat YYYY-MM-DD",
        "    section Section",
        "        A task          :done, a1, 2014-01-01, 30d",
        "        Another task    :active, a2, after a1, 20d",
        "        A milestone : milestone, after a2",
        "    section Another",
        "        Task in Another :crit,taskid1,2014-01-12, 12d",
        "        another task    :taskid2,after taskid1, 24d",
    ]
}

fn sample_formatted() -> Vec<&'static str> {
    vec![
        "gantt",
        "  title A Gantt Diagram",
        "  dateFormat YYYY-MM-DD",
        "",
        "  section Section",
        "    A task           : done  ,                     a1     ,  2014-01-01   ,  30d     ",
        "    Another task     : active,                     a2     ,  after a1     ,  20d     ",
        "    A milestone      :                 milestone,                            after a2",
        "",
        "  section Another",
        "    Task in Another  :          crit,              taskid1,  2014-01-12   ,  12d     ",
        "    another task     :                             taskid2,  after taskid1,  24d     ",
        "",
    ]
}

fn colon_offset(line: &str) -> usize {
    line.chars().position(|c| c == ':').unwrap()
}

#[test]
fn sample_chart_has_the_widths_of_its_longest_entries() {
    let widths = get_max_item_lengths(TASK_TAGS, &sample());
    assert_eq!(widths, ColumnWidths { title: 15, id: 7, start: 13, end: 8 });
}

#[test]
fn sample_chart_is_laid_out_in_columns() {
    let out = generate_new_lines(&sample());
    let expected: Vec<String> = sample_formatted().iter().map(|s| s.to_string()).collect();
    assert_eq!(out, expected);
}

#[test]
fn sample_chart_text_is_formatted() {
    let text = sample().join("\n");
    let expected = sample_formatted().join("\n");
    assert_eq!(format_document(&text), expected);
}

#[test]
fn formatting_twice_changes_nothing() {
    let text = sample().join("\n");
    let once = format_document(&text);
    let twice = format_document(&once);
    assert_eq!(once, twice);
}

#[test]
fn formatting_twice_changes_nothing_with_comments_and_blank_lines() {
    let text = "gantt\n\n  title T\n%% section hidden\n%% note\n\n\nsection One\n%% a : done, x1, 1d\nb: crit, after x1, 2d\n\nfree text\n";
    let once = format_document(text);
    let twice = format_document(&once);
    assert_eq!(once, twice);
}

#[test]
fn colons_and_columns_are_aligned() {
    let out = generate_new_lines(&sample());
    let tasks: Vec<&String> = out.iter().filter(|l| l.contains(':')).collect();
    assert_eq!(tasks.len(), 5);
    for line in &tasks {
        assert_eq!(colon_offset(line), 4 + 15 + 2);
    }
    let id_at = 4 + 15 + 4 + 28;
    let start_at = id_at + 7 + 3;
    let end_at = start_at + 13 + 3;
    let row: Vec<char> = tasks[0].chars().collect();
    assert_eq!(row[id_at..id_at + 2].iter().collect::<String>(), "a1");
    assert_eq!(row[start_at..start_at + 10].iter().collect::<String>(), "2014-01-01");
    assert_eq!(row[end_at..end_at + 3].iter().collect::<String>(), "30d");
    let row: Vec<char> = tasks[2].chars().collect();
    assert_eq!(row[end_at..end_at + 8].iter().collect::<String>(), "after a2");
    let row: Vec<char> = tasks[4].chars().collect();
    assert_eq!(row[id_at..id_at + 7].iter().collect::<String>(), "taskid2");
    assert_eq!(row[start_at..start_at + 13].iter().collect::<String>(), "after taskid1");
}

#[test]
fn commented_task_keeps_its_mark_and_the_columns() {
    let mut lines = sample();
    lines.push("%% A task :done, a1, 2014-01-01, 30d");
    let out = generate_new_lines(&lines);
    let last = &out[out.len() - 2];
    assert_eq!(
        last,
        "%%  A task           : done  ,                     a1     ,  2014-01-01   ,  30d     "
    );
    assert_eq!(colon_offset(last), colon_offset(&out[5]));
    assert_eq!(last[4..], out[5][4..]);
}

#[test]
fn commented_task_counts_for_the_widths() {
    let lines = vec!["%% a very long commented title : x, 1d", "t : y, 2d"];
    let widths = get_max_item_lengths(TASK_TAGS, &lines);
    assert_eq!(widths, ColumnWidths { title: 27, id: 0, start: 1, end: 2 });
    let out = generate_new_lines(&lines);
    let gap = " ".repeat(28 + 3);
    assert_eq!(out[0], format!("%%  a very long commented title  : {}x,  1d", gap));
    assert_eq!(out[1], format!("    t{}  : {}y,  2d", " ".repeat(26), gap));
    assert_eq!(colon_offset(&out[0]), 27 + 6);
    assert_eq!(colon_offset(&out[1]), 27 + 6);
}

#[test]
fn one_empty_line_stands_before_a_section() {
    let none = generate_new_lines(&vec!["gantt", "section A", "t: 1d"]);
    let one = generate_new_lines(&vec!["gantt", "", "section A", "t: 1d"]);
    assert_eq!(none, one);
    assert_eq!(none[0], "gantt");
    assert_eq!(none[1], "");
    assert_eq!(none[2], "  section A");
}

#[test]
fn of_two_empty_lines_before_a_section_one_is_left_out() {
    let out = generate_new_lines(&vec!["gantt", "", "", "section A"]);
    assert_eq!(out, vec!["gantt", "", "", "  section A", ""]);
}

#[test]
fn empty_line_elsewhere_is_kept() {
    let out = generate_new_lines(&vec!["gantt", "", "free text", "   "]);
    assert_eq!(out, vec!["gantt", "", "free text", "", ""]);
}

#[test]
fn output_ends_with_one_empty_line() {
    let out = generate_new_lines(&sample());
    assert_eq!(out[out.len() - 1], "");
    assert_ne!(out[out.len() - 2], "");
    let none: Vec<&str> = Vec::new();
    assert_eq!(generate_new_lines(&none), vec![String::new()]);
    assert_eq!(format_document(""), "");
    assert_eq!(format_document("gantt"), "gantt\n");
}

#[test]
fn commented_section_gets_an_empty_line() {
    let out = generate_new_lines(&vec!["gantt", "  %% section Old", "%% just a note"]);
    assert_eq!(out, vec!["gantt", "", "%% section Old", "%% just a note", ""]);
}

#[test]
fn other_text_passes_unchanged() {
    let out = generate_new_lines(&vec!["   some words   "]);
    assert_eq!(out, vec!["some words", ""]);
}

#[test]
fn keyword_line_with_colon_is_no_task() {
    let out = generate_new_lines(&vec!["title My: chart", "todayMarker stroke-width:5px"]);
    assert_eq!(out, vec!["  title My: chart", "  todayMarker stroke-width:5px", ""]);
}

#[test]
fn section_title_is_what_follows_the_word() {
    let out = generate_new_lines(&vec!["section    Wide   ", "my section Two"]);
    assert_eq!(out, vec!["", "  section Wide", "", "  section Two", ""]);
}

#[test]
fn title_that_mentions_a_keyword_counts_for_the_widths() {
    let lines = vec!["Fix weekend bug : a1, 1d, 2d", "t : b, 3d"];
    let widths = get_max_item_lengths(TASK_TAGS, &lines);
    assert_eq!(widths, ColumnWidths { title: 15, id: 2, start: 2, end: 2 });
    let out = generate_new_lines(&lines);
    assert_eq!(out[0], format!("    Fix weekend bug  : {}a1,  1d,  2d", " ".repeat(28)));
    assert_eq!(out[1], format!("    t{}  : {}b ,  3d", " ".repeat(14), " ".repeat(28 + 2 + 3)));
}

#[test]
fn one_task_that_mentions_a_keyword_is_measured() {
    let lines = vec!["Write title page : 3d"];
    let widths = get_max_item_lengths(TASK_TAGS, &lines);
    assert_eq!(widths, ColumnWidths { title: 16, id: 0, start: 0, end: 2 });
    let out = generate_new_lines(&lines);
    assert_eq!(out[0], format!("    Write title page  : {}3d", " ".repeat(28 + 3 + 3)));
}

#[test]
fn colon_stands_six_behind_the_title_width_in_every_task() {
    let lines = vec![
        "1title:y",
        "%% a commented task with a long title : done, 1d",
        "short : x",
        "section S",
        "mentions dateFormat too : a, b, c, d",
    ];
    let widths = get_max_item_lengths(TASK_TAGS, &lines);
    assert_eq!(widths.title, "a commented task with a long title".chars().count());
    let out = generate_new_lines(&lines);
    let tasks: Vec<&String> = out.iter().filter(|l| l.contains(':')).collect();
    assert_eq!(tasks.len(), 4);
    for line in tasks {
        assert_eq!(colon_offset(line), widths.title + 6);
    }
    let one = generate_new_lines(&vec!["1title:y"]);
    assert_eq!(colon_offset(&one[0]), 6 + 6);
}

#[test]
fn widths_count_characters_not_bytes() {
    let lines = vec!["été : ä, ö, üü", "abcd : x"];
    let widths = get_max_item_lengths(TASK_TAGS, &lines);
    assert_eq!(widths, ColumnWidths { title: 4, id: 1, start: 1, end: 2 });
    let out = generate_new_lines(&lines);
    assert_eq!(out[0], "    été   :                             ä,  ö,  üü");
    assert_eq!(out[1], "    abcd  :                                     x ");
}

#[test]
fn widths_are_zero_without_tasks() {
    let widths = get_max_item_lengths(TASK_TAGS, &vec!["gantt", "section A"]);
    assert_eq!(widths, ColumnWidths { title: 0, id: 0, start: 0, end: 0 });
}

#[test]
fn later_task_widens_an_earlier_one() {
    let out = generate_new_lines(&vec!["a: 1d", "longer: 2d"]);
    assert_eq!(out[0], "    a       :                                   1d");
    assert_eq!(out[1], "    longer  :                                   2d");
}

#[test]
fn metadata_is_what_follows_the_first_colon() {
    let out = push_task_line("t: a:b, c", &ColumnWidths { title: 1, id: 0, start: 3, end: 1 }, Vec::new());
    assert_eq!(out, vec!["    t  :                                a:b,  c"]);
}

#[test]
fn lines_split_at_line_feeds() {
    assert_eq!(split_lines("a\nb\r\nc"), vec!["a", "b", "c"]);
    assert_eq!(split_lines("a\n\nb\n"), vec!["a", "", "b"]);
    assert_eq!(split_lines("\n"), vec![""]);
    assert_eq!(split_lines("a\r"), vec!["a\r"]);
    assert!(split_lines("").is_empty());
}

#[test]
fn lines_join_with_line_feeds() {
    assert_eq!(join_lines(&vec!["a".to_string(), "".to_string(), "b".to_string()]), "a\n\nb");
    assert_eq!(join_lines(&vec!["a".to_string(), "".to_string()]), "a\n");
    assert_eq!(join_lines(&Vec::new()), "");
}

#[test]
fn carriage_returns_vanish() {
    assert_eq!(format_document("gantt\r\n  title T\r\n"), "gantt\n  title T\n");
}

#[test]
fn formatting_twice_differs_where_a_section_header_holds_a_colon() {
    let text = "section   A: b\nt: x\n";
    let once = format_document(text);
    let twice = format_document(&once);
    assert_eq!(once, "\n  section A: b\n    t            :                                   x\n");
    assert_eq!(twice, "\n  section A: b\n    t          :                                   x\n");
}

#[test]
fn formatting_twice_changes_nothing_where_a_keyword_is_lost_with_a_fourth_item() {
    let text = "longer: a, b, c, title\nt: x\n";
    let once = format_document(text);
    let twice = format_document(&once);
    assert_eq!(once, format!("    longer  : {}\n    t       : {}x\n", " ".repeat(28), " ".repeat(34)));
    assert_eq!(twice, once);
}

#[test]
fn formatting_twice_changes_nothing_where_a_section_header_with_a_colon_is_laid_out_as_it_stands() {
    let text = "section A: b\nt: x\n";
    let once = format_document(text);
    let twice = format_document(&once);
    assert_eq!(once, format!("\n  section A: b\n    t          : {}x\n", " ".repeat(34)));
    assert_eq!(twice, once);
}

#[test]
fn formatting_twice_differs_where_two_empty_lines_stand_before_a_keyword_with_section() {
    let text = "\n\ntitle my section\n";
    let once = format_document(text);
    let twice = format_document(&once);
    assert_eq!(once, "\n  title my section\n");
    assert_eq!(twice, "  title my section\n");
}

#[test]
fn formatting_twice_changes_nothing_with_many_items_and_both_status_tags() {
    let text = "gantt\nsection S\na: done, active, x, y\nb: p, q, r, s\n%% c : crit, z\n:w\n";
    let once = format_document(text);
    let twice = format_document(&once);
    assert_eq!(once, twice);
}

#[test]
fn more_than_three_items_are_not_shown() {
    let out = generate_new_lines(&vec!["t: a, b, c, d"]);
    assert_eq!(out[0], format!("    t  : {}", " ".repeat(28)));
}

#[test]
fn tasks_say_after_formatting_what_they_said() {
    let mut lines = sample();
    lines.push("%% hidden : milestone, crit, h1, 1d");
    let out = generate_new_lines(&lines);
    let mut at = 0;
    let mut seen = 0;
    for line in &lines {
        let line = line.trim();
        if line.starts_with("section") {
            at += 1;
            assert_eq!(out[at].trim(), line);
        } else if line.contains(':') {
            let (title, meta) = split_task_line(line);
            let (new_title, new_meta) = split_task_line(out[at].trim());
            assert_eq!(new_title, title);
            let before = split_meta_tags(TASK_TAGS, meta);
            let after = split_meta_tags(TASK_TAGS, new_meta);
            assert_eq!(after.udis, before.udis);
            let mut tags = before.tags.clone();
            tags.sort();
            let mut new_tags = after.tags.clone();
            new_tags.sort();
            assert_eq!(new_tags, tags);
            assert_eq!(out[at].starts_with("%%"), line.starts_with("%%"));
            seen += 1;
        } else {
            assert_eq!(out[at].trim(), line);
        }
        at += 1;
    }
    assert_eq!(seen, 6);
    assert_eq!(at + 1, out.len());
}

#[test]
fn done_beside_active_is_not_shown() {
    let out = generate_new_lines(&vec!["t: done, active, 1d"]);
    assert_eq!(out[0], format!("    t  : active,  {}{}1d", " ".repeat(7 + 12), " ".repeat(3 + 3)));
}
