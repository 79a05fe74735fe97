use linesort::pipeline::{
    check_sorted, dedup_adjacent, finish_lines, join_lines, output_name, read_requests,
    reverse_lines, select_mode, sort_lines, strip_trailing_whitespace, trim_line_end, verdict,
    SortMode,
};

fn lines_of(items: &[&str]) -> Vec<String> {
    items.iter().map(|s| s.to_string()).collect()
}

#[test]
fn dedup_drops_repeated_neighbours_only() {
    let mut lines = lines_of(&["a", "a", "b", "a"]);
    dedup_adjacent(&mut lines);
    assert_eq!(lines, lines_of(&["a", "b", "a"]));
}

#[test]
fn dedup_on_edge_cases() {
    let mut none: Vec<String> = Vec::new();
    dedup_adjacent(&mut none);
    assert!(none.is_empty());
    let mut one = lines_of(&["x"]);
    dedup_adjacent(&mut one);
    assert_eq!(one, lines_of(&["x"]));
    let mut run = lines_of(&["x", "x", "x", "x"]);
    dedup_adjacent(&mut run);
    assert_eq!(run, lines_of(&["x"]));
    let mut distinct = lines_of(&["x", "y", "z"]);
    dedup_adjacent(&mut distinct);
    assert_eq!(distinct, lines_of(&["x", "y", "z"]));
    let mut runs = lines_of(&["", "", "a", "a ", "a ", "a", "b", "b"]);
    dedup_adjacent(&mut runs);
    assert_eq!(runs, lines_of(&["", "a", "a ", "a", "b"]));
}

#[test]
fn dedup_agrees_with_vec_dedup() {
    let samples: [&[&str]; 5] = [
        &["1", "1", "2", "2", "2", "3", "1", "1"],
        &["a"],
        &[],
        &["q", "q"],
        &["q", "r", "q", "r", "r", "q"],
    ];
    for sample in samples {
        let mut ours = lines_of(sample);
        let mut theirs = lines_of(sample);
        dedup_adjacent(&mut ours);
        theirs.dedup();
        assert_eq!(ours, theirs);
    }
}

#[test]
fn reverse_turns_the_sequence_round() {
    let mut lines = lines_of(&["a", "b", "c"]);
    reverse_lines(&mut lines);
    assert_eq!(lines, lines_of(&["c", "b", "a"]));
    let mut none: Vec<String> = Vec::new();
    reverse_lines(&mut none);
    assert!(none.is_empty());
    let mut one = lines_of(&["x"]);
    reverse_lines(&mut one);
    assert_eq!(one, lines_of(&["x"]));
}

#[test]
fn finish_dedups_before_it_reverses() {
    let mut lines = lines_of(&["a", "a", "b", "c", "c"]);
    finish_lines(&mut lines, true, true);
    assert_eq!(lines, lines_of(&["c", "b", "a"]));
    let mut lines = lines_of(&["a", "a", "b"]);
    finish_lines(&mut lines, true, false);
    assert_eq!(lines, lines_of(&["a", "b"]));
    let mut lines = lines_of(&["a", "a", "b"]);
    finish_lines(&mut lines, false, true);
    assert_eq!(lines, lines_of(&["b", "a", "a"]));
    let mut lines = lines_of(&["a", "a", "b"]);
    finish_lines(&mut lines, false, false);
    assert_eq!(lines, lines_of(&["a", "a", "b"]));
}

#[test]
fn join_puts_line_feeds_between_lines() {
    assert_eq!(join_lines(&lines_of(&["a", "b", "c"])), "a\nb\nc");
    assert_eq!(join_lines(&lines_of(&["only"])), "only");
    assert_eq!(join_lines(&lines_of(&[])), "");
    assert_eq!(join_lines(&lines_of(&["", ""])), "\n");
    assert_eq!(join_lines(&lines_of(&["", "x", ""])), "\nx\n");
}

#[test]
fn join_agrees_with_slice_join() {
    let lines = lines_of(&["one", "", "tw o", "\u{e9}", ""]);
    assert_eq!(join_lines(&lines), lines.join("\n"));
}

#[test]
fn output_name_has_the_prefix() {
    assert_eq!(output_name("data.txt"), "sorted_data.txt");
    assert_eq!(output_name(""), "sorted_");
    assert_eq!(output_name("dir/x"), "sorted_dir/x");
}

#[test]
fn verdict_sentences() {
    assert_eq!(verdict(true), "Lines are sorted.");
    assert_eq!(verdict(false), "Lines are not sorted.");
}

#[test]
fn trim_strips_the_end_only() {
    assert_eq!(trim_line_end("  a b  \t"), "  a b");
    assert_eq!(trim_line_end("a"), "a");
    assert_eq!(trim_line_end(""), "");
    assert_eq!(trim_line_end(" \t\u{3000}"), "");
    assert_eq!(trim_line_end("x\u{a0}\u{2003}"), "x");
    assert_eq!(trim_line_end("x\u{200b}"), "x\u{200b}");
}

#[test]
fn trim_agrees_with_trim_end() {
    for line in ["", " ", "a ", " a", "a\r", "a \u{85}", "\u{e9}\u{2028}\u{2029}", "a  b   "] {
        assert_eq!(trim_line_end(line), line.trim_end());
    }
}

#[test]
fn strip_trims_every_line() {
    let mut lines = lines_of(&["a  ", " b", "", "\t"]);
    strip_trailing_whitespace(&mut lines);
    assert_eq!(lines, lines_of(&["a", " b", "", ""]));
}

#[test]
fn modes_from_switches() {
    assert_eq!(select_mode(false, false, false), SortMode::Lexicographic);
    assert_eq!(select_mode(true, false, false), SortMode::Numeric);
    assert_eq!(select_mode(false, true, false), SortMode::MonthName);
    assert_eq!(select_mode(false, false, true), SortMode::SuffixScaled);
    assert_eq!(select_mode(true, true, true), SortMode::Numeric);
    assert_eq!(select_mode(false, true, true), SortMode::MonthName);
}

#[test]
fn requests_for_each_mode() {
    let lines = lines_of(&["a 10K", "b 7", "c"]);
    assert!(read_requests(&lines, SortMode::Lexicographic, Some(2)).is_empty());
    assert!(read_requests(&lines, SortMode::MonthName, Some(2)).is_empty());
    let plain = read_requests(&lines, SortMode::Numeric, Some(2));
    let texts: Vec<&str> = plain.iter().map(|r| r.text.as_str()).collect();
    let scales: Vec<u32> = plain.iter().map(|r| r.scale).collect();
    assert_eq!(texts, ["10K", "7", "c"]);
    assert_eq!(scales, [1, 1, 1]);
    let scaled = read_requests(&lines, SortMode::SuffixScaled, Some(2));
    let texts: Vec<&str> = scaled.iter().map(|r| r.text.as_str()).collect();
    let scales: Vec<u32> = scaled.iter().map(|r| r.scale).collect();
    assert_eq!(texts, ["10", "7", "c"]);
    assert_eq!(scales, [1000, 1, 1]);
}

#[test]
fn sort_then_finish() {
    let mut lines = lines_of(&["pear", "apple", "pear", "fig"]);
    let mut readings: Vec<Option<u64>> = Vec::new();
    sort_lines(&mut lines, SortMode::Lexicographic, None, &mut readings);
    finish_lines(&mut lines, true, true);
    assert_eq!(join_lines(&lines), "pear\nfig\napple");
}

#[test]
fn text_and_month_modes_leave_the_readings() {
    let mut lines = lines_of(&["Feb", "Jan"]);
    let mut readings = vec![Some(1u64), None, Some(3u64)];
    sort_lines(&mut lines, SortMode::MonthName, None, &mut readings);
    assert_eq!(lines, lines_of(&["Jan", "Feb"]));
    assert_eq!(readings, vec![Some(1u64), None, Some(3u64)]);
    assert!(check_sorted(&lines, SortMode::MonthName, None, &readings, false));
    assert!(!check_sorted(&lines, SortMode::Lexicographic, None, &readings, false));
}
