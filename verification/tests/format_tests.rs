use bargo::commands::BuildCommand;
use bargo::config::{Config, Package};
use bargo::format::{format_doc, number_lines, NumberedLine};
use bargo::labels::resolve_labels;

fn strings(lines: &[&str]) -> Vec<String> {
    lines.iter().map(|s| String::from(*s)).collect()
}

fn config(numbering: usize, width: usize, labels: bool) -> Config {
    let mut package = Package::default();
    package.numbering = numbering;
    package.width = width;
    package.labels = labels;
    Config {
        package,
        dependencies: Some(Vec::new()),
    }
}

#[test]
fn numbers_labels_and_jumps() {
    let build = BuildCommand::new(config(10, 80, true));
    let lines = strings(&["PRINT 1", "LABEL skip", "PRINT 2", "GOTO skip"]);
    let out = build.format_lines(&lines);
    assert_eq!(
        out,
        strings(&["10 PRINT 1", "20 :", "30 PRINT 2", "40 GOTO 30"])
    );
}

#[test]
fn output_line_count_matches_input() {
    let build = BuildCommand::new(config(10, 80, true));
    let lines = strings(&["A", "B", "LABEL x", "REM ====", "C"]);
    let out = build.format_lines(&lines);
    assert_eq!(out.len(), lines.len());
}

#[test]
fn numbers_climb_by_the_step() {
    let out = format_doc(&strings(&["A", "B", "C"]), 7, 80, true);
    assert_eq!(out, strings(&[" 7 A", "14 B", "21 C"]));
}

#[test]
fn padding_is_sized_for_the_largest_number() {
    // 12 lines at step 10: the largest number is 120, three columns.
    let lines: Vec<String> = (0..12).map(|i| format!("PRINT {}", i)).collect();
    let out = format_doc(&lines, 10, 80, true);
    assert_eq!(out[0], " 10 PRINT 0");
    assert_eq!(out[9], "100 PRINT 9");
    assert_eq!(out[11], "120 PRINT 11");
}

#[test]
fn banner_separator_is_truncated_to_the_display_width() {
    let sep = format!("REM {}", "=".repeat(76));
    let lines = strings(&["PRINT 1", &sep, "PRINT 2"]);
    let out = format_doc(&lines, 10, 80, true);
    // padding is 2 (largest number 30), so at most 80 - (2 + 3) = 75
    // characters of the separator survive.
    assert_eq!(out[1].len(), 2 + 1 + 75);
    assert!(out[1].len() <= 80);
    assert_eq!(out[1], format!("20 REM {}", "=".repeat(71)));
}

#[test]
fn short_banner_lines_are_kept_whole() {
    let out = format_doc(&strings(&["REM ==", "PRINT 1"]), 10, 80, true);
    assert_eq!(out[0], "10 REM ==");
}

#[test]
fn gosub_references_are_rewritten_too() {
    let lines = strings(&["GOSUB end", "PRINT 1", "LABEL end", "END"]);
    let out = format_doc(&lines, 10, 80, true);
    assert_eq!(out, strings(&["10 GOSUB 40", "20 PRINT 1", "30 :", "40 END"]));
}

#[test]
fn unknown_labels_are_left_alone() {
    let lines = strings(&["GOTO nowhere", "LABEL here", "END"]);
    let out = format_doc(&lines, 10, 80, true);
    assert_eq!(out[0], "10 GOTO nowhere");
}

#[test]
fn label_declarations_become_noops_even_with_labels_disabled() {
    let lines = strings(&["LABEL x", "GOTO x"]);
    let out = format_doc(&lines, 10, 80, false);
    assert_eq!(out, strings(&["10 :", "20 GOTO x"]));
}

#[test]
fn classification_is_case_insensitive() {
    let lines = strings(&["label spot", "goto is not rewritten", "GOTO spot", "rem =="]);
    let out = format_doc(&lines, 10, 80, true);
    assert_eq!(out[0], "10 :");
    assert_eq!(out[1], "20 goto is not rewritten");
    assert_eq!(out[2], "30 GOTO 20");
    assert_eq!(out[3], "40 rem ==");
}

#[test]
fn substitution_matches_the_label_verbatim() {
    // The name is matched case-sensitively: only the exact keyword
    // plus name is replaced, wherever it stands in the line.
    let lines = strings(&["LABEL x", "IF A THEN GOTO x ELSE GOTO X"]);
    let out = format_doc(&lines, 10, 80, true);
    assert_eq!(out[1], "20 IF A THEN GOTO 20 ELSE GOTO X");
}

#[test]
fn duplicate_label_declarations_let_the_last_win() {
    let lines = strings(&["LABEL x", "PRINT 1", "LABEL x", "GOTO x"]);
    let out = format_doc(&lines, 10, 80, true);
    // The second declaration, at position 2, resolves x to (2+2)*10.
    assert_eq!(out[3], "40 GOTO 40");
}

#[test]
fn resolve_labels_records_the_following_line_number() {
    let lines = strings(&["PRINT 1", "LABEL a", "PRINT 2", "LABEL b", "END"]);
    let table = resolve_labels(&lines, 10);
    assert_eq!(table.entries.len(), 2);
    assert_eq!(table.entries[0].name, "a");
    assert_eq!(table.entries[0].target, 30);
    assert_eq!(table.entries[1].name, "b");
    assert_eq!(table.entries[1].target, 50);
}

#[test]
fn resolve_labels_keeps_the_name_verbatim() {
    let lines = strings(&["LABEL  padded"]);
    let table = resolve_labels(&lines, 10);
    // Everything after the keyword and one space is the name.
    assert_eq!(table.entries[0].name, " padded");
}

#[test]
fn rendering_right_justifies_the_number() {
    let line = NumberedLine {
        number: 7,
        text: String::from("PRINT"),
    };
    assert_eq!(line.render(3), "  7 PRINT");
    // A number wider than the column is not cut.
    let wide = NumberedLine {
        number: 12345,
        text: String::from("X"),
    };
    assert_eq!(wide.render(3), "12345 X");
}

#[test]
fn the_output_stream_ends_every_line_with_the_terminator() {
    let lines = strings(&["10 PRINT 1", "20 :"]);
    let crlf = bargo::writer::render_output(&lines, &String::from("\r\n"));
    assert_eq!(crlf, "10 PRINT 1\r\n20 :\r\n");
    let lf = bargo::writer::render_output(&lines, &String::from("\n"));
    assert_eq!(lf, "10 PRINT 1\n20 :\n");
}

#[test]
fn empty_documents_produce_empty_output() {
    let out = format_doc(&strings(&[]), 10, 80, true);
    assert!(out.is_empty());
}
